//! One pass through the loop, block after block: every note gets its note-on
//! and its note-off, once, in that order.

use crate::active_notes::PITCH_COUNT;
use crate::program::{ProgramNote, ProgramView};
use crate::scheduler::{
    block_result, flush_events, is_first_frame, is_wrapped, note_starts, note_stops, run_notes,
    should_end, should_trigger, step_note, BlockResult, NoteEvent,
};
use crate::time::{wrap_beat, TRIGGER_SLACK};
use vstd::prelude::*;

verus! {

/// The pitch an event is about.
pub open spec fn event_pitch(event: NoteEvent) -> u8 {
    match event {
        NoteEvent::NoteOn { pitch, .. } => pitch,
        NoteEvent::NoteOff { pitch } => pitch,
    }
}

/// The events about `pitch` among `events`, in their order.
pub open spec fn events_of_pitch(events: Seq<NoteEvent>, pitch: u8) -> Seq<NoteEvent>
    decreases events.len(),
{
    if events.len() == 0 {
        Seq::<NoteEvent>::empty()
    } else {
        let head = events_of_pitch(events.drop_last(), pitch);
        if event_pitch(events.last()) == pitch {
            head.push(events.last())
        } else {
            head
        }
    }
}

/// The note-on of `note`.
pub open spec fn note_on(note: ProgramNote) -> NoteEvent {
    NoteEvent::NoteOn { pitch: note.pitch, velocity: note.velocity }
}

/// The note-on of every note of `pitch` among the first `upto` slots that
/// starts no later than `reach`, each followed by its note-off, in slot order.
pub open spec fn note_pairs(notes: Seq<ProgramNote>, pitch: u8, upto: int, reach: int) -> Seq<
    NoteEvent,
>
    decreases upto,
{
    if upto <= 0 {
        Seq::<NoteEvent>::empty()
    } else {
        let head = note_pairs(notes, pitch, upto - 1, reach);
        let note = notes[upto - 1];
        if note.pitch == pitch && note.start_beat <= reach {
            head + seq![note_on(note), NoteEvent::NoteOff { pitch }]
        } else {
            head
        }
    }
}

/// Whether notes of one pitch follow one another without overlap, both in
/// time and in slot order: a note ends no later than any same-pitch note in a
/// later slot starts.
pub open spec fn in_time_order(notes: Seq<ProgramNote>) -> bool {
    forall|i: int, j: int|
        #![trigger notes[i], notes[j]]
        0 <= i < j < notes.len() && notes[i].pitch == notes[j].pitch ==> notes[i].end_spec()
            <= notes[j].start_beat
}

/// Whether no position comes to lie just short of a note's start, within the
/// trigger slack before it.
pub open spec fn clear_of_slack(notes: Seq<ProgramNote>, positions: Seq<i64>) -> bool {
    forall|k: int, i: int|
        #![trigger positions[k], notes[i]]
        0 <= k < positions.len() && 0 <= i < notes.len() ==> !(positions[k] < notes[i].start_beat
            <= positions[k] + TRIGGER_SLACK)
}

/// Whether the positions move forward through one loop of `length` ticks.
pub open spec fn moves_forward(positions: Seq<i64>, length: int) -> bool {
    &&& forall|k: int| 0 <= k < positions.len() ==> 0 <= #[trigger] positions[k] < length
    &&& forall|k: int, m: int|
        #![trigger positions[k], positions[m]]
        0 <= k < m < positions.len() ==> positions[k] < positions[m]
}

/// Whether a pass may begin with this cursor: playback has just started, or
/// the position has wrapped back from a point that lies behind the end of
/// every note.
pub open spec fn begins_pass(notes: Seq<ProgramNote>, cursor: int, first: int) -> bool {
    ||| is_first_frame(cursor)
    ||| (is_wrapped(cursor, first) && forall|i: int|
        0 <= i < notes.len() ==> (#[trigger] notes[i]).end_spec() <= cursor)
}

/// A run of playing blocks at `positions`, one after the other.
pub open spec fn run_blocks(
    program: ProgramView,
    sounding: Map<u8, i64>,
    cursor: i64,
    positions: Seq<i64>,
) -> BlockResult
    decreases positions.len(),
{
    if positions.len() == 0 {
        BlockResult { sounding, cursor, events: Seq::empty() }
    } else {
        let before = run_blocks(program, sounding, cursor, positions.drop_last());
        let last = block_result(
            program,
            before.sounding,
            before.cursor,
            true,
            Some(positions.last()),
        );
        BlockResult {
            sounding: last.sounding,
            cursor: last.cursor,
            events: before.events + last.events,
        }
    }
}

proof fn lemma_events_of_pitch_add(first: Seq<NoteEvent>, second: Seq<NoteEvent>, pitch: u8)
    ensures
        events_of_pitch(first + second, pitch) == events_of_pitch(first, pitch) + events_of_pitch(
            second,
            pitch,
        ),
    decreases second.len(),
{
    if second.len() == 0 {
        assert(first + second =~= first);
        assert(events_of_pitch(first, pitch) + events_of_pitch(second, pitch) =~= events_of_pitch(
            first,
            pitch,
        ));
    } else {
        lemma_events_of_pitch_add(first, second.drop_last(), pitch);
        assert((first + second).drop_last() =~= first + second.drop_last());
        assert((first + second).last() == second.last());
        assert(events_of_pitch(first + second, pitch) =~= events_of_pitch(first, pitch)
            + events_of_pitch(second, pitch));
    }
}

/// The note-off of `pitch` if `present`, else nothing.
spec fn off_if(present: bool, pitch: u8) -> Seq<NoteEvent> {
    if present {
        seq![NoteEvent::NoteOff { pitch }]
    } else {
        Seq::<NoteEvent>::empty()
    }
}

proof fn lemma_flush_of_pitch(sounding: Map<u8, i64>, upto: int, pitch: u8)
    requires
        0 <= upto <= PITCH_COUNT,
    ensures
        events_of_pitch(flush_events(sounding, upto), pitch) == off_if(
            pitch < upto && sounding.dom().contains(pitch),
            pitch,
        ),
    decreases upto,
{
    if upto > 0 {
        lemma_flush_of_pitch(sounding, upto - 1, pitch);
        let below = flush_events(sounding, upto - 1);
        let all = flush_events(sounding, upto);
        let top = (upto - 1) as u8;
        if sounding.dom().contains(top) {
            assert(all.drop_last() =~= below);
            assert(all.last() == NoteEvent::NoteOff { pitch: top });
            if top == pitch {
                assert(events_of_pitch(all, pitch) =~= off_if(true, pitch));
            }
        }
    }
}


/// Whether every slot holds a playable note.
spec fn all_playable(notes: Seq<ProgramNote>) -> bool {
    forall|i: int| 0 <= i < notes.len() ==> (#[trigger] notes[i]).playable()
}

/// Whether `note` is of `pitch` and sounds at position `at`.
spec fn spans(note: ProgramNote, pitch: u8, at: int) -> bool {
    note.pitch == pitch && note.start_beat <= at < note.end_spec()
}

/// Whether one of the first `upto` slots is of `pitch` and sounds at `at`.
spec fn some_spans(notes: Seq<ProgramNote>, pitch: u8, upto: int, at: int) -> bool {
    exists|i: int| 0 <= i < upto && spans(#[trigger] notes[i], pitch, at)
}

/// Whether one of the first `upto` slots is of `pitch`, sounds at `from` and
/// is over by `to`.
spec fn some_ends(notes: Seq<ProgramNote>, pitch: u8, upto: int, from: int, to: int) -> bool {
    exists|i: int|
        0 <= i < upto && spans(#[trigger] notes[i], pitch, from) && notes[i].end_spec() <= to
}

/// Whether one of the first `upto` slots is of `pitch`.
spec fn pitch_before(notes: Seq<ProgramNote>, pitch: u8, upto: int) -> bool {
    exists|i: int| 0 <= i < upto && (#[trigger] notes[i]).pitch == pitch
}

/// The events of `pitch` that are due by the time the position is `at`: the
/// note-on of every note that has started, followed by its note-off if it is
/// over.
spec fn started_events(notes: Seq<ProgramNote>, pitch: u8, upto: int, at: int) -> Seq<NoteEvent>
    decreases upto,
{
    if upto <= 0 {
        Seq::<NoteEvent>::empty()
    } else {
        let head = started_events(notes, pitch, upto - 1, at);
        let note = notes[upto - 1];
        if note.pitch == pitch && note.start_beat <= at {
            head + seq![note_on(note)] + off_if(note.end_spec() <= at, pitch)
        } else {
            head
        }
    }
}

/// The events of the notes of `pitch` that start behind `from` and no later
/// than `to`.
spec fn new_pairs(notes: Seq<ProgramNote>, pitch: u8, upto: int, from: int, to: int) -> Seq<
    NoteEvent,
>
    decreases upto,
{
    if upto <= 0 {
        Seq::<NoteEvent>::empty()
    } else {
        let head = new_pairs(notes, pitch, upto - 1, from, to);
        let note = notes[upto - 1];
        if note.pitch == pitch && from < note.start_beat <= to {
            head + seq![note_on(note)] + off_if(note.end_spec() <= to, pitch)
        } else {
            head
        }
    }
}

proof fn lemma_no_new_pairs(notes: Seq<ProgramNote>, pitch: u8, upto: int, from: int, to: int)
    requires
        0 <= upto <= notes.len(),
        forall|i: int|
            0 <= i < upto && (#[trigger] notes[i]).pitch == pitch ==> !(from < notes[i].start_beat
                <= to),
    ensures
        new_pairs(notes, pitch, upto, from, to) == Seq::<NoteEvent>::empty(),
    decreases upto,
{
    if upto > 0 {
        lemma_no_new_pairs(notes, pitch, upto - 1, from, to);
        assert(notes[upto - 1].pitch == pitch ==> !(from < notes[upto - 1].start_beat <= to));
    }
}

/// From one position to a later one, the events due grow by the note-off of
/// the note that was sounding, if it is over by now, and then by the events
/// of the notes that start in between.
proof fn lemma_advance(notes: Seq<ProgramNote>, pitch: u8, upto: int, from: int, to: int)
    requires
        all_playable(notes),
        in_time_order(notes),
        0 <= upto <= notes.len(),
        from < to,
    ensures
        started_events(notes, pitch, upto, to) == started_events(notes, pitch, upto, from) + off_if(
            some_ends(notes, pitch, upto, from, to),
            pitch,
        ) + new_pairs(notes, pitch, upto, from, to),
    decreases upto,
{
    let grown = started_events(notes, pitch, upto, from) + off_if(
        some_ends(notes, pitch, upto, from, to),
        pitch,
    ) + new_pairs(notes, pitch, upto, from, to);
    if upto <= 0 {
        assert(!some_ends(notes, pitch, upto, from, to));
        assert(started_events(notes, pitch, upto, to) =~= grown);
    } else {
        let u = upto - 1;
        let note = notes[u];
        lemma_advance(notes, pitch, u, from, to);
        assert(note.playable());
        if note.pitch == pitch && note.start_beat <= from {
            assert forall|i: int| 0 <= i < u && (#[trigger] notes[i]).pitch == pitch implies !(from
                < notes[i].start_beat <= to) by {
                assert(notes[i].end_spec() <= notes[u].start_beat);
                assert(notes[i].playable());
            }
            lemma_no_new_pairs(notes, pitch, u, from, to);
            assert(!some_ends(notes, pitch, u, from, to)) by {
                if some_ends(notes, pitch, u, from, to) {
                    let i = choose|i: int|
                        0 <= i < u && spans(#[trigger] notes[i], pitch, from)
                            && notes[i].end_spec() <= to;
                    assert(notes[i].end_spec() <= notes[u].start_beat);
                }
            }
            assert(some_ends(notes, pitch, upto, from, to) <==> from < note.end_spec() <= to) by {
                if some_ends(notes, pitch, upto, from, to) {
                    let i = choose|i: int|
                        0 <= i < upto && spans(#[trigger] notes[i], pitch, from)
                            && notes[i].end_spec() <= to;
                    if i < u {
                        assert(notes[i].end_spec() <= notes[u].start_beat);
                    }
                }
                if from < note.end_spec() <= to {
                    assert(spans(notes[u], pitch, from));
                }
            }
            assert(started_events(notes, pitch, upto, to) =~= grown);
        } else if note.pitch == pitch && note.start_beat <= to {
            assert(some_ends(notes, pitch, upto, from, to) <==> some_ends(
                notes,
                pitch,
                u,
                from,
                to,
            )) by {
                if some_ends(notes, pitch, upto, from, to) {
                    let i = choose|i: int|
                        0 <= i < upto && spans(#[trigger] notes[i], pitch, from)
                            && notes[i].end_spec() <= to;
                    assert(i < u);
                }
                if some_ends(notes, pitch, u, from, to) {
                    let i = choose|i: int|
                        0 <= i < u && spans(#[trigger] notes[i], pitch, from)
                            && notes[i].end_spec() <= to;
                    assert(i < upto);
                }
            }
            assert(started_events(notes, pitch, upto, to) =~= grown);
        } else {
            assert(some_ends(notes, pitch, upto, from, to) <==> some_ends(
                notes,
                pitch,
                u,
                from,
                to,
            )) by {
                if some_ends(notes, pitch, upto, from, to) {
                    let i = choose|i: int|
                        0 <= i < upto && spans(#[trigger] notes[i], pitch, from)
                            && notes[i].end_spec() <= to;
                    assert(i < u);
                }
                if some_ends(notes, pitch, u, from, to) {
                    let i = choose|i: int|
                        0 <= i < u && spans(#[trigger] notes[i], pitch, from)
                            && notes[i].end_spec() <= to;
                    assert(i < upto);
                }
            }
            assert(started_events(notes, pitch, upto, to) =~= grown);
        }
    }
}

/// Once the note that still sounds is switched off, the events due are the
/// complete pairs of the notes that have started.
proof fn lemma_close(notes: Seq<ProgramNote>, pitch: u8, upto: int, at: int)
    requires
        all_playable(notes),
        in_time_order(notes),
        0 <= upto <= notes.len(),
    ensures
        started_events(notes, pitch, upto, at) + off_if(some_spans(notes, pitch, upto, at), pitch)
            == note_pairs(notes, pitch, upto, at),
    decreases upto,
{
    let closed = started_events(notes, pitch, upto, at) + off_if(
        some_spans(notes, pitch, upto, at),
        pitch,
    );
    if upto <= 0 {
        assert(!some_spans(notes, pitch, upto, at));
        assert(closed =~= note_pairs(notes, pitch, upto, at));
    } else {
        let u = upto - 1;
        let note = notes[u];
        lemma_close(notes, pitch, u, at);
        assert(note.playable());
        if note.pitch == pitch && note.start_beat <= at {
            assert(!some_spans(notes, pitch, u, at)) by {
                if some_spans(notes, pitch, u, at) {
                    let i = choose|i: int| 0 <= i < u && spans(#[trigger] notes[i], pitch, at);
                    assert(notes[i].end_spec() <= notes[u].start_beat);
                }
            }
            assert(some_spans(notes, pitch, upto, at) <==> note.end_spec() > at) by {
                if some_spans(notes, pitch, upto, at) {
                    let i = choose|i: int| 0 <= i < upto && spans(#[trigger] notes[i], pitch, at);
                    if i < u {
                        assert(notes[i].end_spec() <= notes[u].start_beat);
                    }
                }
                if note.end_spec() > at {
                    assert(spans(notes[u], pitch, at));
                }
            }
            assert(closed =~= note_pairs(notes, pitch, upto, at));
        } else {
            assert(some_spans(notes, pitch, upto, at) <==> some_spans(notes, pitch, u, at)) by {
                if some_spans(notes, pitch, upto, at) {
                    let i = choose|i: int| 0 <= i < upto && spans(#[trigger] notes[i], pitch, at);
                    assert(i < u);
                }
                if some_spans(notes, pitch, u, at) {
                    let i = choose|i: int| 0 <= i < u && spans(#[trigger] notes[i], pitch, at);
                    assert(i < upto);
                }
            }
            assert(closed =~= note_pairs(notes, pitch, upto, at));
        }
    }
}


/// Whether, in a block that takes the position from `from` to `to`, a note is
/// due exactly when it starts in between, and a sounding note is over exactly
/// when it ends in between.
spec fn acts_like(notes: Seq<ProgramNote>, cursor: int, from: int, to: int) -> bool {
    forall|i: int|
        0 <= i < notes.len() ==> {
            &&& (should_trigger((#[trigger] notes[i]).start_beat as int, cursor, to) <==> from
                < notes[i].start_beat <= to)
            &&& (should_end(notes[i].end_spec(), cursor, to) <==> from < notes[i].end_spec() <= to)
        }
}

/// Whether the tracker agrees with the notes about `pitch` at position `at`:
/// the pitch sounds exactly if one of its notes spans the position, and the
/// tracked end is that note's end.
spec fn synced(notes: Seq<ProgramNote>, pitch: u8, sounding: Map<u8, i64>, at: int) -> bool {
    &&& sounding.dom().contains(pitch) <==> some_spans(notes, pitch, notes.len() as int, at)
    &&& forall|i: int|
        0 <= i < notes.len() && spans(#[trigger] notes[i], pitch, at) ==> sounding[pitch]
            == notes[i].end_spec()
}

/// Whether slot `i` holds the note of `pitch` that sounds once `turns` slots
/// have had their turn in a block from `from` to `to`.
spec fn holds_on(
    notes: Seq<ProgramNote>,
    pitch: u8,
    i: int,
    turns: int,
    from: int,
    to: int,
) -> bool {
    spans(notes[i], pitch, to) && (notes[i].start_beat <= from || i < turns)
}

spec fn some_holds(notes: Seq<ProgramNote>, pitch: u8, turns: int, from: int, to: int) -> bool {
    exists|i: int| 0 <= i < notes.len() && #[trigger] holds_on(notes, pitch, i, turns, from, to)
}

/// What holds of `pitch` once `turns` slots have had their turn in a block
/// from `from` to `to` that started the turns with `start`.
spec fn mid_block(
    notes: Seq<ProgramNote>,
    pitch: u8,
    turns: int,
    start: Map<u8, i64>,
    now: (Map<u8, i64>, Seq<NoteEvent>),
    from: int,
    to: int,
) -> bool {
    if !pitch_before(notes, pitch, turns) {
        &&& now.0.dom().contains(pitch) == start.dom().contains(pitch)
        &&& now.0.dom().contains(pitch) ==> now.0[pitch] == start[pitch]
        &&& events_of_pitch(now.1, pitch) == Seq::<NoteEvent>::empty()
    } else {
        &&& now.0.dom().contains(pitch) <==> some_holds(notes, pitch, turns, from, to)
        &&& forall|i: int|
            0 <= i < notes.len() && #[trigger] holds_on(notes, pitch, i, turns, from, to)
                ==> now.0[pitch] == notes[i].end_spec()
        &&& events_of_pitch(now.1, pitch) == off_if(
            some_ends(notes, pitch, notes.len() as int, from, to),
            pitch,
        ) + new_pairs(notes, pitch, turns, from, to)
    }
}

proof fn lemma_single_event(event: NoteEvent, pitch: u8)
    ensures
        events_of_pitch(seq![event], pitch) == if event_pitch(event) == pitch {
            seq![event]
        } else {
            Seq::<NoteEvent>::empty()
        },
{
    let one = seq![event];
    assert(one.drop_last() =~= Seq::<NoteEvent>::empty());
    assert(one.last() == event);
    assert(events_of_pitch(one.drop_last(), pitch) =~= Seq::<NoteEvent>::empty());
    if event_pitch(event) == pitch {
        assert(Seq::<NoteEvent>::empty().push(event) =~= one);
    }
}

/// The events of one turn are all about the pitch of its note.
proof fn lemma_turn_of_pitch(
    sounding: Map<u8, i64>,
    note: ProgramNote,
    cursor: int,
    beat: int,
    pitch: u8,
)
    ensures
        events_of_pitch(step_note(sounding, note, cursor, beat).1, pitch) == if note.pitch
            == pitch {
            step_note(sounding, note, cursor, beat).1
        } else {
            Seq::<NoteEvent>::empty()
        },
{
    let starts = note_starts(sounding, note, cursor, beat);
    let started = crate::scheduler::after_start(sounding, note, cursor, beat);
    let stops = note_stops(started, note, cursor, beat);
    let on = if starts {
        seq![note_on(note)]
    } else {
        Seq::<NoteEvent>::empty()
    };
    let off = off_if(stops, note.pitch);
    assert(step_note(sounding, note, cursor, beat).1 == on + off);
    lemma_events_of_pitch_add(on, off, pitch);
    lemma_single_event(note_on(note), pitch);
    lemma_single_event(NoteEvent::NoteOff { pitch: note.pitch }, pitch);
    assert(events_of_pitch(Seq::<NoteEvent>::empty(), pitch) =~= Seq::<NoteEvent>::empty());
    if note.pitch == pitch {
        assert(events_of_pitch(on, pitch) == on);
        assert(events_of_pitch(off, pitch) == off);
    } else {
        assert(events_of_pitch(on, pitch) =~= Seq::<NoteEvent>::empty());
        assert(events_of_pitch(off, pitch) =~= Seq::<NoteEvent>::empty());
        assert(events_of_pitch(on, pitch) + events_of_pitch(off, pitch) =~= Seq::<
            NoteEvent,
        >::empty());
    }
}

proof fn lemma_no_pairs_without_pitch(
    notes: Seq<ProgramNote>,
    pitch: u8,
    upto: int,
    from: int,
    to: int,
)
    requires
        0 <= upto <= notes.len(),
        !pitch_before(notes, pitch, upto),
    ensures
        new_pairs(notes, pitch, upto, from, to) == Seq::<NoteEvent>::empty(),
{
    assert forall|i: int| 0 <= i < upto && (#[trigger] notes[i]).pitch == pitch implies !(from
        < notes[i].start_beat <= to) by {
        assert(pitch_before(notes, pitch, upto));
    }
    lemma_no_new_pairs(notes, pitch, upto, from, to);
}

/// The turn of a slot that holds another pitch changes nothing about `pitch`.
proof fn lemma_step_other_pitch(
    notes: Seq<ProgramNote>,
    start: Map<u8, i64>,
    before: (Map<u8, i64>, Seq<NoteEvent>),
    pitch: u8,
    slot: int,
    cursor: int,
    from: int,
    to: int,
)
    requires
        0 <= slot < notes.len(),
        notes[slot].pitch != pitch,
        mid_block(notes, pitch, slot, start, before, from, to),
    ensures
        mid_block(
            notes,
            pitch,
            slot + 1,
            start,
            (
                step_note(before.0, notes[slot], cursor, to).0,
                before.1 + step_note(before.0, notes[slot], cursor, to).1,
            ),
            from,
            to,
        ),
{
    let note = notes[slot];
    let turn = step_note(before.0, note, cursor, to);
    let after = (turn.0, before.1 + turn.1);
    lemma_turn_of_pitch(before.0, note, cursor, to, pitch);
    lemma_events_of_pitch_add(before.1, turn.1, pitch);
    assert(events_of_pitch(after.1, pitch) =~= events_of_pitch(before.1, pitch));
    assert(after.0.dom().contains(pitch) == before.0.dom().contains(pitch));
    assert(after.0.dom().contains(pitch) ==> after.0[pitch] == before.0[pitch]);
    assert(pitch_before(notes, pitch, slot + 1) <==> pitch_before(notes, pitch, slot)) by {
        if pitch_before(notes, pitch, slot + 1) {
            let i = choose|i: int| 0 <= i < slot + 1 && (#[trigger] notes[i]).pitch == pitch;
            assert(i < slot);
        }
        if pitch_before(notes, pitch, slot) {
            let i = choose|i: int| 0 <= i < slot && (#[trigger] notes[i]).pitch == pitch;
            assert(i < slot + 1);
        }
    }
    if pitch_before(notes, pitch, slot) {
        assert forall|i: int| 0 <= i < notes.len() implies (#[trigger] holds_on(
            notes,
            pitch,
            i,
            slot + 1,
            from,
            to,
        ) <==> holds_on(notes, pitch, i, slot, from, to)) by {}
        assert(some_holds(notes, pitch, slot + 1, from, to) <==> some_holds(
            notes,
            pitch,
            slot,
            from,
            to,
        )) by {
            if some_holds(notes, pitch, slot + 1, from, to) {
                let i = choose|i: int|
                    0 <= i < notes.len() && #[trigger] holds_on(notes, pitch, i, slot + 1, from, to);
                assert(holds_on(notes, pitch, i, slot, from, to));
            }
            if some_holds(notes, pitch, slot, from, to) {
                let i = choose|i: int|
                    0 <= i < notes.len() && #[trigger] holds_on(notes, pitch, i, slot, from, to);
                assert(holds_on(notes, pitch, i, slot + 1, from, to));
            }
        }
    }
}


/// The turn of a slot of `pitch` whose note started before the block: the
/// note is not due again, and at most the note that sounds is switched off.
proof fn lemma_step_old_note(
    notes: Seq<ProgramNote>,
    start: Map<u8, i64>,
    before: (Map<u8, i64>, Seq<NoteEvent>),
    pitch: u8,
    slot: int,
    cursor: int,
    from: int,
    to: int,
)
    requires
        all_playable(notes),
        in_time_order(notes),
        0 <= slot < notes.len(),
        notes[slot].pitch == pitch,
        notes[slot].start_beat <= from,
        from < to,
        acts_like(notes, cursor, from, to),
        synced(notes, pitch, start, from),
        mid_block(notes, pitch, slot, start, before, from, to),
    ensures
        mid_block(
            notes,
            pitch,
            slot + 1,
            start,
            (
                step_note(before.0, notes[slot], cursor, to).0,
                before.1 + step_note(before.0, notes[slot], cursor, to).1,
            ),
            from,
            to,
        ),
{
    let n = notes.len() as int;
    let note = notes[slot];
    let turn = step_note(before.0, note, cursor, to);
    let after = (turn.0, before.1 + turn.1);
    assert(note.playable());
    lemma_turn_of_pitch(before.0, note, cursor, to, pitch);
    lemma_events_of_pitch_add(before.1, turn.1, pitch);
    assert(pitch_before(notes, pitch, slot + 1));
    assert(!note_starts(before.0, note, cursor, to));
    assert(new_pairs(notes, pitch, slot + 1, from, to) == new_pairs(notes, pitch, slot, from, to));
    if !pitch_before(notes, pitch, slot) {
        lemma_no_pairs_without_pitch(notes, pitch, slot, from, to);
        assert forall|i: int|
            0 <= i < n && #[trigger] holds_on(notes, pitch, i, slot + 1, from, to) implies spans(
            notes[i],
            pitch,
            from,
        ) by {
            if notes[i].start_beat > from {
                assert(i < slot);
                assert(pitch_before(notes, pitch, slot));
            }
        }
        if before.0.dom().contains(pitch) {
            let held = choose|i: int| 0 <= i < n && spans(#[trigger] notes[i], pitch, from);
            assert(before.0[pitch] == notes[held].end_spec());
            assert(should_end(notes[held].end_spec(), cursor, to) <==> from
                < notes[held].end_spec() <= to);
            if notes[held].end_spec() <= to {
                assert(note_stops(before.0, note, cursor, to));
                assert(some_ends(notes, pitch, n, from, to));
                assert(!some_holds(notes, pitch, slot + 1, from, to)) by {
                    if some_holds(notes, pitch, slot + 1, from, to) {
                        let i = choose|i: int|
                            0 <= i < n && #[trigger] holds_on(notes, pitch, i, slot + 1, from, to);
                        assert(spans(notes[i], pitch, from));
                    }
                }
                assert(turn.1 =~= off_if(true, pitch));
                assert(events_of_pitch(after.1, pitch) =~= off_if(true, pitch) + new_pairs(
                    notes,
                    pitch,
                    slot + 1,
                    from,
                    to,
                ));
            } else {
                assert(!note_stops(before.0, note, cursor, to));
                assert(holds_on(notes, pitch, held, slot + 1, from, to));
                assert(!some_ends(notes, pitch, n, from, to)) by {
                    if some_ends(notes, pitch, n, from, to) {
                        let i = choose|i: int|
                            0 <= i < n && spans(#[trigger] notes[i], pitch, from)
                                && notes[i].end_spec() <= to;
                        assert(start[pitch] == notes[i].end_spec());
                    }
                }
                assert(turn.1 =~= Seq::<NoteEvent>::empty());
                assert(events_of_pitch(after.1, pitch) =~= off_if(false, pitch) + new_pairs(
                    notes,
                    pitch,
                    slot + 1,
                    from,
                    to,
                ));
            }
        } else {
            assert(!note_stops(before.0, note, cursor, to));
            assert(!some_holds(notes, pitch, slot + 1, from, to)) by {
                if some_holds(notes, pitch, slot + 1, from, to) {
                    let i = choose|i: int|
                        0 <= i < n && #[trigger] holds_on(notes, pitch, i, slot + 1, from, to);
                    assert(spans(notes[i], pitch, from));
                }
            }
            assert(!some_ends(notes, pitch, n, from, to)) by {
                if some_ends(notes, pitch, n, from, to) {
                    let i = choose|i: int|
                        0 <= i < n && spans(#[trigger] notes[i], pitch, from)
                            && notes[i].end_spec() <= to;
                    assert(some_spans(notes, pitch, n, from));
                }
            }
            assert(turn.1 =~= Seq::<NoteEvent>::empty());
            assert(events_of_pitch(after.1, pitch) =~= off_if(false, pitch) + new_pairs(
                notes,
                pitch,
                slot + 1,
                from,
                to,
            ));
        }
    } else {
        assert forall|i: int| 0 <= i < n implies (#[trigger] holds_on(
            notes,
            pitch,
            i,
            slot + 1,
            from,
            to,
        ) <==> holds_on(notes, pitch, i, slot, from, to)) by {}
        if before.0.dom().contains(pitch) {
            let held = choose|i: int|
                0 <= i < n && #[trigger] holds_on(notes, pitch, i, slot, from, to);
            assert(before.0[pitch] == notes[held].end_spec());
            assert(should_end(notes[held].end_spec(), cursor, to) <==> from
                < notes[held].end_spec() <= to);
            assert(!note_stops(before.0, note, cursor, to));
            assert(holds_on(notes, pitch, held, slot + 1, from, to));
        } else {
            assert(!note_stops(before.0, note, cursor, to));
            assert(!some_holds(notes, pitch, slot + 1, from, to)) by {
                if some_holds(notes, pitch, slot + 1, from, to) {
                    let i = choose|i: int|
                        0 <= i < n && #[trigger] holds_on(notes, pitch, i, slot + 1, from, to);
                    assert(holds_on(notes, pitch, i, slot, from, to));
                }
            }
        }
        assert(turn.1 =~= Seq::<NoteEvent>::empty());
        assert(events_of_pitch(after.1, pitch) =~= events_of_pitch(before.1, pitch));
    }
}


/// The turn of a slot of `pitch` whose note starts within the block: the
/// pitch is silent by then, so the note is switched on, and switched off again
/// at once if it is over within the block too.
proof fn lemma_step_new_note(
    notes: Seq<ProgramNote>,
    start: Map<u8, i64>,
    before: (Map<u8, i64>, Seq<NoteEvent>),
    pitch: u8,
    slot: int,
    cursor: int,
    from: int,
    to: int,
)
    requires
        all_playable(notes),
        in_time_order(notes),
        0 <= slot < notes.len(),
        notes[slot].pitch == pitch,
        from < notes[slot].start_beat <= to,
        acts_like(notes, cursor, from, to),
        synced(notes, pitch, start, from),
        mid_block(notes, pitch, slot, start, before, from, to),
    ensures
        mid_block(
            notes,
            pitch,
            slot + 1,
            start,
            (
                step_note(before.0, notes[slot], cursor, to).0,
                before.1 + step_note(before.0, notes[slot], cursor, to).1,
            ),
            from,
            to,
        ),
{
    let n = notes.len() as int;
    let note = notes[slot];
    let turn = step_note(before.0, note, cursor, to);
    let after = (turn.0, before.1 + turn.1);
    assert(note.playable());
    lemma_turn_of_pitch(before.0, note, cursor, to, pitch);
    lemma_events_of_pitch_add(before.1, turn.1, pitch);
    assert(pitch_before(notes, pitch, slot + 1));
    // No other note of the pitch spans the old position or the new one.
    assert forall|i: int| 0 <= i < n && i != slot && notes[i].pitch == pitch implies (i < slot
        ==> (#[trigger] notes[i]).end_spec() <= note.start_beat) && (i > slot ==> note.end_spec()
        <= notes[i].start_beat) by {
        if i < slot {
            assert(notes[i].end_spec() <= notes[slot].start_beat);
        } else {
            assert(notes[slot].end_spec() <= notes[i].start_beat);
        }
    }
    assert(!before.0.dom().contains(pitch)) by {
        if !pitch_before(notes, pitch, slot) {
            if some_spans(notes, pitch, n, from) {
                let i = choose|i: int| 0 <= i < n && spans(#[trigger] notes[i], pitch, from);
                if i < slot {
                    assert(pitch_before(notes, pitch, slot));
                }
            }
        } else {
            if some_holds(notes, pitch, slot, from, to) {
                let i = choose|i: int|
                    0 <= i < n && #[trigger] holds_on(notes, pitch, i, slot, from, to);
                assert(notes[i].playable());
            }
        }
    }
    assert(note_starts(before.0, note, cursor, to));
    let started = before.0.insert(pitch, note.end_spec() as i64);
    assert(crate::scheduler::after_start(before.0, note, cursor, to) == started);
    assert(started[pitch] == note.end_spec());
    assert(should_end(note.end_spec(), cursor, to) <==> from < note.end_spec() <= to);
    let over = note.end_spec() <= to;
    assert(note_stops(started, note, cursor, to) == over);
    assert(turn.1 =~= seq![note_on(note)] + off_if(over, pitch));
    assert(after.0.dom().contains(pitch) == !over);
    assert(some_holds(notes, pitch, slot + 1, from, to) == !over) by {
        if !over {
            assert(holds_on(notes, pitch, slot, slot + 1, from, to));
        }
        if some_holds(notes, pitch, slot + 1, from, to) {
            let i = choose|i: int|
                0 <= i < n && #[trigger] holds_on(notes, pitch, i, slot + 1, from, to);
            assert(notes[i].playable());
            assert(i == slot);
        }
    }
    assert forall|i: int|
        0 <= i < n && #[trigger] holds_on(notes, pitch, i, slot + 1, from, to) implies after.0[pitch]
        == notes[i].end_spec() by {
        assert(notes[i].playable());
        assert(i == slot);
    }
    assert(!some_ends(notes, pitch, n, from, to) || pitch_before(notes, pitch, slot)) by {
        if some_ends(notes, pitch, n, from, to) {
            let i = choose|i: int|
                0 <= i < n && spans(#[trigger] notes[i], pitch, from) && notes[i].end_spec() <= to;
            assert(i != slot);
            if i > slot {
                assert(false);
            }
            assert(notes[i].pitch == pitch);
        }
    }
    if !pitch_before(notes, pitch, slot) {
        lemma_no_pairs_without_pitch(notes, pitch, slot, from, to);
    }
    assert(events_of_pitch(after.1, pitch) =~= off_if(
        some_ends(notes, pitch, n, from, to),
        pitch,
    ) + new_pairs(notes, pitch, slot + 1, from, to));
}

/// The turn of a slot of `pitch` whose note starts behind the block: nothing
/// happens.
proof fn lemma_step_later_note(
    notes: Seq<ProgramNote>,
    start: Map<u8, i64>,
    before: (Map<u8, i64>, Seq<NoteEvent>),
    pitch: u8,
    slot: int,
    cursor: int,
    from: int,
    to: int,
)
    requires
        all_playable(notes),
        in_time_order(notes),
        0 <= slot < notes.len(),
        notes[slot].pitch == pitch,
        to < notes[slot].start_beat,
        from < to,
        acts_like(notes, cursor, from, to),
        synced(notes, pitch, start, from),
        mid_block(notes, pitch, slot, start, before, from, to),
    ensures
        mid_block(
            notes,
            pitch,
            slot + 1,
            start,
            (
                step_note(before.0, notes[slot], cursor, to).0,
                before.1 + step_note(before.0, notes[slot], cursor, to).1,
            ),
            from,
            to,
        ),
{
    let n = notes.len() as int;
    let note = notes[slot];
    let turn = step_note(before.0, note, cursor, to);
    let after = (turn.0, before.1 + turn.1);
    assert(note.playable());
    lemma_turn_of_pitch(before.0, note, cursor, to, pitch);
    lemma_events_of_pitch_add(before.1, turn.1, pitch);
    assert(pitch_before(notes, pitch, slot + 1));
    assert(!note_starts(before.0, note, cursor, to));
    assert(new_pairs(notes, pitch, slot + 1, from, to) == new_pairs(notes, pitch, slot, from, to));
    assert forall|i: int| 0 <= i < n implies (#[trigger] holds_on(
        notes,
        pitch,
        i,
        slot + 1,
        from,
        to,
    ) <==> holds_on(notes, pitch, i, slot, from, to)) by {}
    if !pitch_before(notes, pitch, slot) {
        lemma_no_pairs_without_pitch(notes, pitch, slot, from, to);
        assert(!some_spans(notes, pitch, n, from)) by {
            if some_spans(notes, pitch, n, from) {
                let i = choose|i: int| 0 <= i < n && spans(#[trigger] notes[i], pitch, from);
                if i < slot {
                    assert(pitch_before(notes, pitch, slot));
                } else {
                    assert(i != slot);
                    assert(notes[slot].end_spec() <= notes[i].start_beat);
                }
            }
        }
        assert(!before.0.dom().contains(pitch));
        assert(!note_stops(before.0, note, cursor, to));
        assert(!some_holds(notes, pitch, slot + 1, from, to)) by {
            if some_holds(notes, pitch, slot + 1, from, to) {
                let i = choose|i: int|
                    0 <= i < n && #[trigger] holds_on(notes, pitch, i, slot + 1, from, to);
                if notes[i].start_beat <= from {
                    assert(spans(notes[i], pitch, from));
                    assert(some_spans(notes, pitch, n, from));
                } else {
                    assert(i < slot);
                    assert(pitch_before(notes, pitch, slot));
                }
            }
        }
        assert(!some_ends(notes, pitch, n, from, to)) by {
            if some_ends(notes, pitch, n, from, to) {
                let i = choose|i: int|
                    0 <= i < n && spans(#[trigger] notes[i], pitch, from)
                        && notes[i].end_spec() <= to;
                assert(some_spans(notes, pitch, n, from));
            }
        }
        assert(turn.1 =~= Seq::<NoteEvent>::empty());
        assert(events_of_pitch(after.1, pitch) =~= off_if(false, pitch) + new_pairs(
            notes,
            pitch,
            slot + 1,
            from,
            to,
        ));
    } else {
        if before.0.dom().contains(pitch) {
            let held = choose|i: int|
                0 <= i < n && #[trigger] holds_on(notes, pitch, i, slot, from, to);
            assert(before.0[pitch] == notes[held].end_spec());
            assert(should_end(notes[held].end_spec(), cursor, to) <==> from
                < notes[held].end_spec() <= to);
            assert(!note_stops(before.0, note, cursor, to));
            assert(holds_on(notes, pitch, held, slot + 1, from, to));
        } else {
            assert(!note_stops(before.0, note, cursor, to));
            assert(!some_holds(notes, pitch, slot + 1, from, to)) by {
                if some_holds(notes, pitch, slot + 1, from, to) {
                    let i = choose|i: int|
                        0 <= i < n && #[trigger] holds_on(notes, pitch, i, slot + 1, from, to);
                    assert(holds_on(notes, pitch, i, slot, from, to));
                }
            }
        }
        assert(turn.1 =~= Seq::<NoteEvent>::empty());
        assert(events_of_pitch(after.1, pitch) =~= events_of_pitch(before.1, pitch));
    }
}


/// What holds of `pitch` after any number of turns of a block.
proof fn lemma_mid_block(
    notes: Seq<ProgramNote>,
    start: Map<u8, i64>,
    pitch: u8,
    turns: int,
    cursor: int,
    from: int,
    to: int,
)
    requires
        all_playable(notes),
        in_time_order(notes),
        0 <= turns <= notes.len(),
        from < to,
        acts_like(notes, cursor, from, to),
        synced(notes, pitch, start, from),
    ensures
        mid_block(
            notes,
            pitch,
            turns,
            start,
            run_notes(start, notes.take(turns), cursor, to),
            from,
            to,
        ),
    decreases turns,
{
    if turns == 0 {
        assert(notes.take(0) =~= Seq::<ProgramNote>::empty());
        assert(!pitch_before(notes, pitch, 0));
        assert(events_of_pitch(Seq::<NoteEvent>::empty(), pitch) =~= Seq::<NoteEvent>::empty());
    } else {
        let slot = turns - 1;
        lemma_mid_block(notes, start, pitch, slot, cursor, from, to);
        crate::laws::lemma_turns_unfold(start, notes, slot, cursor, to);
        let before = run_notes(start, notes.take(slot), cursor, to);
        if notes[slot].pitch != pitch {
            lemma_step_other_pitch(notes, start, before, pitch, slot, cursor, from, to);
        } else if notes[slot].start_beat <= from {
            lemma_step_old_note(notes, start, before, pitch, slot, cursor, from, to);
        } else if notes[slot].start_beat <= to {
            lemma_step_new_note(notes, start, before, pitch, slot, cursor, from, to);
        } else {
            lemma_step_later_note(notes, start, before, pitch, slot, cursor, from, to);
        }
    }
}

/// A block that takes the position from `from` to `to` keeps the tracker in
/// step with the notes and emits, for `pitch`, exactly the events that have
/// become due.
proof fn lemma_block_of_pitch(
    notes: Seq<ProgramNote>,
    start: Map<u8, i64>,
    pitch: u8,
    cursor: int,
    from: int,
    to: int,
)
    requires
        all_playable(notes),
        in_time_order(notes),
        from < to,
        acts_like(notes, cursor, from, to),
        synced(notes, pitch, start, from),
    ensures
        synced(notes, pitch, run_notes(start, notes, cursor, to).0, to),
        started_events(notes, pitch, notes.len() as int, from) + events_of_pitch(
            run_notes(start, notes, cursor, to).1,
            pitch,
        ) == started_events(notes, pitch, notes.len() as int, to),
{
    let n = notes.len() as int;
    lemma_mid_block(notes, start, pitch, n, cursor, from, to);
    assert(notes.take(n) =~= notes);
    let after = run_notes(start, notes, cursor, to);
    lemma_advance(notes, pitch, n, from, to);
    assert forall|i: int| 0 <= i < n implies (#[trigger] holds_on(notes, pitch, i, n, from, to)
        <==> spans(notes[i], pitch, to)) by {}
    if !pitch_before(notes, pitch, n) {
        lemma_no_pairs_without_pitch(notes, pitch, n, from, to);
        assert(!some_spans(notes, pitch, n, from)) by {
            if some_spans(notes, pitch, n, from) {
                let i = choose|i: int| 0 <= i < n && spans(#[trigger] notes[i], pitch, from);
                assert(pitch_before(notes, pitch, n));
            }
        }
        assert(!some_spans(notes, pitch, n, to)) by {
            if some_spans(notes, pitch, n, to) {
                let i = choose|i: int| 0 <= i < n && spans(#[trigger] notes[i], pitch, to);
                assert(pitch_before(notes, pitch, n));
            }
        }
        assert(!some_ends(notes, pitch, n, from, to)) by {
            if some_ends(notes, pitch, n, from, to) {
                let i = choose|i: int|
                    0 <= i < n && spans(#[trigger] notes[i], pitch, from)
                        && notes[i].end_spec() <= to;
                assert(pitch_before(notes, pitch, n));
            }
        }
        assert forall|i: int| 0 <= i < n && spans(#[trigger] notes[i], pitch, to) implies false by {
            assert(some_spans(notes, pitch, n, to));
        }
        assert(started_events(notes, pitch, n, from) + events_of_pitch(after.1, pitch)
            =~= started_events(notes, pitch, n, to));
    } else {
        assert(some_holds(notes, pitch, n, from, to) <==> some_spans(notes, pitch, n, to)) by {
            if some_holds(notes, pitch, n, from, to) {
                let i = choose|i: int|
                    0 <= i < n && #[trigger] holds_on(notes, pitch, i, n, from, to);
                assert(spans(notes[i], pitch, to));
            }
            if some_spans(notes, pitch, n, to) {
                let i = choose|i: int| 0 <= i < n && spans(#[trigger] notes[i], pitch, to);
                assert(holds_on(notes, pitch, i, n, from, to));
            }
        }
        assert forall|i: int|
            0 <= i < n && spans(#[trigger] notes[i], pitch, to) implies after.0[pitch]
            == notes[i].end_spec() by {
            assert(holds_on(notes, pitch, i, n, from, to));
        }
        assert(started_events(notes, pitch, n, from) + events_of_pitch(after.1, pitch)
            =~= started_events(notes, pitch, n, to));
    }
}

proof fn lemma_nothing_started(notes: Seq<ProgramNote>, pitch: u8, upto: int, at: int)
    requires
        all_playable(notes),
        0 <= upto <= notes.len(),
        at < 0,
    ensures
        started_events(notes, pitch, upto, at) == Seq::<NoteEvent>::empty(),
    decreases upto,
{
    if upto > 0 {
        lemma_nothing_started(notes, pitch, upto - 1, at);
        assert(notes[upto - 1].playable());
    }
}

/// After a pass of blocks, the tracker is in step with the notes at the last
/// position, and the events of `pitch` so far are the ones due by then.
proof fn lemma_pass(program: ProgramView, cursor: i64, positions: Seq<i64>, pitch: u8)
    requires
        program.valid(),
        program.loaded,
        in_time_order(program.notes),
        positions.len() > 0,
        moves_forward(positions, program.length_beats as int),
        clear_of_slack(program.notes, positions),
        begins_pass(program.notes, cursor as int, positions[0] as int),
    ensures
        ({
            let pass = run_blocks(program, Map::<u8, i64>::empty(), cursor, positions);
            &&& pass.cursor == positions.last()
            &&& synced(program.notes, pitch, pass.sounding, positions.last() as int)
            &&& events_of_pitch(pass.events, pitch) == started_events(
                program.notes,
                pitch,
                program.notes.len() as int,
                positions.last() as int,
            )
        }),
    decreases positions.len(),
{
    let notes = program.notes;
    let n = notes.len() as int;
    let length = program.length_beats as int;
    let to = positions.last();
    let earlier = positions.drop_last();
    let before = run_blocks(program, Map::<u8, i64>::empty(), cursor, earlier);
    let block = block_result(program, before.sounding, before.cursor, true, Some(to));
    let pass = run_blocks(program, Map::<u8, i64>::empty(), cursor, positions);
    assert(all_playable(notes));
    assert(positions[positions.len() - 1] == to);
    assert(0 <= to < length);
    vstd::arithmetic::div_mod::lemma_small_mod(to as nat, length as nat);
    assert(wrap_beat(to as int, length) == to);
    lemma_events_of_pitch_add(before.events, block.events, pitch);
    if positions.len() == 1 {
        assert(earlier.len() == 0);
        assert(before.sounding == Map::<u8, i64>::empty());
        assert(before.cursor == cursor);
        assert(events_of_pitch(before.events, pitch) =~= Seq::<NoteEvent>::empty());
        assert(positions[0] == to);
        let turns = run_notes(Map::<u8, i64>::empty(), notes, cursor as int, to as int);
        let flushed = flush_events(Map::<u8, i64>::empty(), PITCH_COUNT as int);
        assert(block.events == flushed + turns.1);
        assert(block.sounding == turns.0);
        lemma_flush_of_pitch(Map::<u8, i64>::empty(), PITCH_COUNT as int, pitch);
        lemma_events_of_pitch_add(flushed, turns.1, pitch);
        assert forall|i: int| 0 <= i < n implies {
            &&& (should_trigger((#[trigger] notes[i]).start_beat as int, cursor as int, to as int)
                <==> -1 < notes[i].start_beat <= to)
            &&& (should_end(notes[i].end_spec(), cursor as int, to as int) <==> -1
                < notes[i].end_spec() <= to)
        } by {
            assert(notes[i].playable());
            assert(!(positions[0] < notes[i].start_beat <= positions[0] + TRIGGER_SLACK));
        }
        assert(acts_like(notes, cursor as int, -1, to as int));
        assert(synced(notes, pitch, Map::<u8, i64>::empty(), -1)) by {
            assert forall|i: int| 0 <= i < n implies !spans(#[trigger] notes[i], pitch, -1) by {
                assert(notes[i].playable());
            }
        }
        lemma_block_of_pitch(notes, Map::<u8, i64>::empty(), pitch, cursor as int, -1, to as int);
        lemma_nothing_started(notes, pitch, n, -1);
        assert(events_of_pitch(pass.events, pitch) =~= started_events(notes, pitch, n, to as int));
    } else {
        assert(earlier.len() == positions.len() - 1);
        assert forall|k: int| 0 <= k < earlier.len() implies earlier[k] == positions[k] by {}
        assert(moves_forward(earlier, length)) by {
            assert forall|k: int| 0 <= k < earlier.len() implies 0 <= #[trigger] earlier[k]
                < length by {
                assert(earlier[k] == positions[k]);
            }
            assert forall|k: int, m: int|
                #![trigger earlier[k], earlier[m]]
                0 <= k < m < earlier.len() implies earlier[k] < earlier[m] by {
                assert(positions[k] < positions[m]);
            }
        }
        assert(clear_of_slack(notes, earlier)) by {
            assert forall|k: int, i: int|
                #![trigger earlier[k], notes[i]]
                0 <= k < earlier.len() && 0 <= i < n implies !(earlier[k] < notes[i].start_beat
                <= earlier[k] + TRIGGER_SLACK) by {
                assert(!(positions[k] < notes[i].start_beat <= positions[k] + TRIGGER_SLACK));
            }
        }
        assert(earlier[0] == positions[0]);
        lemma_pass(program, cursor, earlier, pitch);
        let from = earlier.last();
        assert(from == positions[positions.len() - 2]);
        assert(positions[positions.len() - 2] < positions[positions.len() - 1]);
        assert(before.cursor == from);
        assert(0 <= from < to);
        let turns = run_notes(before.sounding, notes, from as int, to as int);
        assert(block.events == turns.1);
        assert(block.sounding == turns.0);
        assert forall|i: int| 0 <= i < n implies {
            &&& (should_trigger((#[trigger] notes[i]).start_beat as int, from as int, to as int)
                <==> from < notes[i].start_beat <= to)
            &&& (should_end(notes[i].end_spec(), from as int, to as int) <==> from
                < notes[i].end_spec() <= to)
        } by {
            assert(!(positions[positions.len() - 1] < notes[i].start_beat <= positions[positions.len()
                - 1] + TRIGGER_SLACK));
        }
        assert(acts_like(notes, from as int, from as int, to as int));
        lemma_block_of_pitch(notes, before.sounding, pitch, from as int, from as int, to as int);
    }
}

/// The positions counted from `base`.
pub open spec fn beats_from(positions: Seq<i64>, base: int) -> Seq<i64> {
    Seq::new(positions.len(), |k: int| (positions[k] - base) as i64)
}

/// The pairing of notes in a pass whose positions lie within the first lap of
/// the loop.
proof fn lemma_first_lap_pairs(program: ProgramView, cursor: i64, positions: Seq<i64>, pitch: u8)
    requires
        program.valid(),
        program.loaded,
        in_time_order(program.notes),
        positions.len() > 0,
        moves_forward(positions, program.length_beats as int),
        clear_of_slack(program.notes, positions),
        begins_pass(program.notes, cursor as int, positions[0] as int),
    ensures
        ({
            let pass = run_blocks(program, Map::<u8, i64>::empty(), cursor, positions);
            let closing = flush_events(pass.sounding, PITCH_COUNT as int);
            events_of_pitch(pass.events + closing, pitch) == note_pairs(
                program.notes,
                pitch,
                program.notes.len() as int,
                positions.last() as int,
            )
        }),
{
    let notes = program.notes;
    let n = notes.len() as int;
    let reach = positions.last() as int;
    let pass = run_blocks(program, Map::<u8, i64>::empty(), cursor, positions);
    let closing = flush_events(pass.sounding, PITCH_COUNT as int);
    lemma_pass(program, cursor, positions, pitch);
    lemma_flush_of_pitch(pass.sounding, PITCH_COUNT as int, pitch);
    lemma_events_of_pitch_add(pass.events, closing, pitch);
    lemma_close(notes, pitch, n, reach);
    assert(pass.sounding.dom().contains(pitch) ==> pitch < PITCH_COUNT) by {
        if some_spans(notes, pitch, n, reach) {
            let i = choose|i: int| 0 <= i < n && spans(#[trigger] notes[i], pitch, reach);
            assert(notes[i].playable());
        }
    }
}

/// Blocks at positions in a later lap of the loop do what blocks at the same
/// places of the first lap do.
proof fn lemma_lap_is_immaterial(
    program: ProgramView,
    sounding: Map<u8, i64>,
    cursor: i64,
    positions: Seq<i64>,
    lap: int,
)
    requires
        program.length_beats > 0,
        lap >= 0,
        forall|k: int|
            0 <= k < positions.len() ==> lap * program.length_beats <= #[trigger] positions[k],
    ensures
        run_blocks(program, sounding, cursor, positions) == run_blocks(
            program,
            sounding,
            cursor,
            beats_from(positions, lap * program.length_beats),
        ),
    decreases positions.len(),
{
    let length = program.length_beats as int;
    let base = lap * length;
    let beats = beats_from(positions, base);
    assert(base >= 0) by (nonlinear_arith)
        requires
            lap >= 0,
            length > 0,
            base == lap * length,
    ;
    if positions.len() > 0 {
        let earlier = positions.drop_last();
        assert forall|k: int| 0 <= k < earlier.len() implies base <= #[trigger] earlier[k] by {
            assert(earlier[k] == positions[k]);
        }
        lemma_lap_is_immaterial(program, sounding, cursor, earlier, lap);
        assert(beats.drop_last() =~= beats_from(earlier, base));
        let pos = positions.last();
        assert(positions[positions.len() - 1] == pos);
        assert(beats.last() == pos - base);
        vstd::arithmetic::div_mod::lemma_mod_multiples_vanish(-lap, pos as int, length);
        assert(length * (-lap) + pos == pos - base) by (nonlinear_arith)
            requires
                base == lap * length,
        ;
        assert(wrap_beat(pos as int, length) == wrap_beat(pos - base, length));
    }
}

/// A full pass pairs every note: when playback runs block after block
/// through the loop of a program whose same-pitch notes follow one another
/// without overlap, then the events of any one pitch, up to and including the
/// flush that ends the pass, are the note-on of the first note of that pitch
/// the pass has reached, its note-off, the note-on of the second, its
/// note-off, and so on through the slots: one note-on and one note-off for
/// each note, the note-off before the next note-on of the pitch. A pass that
/// reaches the start of every note pairs them all.
///
/// The pass runs in lap number `lap` of the loop, counted from zero. It
/// starts from silence, on the first block after playback started or on a
/// block that wrapped back from behind the end of every note; its positions
/// move forward within the lap, and none of them lies within the trigger
/// slack just before a note's start.
pub proof fn full_pass_pairs_notes(
    program: ProgramView,
    cursor: i64,
    positions: Seq<i64>,
    lap: int,
    pitch: u8,
)
    requires
        program.valid(),
        program.loaded,
        in_time_order(program.notes),
        positions.len() > 0,
        lap >= 0,
        forall|k: int|
            0 <= k < positions.len() ==> lap * program.length_beats <= #[trigger] positions[k],
        moves_forward(
            beats_from(positions, lap * program.length_beats),
            program.length_beats as int,
        ),
        clear_of_slack(program.notes, beats_from(positions, lap * program.length_beats)),
        begins_pass(
            program.notes,
            cursor as int,
            beats_from(positions, lap * program.length_beats)[0] as int,
        ),
    ensures
        ({
            let pass = run_blocks(program, Map::<u8, i64>::empty(), cursor, positions);
            let closing = flush_events(pass.sounding, PITCH_COUNT as int);
            events_of_pitch(pass.events + closing, pitch) == note_pairs(
                program.notes,
                pitch,
                program.notes.len() as int,
                beats_from(positions, lap * program.length_beats).last() as int,
            )
        }),
{
    let beats = beats_from(positions, lap * program.length_beats);
    lemma_lap_is_immaterial(program, Map::<u8, i64>::empty(), cursor, positions, lap);
    lemma_first_lap_pairs(program, cursor, beats, pitch);
}

} // verus!
