//! What holds of the scheduler and the program store on every input.

use crate::active_notes::{pitches_in_range, PITCH_COUNT};
use crate::program::{loaded_from, PayloadView, ProgramNote, ProgramView};
use crate::scheduler::{
    block_result, flush_events, is_wrapped, note_starts, run_notes, should_trigger, step_note,
    NoteEvent,
};
use crate::time::{wrap_beat, MAX_TICKS, NO_POSITION, TRIGGER_SLACK};
use vstd::prelude::*;

verus! {

/// How often `event` occurs in `events`.
pub open spec fn count_event(events: Seq<NoteEvent>, event: NoteEvent) -> nat
    decreases events.len(),
{
    if events.len() == 0 {
        0
    } else {
        count_event(events.drop_last(), event) + if events.last() == event {
            1nat
        } else {
            0nat
        }
    }
}

/// What sounds at the turn of slot `slot`, in a block that starts the turns
/// with `sounding`.
pub open spec fn sounding_before(
    sounding: Map<u8, i64>,
    notes: Seq<ProgramNote>,
    slot: int,
    cursor: int,
    beat: int,
) -> Map<u8, i64> {
    run_notes(sounding, notes.take(slot), cursor, beat).0
}

/// A flush holds note-offs only, one for each sounding pitch below `upto`.
pub proof fn lemma_flush_events(sounding: Map<u8, i64>, upto: int)
    requires
        0 <= upto <= PITCH_COUNT,
    ensures
        forall|k: int|
            0 <= k < flush_events(sounding, upto).len() ==> (#[trigger] flush_events(
                sounding,
                upto,
            )[k]) is NoteOff,
        forall|pitch: u8|
            #![trigger count_event(flush_events(sounding, upto), NoteEvent::NoteOff { pitch })]
            count_event(flush_events(sounding, upto), NoteEvent::NoteOff { pitch }) == if pitch
                < upto && sounding.dom().contains(pitch) {
                1nat
            } else {
                0nat
            },
    decreases upto,
{
    if upto > 0 {
        lemma_flush_events(sounding, upto - 1);
        let below = flush_events(sounding, upto - 1);
        let all = flush_events(sounding, upto);
        let top = (upto - 1) as u8;
        if sounding.dom().contains(top) {
            assert(all.drop_last() =~= below);
            assert(all.last() == NoteEvent::NoteOff { pitch: top });
        }
        assert forall|pitch: u8|
            #![trigger count_event(all, NoteEvent::NoteOff { pitch })]
            count_event(all, NoteEvent::NoteOff { pitch }) == if pitch < upto
                && sounding.dom().contains(pitch) {
                1nat
            } else {
                0nat
            } by {
            assert(count_event(below, NoteEvent::NoteOff { pitch }) == if pitch < upto - 1
                && sounding.dom().contains(pitch) {
                1nat
            } else {
                0nat
            });
        }
    }
}

/// Stopping flushes: when the transport is not playing, the block emits
/// exactly one note-off for every sounding pitch and nothing else, leaves no
/// pitch sounding, and resets the cursor.
pub proof fn stop_flushes(
    program: ProgramView,
    sounding: Map<u8, i64>,
    cursor: i64,
    pos_beats: Option<i64>,
)
    requires
        pitches_in_range(sounding),
    ensures
        ({
            let result = block_result(program, sounding, cursor, false, pos_beats);
            &&& result.sounding == Map::<u8, i64>::empty()
            &&& result.cursor == NO_POSITION
            &&& forall|k: int|
                0 <= k < result.events.len() ==> (#[trigger] result.events[k]) is NoteOff
            &&& forall|pitch: u8|
                #![trigger count_event(result.events, NoteEvent::NoteOff { pitch })]
                count_event(result.events, NoteEvent::NoteOff { pitch }) == if sounding.dom().contains(
                    pitch,
                ) {
                    1nat
                } else {
                    0nat
                }
        }),
{
    lemma_flush_events(sounding, PITCH_COUNT as int);
}

/// The events of the turns up to a slot are those up to the slot before it,
/// followed by the events of that slot's own turn.
pub proof fn lemma_turns_unfold(
    sounding: Map<u8, i64>,
    notes: Seq<ProgramNote>,
    slot: int,
    cursor: int,
    beat: int,
)
    requires
        0 <= slot < notes.len(),
    ensures
        run_notes(sounding, notes.take(slot + 1), cursor, beat) == ({
            let before = run_notes(sounding, notes.take(slot), cursor, beat);
            let turn = step_note(before.0, notes[slot], cursor, beat);
            (turn.0, before.1 + turn.1)
        }),
{
    assert(notes.take(slot + 1).drop_last() =~= notes.take(slot));
    assert(notes.take(slot + 1).last() == notes[slot]);
}

/// Every note-on among the events of the turns comes from a slot that was
/// due, and carries that slot's pitch and velocity; every pitch that sounds
/// afterwards either sounded before with the same end, or was switched on by
/// a due slot and has that slot's end.
pub proof fn lemma_turns_origin(
    sounding: Map<u8, i64>,
    notes: Seq<ProgramNote>,
    cursor: int,
    beat: int,
)
    ensures
        ({
            let turns = run_notes(sounding, notes, cursor, beat);
            &&& forall|k: int|
                #![trigger turns.1[k]]
                0 <= k < turns.1.len() && turns.1[k] is NoteOn ==> exists|slot: int|
                    #![trigger notes[slot]]
                    0 <= slot < notes.len() && notes[slot].active && should_trigger(
                        notes[slot].start_beat as int,
                        cursor,
                        beat,
                    ) && turns.1[k] == (NoteEvent::NoteOn {
                        pitch: notes[slot].pitch,
                        velocity: notes[slot].velocity,
                    })
            &&& forall|pitch: u8|
                #![trigger turns.0.dom().contains(pitch)]
                turns.0.dom().contains(pitch) ==> (sounding.dom().contains(pitch) && turns.0[pitch]
                    == sounding[pitch]) || exists|slot: int|
                    #![trigger notes[slot]]
                    0 <= slot < notes.len() && notes[slot].active && notes[slot].pitch == pitch
                        && should_trigger(notes[slot].start_beat as int, cursor, beat)
                        && turns.0[pitch] == notes[slot].end_spec() as i64
        }),
    decreases notes.len(),
{
    if notes.len() > 0 {
        let head = notes.drop_last();
        let note = notes.last();
        lemma_turns_origin(sounding, head, cursor, beat);
        let before = run_notes(sounding, head, cursor, beat);
        let turn = step_note(before.0, note, cursor, beat);
        let turns = run_notes(sounding, notes, cursor, beat);
        assert(turns.1 == before.1 + turn.1);
        assert forall|k: int|
            #![trigger turns.1[k]]
            0 <= k < turns.1.len() && turns.1[k] is NoteOn implies exists|slot: int|
            #![trigger notes[slot]]
            0 <= slot < notes.len() && notes[slot].active && should_trigger(
                notes[slot].start_beat as int,
                cursor,
                beat,
            ) && turns.1[k] == (NoteEvent::NoteOn {
                pitch: notes[slot].pitch,
                velocity: notes[slot].velocity,
            }) by {
            if k < before.1.len() {
                assert(turns.1[k] == before.1[k]);
                let slot = choose|slot: int|
                    #![trigger head[slot]]
                    0 <= slot < head.len() && head[slot].active && should_trigger(
                        head[slot].start_beat as int,
                        cursor,
                        beat,
                    ) && before.1[k] == (NoteEvent::NoteOn {
                        pitch: head[slot].pitch,
                        velocity: head[slot].velocity,
                    });
                assert(notes[slot] == head[slot]);
            } else {
                assert(turns.1[k] == turn.1[k - before.1.len()]);
                assert(notes[notes.len() - 1] == note);
            }
        }
        assert forall|pitch: u8|
            #![trigger turns.0.dom().contains(pitch)]
            turns.0.dom().contains(pitch) implies (sounding.dom().contains(pitch) && turns.0[pitch]
            == sounding[pitch]) || exists|slot: int|
            #![trigger notes[slot]]
            0 <= slot < notes.len() && notes[slot].active && notes[slot].pitch == pitch
                && should_trigger(notes[slot].start_beat as int, cursor, beat) && turns.0[pitch]
                == notes[slot].end_spec() as i64 by {
            if note_starts(before.0, note, cursor, beat) && pitch == note.pitch {
                assert(notes[notes.len() - 1] == note);
            } else {
                assert(before.0.dom().contains(pitch));
                assert(turns.0[pitch] == before.0[pitch]);
                if !(sounding.dom().contains(pitch) && before.0[pitch] == sounding[pitch]) {
                    let slot = choose|slot: int|
                        #![trigger head[slot]]
                        0 <= slot < head.len() && head[slot].active && head[slot].pitch == pitch
                            && should_trigger(head[slot].start_beat as int, cursor, beat)
                            && before.0[pitch] == head[slot].end_spec() as i64;
                    assert(notes[slot] == head[slot]);
                }
            }
        }
    }
}

/// The events of one slot's turn are among the events of all the turns.
pub proof fn lemma_turn_events_kept(
    sounding: Map<u8, i64>,
    notes: Seq<ProgramNote>,
    slot: int,
    cursor: int,
    beat: int,
    event: NoteEvent,
)
    requires
        0 <= slot < notes.len(),
        step_note(
            sounding_before(sounding, notes, slot, cursor, beat),
            notes[slot],
            cursor,
            beat,
        ).1.contains(event),
    ensures
        run_notes(sounding, notes, cursor, beat).1.contains(event),
    decreases notes.len(),
{
    let turns = run_notes(sounding, notes, cursor, beat);
    let before = run_notes(sounding, notes.drop_last(), cursor, beat);
    let last = step_note(before.0, notes.last(), cursor, beat);
    if slot == notes.len() - 1 {
        assert(notes.take(slot) =~= notes.drop_last());
        let k = choose|k: int| 0 <= k < last.1.len() && last.1[k] == event;
        assert(turns.1[before.1.len() + k] == event);
    } else {
        assert(notes.drop_last().take(slot) =~= notes.take(slot));
        lemma_turn_events_kept(sounding, notes.drop_last(), slot, cursor, beat, event);
        let k = choose|k: int| 0 <= k < before.1.len() && before.1[k] == event;
        assert(turns.1[k] == event);
    }
}

/// A pitch that none of the earlier slots leaves sounding is silent at the
/// turn of slot `slot`.
proof fn lemma_silent_before(
    notes: Seq<ProgramNote>,
    slot: int,
    cursor: int,
    beat: int,
    pitch: u8,
)
    requires
        0 <= slot <= notes.len(),
        cursor < 0,
        forall|j: int|
            #![trigger notes[j]]
            0 <= j < slot && notes[j].pitch == pitch && notes[j].start_beat <= beat + TRIGGER_SLACK
                ==> notes[j].playable() && notes[j].end_spec() <= beat,
    ensures
        !sounding_before(Map::<u8, i64>::empty(), notes, slot, cursor, beat).dom().contains(pitch),
    decreases slot,
{
    if slot == 0 {
        assert(notes.take(0) =~= Seq::<ProgramNote>::empty());
    } else {
        lemma_silent_before(notes, slot - 1, cursor, beat, pitch);
        lemma_turns_unfold(Map::<u8, i64>::empty(), notes, slot - 1, cursor, beat);
        let note = notes[slot - 1];
        assert(note.pitch == pitch && note.start_beat <= beat + TRIGGER_SLACK ==> note.playable()
            && note.end_spec() <= beat);
    }
}

/// Fresh start, what is not triggered: in the first block after playback
/// starts, at position `pos` of a loaded program, every note-on emitted
/// belongs to a note that starts no later than the position within the loop
/// (give or take the trigger slack). So no note-on is emitted for a note that
/// starts beyond it.
pub proof fn fresh_start_triggers_only_started(
    program: ProgramView,
    sounding: Map<u8, i64>,
    cursor: i64,
    pos: i64,
)
    requires
        program.valid(),
        program.loaded,
        cursor < 0,
    ensures
        ({
            let beat = wrap_beat(pos as int, program.length_beats as int);
            let events = block_result(program, sounding, cursor, true, Some(pos)).events;
            forall|k: int|
                #![trigger events[k]]
                0 <= k < events.len() && events[k] is NoteOn ==> exists|from: int|
                    #![trigger program.notes[from]]
                    0 <= from < program.notes.len() && program.notes[from].start_beat <= beat
                        + TRIGGER_SLACK && events[k] == (NoteEvent::NoteOn {
                        pitch: program.notes[from].pitch,
                        velocity: program.notes[from].velocity,
                    })
        }),
{
    let beat = wrap_beat(pos as int, program.length_beats as int);
    let notes = program.notes;
    let flushed = flush_events(sounding, PITCH_COUNT as int);
    let turns = run_notes(Map::<u8, i64>::empty(), notes, cursor as int, beat);
    let events = block_result(program, sounding, cursor, true, Some(pos)).events;
    assert(events == flushed + turns.1);
    lemma_flush_events(sounding, PITCH_COUNT as int);
    lemma_turns_origin(Map::<u8, i64>::empty(), notes, cursor as int, beat);
    assert forall|k: int|
        #![trigger events[k]]
        0 <= k < events.len() && events[k] is NoteOn implies exists|from: int|
        #![trigger notes[from]]
        0 <= from < notes.len() && notes[from].start_beat <= beat + TRIGGER_SLACK && events[k] == (
        NoteEvent::NoteOn { pitch: notes[from].pitch, velocity: notes[from].velocity }) by {
        if k < flushed.len() {
            assert(events[k] == flushed[k]);
        } else {
            let at = k - flushed.len();
            assert(events[k] == turns.1[at]);
            let from = choose|from: int|
                #![trigger notes[from]]
                0 <= from < notes.len() && notes[from].active && should_trigger(
                    notes[from].start_beat as int,
                    cursor as int,
                    beat,
                ) && turns.1[at] == (NoteEvent::NoteOn {
                    pitch: notes[from].pitch,
                    velocity: notes[from].velocity,
                });
            assert(notes[from].start_beat <= beat + TRIGGER_SLACK);
        }
    }
}

/// Fresh start, what is triggered: in the first block after playback starts,
/// at position `pos` of a loaded program, the note in slot `slot` is switched
/// on if it starts no later than the position within the loop (give or take
/// the trigger slack), provided that no earlier slot of the same pitch is
/// still sounding at the position.
pub proof fn fresh_start_triggers_started(
    program: ProgramView,
    sounding: Map<u8, i64>,
    cursor: i64,
    pos: i64,
    slot: int,
)
    requires
        program.valid(),
        program.loaded,
        cursor < 0,
        0 <= slot < program.notes.len(),
        program.notes[slot].start_beat <= wrap_beat(pos as int, program.length_beats as int)
            + TRIGGER_SLACK,
        forall|j: int|
            #![trigger program.notes[j]]
            0 <= j < slot && program.notes[j].pitch == program.notes[slot].pitch
                && program.notes[j].start_beat <= wrap_beat(
                pos as int,
                program.length_beats as int,
            ) + TRIGGER_SLACK ==> program.notes[j].end_spec() <= wrap_beat(
                pos as int,
                program.length_beats as int,
            ),
    ensures
        block_result(program, sounding, cursor, true, Some(pos)).events.contains(
            NoteEvent::NoteOn {
                pitch: program.notes[slot].pitch,
                velocity: program.notes[slot].velocity,
            },
        ),
{
    let beat = wrap_beat(pos as int, program.length_beats as int);
    let notes = program.notes;
    let flushed = flush_events(sounding, PITCH_COUNT as int);
    let turns = run_notes(Map::<u8, i64>::empty(), notes, cursor as int, beat);
    let events = block_result(program, sounding, cursor, true, Some(pos)).events;
    let note = notes[slot];
    assert(events == flushed + turns.1);
    assert forall|j: int|
        #![trigger notes[j]]
        0 <= j < slot && notes[j].pitch == note.pitch && notes[j].start_beat <= beat
            + TRIGGER_SLACK implies notes[j].playable() && notes[j].end_spec() <= beat by {}
    lemma_silent_before(notes, slot, cursor as int, beat, note.pitch);
    let before = sounding_before(Map::<u8, i64>::empty(), notes, slot, cursor as int, beat);
    let on = NoteEvent::NoteOn { pitch: note.pitch, velocity: note.velocity };
    let turn = step_note(before, note, cursor as int, beat);
    assert(note.playable());
    assert(note_starts(before, note, cursor as int, beat));
    assert(turn.1[0] == on);
    lemma_turn_events_kept(Map::<u8, i64>::empty(), notes, slot, cursor as int, beat, on);
    let k = choose|k: int| 0 <= k < turns.1.len() && turns.1[k] == on;
    assert(events[flushed.len() + k] == on);
}

/// Crossing the end of the loop, from a tenth of a beat before it to a tenth
/// of a beat behind it, is a wrap for every loop longer than 1.2 beats.
pub proof fn boundary_crossing_wraps(length: i64)
    requires
        1_200_000 < length <= MAX_TICKS,
    ensures
        wrap_beat(length - 100_000, length as int) == length - 100_000,
        wrap_beat(length + 100_000, length as int) == 100_000,
        is_wrapped(length - 100_000, 100_000),
{
    vstd::arithmetic::div_mod::lemma_small_mod((length - 100_000) as nat, length as nat);
    vstd::arithmetic::div_mod::lemma_fundamental_div_mod_converse(
        length + 100_000,
        length as int,
        1,
        100_000,
    );
}

/// Loop wrap: when the position falls back by more than the wrap margin, the
/// block first emits one note-off for every pitch that sounded, and only then
/// the events of the notes' turns, which start from silence. A pitch that
/// sounds after the block was switched on in this very block, by a note that
/// starts no later than the new position (give or take the trigger slack),
/// and it ends after the new position and not after the old one.
pub proof fn wrap_flushes_first(
    program: ProgramView,
    sounding: Map<u8, i64>,
    cursor: i64,
    pos: i64,
)
    requires
        program.valid(),
        program.loaded,
        pitches_in_range(sounding),
        is_wrapped(cursor as int, wrap_beat(pos as int, program.length_beats as int)),
    ensures
        ({
            let beat = wrap_beat(pos as int, program.length_beats as int);
            let result = block_result(program, sounding, cursor, true, Some(pos));
            let flushed = flush_events(sounding, PITCH_COUNT as int);
            &&& result.events == flushed + run_notes(
                Map::<u8, i64>::empty(),
                program.notes,
                cursor as int,
                beat,
            ).1
            &&& forall|k: int| 0 <= k < flushed.len() ==> (#[trigger] flushed[k]) is NoteOff
            &&& forall|pitch: u8|
                #![trigger count_event(flushed, NoteEvent::NoteOff { pitch })]
                count_event(flushed, NoteEvent::NoteOff { pitch }) == if sounding.dom().contains(
                    pitch,
                ) {
                    1nat
                } else {
                    0nat
                }
            &&& forall|pitch: u8|
                #![trigger result.sounding.dom().contains(pitch)]
                result.sounding.dom().contains(pitch) ==> beat < result.sounding[pitch] <= cursor
                    && exists|slot: int|
                    #![trigger program.notes[slot]]
                    0 <= slot < program.notes.len() && program.notes[slot].pitch == pitch
                        && program.notes[slot].start_beat <= beat + TRIGGER_SLACK
                        && result.sounding[pitch] == program.notes[slot].end_spec()
        }),
{
    let beat = wrap_beat(pos as int, program.length_beats as int);
    let notes = program.notes;
    let result = block_result(program, sounding, cursor, true, Some(pos));
    lemma_flush_events(sounding, PITCH_COUNT as int);
    lemma_turns_origin(Map::<u8, i64>::empty(), notes, cursor as int, beat);
    lemma_wrapped_ends(Map::<u8, i64>::empty(), notes, cursor as int, beat);
    assert forall|pitch: u8|
        #![trigger result.sounding.dom().contains(pitch)]
        result.sounding.dom().contains(pitch) implies beat < result.sounding[pitch] <= cursor
        && exists|slot: int|
        #![trigger notes[slot]]
        0 <= slot < notes.len() && notes[slot].pitch == pitch && notes[slot].start_beat <= beat
            + TRIGGER_SLACK && result.sounding[pitch] == notes[slot].end_spec() by {
        let slot = choose|slot: int|
            #![trigger notes[slot]]
            0 <= slot < notes.len() && notes[slot].active && notes[slot].pitch == pitch
                && should_trigger(notes[slot].start_beat as int, cursor as int, beat)
                && result.sounding[pitch] == notes[slot].end_spec() as i64;
        assert(notes[slot].playable());
    }
}

/// After the turns of a wrapped block, whatever sounds and did not sound
/// before ends after the new position and not after the old one.
proof fn lemma_wrapped_ends(
    sounding: Map<u8, i64>,
    notes: Seq<ProgramNote>,
    cursor: int,
    beat: int,
)
    requires
        is_wrapped(cursor, beat),
    ensures
        forall|pitch: u8|
            #![trigger run_notes(sounding, notes, cursor, beat).0.dom().contains(pitch)]
            run_notes(sounding, notes, cursor, beat).0.dom().contains(pitch)
                && !sounding.dom().contains(pitch) ==> beat < run_notes(
                sounding,
                notes,
                cursor,
                beat,
            ).0[pitch] <= cursor,
    decreases notes.len(),
{
    if notes.len() > 0 {
        lemma_wrapped_ends(sounding, notes.drop_last(), cursor, beat);
        let before = run_notes(sounding, notes.drop_last(), cursor, beat);
        let turn = step_note(before.0, notes.last(), cursor, beat);
        let turns = run_notes(sounding, notes, cursor, beat);
        assert(turns.0 == turn.0);
        assert forall|pitch: u8|
            #![trigger turns.0.dom().contains(pitch)]
            turns.0.dom().contains(pitch) && !sounding.dom().contains(pitch) implies beat
            < turns.0[pitch] <= cursor by {
            if before.0.dom().contains(pitch) {
                assert(turns.0[pitch] == before.0[pitch]);
            }
        }
    }
}

/// Reloading: a load of the same payload, repeated, raises the version by
/// one each time and leaves the name, the lengths and every note as the first
/// load left them.
pub proof fn reload_keeps_program(before: ProgramView, payload: PayloadView)
    requires
        payload.notes is Some,
        before.version < u32::MAX - 1,
    ensures
        ({
            let once = loaded_from(before, payload);
            let twice = loaded_from(once, payload);
            &&& once.version == before.version + 1
            &&& twice.version == once.version + 1
            &&& twice.notes == once.notes
            &&& twice.notes.len() == once.notes.len()
            &&& twice.name == once.name
            &&& twice.length_bars == once.length_bars
            &&& twice.length_beats == once.length_beats
            &&& twice.loaded && once.loaded
        }),
{
}


/// The pitches that sound once `events` have happened to `sounding`, taking
/// every event at its word: a note-on switches a silent pitch on, a note-off
/// switches a sounding pitch off. `None` if some event does not fit: a
/// note-on for a pitch that sounds already, or a note-off for a silent one.
pub open spec fn replay(sounding: Set<u8>, events: Seq<NoteEvent>) -> Option<Set<u8>>
    decreases events.len(),
{
    if events.len() == 0 {
        Some(sounding)
    } else {
        match replay(sounding, events.drop_last()) {
            None => None,
            Some(before) => match events.last() {
                NoteEvent::NoteOn { pitch, .. } => if before.contains(pitch) {
                    None
                } else {
                    Some(before.insert(pitch))
                },
                NoteEvent::NoteOff { pitch } => if before.contains(pitch) {
                    Some(before.remove(pitch))
                } else {
                    None
                },
            },
        }
    }
}

proof fn lemma_replay_add(sounding: Set<u8>, first: Seq<NoteEvent>, second: Seq<NoteEvent>)
    ensures
        replay(sounding, first + second) == match replay(sounding, first) {
            Some(between) => replay(between, second),
            None => None,
        },
    decreases second.len(),
{
    if second.len() == 0 {
        assert(first + second =~= first);
    } else {
        lemma_replay_add(sounding, first, second.drop_last());
        assert((first + second).drop_last() =~= first + second.drop_last());
        assert((first + second).last() == second.last());
    }
}

proof fn lemma_replay_flush(sounding: Map<u8, i64>, upto: int)
    requires
        0 <= upto <= PITCH_COUNT,
    ensures
        replay(sounding.dom(), flush_events(sounding, upto)) == Some(
            sounding.dom().filter(|pitch: u8| pitch >= upto),
        ),
    decreases upto,
{
    let all = flush_events(sounding, upto);
    let left = sounding.dom().filter(|pitch: u8| pitch >= upto);
    if upto == 0 {
        assert(left =~= sounding.dom());
    } else {
        lemma_replay_flush(sounding, upto - 1);
        let below = flush_events(sounding, upto - 1);
        let before = sounding.dom().filter(|pitch: u8| pitch >= upto - 1);
        let top = (upto - 1) as u8;
        if sounding.dom().contains(top) {
            assert(all.drop_last() =~= below);
            assert(all.last() == NoteEvent::NoteOff { pitch: top });
            assert(before.contains(top));
            assert(before.remove(top) =~= left);
        } else {
            assert(before =~= left);
        }
    }
}

proof fn lemma_replay_one(sounding: Set<u8>, event: NoteEvent)
    ensures
        replay(sounding, seq![event]) == match event {
            NoteEvent::NoteOn { pitch, .. } => if sounding.contains(pitch) {
                None
            } else {
                Some(sounding.insert(pitch))
            },
            NoteEvent::NoteOff { pitch } => if sounding.contains(pitch) {
                Some(sounding.remove(pitch))
            } else {
                None
            },
        },
{
    let one = seq![event];
    assert(one.drop_last() =~= Seq::<NoteEvent>::empty());
    assert(one.last() == event);
    assert(replay(sounding, one.drop_last()) == Some(sounding));
}

proof fn lemma_replay_turns(
    sounding: Map<u8, i64>,
    notes: Seq<ProgramNote>,
    cursor: int,
    beat: int,
)
    ensures
        replay(sounding.dom(), run_notes(sounding, notes, cursor, beat).1) == Some(
            run_notes(sounding, notes, cursor, beat).0.dom(),
        ),
    decreases notes.len(),
{
    if notes.len() > 0 {
        let note = notes.last();
        let before = run_notes(sounding, notes.drop_last(), cursor, beat);
        let turn = step_note(before.0, note, cursor, beat);
        lemma_replay_turns(sounding, notes.drop_last(), cursor, beat);
        lemma_replay_add(sounding.dom(), before.1, turn.1);
        let starts = note_starts(before.0, note, cursor, beat);
        let started = crate::scheduler::after_start(before.0, note, cursor, beat);
        let stops = crate::scheduler::note_stops(started, note, cursor, beat);
        let on = NoteEvent::NoteOn { pitch: note.pitch, velocity: note.velocity };
        let off = NoteEvent::NoteOff { pitch: note.pitch };
        let silent = before.0.dom();
        lemma_replay_one(silent, on);
        lemma_replay_one(silent, off);
        lemma_replay_one(silent.insert(note.pitch), off);
        if starts && stops {
            assert(turn.1 =~= seq![on] + seq![off]);
            lemma_replay_add(silent, seq![on], seq![off]);
            assert(silent.insert(note.pitch).remove(note.pitch) =~= turn.0.dom());
        } else if starts {
            assert(turn.1 =~= seq![on]);
            assert(silent.insert(note.pitch) =~= turn.0.dom());
        } else if stops {
            assert(turn.1 =~= seq![off]);
            assert(silent.remove(note.pitch) =~= turn.0.dom());
        } else {
            assert(turn.1 =~= Seq::<NoteEvent>::empty());
            assert(silent =~= turn.0.dom());
        }
    }
}

/// Events fit the tracker, whatever the program and the positions: within a
/// block no pitch is switched on while it sounds and none is switched off
/// while it is silent, and taking the block's events at their word, starting
/// from what sounded before the block, gives exactly what sounds after it.
/// So between two note-ons of a pitch there is always a note-off.
pub proof fn events_fit_the_tracker(
    program: ProgramView,
    sounding: Map<u8, i64>,
    cursor: i64,
    playing: bool,
    pos_beats: Option<i64>,
)
    requires
        pitches_in_range(sounding),
    ensures
        ({
            let result = block_result(program, sounding, cursor, playing, pos_beats);
            replay(sounding.dom(), result.events) == Some(result.sounding.dom())
        }),
{
    let result = block_result(program, sounding, cursor, playing, pos_beats);
    let flushed = flush_events(sounding, PITCH_COUNT as int);
    lemma_replay_flush(sounding, PITCH_COUNT as int);
    assert(sounding.dom().filter(|pitch: u8| pitch >= PITCH_COUNT as int) =~= Set::<u8>::empty());
    assert(Map::<u8, i64>::empty().dom() =~= Set::<u8>::empty());
    if !playing {
    } else if !program.loaded || pos_beats is None || program.length_beats <= 0 {
    } else {
        let beat = wrap_beat(pos_beats->0 as int, program.length_beats as int);
        if crate::scheduler::is_restart(cursor as int, beat) {
            let turns = run_notes(Map::<u8, i64>::empty(), program.notes, cursor as int, beat);
            lemma_replay_turns(Map::<u8, i64>::empty(), program.notes, cursor as int, beat);
            lemma_replay_add(sounding.dom(), flushed, turns.1);
        } else {
            lemma_replay_turns(sounding, program.notes, cursor as int, beat);
        }
    }
}

} // verus!
