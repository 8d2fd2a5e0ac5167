//! The scheduler: which note events one processing block must emit.
//!
//! A note is switched on in the block in which the position passes its start,
//! and off in the block in which the position passes its end. Looking at
//! crossings, rather than at whether the position lies inside the note, gives
//! every note one note-on and one note-off per pass whatever the block size.
//! When the position stream breaks (playback starts, the loop repeats, the
//! host seeks backward) everything that sounds is switched off first.

use crate::active_notes::{ActiveNotes, PITCH_COUNT};
use crate::program::{ProgramNote, ProgramView, StagedProgram, MAX_NOTES};
use crate::time::{
    program_beat, wrap_beat, MAX_TICKS, NO_POSITION, TRIGGER_SLACK, WRAP_MARGIN,
};
use vstd::prelude::*;

verus! {

/// A note event for the host. Events carry no timing of their own: all of
/// them belong to the start of the block that emitted them.
#[derive(Clone, Copy, Debug, PartialEq, Eq, Structural)]
pub enum NoteEvent {
    /// Start a note; velocity in millionths of full scale.
    NoteOn { pitch: u8, velocity: u32 },
    /// Stop the note of this pitch. Its velocity is always zero.
    NoteOff { pitch: u8 },
}

/// What a block leaves behind and what it emits.
pub struct BlockResult {
    /// The sounding pitches after the block, each with its end beat.
    pub sounding: Map<u8, i64>,
    /// The cursor after the block.
    pub cursor: i64,
    /// The events of the block, in the order in which they are emitted.
    pub events: Seq<NoteEvent>,
}

/// Whether a block is the first after playback started: there is no valid
/// previous position.
pub open spec fn is_first_frame(cursor: int) -> bool {
    cursor < 0
}

/// Whether the position fell back by more than the margin since the previous
/// block: the loop repeated, or the host sought backward.
pub open spec fn is_wrapped(cursor: int, beat: int) -> bool {
    cursor >= 0 && beat < cursor - WRAP_MARGIN
}

/// Whether a block starts afresh, so that all sounding notes are flushed.
pub open spec fn is_restart(cursor: int, beat: int) -> bool {
    is_first_frame(cursor) || is_wrapped(cursor, beat)
}

/// Whether a note that starts at `start` is due in this block. After a
/// restart every note up to the position is due; otherwise only one whose
/// start the position has passed since the previous block.
pub open spec fn should_trigger(start: int, cursor: int, beat: int) -> bool {
    if is_restart(cursor, beat) {
        start <= beat + TRIGGER_SLACK
    } else {
        start > cursor && start <= beat + TRIGGER_SLACK
    }
}

/// Whether a sounding note that ends at `end` is over in this block.
pub open spec fn should_end(end: int, cursor: int, beat: int) -> bool {
    if is_wrapped(cursor, beat) {
        end > cursor || end <= beat
    } else {
        end > cursor && end <= beat
    }
}

/// Whether `note` is switched on in a block that finds `sounding`.
pub open spec fn note_starts(
    sounding: Map<u8, i64>,
    note: ProgramNote,
    cursor: int,
    beat: int,
) -> bool {
    &&& note.active
    &&& should_trigger(note.start_beat as int, cursor, beat)
    &&& !sounding.dom().contains(note.pitch)
}

/// The sounding pitches once `note` has had its chance to start.
pub open spec fn after_start(
    sounding: Map<u8, i64>,
    note: ProgramNote,
    cursor: int,
    beat: int,
) -> Map<u8, i64> {
    if note_starts(sounding, note, cursor, beat) {
        sounding.insert(note.pitch, note.end_spec() as i64)
    } else {
        sounding
    }
}

/// Whether the pitch of `note` is switched off at the note's turn, given what
/// sounds once the note has had its chance to start.
pub open spec fn note_stops(
    started: Map<u8, i64>,
    note: ProgramNote,
    cursor: int,
    beat: int,
) -> bool {
    &&& note.active
    &&& started.dom().contains(note.pitch)
    &&& should_end(started[note.pitch] as int, cursor, beat)
}

/// The turn of one note slot: first its note-on, if it is due and its pitch
/// is silent, then a note-off, if its pitch sounds and the tracked end is
/// over. A vacant slot does nothing.
pub open spec fn step_note(sounding: Map<u8, i64>, note: ProgramNote, cursor: int, beat: int) -> (
    Map<u8, i64>,
    Seq<NoteEvent>,
) {
    let starts = note_starts(sounding, note, cursor, beat);
    let started = after_start(sounding, note, cursor, beat);
    let stops = note_stops(started, note, cursor, beat);
    let on = if starts {
        seq![NoteEvent::NoteOn { pitch: note.pitch, velocity: note.velocity }]
    } else {
        Seq::<NoteEvent>::empty()
    };
    let off = if stops {
        seq![NoteEvent::NoteOff { pitch: note.pitch }]
    } else {
        Seq::<NoteEvent>::empty()
    };
    (
        if stops {
            started.remove(note.pitch)
        } else {
            started
        },
        on + off,
    )
}

/// The turns of `notes`, one after the other in slot order.
pub open spec fn run_notes(
    sounding: Map<u8, i64>,
    notes: Seq<ProgramNote>,
    cursor: int,
    beat: int,
) -> (Map<u8, i64>, Seq<NoteEvent>)
    decreases notes.len(),
{
    if notes.len() == 0 {
        (sounding, Seq::<NoteEvent>::empty())
    } else {
        let before = run_notes(sounding, notes.drop_last(), cursor, beat);
        let last = step_note(before.0, notes.last(), cursor, beat);
        (last.0, before.1 + last.1)
    }
}

/// One note-off for every sounding pitch below `upto`, in rising order of
/// pitch.
pub open spec fn flush_events(sounding: Map<u8, i64>, upto: int) -> Seq<NoteEvent>
    decreases upto,
{
    if upto <= 0 {
        Seq::<NoteEvent>::empty()
    } else {
        let below = flush_events(sounding, upto - 1);
        if sounding.dom().contains((upto - 1) as u8) {
            below.push(NoteEvent::NoteOff { pitch: (upto - 1) as u8 })
        } else {
            below
        }
    }
}

/// One processing block.
///
/// Not playing: everything that sounds is switched off and the cursor is
/// reset. Playing without a loaded program, without a position, or with a
/// loop of no length: nothing happens. Otherwise the position is carried into
/// the loop, a restart flushes what sounds, every note takes its turn, and
/// the cursor moves to the position.
pub open spec fn block_result(
    program: ProgramView,
    sounding: Map<u8, i64>,
    cursor: i64,
    playing: bool,
    pos_beats: Option<i64>,
) -> BlockResult {
    if !playing {
        BlockResult {
            sounding: Map::empty(),
            cursor: NO_POSITION,
            events: flush_events(sounding, PITCH_COUNT as int),
        }
    } else if !program.loaded || pos_beats is None || program.length_beats <= 0 {
        BlockResult { sounding, cursor, events: Seq::empty() }
    } else {
        let beat = wrap_beat(pos_beats->0 as int, program.length_beats as int);
        let restart = is_restart(cursor as int, beat);
        let turns = run_notes(
            if restart {
                Map::empty()
            } else {
                sounding
            },
            program.notes,
            cursor as int,
            beat,
        );
        BlockResult {
            sounding: turns.0,
            cursor: beat as i64,
            events: if restart {
                flush_events(sounding, PITCH_COUNT as int) + turns.1
            } else {
                turns.1
            },
        }
    }
}

/// Most events one block of a program within capacity can emit: a note-off
/// for every pitch, then a note-on and a note-off for every note. A buffer of
/// this capacity never has to grow.
pub const MAX_BLOCK_EVENTS: usize = 640;

proof fn lemma_flush_length(sounding: Map<u8, i64>, upto: int)
    requires
        0 <= upto,
    ensures
        flush_events(sounding, upto).len() <= upto,
    decreases upto,
{
    if upto > 0 {
        lemma_flush_length(sounding, upto - 1);
    }
}

proof fn lemma_turns_length(
    sounding: Map<u8, i64>,
    notes: Seq<ProgramNote>,
    cursor: int,
    beat: int,
)
    ensures
        run_notes(sounding, notes, cursor, beat).1.len() <= 2 * notes.len(),
    decreases notes.len(),
{
    if notes.len() > 0 {
        lemma_turns_length(sounding, notes.drop_last(), cursor, beat);
    }
}

/// A block emits at most one note-off for every pitch and two events for
/// every note.
pub proof fn lemma_block_events_bounded(
    program: ProgramView,
    sounding: Map<u8, i64>,
    cursor: i64,
    playing: bool,
    pos_beats: Option<i64>,
)
    ensures
        block_result(program, sounding, cursor, playing, pos_beats).events.len() <= PITCH_COUNT + 2
            * program.notes.len(),
{
    lemma_flush_length(sounding, PITCH_COUNT as int);
    if playing && program.loaded && pos_beats is Some && program.length_beats > 0 {
        let beat = wrap_beat(pos_beats->0 as int, program.length_beats as int);
        lemma_turns_length(Map::empty(), program.notes, cursor as int, beat);
        lemma_turns_length(sounding, program.notes, cursor as int, beat);
    }
}

/// The sounding pitches at or above `from`.
spec fn still_sounding(sounding: Map<u8, i64>, from: int) -> Map<u8, i64> {
    Map::new(|pitch: u8| sounding.dom().contains(pitch) && pitch >= from, |pitch: u8| sounding[pitch])
}

/// Switches off everything that sounds, lowest pitch first.
pub fn flush(active: &mut ActiveNotes, events: &mut Vec<NoteEvent>)
    ensures
        final(active)@ == Map::<u8, i64>::empty(),
        final(events)@ == old(events)@ + flush_events(old(active)@, PITCH_COUNT as int),
{
    let mut pitch: u8 = 0;
    proof {
        assert(active@ =~= still_sounding(old(active)@, 0));
        assert(events@ =~= old(events)@ + flush_events(old(active)@, 0));
    }
    while pitch < PITCH_COUNT
        invariant
            pitch <= PITCH_COUNT,
            active@ == still_sounding(old(active)@, pitch as int),
            events@ == old(events)@ + flush_events(old(active)@, pitch as int),
        decreases PITCH_COUNT - pitch,
    {
        if active.is_playing(pitch) {
            events.push(NoteEvent::NoteOff { pitch });
            active.clear_playing(pitch);
        }
        proof {
            assert(active@ =~= still_sounding(old(active)@, pitch as int + 1));
            assert(events@ =~= old(events)@ + flush_events(old(active)@, pitch as int + 1));
        }
        pitch = pitch + 1;
    }
    proof {
        active.lemma_pitches_in_range();
        old(active).lemma_pitches_in_range();
        assert(active@ =~= Map::<u8, i64>::empty());
    }
}

/// Gives one note its turn.
fn take_turn(
    active: &mut ActiveNotes,
    events: &mut Vec<NoteEvent>,
    note: ProgramNote,
    cursor: i64,
    beat: i64,
)
    requires
        note.active ==> note.playable(),
        -MAX_TICKS <= beat <= MAX_TICKS,
    ensures
        final(active)@ == step_note(old(active)@, note, cursor as int, beat as int).0,
        final(events)@ == old(events)@ + step_note(
            old(active)@,
            note,
            cursor as int,
            beat as int,
        ).1,
{
    if !note.active {
        proof {
            assert(events@ =~= old(events)@ + Seq::<NoteEvent>::empty());
        }
        return ;
    }
    let first_frame: bool = cursor < 0;
    let wrapped: bool = cursor >= 0 && beat < cursor - WRAP_MARGIN;
    let due: bool = if first_frame || wrapped {
        note.start_beat <= beat + TRIGGER_SLACK
    } else {
        note.start_beat > cursor && note.start_beat <= beat + TRIGGER_SLACK
    };
    if due && !active.is_playing(note.pitch) {
        events.push(NoteEvent::NoteOn { pitch: note.pitch, velocity: note.velocity });
        active.set_playing(note.pitch, note.end_beat());
    }
    if active.is_playing(note.pitch) {
        let end: i64 = active.end_beat(note.pitch);
        let over: bool = if wrapped {
            end > cursor || end <= beat
        } else {
            end > cursor && end <= beat
        };
        if over {
            events.push(NoteEvent::NoteOff { pitch: note.pitch });
            active.clear_playing(note.pitch);
        }
    }
    proof {
        assert(events@ =~= old(events)@ + step_note(
            old(active)@,
            note,
            cursor as int,
            beat as int,
        ).1);
    }
}

/// Runs one processing block: updates the tracker and the cursor, and leaves
/// in `events` the events of this block, in order, in place of whatever the
/// buffer held.
pub fn run_block(
    program: &StagedProgram,
    active: &mut ActiveNotes,
    cursor: &mut i64,
    playing: bool,
    pos_beats: Option<i64>,
    events: &mut Vec<NoteEvent>,
)
    ensures
        final(active)@ == block_result(
            program@,
            old(active)@,
            *old(cursor),
            playing,
            pos_beats,
        ).sounding,
        *final(cursor) == block_result(
            program@,
            old(active)@,
            *old(cursor),
            playing,
            pos_beats,
        ).cursor,
        final(events)@ == block_result(
            program@,
            old(active)@,
            *old(cursor),
            playing,
            pos_beats,
        ).events,
        final(events)@.len() <= MAX_BLOCK_EVENTS,
{
    let count: usize = program.note_count();
    proof {
        lemma_block_events_bounded(program@, active@, *cursor, playing, pos_beats);
    }
    events.clear();
    if !playing {
        flush(active, events);
        *cursor = NO_POSITION;
        return ;
    }
    if !program.is_loaded() {
        return ;
    }
    let pos: i64 = match pos_beats {
        Some(pos) => pos,
        None => {
            return ;
        },
    };
    let length: i64 = program.length_beats();
    if length <= 0 {
        return ;
    }
    let beat: i64 = program_beat(pos, length);
    let last: i64 = *cursor;
    let wrapped: bool = last >= 0 && beat < last - WRAP_MARGIN;
    let first_frame: bool = last < 0;
    if wrapped || first_frame {
        flush(active, events);
    }
    let ghost start = active@;
    let ghost flushed = events@;
    let mut index: usize = 0;
    proof {
        assert(program@.notes.take(0) =~= Seq::<ProgramNote>::empty());
        assert(events@ =~= flushed + Seq::<NoteEvent>::empty());
    }
    while index < count
        invariant
            index <= count,
            count == program@.notes.len(),
            count <= MAX_NOTES,
            -MAX_TICKS <= beat <= MAX_TICKS,
            active@ == run_notes(start, program@.notes.take(index as int), last as int, beat as int).0,
            events@ == flushed + run_notes(
                start,
                program@.notes.take(index as int),
                last as int,
                beat as int,
            ).1,
        decreases count - index,
    {
        let note: ProgramNote = program.note(index);
        proof {
            let upto = program@.notes.take(index as int + 1);
            assert(upto.drop_last() =~= program@.notes.take(index as int));
            assert(upto.last() == program@.notes[index as int]);
        }
        take_turn(active, events, note, last, beat);
        index = index + 1;
    }
    proof {
        assert(program@.notes.take(count as int) =~= program@.notes);
    }
    *cursor = beat;
}

} // verus!
