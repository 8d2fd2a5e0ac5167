//! Built-in programs: four fixed four-bar patterns for trying the scheduler
//! without a program source.

use crate::program::{loaded_from, NotePayload, PayloadView, ProgramPayload, StagedProgram};
use vstd::prelude::*;
use vstd::string::StringExecFns;

verus! {

/// Length of every built-in program in millionths of a bar.
pub const BUILTIN_BARS: i64 = 4_000_000;

/// Length of every built-in program in ticks.
pub const BUILTIN_BEATS: i64 = 16_000_000;

/// A note with every field given: start and length in ticks, velocity in
/// millionths.
pub open spec fn given_note(pitch: u8, start: int, length: int, velocity: int) -> NotePayload {
    NotePayload {
        pitch: Some(pitch as u64),
        start_beat: Some(start as i64),
        length_beats: Some(length as i64),
        velocity: Some(velocity as i64),
    }
}

/// A built-in program's payload: four bars of sixteen beats with these notes.
pub open spec fn builtin_payload(name: Seq<char>, notes: Seq<NotePayload>) -> PayloadView {
    PayloadView {
        name: Some(name),
        length_bars: Some(BUILTIN_BARS),
        length_beats: Some(BUILTIN_BEATS),
        notes: Some(notes),
    }
}

/// The arpeggio: C major rising through bar one, a falling line in bar two,
/// two half notes in bar three and a whole note in bar four.
pub open spec fn arpeggio_notes() -> Seq<NotePayload> {
    seq![
        given_note(60, 0, 1_000_000, 800_000),
        given_note(64, 1_000_000, 1_000_000, 800_000),
        given_note(67, 2_000_000, 1_000_000, 800_000),
        given_note(72, 3_000_000, 1_000_000, 800_000),
        given_note(74, 4_000_000, 1_000_000, 800_000),
        given_note(72, 5_000_000, 1_000_000, 800_000),
        given_note(71, 6_000_000, 1_000_000, 800_000),
        given_note(69, 7_000_000, 1_000_000, 800_000),
        given_note(67, 8_000_000, 2_000_000, 800_000),
        given_note(64, 10_000_000, 2_000_000, 800_000),
        given_note(60, 12_000_000, 4_000_000, 800_000),
    ]
}

/// The pitches of the walking bass, one per beat.
pub open spec fn bass_pitches() -> Seq<u8> {
    seq![24u8, 31, 28, 31, 29, 36, 33, 36, 31, 26, 35, 26, 24, 31, 24, 28]
}

/// The walking bass: one note on every beat, the first of each bar accented,
/// the last one leading back up.
pub open spec fn bass_notes() -> Seq<NotePayload> {
    Seq::new(
        16,
        |beat: int|
            given_note(
                bass_pitches()[beat],
                beat * 1_000_000,
                1_000_000,
                if beat % 4 == 0 {
                    900_000
                } else if beat == 15 {
                    800_000
                } else {
                    700_000
                },
            ),
    )
}

/// The root of the power chord of each bar.
pub open spec fn chord_roots() -> Seq<u8> {
    seq![48u8, 53, 55, 48]
}

/// The power chords: in every bar eight eighth notes of root and fifth, the
/// root before the fifth, the fifth a little softer.
pub open spec fn power_chord_notes() -> Seq<NotePayload> {
    Seq::new(
        64,
        |slot: int|
            given_note(
                if slot % 2 == 0 {
                    chord_roots()[slot / 16]
                } else {
                    (chord_roots()[slot / 16] + 7) as u8
                },
                (slot / 2) * 500_000,
                400_000,
                if slot % 2 == 0 {
                    850_000
                } else {
                    765_000
                },
            ),
    )
}

/// The rock beat: a short hit of pitch 48 on every beat, kick on one and
/// three, snare a little softer on two and four.
pub open spec fn rock_beat_notes() -> Seq<NotePayload> {
    Seq::new(
        16,
        |beat: int|
            given_note(
                48,
                beat * 1_000_000,
                250_000,
                if beat % 2 == 0 {
                    900_000
                } else {
                    850_000
                },
            ),
    )
}

fn note(pitch: u8, start: i64, length: i64, velocity: i64) -> (note: NotePayload)
    ensures
        note == given_note(pitch, start as int, length as int, velocity as int),
{
    NotePayload {
        pitch: Some(pitch as u64),
        start_beat: Some(start),
        length_beats: Some(length),
        velocity: Some(velocity),
    }
}

fn payload(name: &str, notes: Vec<NotePayload>) -> (payload: ProgramPayload)
    ensures
        payload@ == builtin_payload(name@, notes@),
{
    ProgramPayload {
        name: Some(String::from_str(name)),
        length_bars: Some(BUILTIN_BARS),
        length_beats: Some(BUILTIN_BEATS),
        notes: Some(notes),
    }
}

/// The payload of the arpeggio.
pub fn arpeggio_payload() -> (payload: ProgramPayload)
    ensures
        payload@ == builtin_payload("C Major Arpeggio"@, arpeggio_notes()),
{
    let mut notes: Vec<NotePayload> = Vec::new();
    notes.push(note(60, 0, 1_000_000, 800_000));
    notes.push(note(64, 1_000_000, 1_000_000, 800_000));
    notes.push(note(67, 2_000_000, 1_000_000, 800_000));
    notes.push(note(72, 3_000_000, 1_000_000, 800_000));
    notes.push(note(74, 4_000_000, 1_000_000, 800_000));
    notes.push(note(72, 5_000_000, 1_000_000, 800_000));
    notes.push(note(71, 6_000_000, 1_000_000, 800_000));
    notes.push(note(69, 7_000_000, 1_000_000, 800_000));
    notes.push(note(67, 8_000_000, 2_000_000, 800_000));
    notes.push(note(64, 10_000_000, 2_000_000, 800_000));
    notes.push(note(60, 12_000_000, 4_000_000, 800_000));
    proof {
        assert(notes@ =~= arpeggio_notes());
    }
    payload("C Major Arpeggio", notes)
}

/// The payload of the walking bass.
pub fn bass_payload() -> (payload: ProgramPayload)
    ensures
        payload@ == builtin_payload("Walking Bass C"@, bass_notes()),
{
    let pitches: [u8; 16] = [24, 31, 28, 31, 29, 36, 33, 36, 31, 26, 35, 26, 24, 31, 24, 28];
    let mut notes: Vec<NotePayload> = Vec::new();
    let mut beat: usize = 0;
    while beat < 16
        invariant
            beat <= 16,
            notes@.len() == beat,
            pitches@ =~= bass_pitches(),
            forall|i: int| 0 <= i < beat ==> notes@[i] == bass_notes()[i],
        decreases 16 - beat,
    {
        let velocity: i64 = if beat % 4 == 0 {
            900_000
        } else if beat == 15 {
            800_000
        } else {
            700_000
        };
        notes.push(note(pitches[beat], (beat as i64) * 1_000_000, 1_000_000, velocity));
        beat = beat + 1;
    }
    proof {
        assert(notes@ =~= bass_notes());
    }
    payload("Walking Bass C", notes)
}

/// The payload of the power chords.
pub fn power_chord_payload() -> (payload: ProgramPayload)
    ensures
        payload@ == builtin_payload("Power Chords 8th"@, power_chord_notes()),
{
    let roots: [u8; 4] = [48, 53, 55, 48];
    let mut notes: Vec<NotePayload> = Vec::new();
    let mut step: usize = 0;
    while step < 32
        invariant
            step <= 32,
            notes@.len() == 2 * step,
            roots@ =~= chord_roots(),
            forall|i: int| 0 <= i < 2 * step ==> notes@[i] == power_chord_notes()[i],
        decreases 32 - step,
    {
        let root: u8 = roots[step / 8];
        let start: i64 = (step as i64) * 500_000;
        notes.push(note(root, start, 400_000, 850_000));
        notes.push(note(root + 7, start, 400_000, 765_000));
        step = step + 1;
    }
    proof {
        assert(notes@ =~= power_chord_notes());
    }
    payload("Power Chords 8th", notes)
}

/// The payload of the rock beat.
pub fn rock_beat_payload() -> (payload: ProgramPayload)
    ensures
        payload@ == builtin_payload("Rock Beat C3"@, rock_beat_notes()),
{
    let mut notes: Vec<NotePayload> = Vec::new();
    let mut beat: usize = 0;
    while beat < 16
        invariant
            beat <= 16,
            notes@.len() == beat,
            forall|i: int| 0 <= i < beat ==> notes@[i] == rock_beat_notes()[i],
        decreases 16 - beat,
    {
        let velocity: i64 = if beat % 2 == 0 {
            900_000
        } else {
            850_000
        };
        notes.push(note(48, (beat as i64) * 1_000_000, 250_000, velocity));
        beat = beat + 1;
    }
    proof {
        assert(notes@ =~= rock_beat_notes());
    }
    payload("Rock Beat C3", notes)
}

impl StagedProgram {
    /// Loads the arpeggio.
    pub fn load_test_program(&mut self)
        ensures
            final(self)@ == loaded_from(
                old(self)@,
                builtin_payload("C Major Arpeggio"@, arpeggio_notes()),
            ),
    {
        let payload = arpeggio_payload();
        self.load(&payload);
    }

    /// Loads the walking bass.
    pub fn load_bass_program(&mut self)
        ensures
            final(self)@ == loaded_from(
                old(self)@,
                builtin_payload("Walking Bass C"@, bass_notes()),
            ),
    {
        let payload = bass_payload();
        self.load(&payload);
    }

    /// Loads the power chords.
    pub fn load_guitar_program(&mut self)
        ensures
            final(self)@ == loaded_from(
                old(self)@,
                builtin_payload("Power Chords 8th"@, power_chord_notes()),
            ),
    {
        let payload = power_chord_payload();
        self.load(&payload);
    }

    /// Loads the rock beat.
    pub fn load_drums_program(&mut self)
        ensures
            final(self)@ == loaded_from(
                old(self)@,
                builtin_payload("Rock Beat C3"@, rock_beat_notes()),
            ),
    {
        let payload = rock_beat_payload();
        self.load(&payload);
    }
}

} // verus!
