//! The program store: a fixed-capacity, loopable sequence of timed notes.
//!
//! A program is replaced as a whole by a load and never edited in place. Its
//! capacity is fixed (256 notes, a name of at most 63 bytes), so the thread
//! that plays it never has to allocate.

use crate::time::{clamp, clamp_spec, BEATS_PER_BAR, MAX_TICKS, TICKS_PER_BEAT, VELOCITY_FULL};
use vstd::prelude::*;
use vstd::string::StrSliceExecFns;
use vstd::string::StringSliceAdditionalSpecFns;
use vstd::utf8::{encode_scalar, encode_utf8};

verus! {

/// Number of note slots in a program.
pub const MAX_NOTES: usize = 256;

/// Room for a program's name in bytes. One byte of it is kept free, so a
/// stored name takes at most `MAX_NAME_LEN - 1` bytes.
pub const MAX_NAME_LEN: usize = 64;

/// Pitch given to a note whose source names none (middle C).
pub const DEFAULT_PITCH: u8 = 60;

/// Velocity given to a note whose source names none (0.8 of full scale).
pub const DEFAULT_VELOCITY: i64 = 800_000;

/// Loop length in bars of a program whose source names none.
pub const DEFAULT_LENGTH_BARS: i64 = 4_000_000;

/// Largest loop length in bars, chosen so that the length in beats stays
/// within `MAX_TICKS`.
pub const MAX_BAR_TICKS: i64 = 1_000_000_000_000_000_000;

/// One note of a program. Times are in ticks, velocity in millionths of full
/// scale.
#[derive(Clone, Copy, Debug, PartialEq, Eq, Structural)]
pub struct ProgramNote {
    /// Pitch, 0 through 127.
    pub pitch: u8,
    /// Velocity, 0 through `VELOCITY_FULL`.
    pub velocity: u32,
    /// Start, counted from the start of the program.
    pub start_beat: i64,
    /// Duration.
    pub length_beats: i64,
    /// Whether the slot holds a note.
    pub active: bool,
}

impl ProgramNote {
    /// The content of a slot that holds no note.
    pub open spec fn vacant() -> ProgramNote {
        ProgramNote { pitch: 0, velocity: 0, start_beat: 0, length_beats: 0, active: false }
    }

    /// Whether the slot holds a note whose fields are all in range.
    pub open spec fn playable(&self) -> bool {
        &&& self.active
        &&& self.pitch < 128
        &&& self.velocity <= VELOCITY_FULL
        &&& 0 <= self.start_beat <= MAX_TICKS
        &&& 1 <= self.length_beats <= MAX_TICKS
    }

    /// The beat at which the note stops.
    pub open spec fn end_spec(&self) -> int {
        self.start_beat + self.length_beats
    }

    /// The beat at which the note stops.
    pub fn end_beat(&self) -> (end: i64)
        requires
            self.playable(),
        ensures
            end == self.end_spec(),
    {
        self.start_beat + self.length_beats
    }
}

impl Default for ProgramNote {
    fn default() -> (note: ProgramNote)
        ensures
            note == ProgramNote::vacant(),
    {
        ProgramNote { pitch: 0, velocity: 0, start_beat: 0, length_beats: 0, active: false }
    }
}

/// One note as a program source describes it. A field the source leaves out,
/// or gives in a form that is not a number, is `None`.
#[derive(Clone, Copy, Debug, PartialEq, Eq, Structural)]
pub struct NotePayload {
    /// Pitch as given; values above 127 are possible here.
    pub pitch: Option<u64>,
    /// Start in ticks.
    pub start_beat: Option<i64>,
    /// Duration in ticks.
    pub length_beats: Option<i64>,
    /// Velocity in millionths of full scale.
    pub velocity: Option<i64>,
}

/// A program as a program source describes it.
pub struct ProgramPayload {
    /// Display name.
    pub name: Option<String>,
    /// Loop length in bars, in millionths of a bar.
    pub length_bars: Option<i64>,
    /// Loop length in ticks.
    pub length_beats: Option<i64>,
    /// The notes; `None` where the source has no well-formed collection of
    /// notes.
    pub notes: Option<Vec<NotePayload>>,
}

/// What a payload says, apart from how it is held in memory.
pub struct PayloadView {
    /// Display name.
    pub name: Option<Seq<char>>,
    /// Loop length in millionths of a bar.
    pub length_bars: Option<i64>,
    /// Loop length in ticks.
    pub length_beats: Option<i64>,
    /// The notes.
    pub notes: Option<Seq<NotePayload>>,
}

impl View for ProgramPayload {
    type V = PayloadView;

    open spec fn view(&self) -> PayloadView {
        PayloadView {
            name: match self.name {
                Some(name) => Some(name@),
                None => None,
            },
            length_bars: self.length_bars,
            length_beats: self.length_beats,
            notes: match self.notes {
                Some(notes) => Some(notes@),
                None => None,
            },
        }
    }
}

/// Number of bytes in the UTF-8 encoding of `c`.
pub open spec fn utf8_width(c: char) -> int {
    encode_scalar(c as u32).len() as int
}

/// Number of bytes in the UTF-8 encoding of `text`.
pub open spec fn utf8_len(text: Seq<char>) -> int
    decreases text.len(),
{
    if text.len() == 0 {
        0
    } else {
        utf8_width(text[0]) + utf8_len(text.drop_first())
    }
}

/// How many leading characters of `text` fit, whole, into `room` bytes.
pub open spec fn fitting_chars(text: Seq<char>, room: int) -> int
    decreases text.len(),
{
    if text.len() == 0 || utf8_width(text[0]) > room {
        0
    } else {
        1 + fitting_chars(text.drop_first(), room - utf8_width(text[0]))
    }
}

/// The name a program keeps for `text`: the longest run of leading characters
/// whose encoding fits into the room for a name. No character is ever split.
pub open spec fn stored_name(text: Seq<char>) -> Seq<char> {
    text.take(fitting_chars(text, MAX_NAME_LEN - 1))
}

/// The note a program keeps for `source`: missing fields get their defaults,
/// and every field is brought into its range.
pub open spec fn stored_note(source: NotePayload) -> ProgramNote {
    ProgramNote {
        pitch: match source.pitch {
            Some(pitch) => if pitch > 127 {
                127u8
            } else {
                pitch as u8
            },
            None => DEFAULT_PITCH,
        },
        velocity: clamp_spec(
            match source.velocity {
                Some(velocity) => velocity as int,
                None => DEFAULT_VELOCITY as int,
            },
            0,
            VELOCITY_FULL as int,
        ) as u32,
        start_beat: clamp_spec(
            match source.start_beat {
                Some(start) => start as int,
                None => 0,
            },
            0,
            MAX_TICKS as int,
        ) as i64,
        length_beats: clamp_spec(
            match source.length_beats {
                Some(length) => length as int,
                None => TICKS_PER_BEAT as int,
            },
            1,
            MAX_TICKS as int,
        ) as i64,
        active: true,
    }
}

/// The notes a program keeps for `sources`: the first `MAX_NOTES` of them, in
/// order.
pub open spec fn stored_notes(sources: Seq<NotePayload>) -> Seq<ProgramNote> {
    Seq::new(
        if sources.len() <= MAX_NOTES {
            sources.len()
        } else {
            MAX_NOTES as nat
        },
        |i: int| stored_note(sources[i]),
    )
}

/// The loop length in bars a program keeps for what its source gives.
pub open spec fn stored_length_bars(source: Option<i64>) -> i64 {
    clamp_spec(
        match source {
            Some(bars) => bars as int,
            None => DEFAULT_LENGTH_BARS as int,
        },
        1,
        MAX_BAR_TICKS as int,
    ) as i64
}

/// The loop length in beats a program keeps: what its source gives, or else
/// four beats for every bar.
pub open spec fn stored_length_beats(source: Option<i64>, bars: i64) -> i64 {
    match source {
        Some(beats) => clamp_spec(beats as int, 1, MAX_TICKS as int) as i64,
        None => (bars * BEATS_PER_BAR) as i64,
    }
}

/// The version after one more load.
pub open spec fn next_version(version: u32) -> u32 {
    if version == u32::MAX {
        0
    } else {
        (version + 1) as u32
    }
}

/// What a program is, apart from how it is laid out.
pub struct ProgramView {
    /// Display name.
    pub name: Seq<char>,
    /// Number of loads so far.
    pub version: u32,
    /// The notes, in slot order; the slots behind them are vacant.
    pub notes: Seq<ProgramNote>,
    /// Loop length in millionths of a bar.
    pub length_bars: i64,
    /// Loop length in ticks.
    pub length_beats: i64,
    /// Whether a load has succeeded.
    pub loaded: bool,
}

impl ProgramView {
    /// What every program satisfies: it is within capacity and every note is
    /// playable.
    pub open spec fn valid(self) -> bool {
        &&& self.notes.len() <= MAX_NOTES
        &&& forall|i: int| 0 <= i < self.notes.len() ==> (#[trigger] self.notes[i]).playable()
        &&& utf8_len(self.name) <= MAX_NAME_LEN - 1
        &&& 1 <= self.length_bars <= MAX_BAR_TICKS
        &&& 1 <= self.length_beats <= MAX_TICKS
    }

    /// The program before any load: no notes, four bars of four beats.
    pub open spec fn initial() -> ProgramView {
        ProgramView {
            name: Seq::empty(),
            version: 0,
            notes: Seq::empty(),
            length_bars: DEFAULT_LENGTH_BARS,
            length_beats: (DEFAULT_LENGTH_BARS * BEATS_PER_BAR) as i64,
            loaded: false,
        }
    }
}

/// The name a source gives its program, or the stand-in where it gives none.
pub open spec fn payload_name(name: Option<Seq<char>>) -> Seq<char> {
    match name {
        Some(name) => name,
        None => "Staged Program"@,
    }
}

/// The program that a successful load of `payload` leaves, given the program
/// before it. Only the version depends on what was there before.
pub open spec fn loaded_from(before: ProgramView, payload: PayloadView) -> ProgramView
    recommends
        payload.notes is Some,
{
    let bars = stored_length_bars(payload.length_bars);
    ProgramView {
        name: stored_name(payload_name(payload.name)),
        version: next_version(before.version),
        notes: stored_notes(payload.notes->0),
        length_bars: bars,
        length_beats: stored_length_beats(payload.length_beats, bars),
        loaded: true,
    }
}

/// A staged program, laid out at full capacity.
pub struct StagedProgram {
    name: String,
    version: u32,
    notes: [ProgramNote; MAX_NOTES],
    note_count: usize,
    length_bars: i64,
    length_beats: i64,
    loaded: bool,
}

impl View for StagedProgram {
    type V = ProgramView;

    closed spec fn view(&self) -> ProgramView {
        ProgramView {
            name: self.name@,
            version: self.version,
            notes: self.notes@.take(self.note_count as int),
            length_bars: self.length_bars,
            length_beats: self.length_beats,
            loaded: self.loaded,
        }
    }
}

/// The bytes counted character by character are the bytes of the encoding.
pub proof fn lemma_utf8_len_is_encoded_len(text: Seq<char>)
    ensures
        utf8_len(text) == encode_utf8(text).len(),
    decreases text.len(),
{
    if text.len() > 0 {
        lemma_utf8_len_is_encoded_len(text.drop_first());
    }
}

/// The stored encoding never outgrows the room it was cut to.
pub proof fn lemma_fitting_chars_fit(text: Seq<char>, room: int)
    requires
        0 <= room,
    ensures
        0 <= fitting_chars(text, room) <= text.len(),
        0 <= utf8_len(text.take(fitting_chars(text, room))) <= room,
    decreases text.len(),
{
    if text.len() == 0 || utf8_width(text[0]) > room {
        assert(text.take(0).len() == 0);
    } else {
        let rest = text.drop_first();
        let width = utf8_width(text[0]);
        lemma_fitting_chars_fit(rest, room - width);
        let kept = fitting_chars(rest, room - width);
        assert(text.take(1 + kept).drop_first() =~= rest.take(kept));
        assert(text.take(1 + kept)[0] == text[0]);
    }
}

/// The width of `c` in bytes, from its code point.
fn char_width(c: char) -> (width: usize)
    ensures
        width == utf8_width(c),
        1 <= width <= 4,
{
    proof {
        vstd::utf8::char_is_scalar(c);
    }
    let code: u32 = c as u32;
    if code < 0x80 {
        1
    } else if code < 0x800 {
        2
    } else if code < 0x10000 {
        3
    } else {
        4
    }
}

/// Cuts `text` to the name a program keeps for it.
fn bounded_name(text: &str) -> (name: String)
    ensures
        name@ == stored_name(text@),
        utf8_len(name@) <= MAX_NAME_LEN - 1,
{
    let total: usize = text.unicode_len();
    let mut kept: usize = 0;
    let mut used: usize = 0;
    let ghost room: int = MAX_NAME_LEN - 1;
    let mut full: bool = false;
    assert(text@.skip(0) =~= text@);
    while kept < total && !full
        invariant
            kept <= total,
            total == text@.len(),
            used <= MAX_NAME_LEN - 1,
            room == MAX_NAME_LEN - 1,
            fitting_chars(text@, room) == kept + fitting_chars(text@.skip(kept as int), room - used),
            full ==> fitting_chars(text@.skip(kept as int), room - used) == 0,
        decreases total - kept + (if full { 0int } else { 1int }),
    {
        let c: char = text.get_char(kept);
        let width: usize = char_width(c);
        proof {
            assert(text@.skip(kept as int)[0] == text@[kept as int]);
            assert(text@.skip(kept as int).drop_first() =~= text@.skip(kept as int + 1));
        }
        if used + width > MAX_NAME_LEN - 1 {
            full = true;
        } else {
            used = used + width;
            kept = kept + 1;
        }
    }
    proof {
        lemma_fitting_chars_fit(text@, room);
    }
    text.substring_char(0, kept).to_owned()
}

/// Brings one note of a source into a program's form.
fn note_from(source: &NotePayload) -> (note: ProgramNote)
    ensures
        note == stored_note(*source),
        note.playable(),
{
    let pitch: u8 = match source.pitch {
        Some(pitch) => if pitch > 127 {
            127u8
        } else {
            pitch as u8
        },
        None => DEFAULT_PITCH,
    };
    let velocity: i64 = clamp(
        match source.velocity {
            Some(velocity) => velocity,
            None => DEFAULT_VELOCITY,
        },
        0,
        1_000_000,
    );
    let start_beat: i64 = clamp(
        match source.start_beat {
            Some(start) => start,
            None => 0,
        },
        0,
        MAX_TICKS,
    );
    let length_beats: i64 = clamp(
        match source.length_beats {
            Some(length) => length,
            None => TICKS_PER_BEAT,
        },
        1,
        MAX_TICKS,
    );
    ProgramNote { pitch, velocity: velocity as u32, start_beat, length_beats, active: true }
}

impl StagedProgram {
    /// What holds of every program in memory: the view is valid and the slots
    /// behind the notes are vacant.
    #[verifier::type_invariant]
    pub closed spec fn wf(&self) -> bool {
        &&& self.note_count <= MAX_NOTES
        &&& forall|i: int| 0 <= i < self.note_count ==> (#[trigger] self.notes[i]).playable()
        &&& forall|i: int|
            self.note_count <= i < MAX_NOTES ==> #[trigger] self.notes[i] == ProgramNote::vacant()
        &&& utf8_len(self.name@) <= MAX_NAME_LEN - 1
        &&& 1 <= self.length_bars <= MAX_BAR_TICKS
        &&& 1 <= self.length_beats <= MAX_TICKS
    }

    /// A program in memory has a valid view.
    pub proof fn lemma_view_valid(&self)
        requires
            self.wf(),
        ensures
            self@.valid(),
    {
    }

    /// The program before any load.
    pub fn new() -> (program: StagedProgram)
        ensures
            program@ == ProgramView::initial(),
    {
        let vacant = ProgramNote::default();
        let program = StagedProgram {
            name: String::new(),
            version: 0,
            notes: [vacant;MAX_NOTES],
            note_count: 0,
            length_bars: DEFAULT_LENGTH_BARS,
            length_beats: 16_000_000,
            loaded: false,
        };
        assert(program@.notes =~= Seq::<ProgramNote>::empty());
        program
    }

    /// Replaces the name by the longest run of leading characters of `name`
    /// that fits into the room for a name.
    pub fn set_name(&mut self, name: &str)
        ensures
            final(self)@ == (ProgramView { name: stored_name(name@), ..old(self)@ }),
    {
        proof {
            use_type_invariant(&*self);
        }
        self.name = bounded_name(name);
    }

    /// The program's name. It takes at most `MAX_NAME_LEN - 1` bytes.
    pub fn get_name(&self) -> (name: &str)
        ensures
            name@ == self@.name,
            name.spec_bytes().len() <= MAX_NAME_LEN - 1,
    {
        proof {
            use_type_invariant(self);
            lemma_utf8_len_is_encoded_len(self.name@);
        }
        self.name.as_str()
    }

    /// Number of loads so far.
    pub fn version(&self) -> (version: u32)
        ensures
            version == self@.version,
    {
        self.version
    }

    /// Number of notes.
    pub fn note_count(&self) -> (count: usize)
        ensures
            count == self@.notes.len(),
            count <= MAX_NOTES,
    {
        proof {
            use_type_invariant(self);
        }
        self.note_count
    }

    /// The content of slot `index`: a note of the program, or the vacant slot
    /// behind the notes.
    pub fn note(&self, index: usize) -> (note: ProgramNote)
        requires
            index < MAX_NOTES,
        ensures
            index < self@.notes.len() ==> note == self@.notes[index as int] && note.playable(),
            index >= self@.notes.len() ==> note == ProgramNote::vacant(),
    {
        proof {
            use_type_invariant(self);
        }
        self.notes[index]
    }

    /// Loop length in millionths of a bar.
    pub fn length_bars(&self) -> (bars: i64)
        ensures
            bars == self@.length_bars,
    {
        self.length_bars
    }

    /// Loop length in ticks.
    pub fn length_beats(&self) -> (beats: i64)
        ensures
            beats == self@.length_beats,
            1 <= beats <= MAX_TICKS,
    {
        proof {
            use_type_invariant(self);
        }
        self.length_beats
    }

    /// Whether a load has succeeded.
    pub fn is_loaded(&self) -> (loaded: bool)
        ensures
            loaded == self@.loaded,
    {
        self.loaded
    }

    /// Replaces the program by what `payload` describes.
    ///
    /// The load fails, and leaves the program as it was, exactly when the
    /// payload has no collection of notes. Otherwise the first `MAX_NOTES`
    /// notes are taken, each brought into range, the slots behind them are
    /// vacated, and the version goes up by one.
    pub fn load(&mut self, payload: &ProgramPayload) -> (ok: bool)
        ensures
            ok == (payload.notes is Some),
            ok ==> final(self)@ == loaded_from(old(self)@, payload@),
            !ok ==> final(self)@ == old(self)@,
            final(self)@.valid(),
    {
        proof {
            use_type_invariant(&*self);
        }
        let sources = match &payload.notes {
            Some(sources) => sources,
            None => {
                return false;
            },
        };
        let name = match &payload.name {
            Some(name) => bounded_name(name.as_str()),
            None => bounded_name("Staged Program"),
        };
        let length_bars: i64 = clamp(
            match payload.length_bars {
                Some(bars) => bars,
                None => DEFAULT_LENGTH_BARS,
            },
            1,
            MAX_BAR_TICKS,
        );
        let length_beats: i64 = match payload.length_beats {
            Some(beats) => clamp(beats, 1, MAX_TICKS),
            None => length_bars * BEATS_PER_BAR,
        };
        let vacant = ProgramNote::default();
        let mut notes: [ProgramNote; MAX_NOTES] = [vacant;MAX_NOTES];
        let mut count: usize = 0;
        while count < sources.len() && count < MAX_NOTES
            invariant
                count <= MAX_NOTES,
                count <= sources.len(),
                forall|i: int| 0 <= i < count ==> #[trigger] notes[i] == stored_note(sources@[i]),
                forall|i: int| 0 <= i < count ==> (#[trigger] notes[i]).playable(),
                forall|i: int| count <= i < MAX_NOTES ==> #[trigger] notes[i] == ProgramNote::vacant(),
            decreases MAX_NOTES - count,
        {
            notes[count] = note_from(&sources[count]);
            count = count + 1;
        }
        let version: u32 = if self.version == u32::MAX {
            0
        } else {
            self.version + 1
        };
        *self = StagedProgram {
            name,
            version,
            notes,
            note_count: count,
            length_bars,
            length_beats,
            loaded: true,
        };
        proof {
            assert(self@.notes =~= stored_notes(sources@));
        }
        true
    }
}

impl Default for StagedProgram {
    fn default() -> (program: StagedProgram)
        ensures
            program@ == ProgramView::initial(),
    {
        StagedProgram::new()
    }
}

} // verus!
