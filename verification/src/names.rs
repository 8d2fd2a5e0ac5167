//! Note names for display.

use crate::program::StagedProgram;
use vstd::prelude::*;
use vstd::string::StringExecFns;

verus! {

/// The name of a pitch class, 0 (C) through 11 (B), sharps for the black
/// keys.
pub open spec fn pitch_class_name(class: int) -> Seq<char> {
    if class == 0 {
        "C"@
    } else if class == 1 {
        "C#"@
    } else if class == 2 {
        "D"@
    } else if class == 3 {
        "D#"@
    } else if class == 4 {
        "E"@
    } else if class == 5 {
        "F"@
    } else if class == 6 {
        "F#"@
    } else if class == 7 {
        "G"@
    } else if class == 8 {
        "G#"@
    } else if class == 9 {
        "A"@
    } else if class == 10 {
        "A#"@
    } else {
        "B"@
    }
}

/// The number of an octave as text; octave 0 of the pitches is numbered -1.
pub open spec fn octave_name(octave: int) -> Seq<char> {
    if octave == 0 {
        "-1"@
    } else if octave == 1 {
        "0"@
    } else if octave == 2 {
        "1"@
    } else if octave == 3 {
        "2"@
    } else if octave == 4 {
        "3"@
    } else if octave == 5 {
        "4"@
    } else if octave == 6 {
        "5"@
    } else if octave == 7 {
        "6"@
    } else if octave == 8 {
        "7"@
    } else if octave == 9 {
        "8"@
    } else {
        "9"@
    }
}

/// The name of a pitch: its pitch class followed by its octave, so that
/// pitch 60 is `C4`; `???` for a number that is no pitch.
pub open spec fn pitch_name(pitch: u8) -> Seq<char> {
    if pitch < 128 {
        pitch_class_name(pitch as int % 12) + octave_name(pitch as int / 12)
    } else {
        "???"@
    }
}

fn class_text(class: u8) -> (text: &'static str)
    requires
        class < 12,
    ensures
        text@ == pitch_class_name(class as int),
{
    match class {
        0 => "C",
        1 => "C#",
        2 => "D",
        3 => "D#",
        4 => "E",
        5 => "F",
        6 => "F#",
        7 => "G",
        8 => "G#",
        9 => "A",
        10 => "A#",
        _ => "B",
    }
}

fn octave_text(octave: u8) -> (text: &'static str)
    requires
        octave < 11,
    ensures
        text@ == octave_name(octave as int),
{
    match octave {
        0 => "-1",
        1 => "0",
        2 => "1",
        3 => "2",
        4 => "3",
        5 => "4",
        6 => "5",
        7 => "6",
        8 => "7",
        9 => "8",
        _ => "9",
    }
}

impl StagedProgram {
    /// The name of a pitch for display.
    pub fn pitch_to_name(pitch: u8) -> (name: String)
        ensures
            name@ == pitch_name(pitch),
    {
        if pitch < 128 {
            let mut name = String::from_str(class_text(pitch % 12));
            name.append(octave_text(pitch / 12));
            name
        } else {
            String::from_str("???")
        }
    }
}

} // verus!
