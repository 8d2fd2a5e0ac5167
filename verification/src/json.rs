//! Programs that arrive as JSON.
//!
//! A program source describes a program as a JSON object with the members
//! `name`, `lengthBars`, `lengthBeats` and `notes`; each note is an object
//! with `pitch`, `startBeat`, `lengthBeats` and `velocity`. Reading the
//! document is left to `serde_json`. What this crate believes of it is stated
//! here, member by member, and nothing else about JSON is assumed.

use crate::fixed::{millionths_from_f64_bits, millionths_of};
use crate::program::{loaded_from, NotePayload, PayloadView, ProgramPayload, StagedProgram};
use vstd::prelude::*;

verus! {

/// A JSON value of `serde_json`, carried through without looking inside.
#[verifier::external_type_specification]
#[verifier::external_body]
pub struct ExJsonValue(serde_json::Value);

/// The error of `serde_json`, carried through without looking inside.
#[verifier::external_type_specification]
#[verifier::external_body]
pub struct ExJsonError(serde_json::Error);

/// The value that `serde_json::from_str` reads from `text`; `None` where it
/// reports an error.
pub uninterp spec fn parsed_json(text: Seq<char>) -> Option<serde_json::Value>;

/// The member that `serde_json::Value::get` finds in `value` under `key`.
pub uninterp spec fn json_member(value: serde_json::Value, key: Seq<char>) -> Option<
    serde_json::Value,
>;

/// What `serde_json::Value::as_str` gives for `value`.
pub uninterp spec fn json_string(value: serde_json::Value) -> Option<Seq<char>>;

/// What `serde_json::Value::as_u64` gives for `value`.
pub uninterp spec fn json_unsigned(value: serde_json::Value) -> Option<u64>;

/// The bit pattern of what `serde_json::Value::as_f64` gives for `value`.
pub uninterp spec fn json_double_bits(value: serde_json::Value) -> Option<u64>;

/// The elements that `serde_json::Value::as_array` gives for `value`.
pub uninterp spec fn json_items(value: serde_json::Value) -> Option<Seq<serde_json::Value>>;

/// What `serde_json::Value::is_null` gives for `value`.
pub uninterp spec fn json_null(value: serde_json::Value) -> bool;

/// Calls `serde_json::from_str` for a `Value`. Claimed: the outcome depends
/// on the text alone.
#[verifier::external_body]
fn json_parse(text: &str) -> (parsed: Result<serde_json::Value, serde_json::Error>)
    ensures
        parsed matches Ok(value) ==> parsed_json(text@) == Some(value),
        parsed is Err ==> parsed_json(text@) is None,
{
    serde_json::from_str::<serde_json::Value>(text)
}

/// Calls `serde_json::Value::get` with a string key. Claimed: the outcome
/// depends on the value and the key alone.
#[verifier::external_body]
fn json_get<'a>(value: &'a serde_json::Value, key: &str) -> (member: Option<&'a serde_json::Value>)
    ensures
        member matches Some(found) ==> json_member(*value, key@) == Some(*found),
        member is None ==> json_member(*value, key@) is None,
{
    value.get(key)
}

/// Calls `serde_json::Value::as_f64` and hands the double on as its bit
/// pattern. Claimed: the outcome depends on the value alone.
#[verifier::external_body]
fn json_as_double_bits(value: &serde_json::Value) -> (bits: Option<u64>)
    ensures
        bits == json_double_bits(*value),
{
    value.as_f64().map(|double| double.to_bits())
}

/// `serde_json::Value::as_str`. Claimed: the outcome depends on the value
/// alone.
pub assume_specification<'a>[ serde_json::Value::as_str ](value: &'a serde_json::Value) -> (text:
    Option<&'a str>)
    ensures
        text matches Some(found) ==> json_string(*value) == Some(found@),
        text is None ==> json_string(*value) is None,
;

/// `serde_json::Value::as_u64`. Claimed: the outcome depends on the value
/// alone.
pub assume_specification[ serde_json::Value::as_u64 ](value: &serde_json::Value) -> (number:
    Option<u64>)
    ensures
        number == json_unsigned(*value),
;

/// `serde_json::Value::as_array`. Claimed: the outcome depends on the value
/// alone.
pub assume_specification<'a>[ serde_json::Value::as_array ](value: &'a serde_json::Value) -> (items:
    Option<&'a Vec<serde_json::Value>>)
    ensures
        items matches Some(found) ==> json_items(*value) == Some(found@),
        items is None ==> json_items(*value) is None,
;

/// `serde_json::Value::is_null`. Claimed: the outcome depends on the value
/// alone.
pub assume_specification[ serde_json::Value::is_null ](value: &serde_json::Value) -> (null: bool)
    ensures
        null == json_null(*value),
;

/// `Clone` for `serde_json::Value`. Claimed: the copy equals the value it was made from.
pub assume_specification[ <serde_json::Value as Clone>::clone ](
    value: &serde_json::Value,
) -> (copy: serde_json::Value)
    ensures
        copy == *value,
;

/// The text under `key`, where `value` has such a member and it is a string.
pub open spec fn text_member(value: serde_json::Value, key: Seq<char>) -> Option<Seq<char>> {
    match json_member(value, key) {
        Some(member) => json_string(member),
        None => None,
    }
}

/// The whole number under `key`, where `value` has such a member and it is a
/// non-negative integer.
pub open spec fn unsigned_member(value: serde_json::Value, key: Seq<char>) -> Option<u64> {
    match json_member(value, key) {
        Some(member) => json_unsigned(member),
        None => None,
    }
}

/// The number under `key` in millionths, where `value` has such a member and
/// it is a number.
pub open spec fn millionths_member(value: serde_json::Value, key: Seq<char>) -> Option<i64> {
    match json_member(value, key) {
        Some(member) => match json_double_bits(member) {
            Some(bits) => millionths_of(bits),
            None => None,
        },
        None => None,
    }
}

/// What the JSON value `note` says about one note.
pub open spec fn note_payload_of(note: serde_json::Value) -> NotePayload {
    NotePayload {
        pitch: unsigned_member(note, "pitch"@),
        start_beat: millionths_member(note, "startBeat"@),
        length_beats: millionths_member(note, "lengthBeats"@),
        velocity: millionths_member(note, "velocity"@),
    }
}

/// What the JSON value `json` says about a program. The notes are missing
/// where `json` has no member `notes` or that member is not an array.
pub open spec fn payload_of(json: serde_json::Value) -> PayloadView {
    PayloadView {
        name: text_member(json, "name"@),
        length_bars: millionths_member(json, "lengthBars"@),
        length_beats: millionths_member(json, "lengthBeats"@),
        notes: match json_member(json, "notes"@) {
            Some(member) => match json_items(member) {
                Some(items) => Some(
                    Seq::new(items.len(), |i: int| note_payload_of(items[i])),
                ),
                None => None,
            },
            None => None,
        },
    }
}

/// The program that a registration response carries: the member `program`
/// of the document, unless the text is no JSON, the member is missing, or it
/// is null.
pub open spec fn staged_program_in(response: Seq<char>) -> Option<serde_json::Value> {
    match parsed_json(response) {
        Some(document) => match json_member(document, "program"@) {
            Some(program) => if json_null(program) {
                None
            } else {
                Some(program)
            },
            None => None,
        },
        None => None,
    }
}

/// Reads the number under `key` in millionths.
fn read_millionths(value: &serde_json::Value, key: &str) -> (number: Option<i64>)
    ensures
        number == millionths_member(*value, key@),
{
    match json_get(value, key) {
        Some(member) => match json_as_double_bits(member) {
            Some(bits) => millionths_from_f64_bits(bits),
            None => None,
        },
        None => None,
    }
}

/// Reads what a JSON value says about one note.
pub fn note_payload_from_json(note: &serde_json::Value) -> (payload: NotePayload)
    ensures
        payload == note_payload_of(*note),
{
    let pitch = match json_get(note, "pitch") {
        Some(member) => member.as_u64(),
        None => None,
    };
    NotePayload {
        pitch,
        start_beat: read_millionths(note, "startBeat"),
        length_beats: read_millionths(note, "lengthBeats"),
        velocity: read_millionths(note, "velocity"),
    }
}

/// Reads what a JSON value says about a program.
pub fn payload_from_json(json: &serde_json::Value) -> (payload: ProgramPayload)
    ensures
        payload@ == payload_of(*json),
{
    let name: Option<String> = match json_get(json, "name") {
        Some(member) => match member.as_str() {
            Some(text) => Some(text.to_owned()),
            None => None,
        },
        None => None,
    };
    let length_bars = read_millionths(json, "lengthBars");
    let length_beats = read_millionths(json, "lengthBeats");
    let items: Option<&Vec<serde_json::Value>> = match json_get(json, "notes") {
        Some(member) => member.as_array(),
        None => None,
    };
    let notes: Option<Vec<NotePayload>> = match items {
        Some(items) => {
            let mut notes: Vec<NotePayload> = Vec::new();
            let mut index: usize = 0;
            while index < items.len()
                invariant
                    index <= items.len(),
                    notes@.len() == index,
                    forall|i: int| 0 <= i < index ==> notes@[i] == note_payload_of(items@[i]),
                decreases items.len() - index,
            {
                notes.push(note_payload_from_json(&items[index]));
                index = index + 1;
            }
            proof {
                assert(notes@ =~= Seq::new(items@.len(), |i: int| note_payload_of(items@[i])));
            }
            Some(notes)
        },
        None => None,
    };
    ProgramPayload { name, length_bars, length_beats, notes }
}

/// Picks the staged program out of the text of a registration response.
pub fn staged_program_from_response(response: &str) -> (program: Option<serde_json::Value>)
    ensures
        program == staged_program_in(response@),
{
    match json_parse(response) {
        Ok(document) => match json_get(&document, "program") {
            Some(program) => if program.is_null() {
                None
            } else {
                Some(program.clone())
            },
            None => None,
        },
        Err(_) => None,
    }
}

impl StagedProgram {
    /// Replaces the program by what the JSON value describes.
    ///
    /// The load fails, and leaves the program as it was, exactly when the
    /// value has no member `notes` that is an array.
    pub fn load_from_json(&mut self, json: &serde_json::Value) -> (ok: bool)
        ensures
            ok == (payload_of(*json).notes is Some),
            ok ==> final(self)@ == loaded_from(old(self)@, payload_of(*json)),
            !ok ==> final(self)@ == old(self)@,
    {
        let payload = payload_from_json(json);
        self.load(&payload)
    }
}

} // verus!
