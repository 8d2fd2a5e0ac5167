//! What the interface computes before it draws: positions as bar and beat,
//! times as minutes and seconds, and a few decisions about labels.

use crate::program::ProgramNote;
use crate::time::{wrap_beat, BEATS_PER_BAR, TICKS_PER_BEAT};
use vstd::prelude::*;

verus! {

/// A position as the interface shows it.
#[derive(Clone, Copy, Debug, PartialEq, Eq, Structural)]
pub struct BarBeat {
    /// The bar, counted from one.
    pub bar: i64,
    /// The beat within the bar in ticks, counted from one beat.
    pub beat: i64,
}

/// Minutes and the rest of a time.
#[derive(Clone, Copy, Debug, PartialEq, Eq, Structural)]
pub struct MinSec {
    /// Whole minutes, rounded down.
    pub minutes: i64,
    /// What is left over, in microseconds.
    pub micros: i64,
}

/// The kind of track a plugin sits on.
#[derive(Clone, Copy, Debug, PartialEq, Eq, Structural)]
pub enum TrackKind {
    Master,
    Return,
    Bus,
    Regular,
}

/// The position `beats` (in ticks) in a meter of `beats_per_bar` beats: the
/// bar is the number of whole bars before it, rounded down, plus one; the
/// beat is what is left over (negative before zero), plus one beat.
pub open spec fn bar_beat_of(beats: int, beats_per_bar: int) -> BarBeat {
    BarBeat {
        bar: (beats / (beats_per_bar * TICKS_PER_BEAT) + 1) as i64,
        beat: (wrap_beat(beats, beats_per_bar * TICKS_PER_BEAT) + TICKS_PER_BEAT) as i64,
    }
}

/// The time `micros` in minutes and the rest.
pub open spec fn min_sec_of(micros: int) -> MinSec {
    MinSec { minutes: (micros / 60_000_000) as i64, micros: wrap_beat(micros, 60_000_000) as i64 }
}

/// The kind of a track from what the host reports: master before return
/// before bus.
pub open spec fn track_kind_of(master: bool, aux: bool, bus: bool) -> TrackKind {
    if master {
        TrackKind::Master
    } else if aux {
        TrackKind::Return
    } else if bus {
        TrackKind::Bus
    } else {
        TrackKind::Regular
    }
}

/// Division that rounds down, for a divisor of two or more.
fn floor_div(value: i64, by: i64) -> (quotient: i64)
    requires
        by >= 2,
    ensures
        quotient == value as int / by as int,
        -0x4000_0000_0000_0000 <= quotient <= 0x3fff_ffff_ffff_ffff,
{
    let toward_zero: i64 = value / by;
    let rest: i64 = value % by;
    proof {
        let size: int = if value >= 0 {
            value as int
        } else {
            -(value as int)
        };
        let whole = size / (by as int);
        let part = size % (by as int);
        vstd::arithmetic::div_mod::lemma_fundamental_div_mod(size, by as int);
        vstd::arithmetic::div_mod::lemma_mod_bound(size, by as int);
        vstd::arithmetic::div_mod::lemma_div_pos_is_pos(size, by as int);
        assert(2 * whole <= (by as int) * whole) by (nonlinear_arith)
            requires
                by >= 2,
                whole >= 0,
        ;
        if value >= 0 {
            assert(toward_zero == whole && rest == part);
        } else {
            assert(toward_zero == -whole && rest == -part);
            if part == 0 {
                assert(value as int == (-whole) * (by as int) + 0) by (nonlinear_arith)
                    requires
                        -(value as int) == (by as int) * whole + part,
                        part == 0,
                ;
                vstd::arithmetic::div_mod::lemma_fundamental_div_mod_converse(
                    value as int,
                    by as int,
                    -whole,
                    0,
                );
            } else {
                assert(value as int == (-whole - 1) * (by as int) + (by - part)) by (nonlinear_arith)
                    requires
                        -(value as int) == (by as int) * whole + part,
                ;
                vstd::arithmetic::div_mod::lemma_fundamental_div_mod_converse(
                    value as int,
                    by as int,
                    -whole - 1,
                    by - part,
                );
            }
        }
    }
    if rest < 0 {
        toward_zero - 1
    } else {
        toward_zero
    }
}

/// A position as bar and beat. `None` where the meter has no beats.
pub fn bar_and_beat(beats: i64, beats_per_bar: i32) -> (shown: Option<BarBeat>)
    ensures
        beats_per_bar <= 0 ==> shown is None,
        beats_per_bar > 0 ==> shown == Some(bar_beat_of(beats as int, beats_per_bar as int)),
{
    if beats_per_bar <= 0 {
        return None;
    }
    let bar_ticks: i64 = (beats_per_bar as i64) * TICKS_PER_BEAT;
    let bar: i64 = floor_div(beats, bar_ticks) + 1;
    let beat: i64 = beats % bar_ticks + TICKS_PER_BEAT;
    Some(BarBeat { bar, beat })
}

/// A position within a program as bar and beat, four beats to the bar.
pub fn program_bar_and_beat(beats: i64) -> (shown: BarBeat)
    ensures
        shown == bar_beat_of(beats as int, BEATS_PER_BAR as int),
{
    let bar: i64 = floor_div(beats, 4_000_000) + 1;
    let beat: i64 = beats % 4_000_000 + TICKS_PER_BEAT;
    BarBeat { bar, beat }
}

/// A time as minutes and the rest.
pub fn minutes_and_seconds(micros: i64) -> (shown: MinSec)
    ensures
        shown == min_sec_of(micros as int),
{
    MinSec { minutes: floor_div(micros, 60_000_000), micros: micros % 60_000_000 }
}

/// The kind of a track.
pub fn track_kind(master: bool, aux: bool, bus: bool) -> (kind: TrackKind)
    ensures
        kind == track_kind_of(master, aux, bus),
{
    if master {
        TrackKind::Master
    } else if aux {
        TrackKind::Return
    } else if bus {
        TrackKind::Bus
    } else {
        TrackKind::Regular
    }
}

/// Whether text on a track color is drawn dark: the color is a light one,
/// its three parts adding up to more than 384.
pub fn dark_text_on(red: u8, green: u8, blue: u8) -> (dark: bool)
    ensures
        dark == (red + green + blue > 384),
{
    (red as u32) + (green as u32) + (blue as u32) > 384
}

/// Whether the position within the program lies inside a note, so that the
/// interface highlights it.
pub fn note_is_current(note: &ProgramNote, program_beat: i64) -> (current: bool)
    ensures
        current == (note.start_beat <= program_beat < note.end_spec()),
{
    let end: i128 = note.start_beat as i128 + note.length_beats as i128;
    program_beat >= note.start_beat && (program_beat as i128) < end
}

} // verus!
