//! Musical time as whole ticks.
//!
//! Every beat position, note length and loop length in this crate is a signed
//! count of ticks; a beat is one million ticks. Whole numbers keep the
//! scheduler's comparisons exact: the position at which a note starts and the
//! position the host reports are either equal or they are not.

use vstd::prelude::*;

verus! {

/// Ticks in one beat.
pub const TICKS_PER_BEAT: i64 = 1_000_000;

/// Beats in one bar of a program.
pub const BEATS_PER_BAR: i64 = 4;

/// A note whose start lies at most this far ahead of the block's position is
/// triggered in that block (a hundredth of a beat).
pub const TRIGGER_SLACK: i64 = 10_000;

/// A position that falls more than this far behind the previous one counts as
/// a loop repeat or a seek rather than as jitter (one beat).
pub const WRAP_MARGIN: i64 = 1_000_000;

/// Cursor value that stands for "no previous position" (minus one beat).
pub const NO_POSITION: i64 = -1_000_000;

/// Largest start or length a stored note may have, and the largest loop length.
pub const MAX_TICKS: i64 = 4_000_000_000_000_000_000;

/// Full-scale velocity; stored velocities run from zero to this value.
pub const VELOCITY_FULL: u32 = 1_000_000;

/// `value` limited to the range from `low` to `high`.
pub open spec fn clamp_spec(value: int, low: int, high: int) -> int {
    if value < low {
        low
    } else if value > high {
        high
    } else {
        value
    }
}

/// `value` limited to the range from `low` to `high`.
pub fn clamp(value: i64, low: i64, high: i64) -> (limited: i64)
    requires
        low <= high,
    ensures
        limited == clamp_spec(value as int, low as int, high as int),
{
    if value < low {
        low
    } else if value > high {
        high
    } else {
        value
    }
}

/// The position `pos` carried into a loop of `length` ticks: the remainder of
/// the division that rounds toward zero, so a position before zero stays
/// negative.
pub open spec fn wrap_beat(pos: int, length: int) -> int
    recommends
        length > 0,
{
    if pos >= 0 {
        pos % length
    } else {
        -((-pos) % length)
    }
}

/// The position `pos` carried into a loop of `length` ticks.
pub fn program_beat(pos: i64, length: i64) -> (beat: i64)
    requires
        length > 0,
    ensures
        beat == wrap_beat(pos as int, length as int),
        -length < beat < length,
{
    pos % length
}

} // verus!
