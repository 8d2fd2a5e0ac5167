//! Per-pitch record of the notes that are sounding right now.
//!
//! The scheduler pairs every note-on with a later note-off. To do that without
//! any heap-backed set it keeps one flag per pitch (two 64-bit words) and, for
//! each flagged pitch, the beat at which the note is due to stop.

use vstd::prelude::*;

verus! {

/// Number of distinct pitches the tracker can hold (0 through 127).
pub const PITCH_COUNT: u8 = 128;

/// Which pitches are sounding, and when each of them is due to stop.
///
/// The view is a map from every sounding pitch to its end beat (in ticks).
/// The end beat stored for a pitch that is not sounding is not observable.
pub struct ActiveNotes {
    playing: [u64; 2],
    end_beats: [i64; 128],
}

/// Whether every pitch of a map of sounding pitches is one the tracker can
/// hold.
pub open spec fn pitches_in_range(sounding: Map<u8, i64>) -> bool {
    forall|pitch: u8| #[trigger] sounding.dom().contains(pitch) ==> pitch < PITCH_COUNT
}

/// Whether bit number `bit` of `word` is one.
pub open spec fn bit_is_set(word: u64, bit: u64) -> bool {
    (word & (1u64 << bit)) != 0
}

proof fn lemma_set_bit(word: u64, bit: u64)
    requires
        bit < 64,
    ensures
        forall|other: u64|
            other < 64 ==> (#[trigger] bit_is_set(word | (1u64 << bit), other) <==> (other == bit
                || bit_is_set(word, other))),
{
    assert forall|other: u64| other < 64 implies (#[trigger] bit_is_set(
        word | (1u64 << bit),
        other,
    ) <==> (other == bit || bit_is_set(word, other))) by {
        assert(((word | (1u64 << bit)) & (1u64 << other)) != 0 <==> (other == bit || (word & (1u64
            << other)) != 0)) by (bit_vector)
            requires
                bit < 64,
                other < 64,
        ;
    }
}

proof fn lemma_clear_bit(word: u64, bit: u64)
    requires
        bit < 64,
    ensures
        forall|other: u64|
            other < 64 ==> (#[trigger] bit_is_set(word & !(1u64 << bit), other) <==> (other != bit
                && bit_is_set(word, other))),
{
    assert forall|other: u64| other < 64 implies (#[trigger] bit_is_set(
        word & !(1u64 << bit),
        other,
    ) <==> (other != bit && bit_is_set(word, other))) by {
        assert(((word & !(1u64 << bit)) & (1u64 << other)) != 0 <==> (other != bit && (word & (1u64
            << other)) != 0)) by (bit_vector)
            requires
                bit < 64,
                other < 64,
        ;
    }
}

proof fn lemma_zero_word(bit: u64)
    requires
        bit < 64,
    ensures
        !bit_is_set(0u64, bit),
{
    assert((0u64 & (1u64 << bit)) == 0) by (bit_vector);
}

impl ActiveNotes {
    /// Whether `pitch` is flagged as sounding.
    pub closed spec fn sounding(&self, pitch: u8) -> bool {
        pitch < 128 && bit_is_set(self.playing[pitch as int / 64], (pitch as int % 64) as u64)
    }

    /// The end beat stored for `pitch`; meaningful only while it is sounding.
    pub closed spec fn stored_end(&self, pitch: u8) -> i64 {
        self.end_beats[pitch as int]
    }

    /// Only pitches below `PITCH_COUNT` ever sound.
    pub proof fn lemma_pitches_in_range(&self)
        ensures
            pitches_in_range(self@),
    {
    }

    /// A tracker in which nothing is sounding.
    pub fn new() -> (notes: ActiveNotes)
        ensures
            notes@ == Map::<u8, i64>::empty(),
    {
        let notes = ActiveNotes { playing: [0u64;2], end_beats: [0i64;128] };
        proof {
            assert forall|pitch: u8| !notes.sounding(pitch) by {
                if pitch < 128 {
                    lemma_zero_word((pitch as int % 64) as u64);
                }
            }
            assert(notes@ =~= Map::<u8, i64>::empty());
        }
        notes
    }

    /// Whether a note of this pitch is sounding.
    pub fn is_playing(&self, pitch: u8) -> (on: bool)
        requires
            pitch < PITCH_COUNT,
        ensures
            on == self@.dom().contains(pitch),
    {
        let index: usize = pitch as usize;
        let word: usize = index / 64;
        let bit: usize = index % 64;
        (self.playing[word] & (1u64 << bit)) != 0
    }

    /// The beat at which the sounding note of this pitch is due to stop.
    pub fn end_beat(&self, pitch: u8) -> (end: i64)
        requires
            pitch < PITCH_COUNT,
        ensures
            self@.dom().contains(pitch) ==> end == self@[pitch],
    {
        self.end_beats[pitch as usize]
    }

    /// Marks `pitch` as sounding until `end_beat`, replacing any earlier entry.
    pub fn set_playing(&mut self, pitch: u8, end_beat: i64)
        requires
            pitch < PITCH_COUNT,
        ensures
            final(self)@ == old(self)@.insert(pitch, end_beat),
    {
        let index: usize = pitch as usize;
        let word: usize = index / 64;
        let bit: usize = index % 64;
        let before: u64 = self.playing[word];
        self.playing[word] = before | (1u64 << bit);
        self.end_beats[index] = end_beat;
        proof {
            lemma_set_bit(before, bit as u64);
            assert forall|other: u8|
                #![trigger self.sounding(other)]
                self.sounding(other) <==> (other == pitch || old(self).sounding(other)) by {
                if other < 128 && other as int / 64 == word as int {
                    assert(bit_is_set(before | (1u64 << bit), (other as int % 64) as u64) <==> ((
                    other as int % 64) as u64 == bit as u64 || bit_is_set(
                        before,
                        (other as int % 64) as u64,
                    )));
                }
            }
            assert(self@ =~= old(self)@.insert(pitch, end_beat));
        }
    }

    /// Marks `pitch` as silent.
    pub fn clear_playing(&mut self, pitch: u8)
        requires
            pitch < PITCH_COUNT,
        ensures
            final(self)@ == old(self)@.remove(pitch),
    {
        let index: usize = pitch as usize;
        let word: usize = index / 64;
        let bit: usize = index % 64;
        let before: u64 = self.playing[word];
        self.playing[word] = before & !(1u64 << bit);
        proof {
            lemma_clear_bit(before, bit as u64);
            assert forall|other: u8|
                #![trigger self.sounding(other)]
                self.sounding(other) <==> (other != pitch && old(self).sounding(other)) by {
                if other < 128 && other as int / 64 == word as int {
                    assert(bit_is_set(before & !(1u64 << bit), (other as int % 64) as u64) <==> ((
                    other as int % 64) as u64 != bit as u64 && bit_is_set(
                        before,
                        (other as int % 64) as u64,
                    )));
                }
            }
            assert(self@ =~= old(self)@.remove(pitch));
        }
    }
}

impl View for ActiveNotes {
    type V = Map<u8, i64>;

    closed spec fn view(&self) -> Map<u8, i64> {
        Map::new(|pitch: u8| self.sounding(pitch), |pitch: u8| self.stored_end(pitch))
    }
}

impl Default for ActiveNotes {
    fn default() -> (notes: ActiveNotes)
        ensures
            notes@ == Map::<u8, i64>::empty(),
    {
        ActiveNotes::new()
    }
}

} // verus!
