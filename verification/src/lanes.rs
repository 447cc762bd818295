//! The lane-paired state engine: the same permutation with the four words
//! packed as two lanes A = [v0, v2] and B = [v1, v3], the layout a
//! two-lane vector register would hold. The round is computed as two
//! structurally identical half-rounds with rotate pairs (13, 16) and
//! (17, 21), interleaved with a 32-bit rotate-and-swap of the A lane.
//! Every operation carries the same contract over the logical [`Words`]
//! model as the scalar engine, so the two realizations are bit-identical
//! on every input.
use crate::words::{
    finalize_words, half_round, ingest_word, init_words, lemma_round_via_half_rounds, rotl_word,
    sip_round, sip_rounds, Words, SIPHASH_MAG1, SIPHASH_MAG2, SIPHASH_MAG3, SIPHASH_MAG4,
};
use vstd::prelude::*;

verus! {

/// The SipHash state in paired-lane layout: `a0, a1` hold lane A =
/// [v0, v2] and `b0, b1` hold lane B = [v1, v3].
#[derive(Clone, Copy, Debug)]
pub struct PairedSipHashState {
    a0: u64,
    a1: u64,
    b0: u64,
    b1: u64,
}

impl View for PairedSipHashState {
    type V = Words;

    closed spec fn view(&self) -> Words {
        Words { v0: self.a0, v1: self.b0, v2: self.a1, v3: self.b1 }
    }
}

impl PairedSipHashState {
    /// Initialize the paired-lane state from the two key words via the key
    /// schedule; lane A receives (k0 xor M1, k0 xor M3), lane B receives
    /// (k1 xor M2, k1 xor M4).
    pub fn from_keys(k0: u64, k1: u64) -> (s: Self)
        ensures
            s@ == init_words(k0, k1),
    {
        PairedSipHashState {
            a0: k0 ^ SIPHASH_MAG1,
            a1: k0 ^ SIPHASH_MAG3,
            b0: k1 ^ SIPHASH_MAG2,
            b1: k1 ^ SIPHASH_MAG4,
        }
    }

    /// Rebuild a paired-lane state from the logical four-word array.
    pub fn from_state(state: [u64; 4]) -> (s: Self)
        ensures
            s@ == (Words { v0: state[0], v1: state[1], v2: state[2], v3: state[3] }),
    {
        PairedSipHashState { a0: state[0], a1: state[2], b0: state[1], b1: state[3] }
    }

    /// Expose the logical four-word array, in canonical order regardless of
    /// the lane packing.
    pub fn inspect_state(&self) -> (state: [u64; 4])
        ensures
            state@ =~= seq![self@.v0, self@.v1, self@.v2, self@.v3],
    {
        [self.a0, self.b0, self.a1, self.b1]
    }

    /// Xor a message word into `v3` (the high half of lane B).
    #[inline]
    pub fn update_before_rounds(&mut self, word: u64)
        ensures
            final(self)@ == (Words { v3: old(self)@.v3 ^ word, ..old(self)@ }),
    {
        self.b1 = self.b1 ^ word;
    }

    /// Xor a message word into `v0` (the low half of lane A).
    #[inline]
    pub fn update_after_rounds(&mut self, word: u64)
        ensures
            final(self)@ == (Words { v0: old(self)@.v0 ^ word, ..old(self)@ }),
    {
        self.a0 = self.a0 ^ word;
    }

    /// Xor the constant 0xff into `v2` (the high half of lane A).
    #[inline]
    pub fn update_before_final(&mut self)
        ensures
            final(self)@ == (Words { v2: old(self)@.v2 ^ 0xff, ..old(self)@ }),
    {
        self.a1 = self.a1 ^ 0xff;
    }

    /// One half-round over the paired lanes: lanewise add of B into A,
    /// lanewise rotate of B by (r0, r1) and xor with A, then the 32-bit
    /// rotate-and-swap of A that sets up the next half-round.
    #[inline]
    fn half_round_step(&mut self, r0: u64, r1: u64)
        requires
            0 < r0 < 64,
            0 < r1 < 64,
        ensures
            final(self)@ == half_round(old(self)@, r0, r1),
    {
        self.a0 = self.a0.wrapping_add(self.b0);
        self.a1 = self.a1.wrapping_add(self.b1);
        self.b0 = rotl_word(self.b0, r0) ^ self.a0;
        self.b1 = rotl_word(self.b1, r1) ^ self.a1;
        let swapped = rotl_word(self.a0, 32);
        self.a0 = self.a1;
        self.a1 = swapped;
    }

    /// One canonical round, computed as the two half-rounds with rotate
    /// pairs (13, 16) and (17, 21). The contract is the same as the scalar
    /// engine's: the pairing is a layout strategy, not a semantic change.
    #[inline]
    pub fn round(&mut self)
        ensures
            final(self)@ == sip_round(old(self)@),
    {
        proof {
            lemma_round_via_half_rounds(old(self)@);
        }
        self.half_round_step(13, 16);
        self.half_round_step(17, 21);
    }

    /// Fold the four words together with xor, consuming the state.
    #[inline]
    pub fn finish(self) -> (r: u64)
        ensures
            r == self@.v0 ^ self@.v1 ^ self@.v2 ^ self@.v3,
    {
        let x0 = self.a0;
        let x1 = self.a1;
        let y0 = self.b0;
        let y1 = self.b1;
        let lo = x0 ^ y0;
        let hi = x1 ^ y1;
        assert(lo ^ hi == x0 ^ y0 ^ x1 ^ y1) by (bit_vector)
            requires
                lo == x0 ^ y0,
                hi == x1 ^ y1,
        ;
        lo ^ hi
    }

    /// Absorb one message word: xor into `v3`, `R` rounds, xor into `v0`.
    #[inline]
    pub fn update_and_round<const R: usize>(&mut self, val: u64)
        ensures
            final(self)@ == ingest_word(old(self)@, val, R as nat),
    {
        self.update_before_rounds(val);
        let ghost mid = self@;
        let mut i: usize = 0;
        while i < R
            invariant
                i <= R,
                self@ == sip_rounds(mid, i as nat),
            decreases R - i,
        {
            self.round();
            i = i + 1;
        }
        self.update_after_rounds(val);
    }

    /// Finalize: xor 0xff into `v2`, `R` rounds, fold the words with xor.
    /// The state left behind is spent; callers keep hashing on a copy.
    #[inline]
    pub fn update_and_final<const R: usize>(&mut self) -> (r: u64)
        ensures
            r == finalize_words(old(self)@, R as nat),
    {
        self.update_before_final();
        let ghost mid = self@;
        let mut i: usize = 0;
        while i < R
            invariant
                i <= R,
                self@ == sip_rounds(mid, i as nat),
            decreases R - i,
        {
            self.round();
            i = i + 1;
        }
        let s = *self;
        s.finish()
    }
}

} // verus!
