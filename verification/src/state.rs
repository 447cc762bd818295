//! The scalar state engine: four independent 64-bit words. This is the
//! mandatory reference realization; its view is the logical [`Words`]
//! four-tuple itself, and every operation's contract states exactly which
//! model transition it performs.
use crate::words::{
    finalize_words, ingest_word, init_words, rotl_word, sip_round, sip_rounds, Words, SIPHASH_MAG1,
    SIPHASH_MAG2, SIPHASH_MAG3, SIPHASH_MAG4,
};
use vstd::prelude::*;

verus! {

/// The raw SipHash state, stored as four independent 64-bit words.
#[derive(Clone, Copy, Debug)]
pub struct SipHashState {
    v0: u64,
    v1: u64,
    v2: u64,
    v3: u64,
}

impl View for SipHashState {
    type V = Words;

    closed spec fn view(&self) -> Words {
        Words { v0: self.v0, v1: self.v1, v2: self.v2, v3: self.v3 }
    }
}

impl SipHashState {
    /// Initialize the state from the two key words via the key schedule.
    pub fn from_keys(k0: u64, k1: u64) -> (s: Self)
        ensures
            s@ == init_words(k0, k1),
    {
        SipHashState {
            v0: k0 ^ SIPHASH_MAG1,
            v1: k1 ^ SIPHASH_MAG2,
            v2: k0 ^ SIPHASH_MAG3,
            v3: k1 ^ SIPHASH_MAG4,
        }
    }

    /// Rebuild a state from its logical four-word array, as produced by
    /// [`Self::inspect_state`].
    pub fn from_state(state: [u64; 4]) -> (s: Self)
        ensures
            s@ == (Words { v0: state[0], v1: state[1], v2: state[2], v3: state[3] }),
    {
        SipHashState { v0: state[0], v1: state[1], v2: state[2], v3: state[3] }
    }

    /// Expose the logical four-word array of the state, in canonical order.
    pub fn inspect_state(&self) -> (state: [u64; 4])
        ensures
            state@ =~= seq![self@.v0, self@.v1, self@.v2, self@.v3],
    {
        [self.v0, self.v1, self.v2, self.v3]
    }

    /// Xor a message word into `v3`, ahead of the compression rounds.
    #[inline]
    pub fn update_before_rounds(&mut self, word: u64)
        ensures
            final(self)@ == (Words { v3: old(self)@.v3 ^ word, ..old(self)@ }),
    {
        self.v3 = self.v3 ^ word;
    }

    /// Xor a message word into `v0`, after the compression rounds.
    #[inline]
    pub fn update_after_rounds(&mut self, word: u64)
        ensures
            final(self)@ == (Words { v0: old(self)@.v0 ^ word, ..old(self)@ }),
    {
        self.v0 = self.v0 ^ word;
    }

    /// Xor the constant 0xff into `v2`, ahead of the finalization rounds.
    #[inline]
    pub fn update_before_final(&mut self)
        ensures
            final(self)@ == (Words { v2: old(self)@.v2 ^ 0xff, ..old(self)@ }),
    {
        self.v2 = self.v2 ^ 0xff;
    }

    /// One canonical add-rotate-xor round.
    #[inline]
    pub fn round(&mut self)
        ensures
            final(self)@ == sip_round(old(self)@),
    {
        self.v0 = self.v0.wrapping_add(self.v1);
        self.v1 = rotl_word(self.v1, 13);
        self.v1 = self.v1 ^ self.v0;
        self.v0 = rotl_word(self.v0, 32);
        self.v2 = self.v2.wrapping_add(self.v3);
        self.v3 = rotl_word(self.v3, 16);
        self.v3 = self.v3 ^ self.v2;
        self.v0 = self.v0.wrapping_add(self.v3);
        self.v3 = rotl_word(self.v3, 21);
        self.v3 = self.v3 ^ self.v0;
        self.v2 = self.v2.wrapping_add(self.v1);
        self.v1 = rotl_word(self.v1, 17);
        self.v1 = self.v1 ^ self.v2;
        self.v2 = rotl_word(self.v2, 32);
    }

    /// Fold the four words together with xor, consuming the state.
    #[inline]
    pub fn finish(self) -> (r: u64)
        ensures
            r == self@.v0 ^ self@.v1 ^ self@.v2 ^ self@.v3,
    {
        self.v0 ^ self.v1 ^ self.v2 ^ self.v3
    }

    /// Absorb one message word: xor into `v3`, `R` rounds, xor into `v0`.
    #[inline]
    pub fn update_and_round<const R: usize>(&mut self, val: u64)
        ensures
            final(self)@ == ingest_word(old(self)@, val, R as nat),
    {
        self.update_before_rounds(val);
        let ghost mid = self@;
        let mut i: usize = 0;
        while i < R
            invariant
                i <= R,
                self@ == sip_rounds(mid, i as nat),
            decreases R - i,
        {
            self.round();
            i = i + 1;
        }
        self.update_after_rounds(val);
    }

    /// Finalize: xor 0xff into `v2`, `R` rounds, fold the words with xor.
    /// The state left behind is spent; callers keep hashing on a copy.
    #[inline]
    pub fn update_and_final<const R: usize>(&mut self) -> (r: u64)
        ensures
            r == finalize_words(old(self)@, R as nat),
    {
        self.update_before_final();
        let ghost mid = self@;
        let mut i: usize = 0;
        while i < R
            invariant
                i <= R,
                self@ == sip_rounds(mid, i as nat),
            decreases R - i,
        {
            self.round();
            i = i + 1;
        }
        let s = *self;
        s.finish()
    }
}

} // verus!
