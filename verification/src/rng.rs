//! A pseudorandom word stream derived from the raw hasher: each tick
//! absorbs a fixed ingest word, emits the current digest, and absorbs a
//! second fixed word, so successive outputs come from ever-different
//! states. Key material comes from the caller; this module generates no
//! entropy of its own.
use crate::encoding::message_words;
use crate::raw::RawSipHasher;
use crate::words::{finalize_words, ingest_word, ingest_words, init_words, rotr, rotr_word, Words};
use vstd::prelude::*;

verus! {

/// A deterministic generator of 64-bit words built on [`RawSipHasher`].
#[derive(Clone, Copy, Debug)]
pub struct SiphashRng<const C: usize, const D: usize>(RawSipHasher<C, D>);

impl<const C: usize, const D: usize> View for SiphashRng<C, D> {
    type V = Words;

    closed spec fn view(&self) -> Words {
        self.0@
    }
}

impl<const C: usize, const D: usize> SiphashRng<C, D> {
    /// Start a stream from the two key words via the key schedule.
    pub fn new_with_keys(k0: u64, k1: u64) -> (g: Self)
        ensures
            g@ == init_words(k0, k1),
    {
        SiphashRng(RawSipHasher::from_keys(k0, k1))
    }

    /// Wrap an existing raw hasher, continuing from its state.
    pub fn from_raw(raw: RawSipHasher<C, D>) -> (g: Self)
        ensures
            g@ == raw@,
    {
        SiphashRng(raw)
    }

    /// Derive the two key words from one seed word: the seed and its
    /// 31-bit right rotation, each xored with a fixed constant.
    pub fn from_seed(seed: u64) -> (g: Self)
        ensures
            g@ == init_words(seed ^ 0x6a09e667f3bcc908, rotr(seed, 31) ^ 0xbb67ae8584caa73b),
    {
        Self::new_with_keys(seed ^ 0x6a09e667f3bcc908, rotr_word(seed, 31) ^ 0xbb67ae8584caa73b)
    }

    /// Seed a stream from arbitrary bytes under fixed keys: the byte
    /// count is absorbed as one word, then the bytes themselves with the
    /// zero-padded framing.
    pub fn from_word_seed(st: &[u8]) -> (g: Self)
        ensures
            g@ == ingest_words(
                ingest_word(
                    init_words(0x3c6ef372fe94f82b, 0xa54ff53a5f1d36f1),
                    st@.len() as u64,
                    C as nat,
                ),
                message_words(st@),
                C as nat,
            ),
    {
        let mut base = RawSipHasher::<C, D>::from_keys(0x3c6ef372fe94f82b, 0xa54ff53a5f1d36f1);
        base.update(st.len() as u64);
        base.update_from_bytes(st);
        SiphashRng(base)
    }

    /// One step of the stream: absorb `word0`, emit the digest of the
    /// state reached, then absorb `word1` so the next step starts from a
    /// fresh state.
    pub fn tick_with_ingest(&mut self, word0: u64, word1: u64) -> (val: u64)
        ensures
            val == finalize_words(ingest_word(old(self)@, word0, C as nat), D as nat),
            final(self)@ == ingest_word(
                ingest_word(old(self)@, word0, C as nat),
                word1,
                C as nat,
            ),
    {
        self.0.update(word0);
        let val = self.0.finish();
        self.0.update(word1);
        val
    }

    /// One step of the stream with the two fixed ingest constants.
    pub fn tick(&mut self) -> (val: u64)
        ensures
            val == finalize_words(
                ingest_word(old(self)@, 0x510e527fade682d1, C as nat),
                D as nat,
            ),
            final(self)@ == ingest_word(
                ingest_word(old(self)@, 0x510e527fade682d1, C as nat),
                0x9b05688c2b3e6c1f,
                C as nat,
            ),
    {
        self.tick_with_ingest(0x510e527fade682d1, 0x9b05688c2b3e6c1f)
    }

    /// Borrow the underlying raw hasher mutably, for custom framing by a
    /// collaborator.
    pub fn raw_mut(&mut self) -> (r: &mut RawSipHasher<C, D>)
        ensures
            r@ == old(self)@,
    {
        &mut self.0
    }

    /// Borrow the underlying raw hasher, for inspection or serialization
    /// by a collaborator.
    pub fn raw(&self) -> (r: &RawSipHasher<C, D>)
        ensures
            r@ == self@,
    {
        &self.0
    }
}

} // verus!
