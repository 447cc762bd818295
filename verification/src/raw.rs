//! The word-granular raw hasher: one 64-bit message word at a time, `C`
//! compression rounds per word and `D` finalization rounds, both baked
//! into the type. Byte input is framed into little-endian words with
//! either zero padding (no trailing length block — the documented
//! divergence for fixed-width-word workloads) or the prefix-free 0xff
//! string padding.
use crate::encoding::{ff_pad, message_words, word_from_slice};
use crate::state::SipHashState;
use crate::words::{
    finalize_words, ingest_word, ingest_words, init_words, lemma_ingest_words_push, Words,
};
use vstd::prelude::*;
use vstd::string::StringSliceAdditionalSpecFns;

verus! {

/// A SipHash-C-D hasher fed whole 64-bit words.
#[derive(Clone, Copy, Debug)]
pub struct RawSipHasher<const C: usize, const D: usize>(SipHashState);

impl<const C: usize, const D: usize> RawSipHasher<C, D> {
    /// Initialize from the two key words via the key schedule.
    pub fn from_keys(k0: u64, k1: u64) -> (h: Self)
        ensures
            h@ == init_words(k0, k1),
    {
        RawSipHasher(SipHashState::from_keys(k0, k1))
    }

    /// Wrap an already-initialized state engine.
    pub fn from_state(state: SipHashState) -> (h: Self)
        ensures
            h@ == state@,
    {
        RawSipHasher(state)
    }

    /// Borrow the underlying state engine, for inspection or
    /// serialization by a collaborator.
    pub fn state(&self) -> (s: &SipHashState)
        ensures
            s@ == self@,
    {
        &self.0
    }

    /// Absorb one message word: `C` compression rounds.
    #[inline]
    pub fn update(&mut self, word: u64)
        ensures
            final(self)@ == ingest_word(old(self)@, word, C as nat),
    {
        self.0.update_and_round::<C>(word)
    }

    /// The digest of everything absorbed so far: finalization on a copy,
    /// so the hasher itself stays usable, and repeated calls without an
    /// intervening update return the same value.
    #[inline]
    pub fn finish(&self) -> (r: u64)
        ensures
            r == finalize_words(self@, D as nat),
    {
        let mut state = self.0;
        state.update_and_final::<D>()
    }

    /// Absorb a byte sequence as little-endian words, a trailing partial
    /// word zero-padded. An exact multiple of eight bytes gains no
    /// padding block at all, unlike the byte-stream hasher's canonical
    /// framing: fixed-width-word callers pay for no length suffix.
    pub fn update_from_bytes(&mut self, bytes: &[u8])
        ensures
            final(self)@ == ingest_words(old(self)@, message_words(bytes@), C as nat),
    {
        let ghost m0 = self@;
        let ghost all = message_words(bytes@);
        let n: usize = bytes.len();
        let mut i: usize = 0;
        let mut k: usize = 0;
        while n - i >= 8
            invariant
                i == 8 * k,
                i <= n,
                n == bytes@.len(),
                k <= all.len(),
                all == message_words(bytes@),
                self@ == ingest_words(m0, all.take(k as int), C as nat),
            decreases n - i,
        {
            let w = word_from_slice(bytes, i, 8);
            proof {
                assert(8 * k + 8 <= bytes@.len());
                assert(all.len() == (bytes@.len() + 7) / 8);
                assert(k < all.len());
                assert(all[k as int] == w);
                lemma_ingest_words_push(m0, all.take(k as int), w, C as nat);
                assert(all.take(k as int).push(all[k as int]) =~= all.take(k as int + 1));
            }
            self.update(w);
            i = i + 8;
            k = k + 1;
        }
        if i < n {
            let w = word_from_slice(bytes, i, n - i);
            proof {
                assert(all.len() == (bytes@.len() + 7) / 8);
                assert(k == all.len() - 1);
                assert(all[k as int] == w);
                lemma_ingest_words_push(m0, all.take(k as int), w, C as nat);
                assert(all.take(k as int).push(all[k as int]) =~= all.take(k as int + 1));
                assert(all.take(k as int + 1) =~= all);
            }
            self.update(w);
        } else {
            proof {
                assert(all.len() == (bytes@.len() + 7) / 8);
                assert(k == all.len());
                assert(all.take(k as int) =~= all);
            }
        }
    }

    /// Absorb a string's UTF-8 bytes with the prefix-free framing: the
    /// trailing partial word — an empty one included — is padded with
    /// 0xff bytes, which no UTF-8 encoding contains, so no string's
    /// encoding is a byte-prefix of a different string's.
    pub fn update_from_string(&mut self, text: &str)
        ensures
            final(self)@ == ingest_words(
                old(self)@,
                message_words(ff_pad(text.spec_bytes())),
                C as nat,
            ),
    {
        let ghost m0 = self@;
        let bytes: &[u8] = text.as_bytes();
        let ghost padded = ff_pad(bytes@);
        let ghost all = message_words(padded);
        let n: usize = bytes.len();
        let mut i: usize = 0;
        let mut k: usize = 0;
        proof {
            assert(padded.len() % 8 == 0);
            assert(bytes@.len() < padded.len() <= bytes@.len() + 8);
            assert(forall|j: int| 0 <= j < bytes@.len() ==> padded[j] == bytes@[j]);
            assert(forall|j: int| bytes@.len() <= j < padded.len() ==> padded[j] == 0xffu8);
        }
        while n - i >= 8
            invariant
                i == 8 * k,
                i <= n,
                n == bytes@.len(),
                padded == ff_pad(bytes@),
                bytes@.len() < padded.len() <= bytes@.len() + 8,
                forall|j: int| 0 <= j < bytes@.len() ==> padded[j] == bytes@[j],
                all == message_words(padded),
                k <= all.len(),
                self@ == ingest_words(m0, all.take(k as int), C as nat),
            decreases n - i,
        {
            let w = word_from_slice(bytes, i, 8);
            proof {
                assert(all.len() == (padded.len() + 7) / 8);
                assert(k < all.len());
                assert(bytes@.subrange(8 * k, 8 * k + 8) =~= padded.subrange(8 * k, 8 * k + 8));
                assert(all[k as int] == w);
                lemma_ingest_words_push(m0, all.take(k as int), w, C as nat);
                assert(all.take(k as int).push(all[k as int]) =~= all.take(k as int + 1));
            }
            self.update(w);
            i = i + 8;
            k = k + 1;
        }
        let rem: usize = n - i;
        let mut block: [u8; 8] = [0xffu8, 0xffu8, 0xffu8, 0xffu8, 0xffu8, 0xffu8, 0xffu8, 0xffu8];
        let mut j: usize = 0;
        while j < rem
            invariant
                j <= rem,
                rem == n - 8 * k,
                rem < 8,
                i == 8 * k,
                n == bytes@.len(),
                forall|t: int| 0 <= t < j ==> block@[t] == bytes@[8 * (k as int) + t],
                forall|t: int| j <= t < 8 ==> block@[t] == 0xffu8,
            decreases rem - j,
        {
            block[j] = bytes[i + j];
            j = j + 1;
        }
        let w = word_from_slice(block.as_slice(), 0, 8);
        proof {
            assert(all.len() == (padded.len() + 7) / 8);
            assert(k == all.len() - 1);
            assert(padded.len() == 8 * k + 8);
            assert(block@.subrange(0, 8) =~= padded.subrange(8 * k, 8 * k + 8));
            assert(all[k as int] == w);
            lemma_ingest_words_push(m0, all.take(k as int), w, C as nat);
            assert(all.take(k as int).push(all[k as int]) =~= all.take(k as int + 1));
            assert(all.take(k as int + 1) =~= all);
        }
        self.update(w);
    }
}

impl<const C: usize, const D: usize> View for RawSipHasher<C, D> {
    type V = Words;

    closed spec fn view(&self) -> Words {
        self.0@
    }
}

} // verus!
