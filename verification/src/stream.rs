//! The byte-stream hasher: buffers a sub-word tail of up to seven bytes,
//! tracks the running total of bytes ever written, and reproduces the
//! canonical length-suffix framing on `finish`. Its behaviour is pinned
//! to a byte-at-a-time absorption model, so hashing a sequence in one
//! call and hashing it split at any index are provably the same.
use crate::encoding::{word_from_bytes, word_from_slice};
use crate::state::SipHashState;
use crate::words::{finalize_words, ingest_word, init_words, Words};
use vstd::prelude::*;

verus! {

/// The logical state of the byte-stream hasher: the four-word engine
/// state, the buffered tail of fewer than eight bytes, and the total
/// number of bytes ever written.
#[verifier::ext_equal]
pub ghost struct StreamModel {
    pub words: Words,
    pub tail: Seq<u8>,
    pub total: nat,
}

/// Absorbing one byte: it joins the tail, and a tail grown to exactly
/// eight bytes is flushed through the engine as one little-endian word
/// with `c` compression rounds.
pub open spec fn absorb_byte(m: StreamModel, b: u8, c: nat) -> StreamModel {
    let t = m.tail.push(b);
    if t.len() == 8 {
        StreamModel {
            words: ingest_word(m.words, word_from_bytes(t), c),
            tail: Seq::empty(),
            total: m.total + 1,
        }
    } else {
        StreamModel { words: m.words, tail: t, total: m.total + 1 }
    }
}

/// Absorbing a byte sequence, front to back.
pub open spec fn absorb_bytes(m: StreamModel, s: Seq<u8>, c: nat) -> StreamModel
    decreases s.len(),
{
    if s.len() == 0 {
        m
    } else {
        absorb_bytes(absorb_byte(m, s[0], c), s.drop_first(), c)
    }
}

/// Absorbing a sequence and then one more byte is absorbing the extended
/// sequence.
pub proof fn lemma_absorb_bytes_push(m: StreamModel, s: Seq<u8>, b: u8, c: nat)
    ensures
        absorb_bytes(m, s.push(b), c) == absorb_byte(absorb_bytes(m, s, c), b, c),
    decreases s.len(),
{
    if s.len() == 0 {
        assert(s.push(b)[0] == b);
        assert(s.push(b).drop_first() =~= Seq::<u8>::empty());
        assert(absorb_bytes(m, s.push(b), c) == absorb_bytes(
            absorb_byte(m, b, c),
            Seq::<u8>::empty(),
            c,
        ));
    } else {
        assert(s.push(b)[0] == s[0]);
        assert(s.push(b).drop_first() =~= s.drop_first().push(b));
        assert(absorb_bytes(m, s.push(b), c) == absorb_bytes(
            absorb_byte(m, s[0], c),
            s.drop_first().push(b),
            c,
        ));
        lemma_absorb_bytes_push(absorb_byte(m, s[0], c), s.drop_first(), b, c);
        assert(absorb_bytes(m, s, c) == absorb_bytes(absorb_byte(m, s[0], c), s.drop_first(), c));
    }
}

/// Incremental equivalence: absorbing a concatenation equals absorbing
/// the two halves one after the other — splitting a byte stream at any
/// index does not change where the words fall or what the engine sees.
pub proof fn lemma_absorb_bytes_concat(m: StreamModel, s1: Seq<u8>, s2: Seq<u8>, c: nat)
    ensures
        absorb_bytes(m, s1 + s2, c) == absorb_bytes(absorb_bytes(m, s1, c), s2, c),
    decreases s1.len(),
{
    if s1.len() == 0 {
        assert(s1 + s2 =~= s2);
    } else {
        assert((s1 + s2)[0] == s1[0]);
        assert((s1 + s2).drop_first() =~= s1.drop_first() + s2);
        assert(absorb_bytes(m, s1 + s2, c) == absorb_bytes(
            absorb_byte(m, s1[0], c),
            s1.drop_first() + s2,
            c,
        ));
        lemma_absorb_bytes_concat(absorb_byte(m, s1[0], c), s1.drop_first(), s2, c);
        assert(absorb_bytes(m, s1, c) == absorb_bytes(absorb_byte(m, s1[0], c), s1.drop_first(), c));
    }
}

/// The running total always grows by exactly the number of bytes absorbed.
pub proof fn lemma_absorb_bytes_total(m: StreamModel, s: Seq<u8>, c: nat)
    ensures
        absorb_bytes(m, s, c).total == m.total + s.len(),
    decreases s.len(),
{
    if s.len() == 0 {
    } else {
        lemma_absorb_bytes_total(absorb_byte(m, s[0], c), s.drop_first(), c);
    }
}

/// Absorbing too few bytes to fill the tail only extends the tail.
pub proof fn lemma_absorb_no_flush(m: StreamModel, s: Seq<u8>, c: nat)
    requires
        m.tail.len() + s.len() < 8,
    ensures
        absorb_bytes(m, s, c) == (StreamModel {
            words: m.words,
            tail: m.tail + s,
            total: m.total + s.len(),
        }),
    decreases s.len(),
{
    if s.len() == 0 {
        assert(m.tail + s =~= m.tail);
        assert(m =~= (StreamModel { words: m.words, tail: m.tail + s, total: m.total + s.len() }));
    } else {
        let m1 = absorb_byte(m, s[0], c);
        assert(m1.tail =~= m.tail.push(s[0]));
        lemma_absorb_no_flush(m1, s.drop_first(), c);
        assert(m.tail.push(s[0]) + s.drop_first() =~= m.tail + s);
    }
}

/// Absorbing exactly enough bytes to fill the tail flushes one word —
/// the little-endian value of the old tail followed by the new bytes —
/// and leaves the tail empty.
pub proof fn lemma_absorb_flush(m: StreamModel, s: Seq<u8>, c: nat)
    requires
        s.len() >= 1,
        m.tail.len() + s.len() == 8,
    ensures
        absorb_bytes(m, s, c) == (StreamModel {
            words: ingest_word(m.words, word_from_bytes(m.tail + s), c),
            tail: Seq::empty(),
            total: m.total + s.len(),
        }),
    decreases s.len(),
{
    if s.len() == 1 {
        assert(m.tail.push(s[0]) =~= m.tail + s);
        let m1 = absorb_byte(m, s[0], c);
        assert(s.drop_first() =~= Seq::<u8>::empty());
        assert(absorb_bytes(m, s, c) == absorb_bytes(m1, s.drop_first(), c));
        assert(absorb_bytes(m1, s.drop_first(), c) == m1);
    } else {
        let m1 = absorb_byte(m, s[0], c);
        assert(m1.tail =~= m.tail.push(s[0]));
        lemma_absorb_flush(m1, s.drop_first(), c);
        assert(m.tail.push(s[0]) + s.drop_first() =~= m.tail + s);
    }
}

/// The word the canonical framing feeds last: the buffered tail — fewer
/// than eight bytes — as a little-endian word, with the total byte count
/// modulo 256 in the most-significant byte.
pub open spec fn final_word(tail: Seq<u8>, total: nat) -> u64
    recommends
        tail.len() < 8,
{
    word_from_bytes(tail) | (((total % 256) as u64) << 56u64)
}

/// The digest the byte-stream hasher owes for a logical state: absorb
/// the framed final word with `c` rounds, then finalize with `d` rounds.
pub open spec fn stream_digest(m: StreamModel, c: nat, d: nat) -> u64 {
    finalize_words(ingest_word(m.words, final_word(m.tail, m.total), c), d)
}

/// A SipHash-C-D hasher fed bytes: sub-word input is buffered in a tail
/// of up to seven bytes, and `finish` frames the tail together with the
/// total length before finalizing.
#[derive(Clone, Copy, Debug)]
pub struct SipHasher<const C: usize, const D: usize> {
    state: SipHashState,
    tail: [u8; 8],
    ntail: usize,
    bytes: usize,
}

impl<const C: usize, const D: usize> View for SipHasher<C, D> {
    type V = StreamModel;

    closed spec fn view(&self) -> StreamModel {
        StreamModel {
            words: self.state@,
            tail: self.tail@.take(self.ntail as int),
            total: self.bytes as nat,
        }
    }
}

impl<const C: usize, const D: usize> SipHasher<C, D> {
    /// The tail buffer never reaches eight bytes: a full tail is flushed
    /// at once, so at rest fewer than eight bytes are pending.
    pub closed spec fn wf(&self) -> bool {
        self.ntail < 8
    }

    /// Initialize from the two key words: the key schedule, an empty
    /// tail, and a zero byte count.
    pub fn new_with_keys(k0: u64, k1: u64) -> (h: Self)
        ensures
            h.wf(),
            h@ == (StreamModel { words: init_words(k0, k1), tail: Seq::empty(), total: 0 }),
    {
        let h = SipHasher {
            state: SipHashState::from_keys(k0, k1),
            tail: [0u8, 0u8, 0u8, 0u8, 0u8, 0u8, 0u8, 0u8],
            ntail: 0,
            bytes: 0,
        };
        proof {
            assert(h@.tail =~= Seq::<u8>::empty());
        }
        h
    }

    /// Absorb one whole message word directly, bypassing the byte tail
    /// and the byte count: `C` compression rounds.
    #[inline]
    pub fn update(&mut self, word: u64)
        ensures
            final(self)@ == (StreamModel {
                words: ingest_word(old(self)@.words, word, C as nat),
                ..old(self)@
            }),
            final(self).wf() == old(self).wf(),
    {
        self.state.update_and_round::<C>(word)
    }

    /// Borrow the underlying state engine, for inspection or
    /// serialization by a collaborator.
    pub fn state(&self) -> (s: &SipHashState)
        ensures
            s@ == self@.words,
    {
        &self.state
    }

    /// Wrap an already-initialized state engine, with an empty tail and
    /// a zero byte count.
    pub fn from_state(state: SipHashState) -> (h: Self)
        ensures
            h.wf(),
            h@ == (StreamModel { words: state@, tail: Seq::empty(), total: 0 }),
    {
        let h = SipHasher {
            state,
            tail: [0u8, 0u8, 0u8, 0u8, 0u8, 0u8, 0u8, 0u8],
            ntail: 0,
            bytes: 0,
        };
        proof {
            assert(h@.tail =~= Seq::<u8>::empty());
        }
        h
    }

    /// Absorb a byte slice: the pending tail is topped up first and
    /// flushed the moment it holds eight bytes, the bulk of the input is
    /// absorbed as whole little-endian words, and a trailing remainder is
    /// buffered for the next call. The byte count grows by the input
    /// length across flushes.
    pub fn write(&mut self, s: &[u8])
        requires
            old(self).wf(),
            old(self)@.total + s@.len() <= usize::MAX,
        ensures
            final(self).wf(),
            final(self)@ == absorb_bytes(old(self)@, s@, C as nat),
            final(self)@.total == old(self)@.total + s@.len(),
    {
        let ghost m0 = self@;
        let ghost c = C as nat;
        let n: usize = s.len();
        self.bytes = self.bytes + n;
        let mut i: usize = 0;
        if self.ntail > 0 {
            while self.ntail < 8 && i < n
                invariant
                    i <= n,
                    n == s@.len(),
                    self.ntail <= 8,
                    self.ntail as int == m0.tail.len() + i,
                    self@.words == m0.words,
                    self@.total == m0.total + n,
                    self.tail@.take(self.ntail as int) =~= m0.tail + s@.take(i as int),
                decreases n - i,
            {
                let ghost tprev = self.tail@.take(self.ntail as int);
                self.tail[self.ntail] = s[i];
                proof {
                    assert(self.tail@.take(self.ntail as int + 1) =~= tprev.push(s@[i as int]));
                    assert(m0.tail + s@.take(i as int + 1) =~= (m0.tail + s@.take(i as int)).push(
                        s@[i as int],
                    ));
                }
                self.ntail = self.ntail + 1;
                i = i + 1;
            }
            if self.ntail == 8 {
                let w = word_from_slice(self.tail.as_slice(), 0, 8);
                proof {
                    assert(self.tail@.subrange(0, 8) =~= self.tail@.take(8));
                    lemma_absorb_flush(m0, s@.take(i as int), c);
                }
                self.state.update_and_round::<C>(w);
                self.ntail = 0;
                proof {
                    assert(self@.tail =~= Seq::<u8>::empty());
                }
            } else {
                proof {
                    assert(i == n);
                    lemma_absorb_no_flush(m0, s@.take(i as int), c);
                }
            }
        } else {
            proof {
                assert(m0.tail =~= Seq::<u8>::empty());
                assert(s@.take(0) =~= Seq::<u8>::empty());
                assert(absorb_bytes(m0, s@.take(0), c) == m0);
            }
        }
        while n - i >= 8
            invariant
                c == C as nat,
                i <= n,
                n == s@.len(),
                self.ntail < 8,
                self@.words == absorb_bytes(m0, s@.take(i as int), c).words,
                self@.tail == absorb_bytes(m0, s@.take(i as int), c).tail,
                self@.total == m0.total + n,
                n - i >= 8 ==> self.ntail == 0,
                self.ntail > 0 ==> i == n,
            decreases n - i,
        {
            let w = word_from_slice(s, i, 8);
            proof {
                let mcur = absorb_bytes(m0, s@.take(i as int), c);
                let chunk = s@.subrange(i as int, i as int + 8);
                assert(mcur.tail =~= Seq::<u8>::empty());
                lemma_absorb_flush(mcur, chunk, c);
                assert(mcur.tail + chunk =~= chunk);
                lemma_absorb_bytes_concat(m0, s@.take(i as int), chunk, c);
                assert(s@.take(i as int) + chunk =~= s@.take(i as int + 8));
            }
            self.state.update_and_round::<C>(w);
            i = i + 8;
            proof {
                assert(self@.tail =~= Seq::<u8>::empty());
            }
        }
        let ghost i1 = i as int;
        let ghost t1 = self@.tail;
        proof {
            if self.ntail > 0 {
                assert(i == n);
            }
            assert(t1.len() + (n - i1) < 8);
            assert(t1.len() == self.ntail as int);
        }
        while i < n
            invariant
                c == C as nat,
                i1 <= i <= n,
                n == s@.len(),
                t1.len() + (n - i1) < 8,
                self.ntail as int == t1.len() + (i - i1),
                self@.words == absorb_bytes(m0, s@.take(i as int), c).words,
                self@.tail == absorb_bytes(m0, s@.take(i as int), c).tail,
                self@.total == m0.total + n,
            decreases n - i,
        {
            let ghost tprev = self.tail@.take(self.ntail as int);
            self.tail[self.ntail] = s[i];
            proof {
                assert(self.tail@.take(self.ntail as int + 1) =~= tprev.push(s@[i as int]));
                lemma_absorb_bytes_push(m0, s@.take(i as int), s@[i as int], c);
                assert(s@.take(i as int).push(s@[i as int]) =~= s@.take(i as int + 1));
            }
            self.ntail = self.ntail + 1;
            i = i + 1;
        }
        proof {
            assert(s@.take(n as int) =~= s@);
            lemma_absorb_bytes_total(m0, s@, c);
            assert(self@ =~= absorb_bytes(m0, s@, c));
        }
    }

    /// The digest under the canonical framing, computed on a copy: the
    /// buffered tail is framed as a little-endian word carrying the total
    /// byte count modulo 256 in its most-significant byte — a pending
    /// tail never holds eight bytes, so the tag byte never collides with
    /// input — and that word is absorbed before finalization. The hasher
    /// itself is untouched: calling twice returns the same value, and
    /// further writes may follow.
    #[inline]
    pub fn finish(&self) -> (r: u64)
        requires
            self.wf(),
        ensures
            r == stream_digest(self@, C as nat, D as nat),
    {
        let w0 = word_from_slice(self.tail.as_slice(), 0, self.ntail);
        let tag = ((self.bytes as u64) & 0xff) << 56u64;
        proof {
            let b: u64 = self.bytes as u64;
            assert(b & 0xff == b % 256) by (bit_vector);
            assert(self.tail@.subrange(0, self.ntail as int) =~= self@.tail);
        }
        let word = w0 | tag;
        let mut state = self.state;
        state.update_and_round::<C>(word);
        state.update_and_final::<D>()
    }
}

} // verus!
