//! The logical model of the SipHash state: an ordered four-tuple of 64-bit
//! words, the add-rotate-xor round function over it, and the key schedule.
//! Every backend's contract is stated against these functions, so equal
//! logical states are guaranteed to evolve identically no matter how the
//! words are laid out physically.
use vstd::prelude::*;

verus! {

/// First initialization constant, xored with key word 0 into `v0`.
pub const SIPHASH_MAG1: u64 = 0x736f6d6570736575;

/// Second initialization constant, xored with key word 1 into `v1`.
pub const SIPHASH_MAG2: u64 = 0x646f72616e646f6d;

/// Third initialization constant, xored with key word 0 into `v2`.
pub const SIPHASH_MAG3: u64 = 0x6c7967656e657261;

/// Fourth initialization constant, xored with key word 1 into `v3`.
pub const SIPHASH_MAG4: u64 = 0x7465646279746573;

/// The logical SipHash state: four 64-bit words in canonical order.
///
/// Physical state types (scalar or lane-paired) map to this through their
/// views; all contracts speak of `Words`.
#[derive(Clone, Copy, PartialEq, Eq, Structural, Debug)]
pub struct Words {
    pub v0: u64,
    pub v1: u64,
    pub v2: u64,
    pub v3: u64,
}

/// Rotate a 64-bit word left by `n` bits, for `0 < n < 64`.
pub open spec fn rotl(x: u64, n: u64) -> u64
    recommends
        0 < n < 64,
{
    (x << n) | (x >> ((64 - n) as u64))
}

/// The canonical SipHash round: the flat sequence of thirteen
/// add-rotate-xor steps, exactly as the reference construction states it.
pub open spec fn sip_round(w: Words) -> Words {
    let v0a = w.v0.wrapping_add(w.v1);
    let v1a = rotl(w.v1, 13) ^ v0a;
    let v0b = rotl(v0a, 32);
    let v2a = w.v2.wrapping_add(w.v3);
    let v3a = rotl(w.v3, 16) ^ v2a;
    let v0c = v0b.wrapping_add(v3a);
    let v3b = rotl(v3a, 21) ^ v0c;
    let v2b = v2a.wrapping_add(v1a);
    let v1b = rotl(v1a, 17) ^ v2b;
    let v2c = rotl(v2b, 32);
    Words { v0: v0c, v1: v1b, v2: v2c, v3: v3b }
}

/// `n` successive applications of [`sip_round`].
pub open spec fn sip_rounds(w: Words, n: nat) -> Words
    decreases n,
{
    if n == 0 {
        w
    } else {
        sip_round(sip_rounds(w, (n - 1) as nat))
    }
}

/// The key schedule: each key word xored with two fixed constants.
pub open spec fn init_words(k0: u64, k1: u64) -> Words {
    Words {
        v0: k0 ^ SIPHASH_MAG1,
        v1: k1 ^ SIPHASH_MAG2,
        v2: k0 ^ SIPHASH_MAG3,
        v3: k1 ^ SIPHASH_MAG4,
    }
}

/// Absorbing one message word: xor into `v3`, `c` rounds, xor into `v0`.
pub open spec fn ingest_word(w: Words, m: u64, c: nat) -> Words {
    let before = Words { v0: w.v0, v1: w.v1, v2: w.v2, v3: w.v3 ^ m };
    let after = sip_rounds(before, c);
    Words { v0: after.v0 ^ m, v1: after.v1, v2: after.v2, v3: after.v3 }
}

/// Absorbing a sequence of message words in order.
pub open spec fn ingest_words(w: Words, msg: Seq<u64>, c: nat) -> Words
    decreases msg.len(),
{
    if msg.len() == 0 {
        w
    } else {
        ingest_words(ingest_word(w, msg[0], c), msg.drop_first(), c)
    }
}

/// Absorbing a sequence and then one more word is absorbing the extended
/// sequence.
pub proof fn lemma_ingest_words_push(w: Words, msg: Seq<u64>, m: u64, c: nat)
    ensures
        ingest_words(w, msg.push(m), c) == ingest_word(ingest_words(w, msg, c), m, c),
    decreases msg.len(),
{
    if msg.len() == 0 {
        assert(msg.push(m)[0] == m);
        assert(msg.push(m).drop_first() =~= Seq::<u64>::empty());
        assert(ingest_words(w, msg.push(m), c) == ingest_words(
            ingest_word(w, m, c),
            Seq::<u64>::empty(),
            c,
        ));
        assert(ingest_words(ingest_word(w, m, c), Seq::<u64>::empty(), c) == ingest_word(
            w,
            m,
            c,
        ));
        assert(ingest_words(w, msg, c) == w);
    } else {
        assert(msg.push(m)[0] == msg[0]);
        assert(msg.push(m).drop_first() =~= msg.drop_first().push(m));
        assert(ingest_words(w, msg.push(m), c) == ingest_words(
            ingest_word(w, msg[0], c),
            msg.drop_first().push(m),
            c,
        ));
        lemma_ingest_words_push(ingest_word(w, msg[0], c), msg.drop_first(), m, c);
        assert(ingest_words(w, msg, c) == ingest_words(
            ingest_word(w, msg[0], c),
            msg.drop_first(),
            c,
        ));
    }
}

/// Finalization: xor 0xff into `v2`, `d` rounds, then fold all four words
/// together with xor.
pub open spec fn finalize_words(w: Words, d: nat) -> u64 {
    let before = Words { v0: w.v0, v1: w.v1, v2: w.v2 ^ 0xff, v3: w.v3 };
    let after = sip_rounds(before, d);
    after.v0 ^ after.v1 ^ after.v2 ^ after.v3
}

/// One half-round of the lane-paired realization: the two add-rotate-xor
/// pairs act on `(v0, v1)` and `(v2, v3)` in lockstep with rotate amounts
/// `r1` and `r3`, then `v0` is rotated by 32 bits and swapped with `v2`.
pub open spec fn half_round(w: Words, r1: u64, r3: u64) -> Words {
    let v0 = w.v0.wrapping_add(w.v1);
    let v2 = w.v2.wrapping_add(w.v3);
    let v1 = rotl(w.v1, r1) ^ v0;
    let v3 = rotl(w.v3, r3) ^ v2;
    Words { v0: v2, v1: v1, v2: rotl(v0, 32), v3: v3 }
}

/// Backend equivalence at the round level: composing the two half-rounds
/// with rotate pairs (13, 16) and (17, 21) — the vectorization strategy —
/// yields exactly the canonical round, for every state. The pairing is a
/// layout choice, not a semantic change.
pub proof fn lemma_round_via_half_rounds(w: Words)
    ensures
        half_round(half_round(w, 13, 16), 17, 21) == sip_round(w),
{
}

/// State round-trip: an engine rebuilt from its inspected logical array
/// holds the same logical state. Every operation's contract is a function
/// of the logical state alone, so the rebuilt engine's subsequent hashing
/// behaviour is identical to the original's.
pub proof fn lemma_state_round_trip(w: Words, a: Seq<u64>)
    requires
        a =~= seq![w.v0, w.v1, w.v2, w.v3],
    ensures
        (Words { v0: a[0], v1: a[1], v2: a[2], v3: a[3] }) == w,
{
}

/// Rotate a 64-bit word right by `n` bits, for `0 < n < 64`.
pub open spec fn rotr(x: u64, n: u64) -> u64
    recommends
        0 < n < 64,
{
    (x >> n) | (x << ((64 - n) as u64))
}

/// Executable right rotation, proved against [`rotr`].
#[inline]
pub fn rotr_word(x: u64, n: u64) -> (r: u64)
    requires
        0 < n < 64,
    ensures
        r == rotr(x, n),
{
    (x >> n) | (x << (64 - n))
}

/// Executable left rotation, proved against [`rotl`].
#[inline]
pub fn rotl_word(x: u64, n: u64) -> (r: u64)
    requires
        0 < n < 64,
    ensures
        r == rotl(x, n),
{
    (x << n) | (x >> (64 - n))
}

} // verus!
