//! Little-endian framing of byte sequences into 64-bit message words: the
//! word value of a partial chunk, the chunking of a whole message, and the
//! two tail paddings the raw hasher offers (zero bytes for fixed-width
//! workloads, 0xff bytes for the prefix-free string encoding).
use vstd::prelude::*;
use vstd::utf8::{
    char_is_scalar, encode_scalar, encode_utf8, encode_utf8_decode_utf8, has_width_1_encoding,
    has_width_2_encoding, has_width_3_encoding, is_scalar,
};

verus! {

/// The little-endian word value of up to eight bytes: byte `i` occupies
/// bits `8*i .. 8*i+8`. Bytes beyond the sequence read as zero, so the
/// value of a short chunk equals the value of the chunk zero-padded to
/// eight bytes.
pub open spec fn word_from_bytes(s: Seq<u8>) -> u64
    recommends
        s.len() <= 8,
    decreases s.len(),
{
    if s.len() == 0 {
        0u64
    } else {
        word_from_bytes(s.drop_last()) | ((s.last() as u64) << ((8 * (s.len() - 1)) as u64))
    }
}

/// Appending one byte to a chunk sets exactly the next eight bits.
pub proof fn lemma_word_from_bytes_push(s: Seq<u8>, b: u8)
    ensures
        word_from_bytes(s.push(b)) == word_from_bytes(s) | ((b as u64) << ((8 * s.len()) as u64)),
{
    assert(s.push(b).drop_last() =~= s);
}

/// The message words of a byte sequence: successive eight-byte chunks in
/// little-endian order, the final chunk possibly shorter (its word value
/// is then the zero-padded one). An empty sequence yields no words.
pub open spec fn message_words(s: Seq<u8>) -> Seq<u64> {
    Seq::new(
        ((s.len() + 7) / 8) as nat,
        |i: int|
            word_from_bytes(
                s.subrange(8 * i, if 8 * i + 8 <= s.len() { 8 * i + 8 } else { s.len() as int }),
            ),
    )
}

/// The prefix-free string framing: the sequence is extended with 0xff
/// bytes to the next multiple of eight, and a sequence already a multiple
/// of eight long gains a full eight-byte 0xff block, so every encoding
/// ends in at least one 0xff byte.
pub open spec fn ff_pad(s: Seq<u8>) -> Seq<u8> {
    let pad = if s.len() % 8 == 0 {
        8 as nat
    } else {
        (8 - s.len() % 8) as nat
    };
    s + Seq::new(pad, |i: int| 0xffu8)
}

/// Prefix-freedom of the string framing: for two distinct sequences free
/// of the 0xff byte — as the UTF-8 encoding of any string is — neither
/// framed encoding is a prefix of the other. The padding byte cannot
/// occur in the message, so the boundary between message and padding is
/// unambiguous.
pub proof fn lemma_ff_pad_prefix_free(a: Seq<u8>, b: Seq<u8>)
    requires
        a != b,
        forall|i: int| 0 <= i < a.len() ==> a[i] != 0xff,
        forall|i: int| 0 <= i < b.len() ==> b[i] != 0xff,
    ensures
        !ff_pad(a).is_prefix_of(ff_pad(b)),
{
    let ea = ff_pad(a);
    let eb = ff_pad(b);
    assert(ea.len() % 8 == 0);
    assert(eb.len() % 8 == 0);
    assert(a.len() < ea.len() <= a.len() + 8);
    assert(b.len() < eb.len() <= b.len() + 8);
    if ea.is_prefix_of(eb) {
        assert(forall|i: int| 0 <= i < ea.len() ==> ea[i] == eb[i]);
        assert(ea[a.len() as int] == 0xff);
        if ea.len() == eb.len() {
            // The first padding byte of each encoding is its only way to
            // hold 0xff, so the message lengths agree, and with them the
            // messages themselves.
            assert(eb[a.len() as int] == 0xff);
            assert(a.len() >= b.len());
            assert(ea[b.len() as int] == eb[b.len() as int]);
            assert(eb[b.len() as int] == 0xff);
            assert(b.len() >= a.len());
            assert(forall|i: int| 0 <= i < a.len() ==> a[i] == ea[i] && b[i] == eb[i]);
            assert(a =~= b);
        } else {
            // A strictly shorter encoding ends at least eight bytes before
            // the longer one does, so its padding bytes land inside the
            // longer message, which holds no 0xff.
            assert(ea.len() < eb.len());
            assert(eb.len() - ea.len() >= 8);
            assert(b.len() >= eb.len() - 8);
            assert(b.len() > a.len());
            assert(eb[a.len() as int] == b[a.len() as int]);
        }
    }
}

/// No byte of a UTF-8 scalar encoding is 0xff: leading bytes reach at
/// most 0xf7 and continuation bytes at most 0xbf.
pub proof fn lemma_encode_scalar_no_ff(scalar: u32)
    requires
        is_scalar(scalar),
    ensures
        forall|i: int| 0 <= i < encode_scalar(scalar).len() ==> encode_scalar(scalar)[i] != 0xff,
{
    let s = scalar;
    if has_width_1_encoding(s) {
        assert((s & 0x7f) as u8 != 0xff) by (bit_vector);
    } else if has_width_2_encoding(s) {
        assert((0xc0u8 | ((s >> 6u32) & 0x1f) as u8) != 0xff) by (bit_vector);
        assert((0x80u8 | (s & 0x3f) as u8) != 0xff) by (bit_vector);
    } else if has_width_3_encoding(s) {
        assert((0xe0u8 | ((s >> 12u32) & 0x0f) as u8) != 0xff) by (bit_vector);
        assert((0x80u8 | ((s >> 6u32) & 0x3f) as u8) != 0xff) by (bit_vector);
        assert((0x80u8 | (s & 0x3f) as u8) != 0xff) by (bit_vector);
    } else {
        assert((0xf0u8 | ((s >> 18u32) & 0x7) as u8) != 0xff) by (bit_vector);
        assert((0x80u8 | ((s >> 12u32) & 0x3f) as u8) != 0xff) by (bit_vector);
        assert((0x80u8 | ((s >> 6u32) & 0x3f) as u8) != 0xff) by (bit_vector);
        assert((0x80u8 | (s & 0x3f) as u8) != 0xff) by (bit_vector);
    }
}

/// No byte of the UTF-8 encoding of any character sequence is 0xff.
pub proof fn lemma_encode_utf8_no_ff(chars: Seq<char>)
    ensures
        forall|i: int| 0 <= i < encode_utf8(chars).len() ==> encode_utf8(chars)[i] != 0xff,
    decreases chars.len(),
{
    if chars.len() > 0 {
        char_is_scalar(chars[0]);
        lemma_encode_scalar_no_ff(chars[0] as u32);
        lemma_encode_utf8_no_ff(chars.drop_first());
        let first = encode_scalar(chars[0] as u32);
        let rest = encode_utf8(chars.drop_first());
        assert(encode_utf8(chars) == first + rest);
        assert forall|i: int| 0 <= i < encode_utf8(chars).len() implies encode_utf8(chars)[i]
            != 0xff by {
            if i < first.len() {
                assert((first + rest)[i] == first[i]);
            } else {
                assert((first + rest)[i] == rest[i - first.len()]);
            }
        }
    }
}

/// Prefix-freedom for strings proper: two distinct character sequences
/// have UTF-8 encodings that differ — encoding is invertible — and hold
/// no 0xff byte, so neither framed encoding is a prefix of the other.
pub proof fn lemma_string_framing_prefix_free(a: Seq<char>, b: Seq<char>)
    requires
        a != b,
    ensures
        !ff_pad(encode_utf8(a)).is_prefix_of(ff_pad(encode_utf8(b))),
{
    encode_utf8_decode_utf8(a);
    encode_utf8_decode_utf8(b);
    assert(encode_utf8(a) != encode_utf8(b));
    lemma_encode_utf8_no_ff(a);
    lemma_encode_utf8_no_ff(b);
    lemma_ff_pad_prefix_free(encode_utf8(a), encode_utf8(b));
}

/// The little-endian word value of `len` bytes of a slice starting at
/// `start`, computed with shifts and ors; `len` may be short of eight,
/// in which case the result is the zero-padded word.
pub fn word_from_slice(s: &[u8], start: usize, len: usize) -> (w: u64)
    requires
        start + len <= s@.len(),
        len <= 8,
    ensures
        w == word_from_bytes(s@.subrange(start as int, start as int + len as int)),
{
    let n: usize = s.len();
    let mut w: u64 = 0;
    let mut i: usize = 0;
    while i < len
        invariant
            i <= len,
            len <= 8,
            start + len <= n,
            n == s@.len(),
            w == word_from_bytes(s@.subrange(start as int, start as int + i as int)),
        decreases len - i,
    {
        let sh: u64 = 8 * (i as u64);
        let b = s[start + i];
        proof {
            let prefix = s@.subrange(start as int, start as int + i as int);
            lemma_word_from_bytes_push(prefix, s@[start as int + i as int]);
            assert(prefix.push(s@[start as int + i as int]) =~= s@.subrange(
                start as int,
                start as int + i as int + 1,
            ));
        }
        w = w | ((b as u64) << sh);
        i = i + 1;
    }
    w
}

} // verus!
