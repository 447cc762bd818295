use siphash_core::lanes::PairedSipHashState;
use siphash_core::RawSipHasher;
use siphash_core::SipHashState;
use siphash_core::SipHasher;

pub struct TestVector {
    k0: u64,
    k1: u64,
    data: &'static [u8],
    expected: u64,
}

pub const SIPHASH_2_4_TEST_VECTORS: &[TestVector] = &[TestVector {
    k0: 0x0706050403020100,
    k1: 0x0f0e0d0c0b0a0908,
    data: &[
        0x00, 0x01, 0x02, 0x03, 0x04, 0x05, 0x06, 0x07, 0x08, 0x09, 0x0A, 0x0B, 0x0C, 0x0D, 0x0E,
    ],
    expected: 0xa129ca6149be45e5,
}];

const K0: u64 = 0x0706050403020100;
const K1: u64 = 0x0f0e0d0c0b0a0908;

#[test]
pub fn siphash_2_4_tests() {
    for vec in SIPHASH_2_4_TEST_VECTORS {
        let mut hasher = SipHasher::<2, 4>::new_with_keys(vec.k0, vec.k1);
        hasher.write(vec.data);
        let got = hasher.finish();
        assert_eq!(vec.expected, got, "{:#016x}!={:#016x}", vec.expected, got);
    }
}

#[test]
fn known_answer_empty_input() {
    let hasher = SipHasher::<2, 4>::new_with_keys(K0, K1);
    assert_eq!(hasher.finish(), 0x726fdb47dd0e0e31);
}

#[test]
fn known_answer_aligned_input() {
    let mut hasher = SipHasher::<2, 4>::new_with_keys(K0, K1);
    hasher.write(&[0x00, 0x01, 0x02, 0x03, 0x04, 0x05, 0x06, 0x07]);
    assert_eq!(hasher.finish(), 0x93f5f5799a932462);
}

#[test]
fn known_answer_siphash_1_3() {
    let mut hasher = SipHasher::<1, 3>::new_with_keys(K0, K1);
    hasher.write(&[
        0x00, 0x01, 0x02, 0x03, 0x04, 0x05, 0x06, 0x07, 0x08, 0x09, 0x0A, 0x0B, 0x0C, 0x0D, 0x0E,
    ]);
    assert_eq!(hasher.finish(), 0xd320d86d2a519956);
}

#[test]
fn backend_round_equivalence() {
    let keys = [(K0, K1), (0, 0), (u64::MAX, 1), (0xdeadbeef, 0x12345678)];
    for (k0, k1) in keys {
        let mut scalar = SipHashState::from_keys(k0, k1);
        let mut paired = PairedSipHashState::from_keys(k0, k1);
        assert_eq!(scalar.inspect_state(), paired.inspect_state());
        for word in [0u64, 1, 0x428a2f98d728ae22, u64::MAX] {
            scalar.update_before_rounds(word);
            paired.update_before_rounds(word);
            scalar.round();
            paired.round();
            scalar.round();
            paired.round();
            scalar.update_after_rounds(word);
            paired.update_after_rounds(word);
            assert_eq!(scalar.inspect_state(), paired.inspect_state());
        }
        scalar.update_before_final();
        paired.update_before_final();
        scalar.round();
        paired.round();
        assert_eq!(scalar.inspect_state(), paired.inspect_state());
        assert_eq!(scalar.finish(), paired.finish());
    }
}

#[test]
fn backend_digest_equivalence() {
    let inputs: [&[u64]; 3] = [&[], &[7], &[0x428a2f98d728ae22, 1, 2, 3]];
    for words in inputs {
        let mut scalar = SipHashState::from_keys(K0, K1);
        let mut paired = PairedSipHashState::from_keys(K0, K1);
        for &w in words {
            scalar.update_and_round::<2>(w);
            paired.update_and_round::<2>(w);
        }
        assert_eq!(scalar.update_and_final::<4>(), paired.update_and_final::<4>());
    }
}

#[test]
fn incremental_equivalence() {
    let data: Vec<u8> = (0u8..41).collect();
    let mut whole = SipHasher::<2, 4>::new_with_keys(K0, K1);
    whole.write(&data);
    let expected = whole.finish();
    for i in 0..=data.len() {
        let mut split = SipHasher::<2, 4>::new_with_keys(K0, K1);
        split.write(&data[..i]);
        split.write(&data[i..]);
        assert_eq!(split.finish(), expected, "split at {}", i);
    }
}

#[test]
fn incremental_equivalence_many_pieces() {
    let data: Vec<u8> = (0u8..41).collect();
    let mut whole = SipHasher::<2, 4>::new_with_keys(K0, K1);
    whole.write(&data);
    let expected = whole.finish();
    for chunk in [1usize, 2, 3, 5, 7, 8, 11] {
        let mut pieces = SipHasher::<2, 4>::new_with_keys(K0, K1);
        for part in data.chunks(chunk) {
            pieces.write(part);
        }
        assert_eq!(pieces.finish(), expected, "chunk size {}", chunk);
    }
}

#[test]
fn idempotent_finish() {
    let mut hasher = SipHasher::<2, 4>::new_with_keys(K0, K1);
    hasher.write(&[1, 2, 3, 4, 5]);
    let first = hasher.finish();
    let second = hasher.finish();
    assert_eq!(first, second);
    hasher.write(&[6, 7]);
    let third = hasher.finish();
    let fourth = hasher.finish();
    assert_eq!(third, fourth);
    let mut reference = SipHasher::<2, 4>::new_with_keys(K0, K1);
    reference.write(&[1, 2, 3, 4, 5, 6, 7]);
    assert_eq!(third, reference.finish());
}

#[test]
fn idempotent_finish_raw() {
    let mut raw = RawSipHasher::<2, 4>::from_keys(K0, K1);
    raw.update(0x428a2f98d728ae22);
    let first = raw.finish();
    let second = raw.finish();
    assert_eq!(first, second);
    raw.update(5);
    assert_eq!(raw.finish(), raw.finish());
}

#[test]
fn state_round_trip_raw() {
    let mut original = RawSipHasher::<2, 4>::from_keys(K0, K1);
    original.update(11);
    original.update(22);
    let logical = original.state().inspect_state();
    let mut rebuilt = RawSipHasher::<2, 4>::from_state(SipHashState::from_state(logical));
    assert_eq!(rebuilt.finish(), original.finish());
    original.update(33);
    rebuilt.update(33);
    assert_eq!(rebuilt.finish(), original.finish());
}

#[test]
fn state_round_trip_stream() {
    // Rebuilding a byte-stream hasher restores the engine words exactly;
    // the tail and the byte count start fresh, so the engine keeps
    // evolving in lockstep with the original under identical writes,
    // while the final length tag counts only bytes since the rebuild.
    let mut original = SipHasher::<2, 4>::new_with_keys(K0, K1);
    original.write(&[1, 2, 3, 4, 5, 6, 7, 8]);
    let logical = original.state().inspect_state();
    let mut rebuilt = SipHasher::<2, 4>::from_state(SipHashState::from_state(logical));
    assert_eq!(rebuilt.state().inspect_state(), logical);
    original.write(&[9, 10, 11, 12, 13, 14, 15, 16]);
    rebuilt.write(&[9, 10, 11, 12, 13, 14, 15, 16]);
    assert_eq!(
        rebuilt.state().inspect_state(),
        original.state().inspect_state()
    );
    let mut replay = SipHasher::<2, 4>::from_state(SipHashState::from_state(logical));
    replay.write(&[9, 10, 11, 12, 13, 14, 15, 16]);
    assert_eq!(replay.finish(), rebuilt.finish());
}

#[test]
fn state_round_trip_paired() {
    let mut paired = PairedSipHashState::from_keys(K0, K1);
    paired.update_and_round::<2>(99);
    let rebuilt = PairedSipHashState::from_state(paired.inspect_state());
    assert_eq!(rebuilt.inspect_state(), paired.inspect_state());
    let scalar = SipHashState::from_state(paired.inspect_state());
    assert_eq!(scalar.inspect_state(), paired.inspect_state());
}

#[test]
fn raw_word_known_answer() {
    let mut raw = RawSipHasher::<2, 4>::from_keys(K0, K1);
    raw.update(0x428a2f98d728ae22);
    assert_eq!(raw.finish(), 0x7864c25be1e27e13);
}

#[test]
fn raw_bytes_zero_padding() {
    let mut raw = RawSipHasher::<2, 4>::from_keys(K0, K1);
    raw.update_from_bytes(b"abc");
    assert_eq!(raw.finish(), 0xb19e93c6f463c8d8);
}

#[test]
fn raw_bytes_aligned_needs_no_padding_block() {
    let word = 0x0807060504030201u64;
    let mut by_bytes = RawSipHasher::<2, 4>::from_keys(K0, K1);
    by_bytes.update_from_bytes(&word.to_le_bytes());
    let mut by_word = RawSipHasher::<2, 4>::from_keys(K0, K1);
    by_word.update(word);
    assert_eq!(by_bytes.finish(), by_word.finish());
}

#[test]
fn raw_bytes_zero_padding_collides_on_trailing_zero() {
    let mut with_zero = RawSipHasher::<2, 4>::from_keys(K0, K1);
    with_zero.update_from_bytes(b"a\0");
    let mut without = RawSipHasher::<2, 4>::from_keys(K0, K1);
    without.update_from_bytes(b"a");
    assert_eq!(with_zero.finish(), without.finish());
}

#[test]
fn raw_string_known_answers() {
    let mut raw = RawSipHasher::<2, 4>::from_keys(K0, K1);
    raw.update_from_string("abc");
    assert_eq!(raw.finish(), 0x8c11967c4f02800c);
    let mut empty = RawSipHasher::<2, 4>::from_keys(K0, K1);
    empty.update_from_string("");
    assert_eq!(empty.finish(), 0xe3bcbde525c213f4);
    let mut aligned = RawSipHasher::<2, 4>::from_keys(K0, K1);
    aligned.update_from_string("12345678");
    assert_eq!(aligned.finish(), 0x123219a5525a4466);
}

#[test]
fn raw_string_padding_is_prefix_free() {
    let pairs: [(&str, &str); 4] = [("a", "a\0"), ("", "\0"), ("12345678", "1234567"), ("ab", "abab")];
    for (left, right) in pairs {
        let mut h1 = RawSipHasher::<2, 4>::from_keys(K0, K1);
        h1.update_from_string(left);
        let mut h2 = RawSipHasher::<2, 4>::from_keys(K0, K1);
        h2.update_from_string(right);
        assert_ne!(h1.finish(), h2.finish(), "{:?} vs {:?}", left, right);
    }
}

#[test]
fn length_sensitivity() {
    let zeros = [0u8; 33];
    let mut digests = Vec::new();
    for n in 0..=32 {
        let mut hasher = SipHasher::<2, 4>::new_with_keys(K0, K1);
        hasher.write(&zeros[..n]);
        digests.push(hasher.finish());
    }
    for n in 0..32 {
        assert_ne!(digests[n], digests[n + 1], "lengths {} and {}", n, n + 1);
    }
}

#[test]
fn stream_update_word_matches_engine() {
    let word = 0x428a2f98d728ae22u64;
    let mut hasher = SipHasher::<2, 4>::new_with_keys(K0, K1);
    hasher.update(word);
    let mut engine = SipHashState::from_keys(K0, K1);
    engine.update_and_round::<2>(word);
    // The stream framing still appends the length word: no bytes were
    // written, so it is all zero.
    engine.update_and_round::<2>(0);
    assert_eq!(hasher.finish(), engine.update_and_final::<4>());
}

#[test]
fn update_and_round_matches_primitives() {
    let word = 0x9e3779b97f4a7c15u64;
    let mut combined = SipHashState::from_keys(K0, K1);
    combined.update_and_round::<3>(word);
    let mut manual = SipHashState::from_keys(K0, K1);
    manual.update_before_rounds(word);
    manual.round();
    manual.round();
    manual.round();
    manual.update_after_rounds(word);
    assert_eq!(combined.inspect_state(), manual.inspect_state());
    let mut manual_final = manual;
    manual_final.update_before_final();
    manual_final.round();
    manual_final.round();
    let by_hand = manual_final.finish();
    assert_eq!(combined.update_and_final::<2>(), by_hand);
}
