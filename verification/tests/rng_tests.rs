use siphash_core::rng::SiphashRng;
use siphash_core::RawSipHasher;

#[test]
fn rng_tick_sequence_from_seed() {
    let mut rng = SiphashRng::<1, 3>::from_seed(42);
    assert_eq!(rng.tick(), 0x85cc92e2707acb43);
    assert_eq!(rng.tick(), 0x137eecf807c63b3e);
    assert_eq!(rng.tick(), 0x3d5ef62810a98b8d);
}

#[test]
fn rng_from_seed_is_deterministic() {
    let mut a = SiphashRng::<2, 4>::from_seed(7);
    let mut b = SiphashRng::<2, 4>::from_seed(7);
    for _ in 0..8 {
        assert_eq!(a.tick(), b.tick());
    }
    let mut c = SiphashRng::<2, 4>::from_seed(8);
    assert_ne!(a.tick(), c.tick());
}

#[test]
fn rng_tick_with_ingest_matches_raw_ops() {
    let mut rng = SiphashRng::<2, 4>::new_with_keys(1, 2);
    let mut raw = RawSipHasher::<2, 4>::from_keys(1, 2);
    let val = rng.tick_with_ingest(10, 20);
    raw.update(10);
    assert_eq!(val, raw.finish());
    raw.update(20);
    assert_eq!(rng.raw().finish(), raw.finish());
}

#[test]
fn rng_from_word_seed_known_answer() {
    let mut rng = SiphashRng::<2, 4>::from_word_seed(b"seed material");
    assert_eq!(rng.tick(), 0x4b00b492030e2c8c);
}

#[test]
fn rng_from_word_seed_matches_manual_framing() {
    let data = b"seed material";
    let mut rng = SiphashRng::<2, 4>::from_word_seed(data);
    let mut raw = RawSipHasher::<2, 4>::from_keys(0x3c6ef372fe94f82b, 0xa54ff53a5f1d36f1);
    raw.update(data.len() as u64);
    raw.update_from_bytes(data);
    let mut manual = SiphashRng::<2, 4>::from_raw(raw);
    assert_eq!(rng.tick(), manual.tick());
}

#[test]
fn rng_raw_mut_advances_the_stream() {
    let mut rng = SiphashRng::<2, 4>::new_with_keys(3, 4);
    let mut untouched = SiphashRng::<2, 4>::new_with_keys(3, 4);
    rng.raw_mut().update(99);
    assert_ne!(rng.tick(), untouched.tick());
    let mut reference = RawSipHasher::<2, 4>::from_keys(3, 4);
    reference.update(99);
    let mut expected = SiphashRng::<2, 4>::from_raw(reference);
    let mut replay = SiphashRng::<2, 4>::new_with_keys(3, 4);
    replay.raw_mut().update(99);
    assert_eq!(replay.tick(), expected.tick());
}
