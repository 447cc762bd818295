//! A verified SipHash-C-D core: the ARX permutation engine, a word-granular
//! raw hasher, and a byte-stream hasher with the canonical length-suffix
//! framing. Round counts are fixed at the type level; every operation is
//! total and its result is pinned down by a contract over a logical
//! four-word model of the state.
pub mod encoding;
pub mod lanes;
pub mod raw;
pub mod rng;
pub mod state;
pub mod stream;
pub mod words;

pub use crate::raw::RawSipHasher;
pub use crate::state::SipHashState;
pub use crate::stream::SipHasher;

