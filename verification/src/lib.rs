//! Small packed strings: short Unicode strings stored inside a single
//! fixed-width unsigned integer (8, 16, 32, 64 or 128 bits).
//!
//! Each packed value starts with a small tag naming a "code page": a set of
//! at most 63 characters from one script, each stored as a 6-bit code.
//! One script, the CJK unified ideographs, is too large for a page and is
//! instead stored as 15-bit deltas from the low end of its block.
//!
//! The pages, tags and codes are arranged so that comparing two packed
//! values as unsigned integers reproduces Unicode code-point lexicographic
//! order of the original strings; the order and round-trip laws are stated
//! and proved in [`laws`].

use vstd::prelude::*;

pub mod codec;
pub mod laws;
pub mod packed;
pub mod pages;
pub mod units;
pub mod width;

pub use codec::DecodeSixbitIter;
pub use codec::EncodeError;
pub use packed::encode;
pub use packed::DecodeSixbit;
pub use packed::EncodeSixbit;
pub use packed::PackedValue;
