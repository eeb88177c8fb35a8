//! A domain-separated, fixed-length (32-byte) hash value type together with
//! the hexadecimal codec that gives it its canonical textual form.
//!
//! The `hex` module holds the stateless codec between raw bytes and ASCII hex
//! text; the `sha256t` module holds the tagged hash type, whose digests are
//! computed by SHA-256 over a per-tag seed prefix followed by the caller's
//! data.

use vstd::prelude::*;

pub mod hex;
pub mod sha256t;

verus! {

/// The closed error taxonomy shared by the hex codec and the hash type.
#[derive(Clone, Copy, Debug, PartialEq, Eq)]
pub enum Error {
    /// A hex string's byte length was odd; carries that length.
    OddLengthString(usize),
    /// A character was not a valid hexadecimal digit; carries the character.
    InvalidChar(char),
    /// A byte length did not match an expected fixed length;
    /// carries (expected, actual).
    InvalidLength(usize, usize),
}

} // verus!
