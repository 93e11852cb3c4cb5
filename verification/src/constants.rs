//! The sizes that the rest of the library is built on.

use vstd::prelude::*;

verus! {

/// The number of hexadecimal digits in which a SHA-1 digest is written.
pub const SHA1_HEX_STRING_LENGTH: usize = 40;

/// The number of bytes of a SHA-1 digest.
pub const SHA1_DIGEST_LENGTH: usize = 20;

/// The number of lines that the threaded mode gathers before it tests them
/// together, unless it is made with another one.
pub const CHUNK_SIZE: usize = 200_000;

} // verus!
