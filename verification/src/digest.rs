//! The digest of a word, and how it is written down.
//!
//! The SHA-1 computation and the hexadecimal encoding are those of the
//! `sha1` and `hex` crates. What is said of them here is believed, not
//! proved.

use crate::constants::{SHA1_DIGEST_LENGTH, SHA1_HEX_STRING_LENGTH};
use sha1::Digest;
use vstd::prelude::*;
use vstd::utf8::encode_utf8;

verus! {

/// The SHA-1 digest of `data`: the twenty bytes that `sha1::Sha1::digest`
/// computes from these bytes.
pub uninterp spec fn sha1_digest(data: Seq<u8>) -> Seq<u8>;

/// Rests on `sha1::Sha1::digest`: the bytes that it returns depend on
/// `data` alone, and there are twenty of them.
#[verifier::external_body]
fn sha1_of(data: &[u8]) -> (digest: Vec<u8>)
    ensures
        digest@ == sha1_digest(data@),
        digest@.len() == SHA1_DIGEST_LENGTH,
{
    sha1::Sha1::digest(data).to_vec()
}

/// The digit that stands for `n`, for `n` from 0 to 15, with small letters
/// for ten to fifteen.
pub open spec fn hex_digit(n: int) -> char {
    seq!['0', '1', '2', '3', '4', '5', '6', '7', '8', '9', 'a', 'b', 'c', 'd', 'e', 'f'][n]
}

/// `data` in hexadecimal digits: two for each byte, the one for the upper
/// four bits first.
pub open spec fn hex_lower(data: Seq<u8>) -> Seq<char> {
    Seq::new(
        2 * data.len(),
        |i: int|
            if i % 2 == 0 {
                hex_digit(data[i / 2] as int / 16)
            } else {
                hex_digit(data[i / 2] as int % 16)
            },
    )
}

/// A hexadecimal digit, with a small or a capital letter.
pub open spec fn is_hex_digit(c: char) -> bool {
    ||| '0' <= c <= '9'
    ||| 'a' <= c <= 'f'
    ||| 'A' <= c <= 'F'
}

/// A SHA-1 digest in writing: forty hexadecimal digits.
pub open spec fn is_sha1_hex(s: Seq<char>) -> bool {
    &&& s.len() == SHA1_HEX_STRING_LENGTH
    &&& forall|i: int| 0 <= i < s.len() ==> is_hex_digit(#[trigger] s[i])
}

/// The small letter for a capital hexadecimal digit; any other character
/// as it is.
pub open spec fn lower_hex_digit(c: char) -> char {
    if c == 'A' {
        'a'
    } else if c == 'B' {
        'b'
    } else if c == 'C' {
        'c'
    } else if c == 'D' {
        'd'
    } else if c == 'E' {
        'e'
    } else if c == 'F' {
        'f'
    } else {
        c
    }
}

/// `s` with its capital hexadecimal digits made small.
pub open spec fn normalized(s: Seq<char>) -> Seq<char> {
    s.map_values(|c: char| lower_hex_digit(c))
}

/// A SHA-1 digest as the library keeps it: forty hexadecimal digits, the
/// letters small.
pub open spec fn is_normal_sha1_hex(s: Seq<char>) -> bool {
    &&& is_sha1_hex(s)
    &&& normalized(s) == s
}

/// Twenty bytes in hexadecimal digits are a SHA-1 digest as the library
/// keeps it.
pub proof fn lemma_hex_lower_is_normal(data: Seq<u8>)
    requires
        data.len() == SHA1_DIGEST_LENGTH,
    ensures
        is_normal_sha1_hex(hex_lower(data)),
{
    let written = hex_lower(data);
    assert forall|n: int| 0 <= n < 16 implies is_hex_digit(#[trigger] hex_digit(n))
        && lower_hex_digit(hex_digit(n)) == hex_digit(n) by {
        if n == 0 {
        } else if n == 1 {
        } else if n == 2 {
        } else if n == 3 {
        } else if n == 4 {
        } else if n == 5 {
        } else if n == 6 {
        } else if n == 7 {
        } else if n == 8 {
        } else if n == 9 {
        } else if n == 10 {
        } else if n == 11 {
        } else if n == 12 {
        } else if n == 13 {
        } else if n == 14 {
        } else {
        }
    }
    assert forall|i: int| 0 <= i < written.len() implies is_hex_digit(#[trigger] written[i])
        && lower_hex_digit(written[i]) == written[i] by {
        let byte = data[i / 2] as int;
        if i % 2 == 0 {
            assert(written[i] == hex_digit(byte / 16));
        } else {
            assert(written[i] == hex_digit(byte % 16));
        }
    }
    assert(normalized(written) =~= written);
}

/// Rests on `hex::encode`: it writes each byte as two hexadecimal digits,
/// the upper half first, with small letters.
#[verifier::external_body]
fn hex_encode(data: &[u8]) -> (text: String)
    ensures
        text@ == hex_lower(data@),
{
    hex::encode(data)
}

/// The SHA-1 digest of a word, in hexadecimal digits. The digest is taken of
/// the bytes of the word in UTF-8.
pub open spec fn digest_hex(word: Seq<char>) -> Seq<char> {
    hex_lower(sha1_digest(encode_utf8(word)))
}

/// Writes a digest in hexadecimal digits.
pub fn digest_to_hex(digest: &[u8]) -> (text: String)
    ensures
        text@ == hex_lower(digest@),
        digest@.len() == SHA1_DIGEST_LENGTH ==> is_normal_sha1_hex(text@),
{
    proof {
        if digest@.len() == SHA1_DIGEST_LENGTH {
            lemma_hex_lower_is_normal(digest@);
        }
    }
    hex_encode(digest)
}

/// The SHA-1 digest of the bytes of `password`.
pub fn digest_of(password: &str) -> (digest: Vec<u8>)
    ensures
        digest@ == sha1_digest(encode_utf8(password@)),
        digest@.len() == SHA1_DIGEST_LENGTH,
{
    sha1_of(password.as_bytes())
}

/// The SHA-1 digest of `password` in hexadecimal digits, in the form in
/// which a `PasswordCracker` takes and keeps its target.
pub fn hash_password(password: &str) -> (text: String)
    ensures
        text@ == digest_hex(password@),
        is_normal_sha1_hex(text@),
{
    let digest = digest_of(password);
    digest_to_hex(digest.as_slice())
}

} // verus!
