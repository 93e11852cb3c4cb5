//! The digest that is looked for, and the test of one candidate against it.

use crate::constants::SHA1_HEX_STRING_LENGTH;
use crate::digest::{
    digest_hex, digest_of, digest_to_hex, hex_lower, is_hex_digit, is_normal_sha1_hex,
    is_sha1_hex, lower_hex_digit, normalized,
};
use crate::error::CrackError;
use vstd::prelude::*;

verus! {

fn is_hex_digit_char(c: char) -> (b: bool)
    ensures
        b == is_hex_digit(c),
{
    ('0' <= c && c <= '9') || ('a' <= c && c <= 'f') || ('A' <= c && c <= 'F')
}

fn lower_hex_digit_char(c: char) -> (low: char)
    ensures
        low == lower_hex_digit(c),
{
    match c {
        'A' => 'a',
        'B' => 'b',
        'C' => 'c',
        'D' => 'd',
        'E' => 'e',
        'F' => 'f',
        _ => c,
    }
}

/// Tests candidates against one SHA-1 digest.
pub struct PasswordCracker {
    hash_to_crack: String,
}

impl View for PasswordCracker {
    type V = Seq<char>;

    /// The digest that is looked for, in forty hexadecimal digits with small
    /// letters.
    closed spec fn view(&self) -> Seq<char> {
        self.hash_to_crack@
    }
}

impl PasswordCracker {
    #[verifier::type_invariant]
    spec fn well_formed(&self) -> bool {
        is_normal_sha1_hex(self.hash_to_crack@)
    }

    /// Takes the digest to look for. It has to be written as forty
    /// hexadecimal digits; capital letters are accepted and kept as small
    /// ones. Anything else is refused as `InvalidTargetFormat`.
    pub fn new(hash_to_crack: &str) -> (made: Result<Self, CrackError>)
        ensures
            is_sha1_hex(hash_to_crack@) ==> made is Ok && made->Ok_0@ == normalized(hash_to_crack@),
            !is_sha1_hex(hash_to_crack@) ==> made == Err::<Self, CrackError>(
                CrackError::InvalidTargetFormat,
            ),
    {
        broadcast use vstd::string::group_string_axioms;

        let mut kept = String::new();
        let mut count: usize = 0;
        for c in it: hash_to_crack.chars()
            invariant
                it.seq() == hash_to_crack@,
                count == it.index(),
                count <= SHA1_HEX_STRING_LENGTH,
                kept@ == normalized(hash_to_crack@.take(count as int)),
                forall|i: int| 0 <= i < count ==> is_hex_digit(#[trigger] hash_to_crack@[i]),
        {
            if count == SHA1_HEX_STRING_LENGTH || !is_hex_digit_char(c) {
                return Err(CrackError::InvalidTargetFormat);
            }
            kept.push(lower_hex_digit_char(c));
            assert(hash_to_crack@.take(count + 1) =~= hash_to_crack@.take(count as int).push(c));
            assert(normalized(hash_to_crack@.take(count + 1)) =~= normalized(
                hash_to_crack@.take(count as int),
            ).push(lower_hex_digit(c)));
            count = count + 1;
        }
        if count != SHA1_HEX_STRING_LENGTH {
            return Err(CrackError::InvalidTargetFormat);
        }
        assert(hash_to_crack@.take(count as int) =~= hash_to_crack@);
        assert(normalized(kept@) =~= kept@);
        Ok(PasswordCracker { hash_to_crack: kept })
    }

    /// The digest that is looked for, as it is kept.
    pub fn hash_to_crack(&self) -> (hash: &str)
        ensures
            hash@ == self@,
            is_normal_sha1_hex(hash@),
    {
        proof {
            use_type_invariant(self);
        }
        self.hash_to_crack.as_str()
    }

    /// Tells whether `digest`, written in hexadecimal digits, is the digest
    /// that is looked for.
    pub fn matches_digest(&self, digest: &[u8]) -> (same: bool)
        ensures
            same == (hex_lower(digest@) == self@),
    {
        let written = digest_to_hex(digest);
        written == self.hash_to_crack
    }

    /// Tells whether `common_password` has the digest that is looked for.
    pub fn check_password(&self, common_password: &str) -> (same: bool)
        ensures
            same == (digest_hex(common_password@) == self@),
    {
        let digest = digest_of(common_password);
        self.matches_digest(digest.as_slice())
    }

    /// Tells whether the text `hash` has the digest that is looked for.
    pub fn check_hash(&self, hash: &str) -> (same: bool)
        ensures
            same == (digest_hex(hash@) == self@),
    {
        self.check_password(hash)
    }
}

} // verus!
