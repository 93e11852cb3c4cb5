//! A dictionary attack on one SHA-1 digest.
//!
//! A [`password_cracker::PasswordCracker`] holds the digest that is looked
//! for. The words of a wordlist are tested one after the other, each word
//! itself first and then what the configured
//! [`password_rules_attack::Rule`]s derive from it, and the search ends at
//! the first candidate whose digest is the one looked for. The three
//! [`password_mode::PasswordMode`]s walk the wordlist in different ways and
//! find the same candidate.
//!
//! The library works on text that is already in memory. Reading a wordlist
//! from a file is left to the caller, who hands the text over whole or line
//! by line.

pub mod constants;
pub mod error;
pub mod text;
pub mod digest;
pub mod password_cracker;
pub mod password_rules_attack;
pub mod candidates;
pub mod processing_strategy;
pub mod password_mode;
