//! What can be wrong with a configuration.

use vstd::prelude::*;
use vstd::string::StringExecFns;

verus! {

/// A configuration that the library does not accept. Each of them is
/// handed back to the caller; none ends the process.
#[derive(Debug, PartialEq, Eq)]
pub enum CrackError {
    /// The target is not a SHA-1 digest written as forty hexadecimal digits.
    InvalidTargetFormat,
    /// A rule was asked for under a name that the library does not know.
    /// The name is kept.
    UnknownRule(String),
    /// A mode was asked for under a name that the library does not know.
    /// The name is kept.
    InvalidMode(String),
}

impl CrackError {
    /// The text of the message, as a sequence of characters.
    pub open spec fn message_text(self) -> Seq<char> {
        match self {
            CrackError::InvalidTargetFormat => "sha1 hash is not valid"@,
            CrackError::UnknownRule(name) => "Unknown rule: "@ + name@,
            CrackError::InvalidMode(name) => "Invalid mode: "@ + name@,
        }
    }

    /// A message for the user that names what is wrong.
    pub fn message(&self) -> (text: String)
        ensures
            text@ == self.message_text(),
    {
        match self {
            CrackError::InvalidTargetFormat => String::from_str("sha1 hash is not valid"),
            CrackError::UnknownRule(name) => {
                String::from_str("Unknown rule: ").concat(name.as_str())
            },
            CrackError::InvalidMode(name) => {
                String::from_str("Invalid mode: ").concat(name.as_str())
            },
        }
    }
}

} // verus!
