//! Why a converter, or one of its parts, could not be built.

use vstd::prelude::*;
use vstd::string::StringExecFns;

verus! {

/// Construction is the only step that can fail: a converter is built only
/// from sources that hold something usable and with search patterns that are
/// accepted, and conversion by a converter never fails. The steps of the
/// normalizer fail on their own only where their pattern is not accepted.
#[derive(Debug, Clone, Copy, PartialEq, Eq)]
pub enum G2PError {
    /// No usable entry, or no usable directive, was left of the source.
    SourceEmpty,
    /// A search pattern was not accepted as a regular expression.
    InvalidPattern,
}

impl G2PError {
    /// The error in words.
    pub open spec fn text(self) -> Seq<char> {
        match self {
            G2PError::SourceEmpty => "no usable entry was left of the source"@,
            G2PError::InvalidPattern => "a search pattern is no regular expression"@,
        }
    }

    /// The error in words.
    pub fn message(&self) -> (r: String)
        ensures
            r@ == self.text(),
    {
        match self {
            G2PError::SourceEmpty => String::from_str("no usable entry was left of the source"),
            G2PError::InvalidPattern => String::from_str(
                "a search pattern is no regular expression",
            ),
        }
    }
}

} // verus!
