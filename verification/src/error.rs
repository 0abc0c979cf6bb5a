//! The ways in which an operation of the scheme can fail.

use vstd::prelude::*;

verus! {

/// Why an operation failed.
#[derive(Clone, Copy, Debug, PartialEq, Eq, Structural)]
pub enum LmsError {
    /// Bytes that do not encode what they should: a wrong length or a
    /// type code that is not registered.
    MalformedInput,
    /// The signature is not a signature of the message under the key.
    VerificationFailure,
    /// The key has signed as many messages as it has leaf paths.
    KeyExhausted,
    /// The random bytes handed in are not as many as were needed.
    EntropyFailure,
    /// The parameter sets asked for cannot make a key.
    ConfigInvalid,
}

impl LmsError {
    /// The words that describe the failure.
    pub open spec fn spec_message(self) -> Seq<char> {
        match self {
            LmsError::MalformedInput => "malformed input"@,
            LmsError::VerificationFailure => "signature invalid"@,
            LmsError::KeyExhausted => "key exhausted"@,
            LmsError::EntropyFailure => "entropy failure"@,
            LmsError::ConfigInvalid => "invalid configuration"@,
        }
    }

    /// A short description of the failure.
    pub fn message(&self) -> (r: &'static str)
        ensures
            r@ == self.spec_message(),
    {
        match self {
            LmsError::MalformedInput => "malformed input",
            LmsError::VerificationFailure => "signature invalid",
            LmsError::KeyExhausted => "key exhausted",
            LmsError::EntropyFailure => "entropy failure",
            LmsError::ConfigInvalid => "invalid configuration",
        }
    }
}

} // verus!
