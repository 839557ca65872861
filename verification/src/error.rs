//! The library's error type.

use vstd::prelude::*;

verus! {

/// Why an operation of the roost library was refused or failed.
#[derive(Clone, Copy, Debug, PartialEq, Eq, Structural)]
pub enum RoostError {
    /// A roost name that is not 1-64 ASCII letters, digits, `-` or `_`.
    InvalidRoostName,
    /// A channel name that is not 1-64 ASCII letters, digits, `-` or `_`.
    InvalidChannel,
    /// A stored channel secret that is not exactly 32 bytes.
    MalformedChannelSecret,
    /// A stored control secret that is not exactly 32 bytes.
    MalformedControlSecret,
    /// The database reported an error.
    Storage,
    /// A stored or received value could not be decoded.
    Decode,
    /// A value could not be encoded.
    Encode,
    /// An identity key file that is not exactly 32 bytes.
    InvalidIdentityKey,
}

/// The description of each error.
pub open spec fn error_message(e: RoostError) -> Seq<char> {
    match e {
        RoostError::InvalidRoostName => "invalid roost name: use 1-64 ASCII letters, numbers, '-' or '_'"@,
        RoostError::InvalidChannel => "invalid channel name"@,
        RoostError::MalformedChannelSecret => "stored channel secret is malformed"@,
        RoostError::MalformedControlSecret => "stored control secret is malformed"@,
        RoostError::Storage => "database error"@,
        RoostError::Decode => "stored value could not be decoded"@,
        RoostError::Encode => "value could not be encoded"@,
        RoostError::InvalidIdentityKey => "invalid identity key file (expected exactly 32 bytes)"@,
    }
}

impl RoostError {
    /// A human-readable description of the error.
    pub fn message(&self) -> (r: &'static str)
        ensures
            r@ == error_message(*self),
    {
        match self {
            RoostError::InvalidRoostName => "invalid roost name: use 1-64 ASCII letters, numbers, '-' or '_'",
            RoostError::InvalidChannel => "invalid channel name",
            RoostError::MalformedChannelSecret => "stored channel secret is malformed",
            RoostError::MalformedControlSecret => "stored control secret is malformed",
            RoostError::Storage => "database error",
            RoostError::Decode => "stored value could not be decoded",
            RoostError::Encode => "value could not be encoded",
            RoostError::InvalidIdentityKey => "invalid identity key file (expected exactly 32 bytes)",
        }
    }
}

} // verus!
