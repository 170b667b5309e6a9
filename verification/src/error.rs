use vstd::prelude::*;

verus! {

/// Why a decode or a text parse was refused.
#[derive(Debug, PartialEq, Eq, Clone)]
pub enum BitcoinError {
    /// The buffer ends before the value being decoded is complete.
    InsufficientBytes,
    /// The input is malformed in a way that more bytes would not cure.
    InvalidFormat,
}

} // verus!
