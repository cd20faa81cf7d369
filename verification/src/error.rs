//! Error taxonomy of the store layer.

use vstd::prelude::*;

verus! {

/// Why a key or value failed to encode or decode.
#[derive(Debug, PartialEq, Eq, Clone)]
pub enum DataError {
    /// The leading tag byte names no supported value variant.
    UnknownType { tag: u8 },
    /// The buffer does not have the length its tag demands.
    WrongLength { actual: usize },
    /// A string payload is not valid UTF-8.
    InvalidUtf8,
    /// A boolean payload holds a byte other than zero or one.
    InvalidBool { byte: u8 },
    /// The payload exceeds the representable size bound.
    TooLarge { len: usize },
}

/// Every failure a store operation can surface.
#[derive(Debug, PartialEq, Eq, Clone)]
pub enum StoreError {
    /// A key, database or exact duplicate pair was absent where its presence
    /// was required; carries the offending key's bytes.
    NotFound { key: Vec<u8> },
    /// A key or value failed to encode or decode.
    EncodingError(DataError),
    /// The engine below reported a failure of its own (an exhausted map, a
    /// corrupted page, an invalid database handle).
    BackendFailure,
    /// An operation reached a transaction or cursor outside its valid
    /// lifetime.  Transactions here are consumed on commit and abort, so the
    /// verified code never produces this; an engine whose handles outlive
    /// their transactions reports it through its own error type.
    StateError,
    /// A second concurrent write transaction was requested and the engine
    /// could not block.  Write transactions here take their environment by
    /// value, so the verified code never produces this.
    ConcurrencyDenial,
}

} // verus!
