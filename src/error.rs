use vstd::prelude::*;

verus! {

/// Every way a query can fail.
#[derive(Debug, Clone, Copy, PartialEq, Eq, Structural)]
pub enum IndexerError {
    /// A record ends in the middle of an entry.
    Truncated,
    /// A record holds fewer entries than its layout requires.
    WrongFieldCount,
    /// An entry's length prefix is above the per-field ceiling.
    FieldTooLarge,
    /// The field serializer rejected an entry's payload.
    DeserializeFailed,
    /// A decoded field could not be serialized again for rendering.
    EncodeFailed,
    /// The underlying store could not be read.
    StoreUnavailable,
    /// A digest string cannot be read as key bytes.
    InvalidKey,
}

} // verus!
