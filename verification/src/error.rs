use vstd::prelude::*;

verus! {

/// What this layer itself can find wrong. Failures of the storage engine are
/// not among these: they belong to whoever talks to the engine.
#[derive(Debug, Clone, Copy, PartialEq, Eq, Structural)]
pub enum Error {
    /// The stored id counter is not a four-byte number.
    CorruptSeed,
    /// A stored table id is not a four-byte number.
    CorruptTableId,
    /// A stored table name is not UTF-8.
    CorruptTableName,
    /// A logged range delete cannot be split into its two keys.
    MalformedDeleteRangeHint,
}

} // verus!
