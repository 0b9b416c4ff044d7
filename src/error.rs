use vstd::prelude::*;

verus! {

/// Why a shard call failed.
#[derive(Clone, Debug, PartialEq, Eq)]
pub enum ShardError {
    /// The write-ahead log could not record the operation; nothing was
    /// applied.
    Service { description: String },
    /// A segment refused a mutation or a search.
    Segment { description: String },
}

} // verus!
