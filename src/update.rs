use vstd::prelude::*;

use crate::error::ShardError;

verus! {

/// A mutation submitted to a shard, one of four kinds.
#[derive(Clone, Debug, PartialEq, Eq)]
pub enum CollectionUpdateOperation<P, V, L, F> {
    PointOperation(P),
    VectorOperation(V),
    PayloadOperation(L),
    FieldIndexOperation(F),
}

/// A mutation routed to the segment routine for its kind, tagged with the
/// identifier the write-ahead log gave it.
#[derive(Clone, Debug, PartialEq, Eq)]
pub enum SegmentUpdate<P, V, L, F> {
    Points { op_id: u64, operation: P },
    Vectors { op_id: u64, operation: V },
    Payload { op_id: u64, operation: L },
    FieldIndex { op_id: u64, operation: F },
}

/// What the caller of an update does once the log write has returned.
#[derive(Debug, PartialEq, Eq)]
pub enum UpdateAction<P, V, L, F> {
    /// Run this segment routine and return its outcome.
    Apply(SegmentUpdate<P, V, L, F>),
    /// The update is over: return this outcome.
    Reply(Result<(), ShardError>),
}

/// The segment routine that `operation`, logged as `op_id`, goes to.
pub open spec fn route<P, V, L, F>(operation: CollectionUpdateOperation<P, V, L, F>, op_id: u64) -> SegmentUpdate<P, V, L, F> {
    match operation {
        CollectionUpdateOperation::PointOperation(o) => SegmentUpdate::Points { op_id, operation: o },
        CollectionUpdateOperation::VectorOperation(o) => SegmentUpdate::Vectors { op_id, operation: o },
        CollectionUpdateOperation::PayloadOperation(o) => SegmentUpdate::Payload { op_id, operation: o },
        CollectionUpdateOperation::FieldIndexOperation(o) => SegmentUpdate::FieldIndex { op_id, operation: o },
    }
}

impl<P, V, L, F> SegmentUpdate<P, V, L, F> {
    /// The log identifier the mutation carries.
    pub fn op_id(&self) -> (r: u64)
        ensures
            r == match *self {
                SegmentUpdate::Points { op_id, .. } => op_id,
                SegmentUpdate::Vectors { op_id, .. } => op_id,
                SegmentUpdate::Payload { op_id, .. } => op_id,
                SegmentUpdate::FieldIndex { op_id, .. } => op_id,
            },
    {
        match self {
            SegmentUpdate::Points { op_id, .. } => *op_id,
            SegmentUpdate::Vectors { op_id, .. } => *op_id,
            SegmentUpdate::Payload { op_id, .. } => *op_id,
            SegmentUpdate::FieldIndex { op_id, .. } => *op_id,
        }
    }
}

/// Decides an update once the write-ahead log has answered for it.
///
/// The log write comes first. If it failed, no segment routine runs and
/// the update fails as a service error with the log's message. Otherwise
/// the operation goes to the routine for its kind, tagged with the
/// identifier the log assigned.
pub fn dispatch_update<P, V, L, F>(
    operation: CollectionUpdateOperation<P, V, L, F>,
    written: Result<u64, String>,
) -> (r: UpdateAction<P, V, L, F>)
    ensures
        match written {
            Err(msg) => r == UpdateAction::<P, V, L, F>::Reply(
                Err(ShardError::Service { description: msg }),
            ),
            Ok(op_id) => r == UpdateAction::Apply(route(operation, op_id)),
        },
        r is Apply <==> written is Ok,
{
    match written {
        Err(msg) => UpdateAction::Reply(Err(ShardError::Service { description: msg })),
        Ok(op_id) => {
            let routed = match operation {
                CollectionUpdateOperation::PointOperation(o) => SegmentUpdate::Points {
                    op_id,
                    operation: o,
                },
                CollectionUpdateOperation::VectorOperation(o) => SegmentUpdate::Vectors {
                    op_id,
                    operation: o,
                },
                CollectionUpdateOperation::PayloadOperation(o) => SegmentUpdate::Payload {
                    op_id,
                    operation: o,
                },
                CollectionUpdateOperation::FieldIndexOperation(o) => SegmentUpdate::FieldIndex {
                    op_id,
                    operation: o,
                },
            };
            UpdateAction::Apply(routed)
        },
    }
}

} // verus!
