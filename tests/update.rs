use edge::error::ShardError;
use edge::update::{dispatch_update, CollectionUpdateOperation, SegmentUpdate, UpdateAction};

type Op = CollectionUpdateOperation<&'static str, u8, bool, i32>;

#[test]
fn wal_failure_applies_nothing() {
    let kinds: Vec<Op> = vec![
        CollectionUpdateOperation::PointOperation("upsert"),
        CollectionUpdateOperation::VectorOperation(3),
        CollectionUpdateOperation::PayloadOperation(true),
        CollectionUpdateOperation::FieldIndexOperation(-1),
    ];
    for op in kinds {
        let action = dispatch_update(op, Err("disk full".to_string()));
        assert_eq!(
            action,
            UpdateAction::Reply(Err(ShardError::Service { description: "disk full".to_string() }))
        );
    }
}

#[test]
fn operations_route_to_their_kind() {
    let op: Op = CollectionUpdateOperation::PointOperation("upsert");
    assert_eq!(
        dispatch_update(op, Ok(7)),
        UpdateAction::Apply(SegmentUpdate::Points { op_id: 7, operation: "upsert" })
    );
    let op: Op = CollectionUpdateOperation::VectorOperation(3);
    assert_eq!(
        dispatch_update(op, Ok(8)),
        UpdateAction::Apply(SegmentUpdate::Vectors { op_id: 8, operation: 3 })
    );
    let op: Op = CollectionUpdateOperation::PayloadOperation(true);
    assert_eq!(
        dispatch_update(op, Ok(9)),
        UpdateAction::Apply(SegmentUpdate::Payload { op_id: 9, operation: true })
    );
    let op: Op = CollectionUpdateOperation::FieldIndexOperation(-1);
    assert_eq!(
        dispatch_update(op, Ok(u64::MAX)),
        UpdateAction::Apply(SegmentUpdate::FieldIndex { op_id: u64::MAX, operation: -1 })
    );
}

#[test]
fn segment_update_reports_op_id() {
    let u: SegmentUpdate<(), (), (), ()> = SegmentUpdate::Payload { op_id: 42, operation: () };
    assert_eq!(u.op_id(), 42);
    let u: SegmentUpdate<(), (), (), ()> = SegmentUpdate::FieldIndex { op_id: 0, operation: () };
    assert_eq!(u.op_id(), 0);
}
