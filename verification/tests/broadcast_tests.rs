use tx_broadcast::driver::{DriverEvent, PoolRequest};
use tx_broadcast::manager::{BroadcastManager, RequestError};
use tx_broadcast::status::PoolStatus;

// A framed transaction blob: compact length header, then the payload.
const TX: &str = "0x0c616263";
const TX_BYTES: [u8; 4] = [0x0c, 0x61, 0x62, 0x63];
// A second framed blob.
const TX2: &str = "0x10717273ff";
const TX2_BYTES: [u8; 5] = [0x10, 0x71, 0x72, 0x73, 0xff];

#[test]
fn tx_broadcast_enters_pool() {
    let mut mgr = BroadcastManager::new();

    let operation_id = mgr.broadcast(Some(TX), 17).unwrap();

    // Announce block 1: the transaction is submitted against it.
    let subs = mgr.import_block(1);
    assert_eq!(subs.len(), 1);
    assert_eq!(subs[0].id, operation_id);
    assert_eq!(subs[0].block, 1);
    assert_eq!(subs[0].bytes, TX_BYTES.to_vec());

    // The pool reports the transaction ready, then included in block 2.
    assert!(mgr.on_event(operation_id, DriverEvent::Status(PoolStatus::Ready)).is_none());
    assert!(mgr
        .on_event(operation_id, DriverEvent::Status(PoolStatus::InBlock(2, 0)))
        .is_none());
    assert!(mgr.is_live(operation_id));

    // Finality has not been reached; force the operation to exit by
    // stopping it.
    let untrack = mgr.stop(operation_id).unwrap();
    assert!(untrack.is_some());
    assert!(!mgr.is_live(operation_id));
}

#[test]
fn tx_broadcast_invalid_tx() {
    let mut mgr = BroadcastManager::new();

    // Malformed request envelope: rejected before anything is allocated.
    let err = mgr.broadcast(None, 1).unwrap_err();
    assert_eq!(err, RequestError::InvalidParams);
    assert_eq!(err.message(), "Invalid params");

    // An undecodable transaction blob: the broadcast still returns an
    // identifier and silently never submits.
    let xt = "0xdeadbeef";
    let operation_id = mgr.broadcast(Some(xt), 2).unwrap();

    // A block import reaches the driver, which exits without a submission.
    let subs = mgr.import_block(1);
    assert_eq!(subs.len(), 0);

    // The broadcast operation is over; stop now reports an unknown id.
    let err = mgr.stop(operation_id).unwrap_err();
    assert_eq!(err, RequestError::InvalidOperationId);
    assert_eq!(err.message(), "Invalid operation id");
}

#[test]
fn tx_invalid_stop() {
    let mut mgr = BroadcastManager::new();

    // Make an invalid stop call: no such operation was ever issued.
    let made_up = tx_broadcast::op_id::OperationId { nonce: 99, token: 99 };
    let err = mgr.stop(made_up).unwrap_err();
    assert_eq!(err, RequestError::InvalidOperationId);
    assert_eq!(err.message(), "Invalid operation id");
}

#[test]
fn tx_broadcast_resubmits_future_nonce_tx() {
    let mut mgr = BroadcastManager::new();

    // A transaction whose sender nonce lives in the future.
    let future_operation_id = mgr.broadcast(Some(TX2), 5).unwrap();

    // Announce block 1: the future transaction is submitted.
    let subs = mgr.import_block(1);
    assert_eq!(subs.len(), 1);
    assert_eq!(subs[0].id, future_operation_id);
    assert!(mgr
        .on_event(future_operation_id, DriverEvent::Status(PoolStatus::Future))
        .is_none());

    // Broadcast the transaction filling the gap.
    let operation_id = mgr.broadcast(Some(TX), 6).unwrap();
    assert_ne!(future_operation_id, operation_id);

    // Announce block 2: only the new transaction is submitted; the tracked
    // one keeps its live status stream.
    let subs = mgr.import_block(2);
    assert_eq!(subs.len(), 1);
    assert_eq!(subs[0].id, operation_id);
    assert_eq!(subs[0].block, 2);

    // Both enter the ready queue.
    assert!(mgr.on_event(operation_id, DriverEvent::Status(PoolStatus::Ready)).is_none());
    assert!(mgr
        .on_event(future_operation_id, DriverEvent::Status(PoolStatus::Ready))
        .is_none());

    // Block 3 includes both at distinct indices and is finalized: both
    // operations terminate independently.
    mgr.on_event(operation_id, DriverEvent::Status(PoolStatus::InBlock(3, 0)));
    mgr.on_event(future_operation_id, DriverEvent::Status(PoolStatus::InBlock(3, 1)));
    assert!(mgr.is_live(operation_id) && mgr.is_live(future_operation_id));
    mgr.on_event(operation_id, DriverEvent::Status(PoolStatus::Finalized(3, 0)));
    assert!(!mgr.is_live(operation_id));
    assert!(mgr.is_live(future_operation_id));
    mgr.on_event(future_operation_id, DriverEvent::Status(PoolStatus::Finalized(3, 1)));
    assert!(!mgr.is_live(future_operation_id));

    assert_eq!(mgr.stop(operation_id).unwrap_err(), RequestError::InvalidOperationId);
    assert_eq!(mgr.stop(future_operation_id).unwrap_err(), RequestError::InvalidOperationId);
}

#[test]
fn tx_broadcast_stop_after_broadcast_finishes() {
    let mut mgr = BroadcastManager::new();

    let operation_id = mgr.broadcast(Some(TX), 8).unwrap();
    let subs = mgr.import_block(1);
    assert_eq!(subs.len(), 1);

    assert!(mgr.on_event(operation_id, DriverEvent::Status(PoolStatus::Ready)).is_none());
    assert!(mgr
        .on_event(operation_id, DriverEvent::Status(PoolStatus::InBlock(2, 0)))
        .is_none());
    assert!(mgr
        .on_event(operation_id, DriverEvent::Status(PoolStatus::Finalized(2, 0)))
        .is_none());

    // The operation cleared out its own state on the terminal status: the
    // identifier is no longer valid.
    let err = mgr.stop(operation_id).unwrap_err();
    assert_eq!(err, RequestError::InvalidOperationId);
    assert_eq!(err.message(), "Invalid operation id");
}

#[test]
fn eviction_recovery_resubmits() {
    let mut mgr = BroadcastManager::new();
    let id = mgr.broadcast(Some(TX), 3).unwrap();
    let subs = mgr.import_block(1);
    assert_eq!(subs.len(), 1);

    // The status stream closes without a terminal status: the pool evicted
    // the transaction. The operation stays live and queryable.
    assert!(mgr.on_event(id, DriverEvent::StatusStreamClosed).is_none());
    assert!(mgr.is_live(id));

    // The next block triggers a resubmission with a fresh stream.
    let subs = mgr.import_block(2);
    assert_eq!(subs.len(), 1);
    assert_eq!(subs[0].id, id);
    assert_eq!(subs[0].block, 2);
    assert_eq!(subs[0].bytes, TX_BYTES.to_vec());
    assert!(mgr.is_live(id));
}

#[test]
fn recoverable_submission_failure_waits_for_next_block() {
    let mut mgr = BroadcastManager::new();
    let id = mgr.broadcast(Some(TX), 3).unwrap();
    assert_eq!(mgr.import_block(1).len(), 1);

    assert!(mgr.on_event(id, DriverEvent::SubmitFailed { recoverable: true }).is_none());
    assert!(mgr.is_live(id));
    let subs = mgr.import_block(2);
    assert_eq!(subs.len(), 1);
    assert_eq!(subs[0].id, id);
}

#[test]
fn rejected_submission_terminates() {
    let mut mgr = BroadcastManager::new();
    let id = mgr.broadcast(Some(TX), 3).unwrap();
    assert_eq!(mgr.import_block(1).len(), 1);

    assert!(mgr.on_event(id, DriverEvent::SubmitFailed { recoverable: false }).is_none());
    assert!(!mgr.is_live(id));
    assert_eq!(mgr.stop(id).unwrap_err(), RequestError::InvalidOperationId);
}

#[test]
fn closed_block_source_terminates() {
    let mut mgr = BroadcastManager::new();
    let id = mgr.broadcast(Some(TX), 3).unwrap();
    assert_eq!(mgr.import_block(1).len(), 1);

    assert!(mgr.on_event(id, DriverEvent::BlockStreamClosed).is_none());
    assert!(!mgr.is_live(id));
}

#[test]
fn stop_before_first_block_exits_silently() {
    let mut mgr = BroadcastManager::new();
    let id = mgr.broadcast(Some(TX), 4).unwrap();

    // Nothing was ever submitted, so there is nothing to untrack.
    let untrack = mgr.stop(id).unwrap();
    assert_eq!(untrack, None);
    assert!(!mgr.is_live(id));

    // A later block import finds no live operation.
    assert_eq!(mgr.import_block(1).len(), 0);
}

#[test]
fn stop_after_submission_reports_content_hash() {
    let mut mgr = BroadcastManager::new();
    let id = mgr.broadcast(Some(TX), 4).unwrap();
    assert_eq!(mgr.import_block(1).len(), 1);

    // The best-effort untracking request names the transaction by the
    // Blake2 digest of its bytes.
    let untrack = mgr.stop(id).unwrap();
    assert_eq!(untrack, Some(sp_crypto_hashing::blake2_256(&TX_BYTES).to_vec()));
}

#[test]
fn stop_succeeds_exactly_once() {
    let mut mgr = BroadcastManager::new();
    let id = mgr.broadcast(Some(TX), 4).unwrap();
    assert!(mgr.stop(id).is_ok());
    assert_eq!(mgr.stop(id).unwrap_err(), RequestError::InvalidOperationId);
    assert_eq!(mgr.stop(id).unwrap_err(), RequestError::InvalidOperationId);
}

#[test]
fn identifiers_differ_even_with_equal_entropy() {
    let mut mgr = BroadcastManager::new();
    let a = mgr.broadcast(Some(TX), 42).unwrap();
    let b = mgr.broadcast(Some(TX), 42).unwrap();
    assert_ne!(a, b);
    assert!(mgr.is_live(a) && mgr.is_live(b));
}

#[test]
fn started_event_is_a_no_op_for_a_decoded_transaction() {
    let mut mgr = BroadcastManager::new();
    let id = mgr.broadcast(Some(TX), 1).unwrap();
    assert!(mgr.on_event(id, DriverEvent::Started).is_none());
    assert!(mgr.is_live(id));
}

#[test]
fn started_event_ends_an_undecodable_operation() {
    let mut mgr = BroadcastManager::new();
    let id = mgr.broadcast(Some("0xdeadbeef"), 1).unwrap();
    assert!(mgr.is_live(id));
    assert!(mgr.on_event(id, DriverEvent::Started).is_none());
    assert!(!mgr.is_live(id));
}

#[test]
fn events_for_unknown_operations_are_ignored() {
    let mut mgr = BroadcastManager::new();
    let made_up = tx_broadcast::op_id::OperationId { nonce: 7, token: 7 };
    assert!(mgr.on_event(made_up, DriverEvent::Status(PoolStatus::Ready)).is_none());
}

#[test]
fn cancellation_requests_untracking_after_eviction() {
    let mut mgr = BroadcastManager::new();
    let id = mgr.broadcast(Some(TX2), 9).unwrap();
    assert_eq!(mgr.import_block(1).len(), 1);
    assert!(mgr.on_event(id, DriverEvent::StatusStreamClosed).is_none());

    // Tracking is lost, but the transaction had been submitted: stopping
    // still asks the pool, best-effort, to stop tracking it.
    let untrack = mgr.stop(id).unwrap();
    assert_eq!(untrack, Some(sp_crypto_hashing::blake2_256(&TX2_BYTES).to_vec()));
}

#[test]
fn on_event_returns_the_resubmission_payload() {
    let mut mgr = BroadcastManager::new();
    let id = mgr.broadcast(Some(TX), 9).unwrap();
    assert_eq!(mgr.import_block(1).len(), 1);
    assert!(mgr.on_event(id, DriverEvent::StatusStreamClosed).is_none());

    // Delivering the block notification to the one operation directly also
    // yields the resubmission request.
    match mgr.on_event(id, DriverEvent::BlockImported(2)) {
        Some(PoolRequest::Submit { block, bytes }) => {
            assert_eq!(block, 2);
            assert_eq!(bytes, TX_BYTES.to_vec());
        },
        other => panic!("expected a submission, got {:?}", other.is_some()),
    }
}
