use tx_broadcast::driver::{Driver, DriverEvent, DriverState, PoolAction, TransactionRecord};
use tx_broadcast::status::PoolStatus;

#[test]
fn driver_submits_on_first_block_and_untracks_on_cancellation() {
    let record = TransactionRecord::new(vec![0x08, 0xab, 0xcd]);
    assert_eq!(record.hash, sp_crypto_hashing::blake2_256(&[0x08, 0xab, 0xcd]).to_vec());

    let mut driver = Driver::new(Some(record));
    assert_eq!(driver.state, DriverState::AwaitingFirstBlock);

    // Events without a block do nothing before the first submission.
    assert_eq!(driver.step(DriverEvent::Started), None);
    assert_eq!(driver.step(DriverEvent::BlockImported(4)), Some(PoolAction::Submit { block: 4 }));
    assert_eq!(driver.state, DriverState::Tracking { stream_live: true });

    // Cancellation interrupts tracking and asks for best-effort untracking.
    assert_eq!(driver.step(DriverEvent::Cancelled), Some(PoolAction::StopWatching));
    assert!(driver.is_terminated());

    // Terminated is absorbing.
    assert_eq!(driver.step(DriverEvent::BlockImported(5)), None);
    assert!(driver.is_terminated());
}

#[test]
fn driver_records_the_latest_non_terminal_status() {
    let mut driver = Driver::new(Some(TransactionRecord::new(vec![0x00])));
    driver.step(DriverEvent::BlockImported(1));
    driver.step(DriverEvent::Status(PoolStatus::Future));
    assert_eq!(driver.record.as_ref().unwrap().last_status, Some(PoolStatus::Future));
    driver.step(DriverEvent::Status(PoolStatus::Ready));
    assert_eq!(driver.record.as_ref().unwrap().last_status, Some(PoolStatus::Ready));
    assert!(!driver.is_terminated());

    driver.step(DriverEvent::Status(PoolStatus::Dropped));
    assert!(driver.is_terminated());
}

#[test]
fn driver_without_a_record_exits_at_its_first_event() {
    let mut driver = Driver::new(None);
    assert_eq!(driver.step(DriverEvent::Started), None);
    assert!(driver.is_terminated());

    let mut driver = Driver::new(None);
    // Even a block import produces no submission.
    assert_eq!(driver.step(DriverEvent::BlockImported(1)), None);
    assert!(driver.is_terminated());
}

#[test]
fn terminal_statuses() {
    assert!(PoolStatus::Finalized(1, 0).is_terminal());
    assert!(PoolStatus::FinalityTimeout.is_terminal());
    assert!(PoolStatus::Invalid.is_terminal());
    assert!(PoolStatus::Dropped.is_terminal());
    assert!(PoolStatus::Usurped.is_terminal());
    assert!(!PoolStatus::Future.is_terminal());
    assert!(!PoolStatus::Ready.is_terminal());
    assert!(!PoolStatus::InBlock(1, 0).is_terminal());
    assert!(!PoolStatus::Retracted.is_terminal());
}
