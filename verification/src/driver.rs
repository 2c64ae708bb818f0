//! The broadcast driver: a per-operation state machine.
//!
//! One driver exists per accepted broadcast operation. It waits for the first
//! best-block notification, submits the transaction for tracking, follows the
//! pool's status stream, resubmits when tracking is lost, and terminates on a
//! terminal status, on cancellation, or when the block source closes.
//!
//! The driver decides; it performs no pool interaction itself. Each call to
//! [`Driver::step`] consumes one external event and returns the pool request
//! the surrounding process must perform, exactly as the specification
//! function [`step_model`] states.

use crate::decoder::framing_ok;
use crate::hashing::blake2_256_digest;
use crate::hashing::blake2_256_of;
use crate::status::PoolStatus;
use vstd::prelude::*;

verus! {

/// The decoded transaction an operation carries: its bytes, the Blake2
/// digest the pool knows it by, and the last status the pool reported.
pub struct TransactionRecord {
    /// The decoded transaction bytes.
    pub bytes: Vec<u8>,
    /// The Blake2 256-bit digest of the bytes.
    pub hash: Vec<u8>,
    /// The last non-terminal status the pool reported, if any.
    pub last_status: Option<PoolStatus>,
}

/// The mathematical value of a [`TransactionRecord`].
pub struct RecordModel {
    /// The decoded transaction bytes.
    pub bytes: Seq<u8>,
    /// The Blake2 256-bit digest of the bytes.
    pub hash: Seq<u8>,
    /// The last non-terminal status the pool reported, if any.
    pub last_status: Option<PoolStatus>,
}

impl View for TransactionRecord {
    type V = RecordModel;

    open spec fn view(&self) -> RecordModel {
        RecordModel { bytes: self.bytes@, hash: self.hash@, last_status: self.last_status }
    }
}

impl TransactionRecord {
    /// A record for freshly decoded transaction bytes: digest computed, no
    /// status observed yet.
    pub fn new(bytes: Vec<u8>) -> (r: TransactionRecord)
        ensures
            r@ == (RecordModel {
                bytes: bytes@,
                hash: blake2_256_of(bytes@),
                last_status: None::<PoolStatus>,
            }),
    {
        let hash = blake2_256_digest(bytes.as_slice());
        TransactionRecord { bytes, hash, last_status: None }
    }
}

/// The driver's position in its lifecycle.
#[derive(Clone, Copy, Debug, PartialEq, Eq, Structural)]
pub enum DriverState {
    /// No block has been seen yet; nothing has been submitted.
    AwaitingFirstBlock,
    /// The transaction has been submitted. While `stream_live`, a status
    /// stream is attached; once it closes without a terminal status,
    /// tracking is lost and the driver waits for the next block to resubmit.
    Tracking { stream_live: bool },
    /// Absorbing: the operation is over.
    Terminated,
}

/// One external event, as the select over the driver's input sources
/// delivers it.
#[derive(Clone, Copy, Debug, PartialEq, Eq, Structural)]
pub enum DriverEvent {
    /// The driver task was first scheduled.
    Started,
    /// A new best block was imported.
    BlockImported(u64),
    /// The pool reported a status on the current stream.
    Status(PoolStatus),
    /// The current status stream closed without a terminal status.
    StatusStreamClosed,
    /// A submission failed before a stream was obtained; recoverable
    /// failures wait for the next block, the rest are terminal.
    SubmitFailed { recoverable: bool },
    /// The block source closed permanently.
    BlockStreamClosed,
    /// The operation's cancellation signal fired.
    Cancelled,
}

/// The pool interaction a transition asks for.
#[derive(Clone, Copy, Debug, PartialEq, Eq, Structural)]
pub enum PoolAction {
    /// Submit the transaction for tracking against the given block and
    /// attach to the returned status stream.
    Submit { block: u64 },
    /// Best-effort: ask the pool to stop tracking the transaction.
    StopWatching,
}

/// A pool interaction together with the payload the pool needs to perform
/// it.
pub enum PoolRequest {
    /// Submit the transaction bytes for tracking against the given block and
    /// attach to the returned status stream.
    Submit {
        /// The block to validate against.
        block: u64,
        /// The transaction bytes.
        bytes: Vec<u8>,
    },
    /// Best-effort: ask the pool to stop tracking the transaction with the
    /// given digest.
    StopWatching {
        /// The transaction's Blake2 256-bit digest.
        hash: Vec<u8>,
    },
}

/// The mathematical value of a [`PoolRequest`].
pub enum PoolRequestModel {
    /// Submit the bytes against the block.
    Submit {
        /// The block to validate against.
        block: u64,
        /// The transaction bytes.
        bytes: Seq<u8>,
    },
    /// Stop tracking the transaction with the digest.
    StopWatching {
        /// The transaction's Blake2 256-bit digest.
        hash: Seq<u8>,
    },
}

impl View for PoolRequest {
    type V = PoolRequestModel;

    open spec fn view(&self) -> PoolRequestModel {
        match self {
            PoolRequest::Submit { block, bytes } => PoolRequestModel::Submit {
                block: *block,
                bytes: bytes@,
            },
            PoolRequest::StopWatching { hash } => PoolRequestModel::StopWatching { hash: hash@ },
        }
    }
}

/// The request a driver's transition asks for, with its payload drawn from
/// the driver's record.
pub open spec fn request_model(d: DriverModel, a: PoolAction) -> PoolRequestModel {
    match a {
        PoolAction::Submit { block } => PoolRequestModel::Submit {
            block,
            bytes: d.record->Some_0.bytes,
        },
        PoolAction::StopWatching => PoolRequestModel::StopWatching {
            hash: d.record->Some_0.hash,
        },
    }
}

/// An owned copy of a byte vector.
pub(crate) fn clone_bytes(v: &Vec<u8>) -> (r: Vec<u8>)
    ensures
        r@ == v@,
{
    let mut r: Vec<u8> = Vec::new();
    let n = v.len();
    let mut i: usize = 0;
    while i < n
        invariant
            n == v@.len(),
            i <= n,
            r@ == v@.subrange(0, i as int),
        decreases n - i,
    {
        r.push(v[i]);
        proof {
            assert(r@ =~= v@.subrange(0, i + 1));
        }
        i = i + 1;
    }
    proof {
        assert(r@ =~= v@);
    }
    r
}

/// The driver: the record it carries (absent when the blob failed to
/// decode) and its lifecycle state.
pub struct Driver {
    /// The decoded transaction, or `None` when decoding failed and the
    /// driver exists only to terminate silently.
    pub record: Option<TransactionRecord>,
    /// The lifecycle state.
    pub state: DriverState,
}

/// The mathematical value of a [`Driver`].
pub struct DriverModel {
    /// The decoded transaction, if any.
    pub record: Option<RecordModel>,
    /// The lifecycle state.
    pub state: DriverState,
}

impl View for Driver {
    type V = DriverModel;

    open spec fn view(&self) -> DriverModel {
        DriverModel {
            record: match self.record {
                Some(r) => Some(r@),
                None => None,
            },
            state: self.state,
        }
    }
}

impl DriverModel {
    /// Internal consistency: a tracking driver carries a record, and a
    /// record's digest and framing match its bytes.
    pub open spec fn inv(self) -> bool {
        &&& (self.state matches DriverState::Tracking { .. } ==> self.record is Some)
        &&& (self.record matches Some(r) ==> r.hash == blake2_256_of(r.bytes) && framing_ok(
            r.bytes,
        ))
    }
}

/// The record after a status report: the latest non-terminal status is
/// remembered.
pub open spec fn record_with_status(r: Option<RecordModel>, s: PoolStatus) -> Option<RecordModel> {
    match r {
        Some(r) => Some(RecordModel { last_status: Some(s), ..r }),
        None => None,
    }
}

/// The driver transition relation: the next driver and the pool request the
/// transition asks for.
///
/// A driver without a record terminates at its first event, asking nothing
/// of the pool. Otherwise: the first block triggers the submission; a
/// terminal status, a closed block source, or cancellation terminates;
/// a closed status stream or a recoverable submission failure loses
/// tracking, and the next block resubmits; cancellation after a submission
/// also asks the pool, best-effort, to stop tracking.
pub open spec fn step_model(d: DriverModel, e: DriverEvent) -> (DriverModel, Option<PoolAction>) {
    if d.state is Terminated {
        (d, None)
    } else if d.record is None {
        (DriverModel { state: DriverState::Terminated, ..d }, None)
    } else {
        match d.state {
            DriverState::AwaitingFirstBlock => match e {
                DriverEvent::BlockImported(h) => (
                    DriverModel { state: DriverState::Tracking { stream_live: true }, ..d },
                    Some(PoolAction::Submit { block: h }),
                ),
                DriverEvent::BlockStreamClosed => (
                    DriverModel { state: DriverState::Terminated, ..d },
                    None,
                ),
                DriverEvent::Cancelled => (
                    DriverModel { state: DriverState::Terminated, ..d },
                    None,
                ),
                _ => (d, None),
            },
            DriverState::Tracking { stream_live } => match e {
                DriverEvent::Status(s) => if stream_live {
                    if s.spec_is_terminal() {
                        (DriverModel { state: DriverState::Terminated, ..d }, None)
                    } else {
                        (DriverModel { record: record_with_status(d.record, s), ..d }, None)
                    }
                } else {
                    (d, None)
                },
                DriverEvent::StatusStreamClosed => if stream_live {
                    (DriverModel { state: DriverState::Tracking { stream_live: false }, ..d }, None)
                } else {
                    (d, None)
                },
                DriverEvent::SubmitFailed { recoverable } => if stream_live {
                    if recoverable {
                        (
                            DriverModel {
                                state: DriverState::Tracking { stream_live: false },
                                ..d
                            },
                            None,
                        )
                    } else {
                        (DriverModel { state: DriverState::Terminated, ..d }, None)
                    }
                } else {
                    (d, None)
                },
                DriverEvent::BlockImported(h) => if stream_live {
                    (d, None)
                } else {
                    (
                        DriverModel { state: DriverState::Tracking { stream_live: true }, ..d },
                        Some(PoolAction::Submit { block: h }),
                    )
                },
                DriverEvent::BlockStreamClosed => (
                    DriverModel { state: DriverState::Terminated, ..d },
                    None,
                ),
                DriverEvent::Cancelled => (
                    DriverModel { state: DriverState::Terminated, ..d },
                    Some(PoolAction::StopWatching),
                ),
                DriverEvent::Started => (d, None),
            },
            DriverState::Terminated => (d, None),
        }
    }
}

impl Driver {
    /// A fresh driver: waiting for the first block, carrying the record of a
    /// transaction that decoded, or nothing when decoding failed.
    pub fn new(record: Option<TransactionRecord>) -> (r: Driver)
        ensures
            r@.state == DriverState::AwaitingFirstBlock,
            r@.record == match record {
                Some(rec) => Some(rec@),
                None => None::<RecordModel>,
            },
    {
        Driver { record, state: DriverState::AwaitingFirstBlock }
    }

    /// Whether the driver has reached its absorbing state.
    pub fn is_terminated(&self) -> (r: bool)
        ensures
            r == (self@.state is Terminated),
    {
        match self.state {
            DriverState::Terminated => true,
            _ => false,
        }
    }

    /// Consume one external event: move to the next state and return the
    /// pool request the transition asks for, exactly as [`step_model`]
    /// states.
    pub fn step(&mut self, e: DriverEvent) -> (r: Option<PoolAction>)
        ensures
            final(self)@ == step_model(old(self)@, e).0,
            r == step_model(old(self)@, e).1,
    {
        match self.state {
            DriverState::Terminated => None,
            _ => {
                if self.record.is_none() {
                    self.state = DriverState::Terminated;
                    return None;
                }
                match self.state {
                    DriverState::AwaitingFirstBlock => match e {
                        DriverEvent::BlockImported(h) => {
                            self.state = DriverState::Tracking { stream_live: true };
                            Some(PoolAction::Submit { block: h })
                        },
                        DriverEvent::BlockStreamClosed | DriverEvent::Cancelled => {
                            self.state = DriverState::Terminated;
                            None
                        },
                        _ => None,
                    },
                    DriverState::Tracking { stream_live } => match e {
                        DriverEvent::Status(s) => {
                            if stream_live {
                                if s.is_terminal() {
                                    self.state = DriverState::Terminated;
                                } else {
                                    if let Some(rec) = &mut self.record {
                                        rec.last_status = Some(s);
                                    }
                                }
                            }
                            None
                        },
                        DriverEvent::StatusStreamClosed => {
                            if stream_live {
                                self.state = DriverState::Tracking { stream_live: false };
                            }
                            None
                        },
                        DriverEvent::SubmitFailed { recoverable } => {
                            if stream_live {
                                if recoverable {
                                    self.state = DriverState::Tracking { stream_live: false };
                                } else {
                                    self.state = DriverState::Terminated;
                                }
                            }
                            None
                        },
                        DriverEvent::BlockImported(h) => {
                            if stream_live {
                                None
                            } else {
                                self.state = DriverState::Tracking { stream_live: true };
                                Some(PoolAction::Submit { block: h })
                            }
                        },
                        DriverEvent::BlockStreamClosed => {
                            self.state = DriverState::Terminated;
                            None
                        },
                        DriverEvent::Cancelled => {
                            self.state = DriverState::Terminated;
                            Some(PoolAction::StopWatching)
                        },
                        DriverEvent::Started => None,
                    },
                    DriverState::Terminated => None,
                }
            },
        }
    }
}

/// A step never invents a transaction: a pool request is only ever asked for
/// by a driver that carries a record, and the record's bytes never change.
pub proof fn lemma_step_keeps_record(d: DriverModel, e: DriverEvent)
    ensures
        step_model(d, e).1 is Some ==> d.record is Some,
        step_model(d, e).0.record is Some <==> d.record is Some,
        step_model(d, e).0.record matches Some(r) ==> r.bytes == d.record->Some_0.bytes && r.hash
            == d.record->Some_0.hash,
{
}

/// A step preserves the driver's internal consistency.
pub proof fn lemma_step_preserves_inv(d: DriverModel, e: DriverEvent)
    requires
        d.inv(),
    ensures
        step_model(d, e).0.inv(),
{
}

/// Cancellation terminates the driver in one transition, from every state
/// and without waiting on any other event: the cooperative cancellation
/// path cannot be blocked by a silent status stream or block source.
pub proof fn lemma_cancellation_terminates(d: DriverModel)
    ensures
        step_model(d, DriverEvent::Cancelled).0.state is Terminated,
{
}

/// A driver whose blob failed to decode never asks the pool for anything and
/// terminates at its first event.
pub proof fn lemma_undecoded_is_silent(d: DriverModel, e: DriverEvent)
    requires
        d.record is None,
    ensures
        step_model(d, e).1 is None,
        step_model(d, e).0.state is Terminated,
{
}

/// Eviction recovery: when the status stream closes without a terminal
/// status the driver stays live, and the next block notification makes it
/// resubmit against that block and track a fresh stream.
pub proof fn lemma_eviction_recovery(d: DriverModel, h: u64)
    requires
        d.record is Some,
        d.state == (DriverState::Tracking { stream_live: true }),
    ensures
        ({
            let (lost, first) = step_model(d, DriverEvent::StatusStreamClosed);
            let (resubmitted, second) = step_model(lost, DriverEvent::BlockImported(h));
            &&& lost.state == (DriverState::Tracking { stream_live: false })
            &&& first is None
            &&& resubmitted.state == (DriverState::Tracking { stream_live: true })
            &&& second == Some(PoolAction::Submit { block: h })
        }),
{
}

/// On a live stream, a terminal status ends the driver with no further pool
/// request, while a non-terminal one only records the latest status and
/// keeps the driver tracking.
pub proof fn lemma_status_decides_termination(d: DriverModel, s: PoolStatus)
    requires
        d.record is Some,
        d.state == (DriverState::Tracking { stream_live: true }),
    ensures
        step_model(d, DriverEvent::Status(s)).1 is None,
        s.spec_is_terminal() ==> step_model(d, DriverEvent::Status(s)).0.state is Terminated,
        !s.spec_is_terminal() ==> step_model(d, DriverEvent::Status(s)).0 == (DriverModel {
            record: record_with_status(d.record, s),
            ..d
        }),
{
}

} // verus!
