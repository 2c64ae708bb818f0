//! The broadcast operation manager: the composition root.
//!
//! A broadcast request allocates a fresh operation identifier, decodes the
//! transaction blob, and registers a driver for it — even when the blob
//! fails to decode, in which case the driver terminates silently at its
//! first scheduling and nothing ever reaches the pool. A stop request
//! cancels the matching live driver and fails with `InvalidOperationId`
//! otherwise: the identifier was never issued, the driver already reached a
//! terminal state, or it was already stopped.
//!
//! Every public operation is stated against a specification transition on
//! [`ManagerModel`]; the proof functions at the end of the module state the
//! manager's laws over those transitions.

use crate::decoder::decode_transaction;
use crate::decoder::decodes;
use crate::decoder::hex_bytes_of;
use crate::driver::lemma_step_preserves_inv;
use crate::driver::request_model;
use crate::driver::step_model;
use crate::driver::Driver;
use crate::driver::DriverEvent;
use crate::driver::DriverModel;
use crate::driver::DriverState;
use crate::driver::PoolAction;
use crate::driver::PoolRequest;
use crate::driver::PoolRequestModel;
use crate::driver::RecordModel;
use crate::driver::TransactionRecord;
use crate::hashing::blake2_256_of;
use crate::op_id::OperationId;
use crate::registry::has_resubmission;
use crate::registry::step_all;
use crate::registry::Registry;
use crate::registry::Resubmission;
use crate::status::PoolStatus;
use vstd::prelude::*;

verus! {

/// A request error of the control surface.
#[derive(Clone, Copy, Debug, PartialEq, Eq, Structural)]
pub enum RequestError {
    /// The request envelope is malformed: no transaction argument.
    InvalidParams,
    /// The stop request names no live operation.
    InvalidOperationId,
}

impl RequestError {
    /// The message the control surface reports for this error.
    pub fn message(&self) -> (r: &'static str)
        ensures
            self is InvalidParams ==> r@ == "Invalid params"@,
            self is InvalidOperationId ==> r@ == "Invalid operation id"@,
    {
        match self {
            RequestError::InvalidParams => "Invalid params",
            RequestError::InvalidOperationId => "Invalid operation id",
        }
    }
}

/// The mathematical value of a manager: the live operations and the
/// identifier allocation counter.
pub struct ManagerModel {
    /// The live operations: one driver per live identifier.
    pub ops: Map<OperationId, DriverModel>,
    /// The next free value of the identifier's counter part.
    pub next_nonce: int,
}

impl ManagerModel {
    /// Internal consistency: the counter bounds every live identifier's
    /// counter part (so a fresh identifier can never collide with a live
    /// one), and every live driver is internally consistent.
    pub open spec fn wf(self) -> bool {
        &&& 0 <= self.next_nonce <= u64::MAX
        &&& forall|id: OperationId| #[trigger]
            self.ops.contains_key(id) ==> id.nonce < self.next_nonce
        &&& forall|id: OperationId| #[trigger] self.ops.contains_key(id) ==> self.ops[id].inv()
    }
}

/// The driver a broadcast request spawns: a record when the blob decodes,
/// none otherwise, always awaiting the first block.
pub open spec fn initial_driver(tx: Seq<char>) -> DriverModel {
    DriverModel {
        record: if decodes(tx) {
            Some(
                RecordModel {
                    bytes: hex_bytes_of(tx),
                    hash: blake2_256_of(hex_bytes_of(tx)),
                    last_status: None::<PoolStatus>,
                },
            )
        } else {
            None::<RecordModel>
        },
        state: DriverState::AwaitingFirstBlock,
    }
}

/// What a broadcast request does: a malformed envelope is rejected before
/// anything is allocated; otherwise a fresh identifier is returned and a
/// driver registered, whether or not the blob decodes.
pub open spec fn broadcast_model(m: ManagerModel, param: Option<Seq<char>>, token: u64) -> (
    ManagerModel,
    Result<OperationId, RequestError>,
) {
    match param {
        None => (m, Err(RequestError::InvalidParams)),
        Some(tx) => {
            let id = OperationId { nonce: m.next_nonce as u64, token };
            (
                ManagerModel {
                    ops: m.ops.insert(id, initial_driver(tx)),
                    next_nonce: m.next_nonce + 1,
                },
                Ok(id),
            )
        },
    }
}

/// What a stop request does: a live operation is cancelled and removed, and
/// the digest the pool should best-effort stop tracking is reported (the
/// driver asks for that exactly when it had submitted); any other identifier
/// fails.
pub open spec fn stop_model(m: ManagerModel, id: OperationId) -> (
    ManagerModel,
    Result<Option<Seq<u8>>, RequestError>,
) {
    if m.ops.contains_key(id) {
        let untrack = match step_model(m.ops[id], DriverEvent::Cancelled).1 {
            Some(PoolAction::StopWatching) => Some(m.ops[id].record->Some_0.hash),
            _ => None::<Seq<u8>>,
        };
        (ManagerModel { ops: m.ops.remove(id), ..m }, Ok(untrack))
    } else {
        (m, Err(RequestError::InvalidOperationId))
    }
}

/// What delivering one external event to one operation does: the live
/// driver steps once and leaves the mapping if it terminates; an event for
/// an operation that is not live is ignored.
pub open spec fn on_event_model(m: ManagerModel, id: OperationId, e: DriverEvent) -> (
    ManagerModel,
    Option<PoolRequestModel>,
) {
    if m.ops.contains_key(id) {
        let (stepped, act) = step_model(m.ops[id], e);
        let ops = if stepped.state is Terminated {
            m.ops.remove(id)
        } else {
            m.ops.insert(id, stepped)
        };
        let req = match act {
            Some(a) => Some(request_model(m.ops[id], a)),
            None => None::<PoolRequestModel>,
        };
        (ManagerModel { ops, ..m }, req)
    } else {
        (m, None::<PoolRequestModel>)
    }
}

/// What a block import does: every live driver steps once on the
/// notification.
pub open spec fn import_block_model(m: ManagerModel, h: u64) -> ManagerModel {
    ManagerModel { ops: step_all(m.ops, DriverEvent::BlockImported(h)), ..m }
}

/// The broadcast operation manager.
pub struct BroadcastManager {
    registry: Registry,
    next_nonce: u64,
}

impl View for BroadcastManager {
    type V = ManagerModel;

    closed spec fn view(&self) -> ManagerModel {
        ManagerModel { ops: self.registry@, next_nonce: self.next_nonce as int }
    }
}

impl BroadcastManager {
    /// Internal consistency.
    pub closed spec fn wf(self) -> bool {
        self.registry.wf() && self@.wf()
    }

    /// A manager with no live operations.
    pub fn new() -> (r: BroadcastManager)
        ensures
            r.wf(),
            r@.ops == Map::<OperationId, DriverModel>::empty(),
            r@.next_nonce == 0,
    {
        BroadcastManager { registry: Registry::new(), next_nonce: 0 }
    }

    /// Whether the identifier counter is used up. (Practically out of
    /// reach: it takes one broadcast per counter value to get there.)
    pub fn ids_exhausted(&self) -> (r: bool)
        ensures
            r == (self@.next_nonce == u64::MAX),
    {
        self.next_nonce == u64::MAX
    }

    /// Whether an operation is currently live.
    pub fn is_live(&self, id: OperationId) -> (r: bool)
        requires
            self.wf(),
        ensures
            r == self@.ops.contains_key(id),
    {
        self.registry.contains(id)
    }

    /// Serve a broadcast request. `param` is the transaction argument as the
    /// protocol layer extracted it: `None` stands for a malformed envelope
    /// (wrong arity or type) and is rejected before anything is allocated.
    /// `token` is caller-supplied entropy for the unguessable part of the
    /// identifier.
    ///
    /// On a well-formed envelope this always returns a fresh identifier,
    /// even when the blob fails to decode: the spawned driver then
    /// terminates silently at its first scheduling, and nothing ever
    /// reaches the pool.
    pub fn broadcast(&mut self, param: Option<&str>, token: u64) -> (r: Result<
        OperationId,
        RequestError,
    >)
        requires
            old(self).wf(),
            old(self)@.next_nonce < u64::MAX,
        ensures
            final(self).wf(),
            ({
                let (m2, rr) = broadcast_model(
                    old(self)@,
                    match param {
                        Some(tx) => Some(tx@),
                        None => None::<Seq<char>>,
                    },
                    token,
                );
                final(self)@ == m2 && r == rr
            }),
    {
        match param {
            None => Err(RequestError::InvalidParams),
            Some(tx) => {
                let id = OperationId { nonce: self.next_nonce, token };
                let record = match decode_transaction(tx) {
                    Ok(bytes) => Some(TransactionRecord::new(bytes)),
                    Err(_) => None,
                };
                let driver = Driver::new(record);
                proof {
                    assert(driver@ == initial_driver(tx@));
                    if self.registry@.contains_key(id) {
                        assert(id.nonce < self@.next_nonce);
                        assert(false);
                    }
                }
                self.registry.insert(id, driver);
                self.next_nonce = self.next_nonce + 1;
                proof {
                    assert forall|other: OperationId| #[trigger]
                        self@.ops.contains_key(other) implies other.nonce < self@.next_nonce
                        && self@.ops[other].inv() by {
                        if other != id {
                            assert(old(self)@.ops.contains_key(other));
                        }
                    }
                }
                Ok(id)
            },
        }
    }

    /// Serve a stop request: cancel the matching live operation, whose
    /// registry entry is removed at once, and return the digest the pool
    /// should best-effort stop tracking, if the driver had submitted.
    /// Fails with `InvalidOperationId` when the identifier is not live:
    /// never issued, already terminated, or already stopped.
    pub fn stop(&mut self, id: OperationId) -> (r: Result<Option<Vec<u8>>, RequestError>)
        requires
            old(self).wf(),
        ensures
            final(self).wf(),
            final(self)@ == stop_model(old(self)@, id).0,
            r is Ok <==> stop_model(old(self)@, id).1 is Ok,
            r matches Err(e) ==> e == RequestError::InvalidOperationId,
            r matches Ok(untrack) ==> stop_model(old(self)@, id).1 == Ok::<
                Option<Seq<u8>>,
                RequestError,
            >(
                match untrack {
                    Some(hash) => Some(hash@),
                    None => None::<Seq<u8>>,
                },
            ),
    {
        let r = match self.registry.cancel(id) {
            Ok(untrack) => Ok(untrack),
            Err(_) => Err(RequestError::InvalidOperationId),
        };
        proof {
            assert forall|other: OperationId| #[trigger]
                self@.ops.contains_key(other) implies other.nonce < self@.next_nonce
                && self@.ops[other].inv() by {
                assert(old(self)@.ops.contains_key(other));
            }
        }
        r
    }

    /// Deliver one external event — a status report, a stream closure, a
    /// submission failure, the driver's first scheduling, or cancellation —
    /// to one operation, and return the pool request the driver asks for.
    /// The entry leaves the registry the moment the driver terminates. An
    /// event for an operation that is not live is ignored.
    pub fn on_event(&mut self, id: OperationId, e: DriverEvent) -> (r: Option<PoolRequest>)
        requires
            old(self).wf(),
        ensures
            final(self).wf(),
            final(self)@ == on_event_model(old(self)@, id, e).0,
            match r {
                Some(req) => on_event_model(old(self)@, id, e).1 == Some(req@),
                None => on_event_model(old(self)@, id, e).1 is None,
            },
    {
        let r = self.registry.deliver(id, e);
        proof {
            if old(self)@.ops.contains_key(id) {
                lemma_step_preserves_inv(old(self)@.ops[id], e);
            }
            assert forall|other: OperationId| #[trigger]
                self@.ops.contains_key(other) implies other.nonce < self@.next_nonce
                && self@.ops[other].inv() by {
                if other != id {
                    assert(old(self)@.ops.contains_key(other));
                }
            }
        }
        r
    }

    /// The block-import source closed permanently: no operation can make
    /// progress or recover from eviction any more, so every live driver
    /// observes the closure, terminates, and self-removes. No operation
    /// stays live, which is exactly what delivering the closure to every
    /// driver leaves behind.
    pub fn close_block_source(&mut self)
        requires
            old(self).wf(),
        ensures
            final(self).wf(),
            final(self)@.next_nonce == old(self)@.next_nonce,
            final(self)@.ops == step_all(old(self)@.ops, DriverEvent::BlockStreamClosed),
            final(self)@.ops == Map::<OperationId, DriverModel>::empty(),
    {
        self.registry.clear();
        proof {
            assert(step_all(old(self)@.ops, DriverEvent::BlockStreamClosed) =~= Map::<
                OperationId,
                DriverModel,
            >::empty());
        }
    }

    /// Fan a new best-block notification out to every live operation, and
    /// return the resubmissions the drivers ask for: one per driver that was
    /// awaiting its first block or had lost tracking, none for drivers whose
    /// stream is live, and none ever for an undecodable blob (whose driver
    /// terminates instead).
    pub fn import_block(&mut self, h: u64) -> (r: Vec<Resubmission>)
        requires
            old(self).wf(),
        ensures
            final(self).wf(),
            final(self)@ == import_block_model(old(self)@, h),
            forall|k: int|
                0 <= k < r@.len() ==> {
                    let rq = #[trigger] r@[k];
                    &&& old(self)@.ops.contains_key(rq.id)
                    &&& step_model(old(self)@.ops[rq.id], DriverEvent::BlockImported(h)).1 == Some(
                        PoolAction::Submit { block: h },
                    )
                    &&& rq.block == h
                    &&& rq.bytes@ == old(self)@.ops[rq.id].record->Some_0.bytes
                },
            forall|id: OperationId|
                old(self)@.ops.contains_key(id) && (#[trigger] step_model(
                    old(self)@.ops[id],
                    DriverEvent::BlockImported(h),
                ).1) is Some ==> has_resubmission(r@, id),
            forall|k1: int, k2: int| 0 <= k1 < k2 < r@.len() ==> r@[k1].id != r@[k2].id,
    {
        let r = self.registry.deliver_block(h);
        proof {
            assert forall|other: OperationId| #[trigger]
                self@.ops.contains_key(other) implies other.nonce < self@.next_nonce
                && self@.ops[other].inv() by {
                assert(old(self)@.ops.contains_key(other));
                lemma_step_preserves_inv(old(self)@.ops[other], DriverEvent::BlockImported(h));
            }
        }
        r
    }
}

/// No registered driver has terminated.
pub open spec fn all_running(m: Map<OperationId, DriverModel>) -> bool {
    forall|id: OperationId| m.contains_key(id) ==> !((#[trigger] m[id]).state is Terminated)
}

/// An identifier is registered exactly while its operation runs: no
/// transition leaves a terminated driver registered. Removal thus happens
/// exactly once per operation — by the driver's own terminal transition, or
/// by a stop request, never both: whichever comes second finds the
/// identifier gone and treats the operation as already handled.
pub proof fn lemma_only_running_operations_stay(
    m: ManagerModel,
    tx: Seq<char>,
    token: u64,
    id: OperationId,
    e: DriverEvent,
    h: u64,
)
    requires
        all_running(m.ops),
    ensures
        all_running(broadcast_model(m, Some(tx), token).0.ops),
        all_running(stop_model(m, id).0.ops),
        all_running(on_event_model(m, id, e).0.ops),
        all_running(import_block_model(m, h).ops),
{
}

/// A broadcast returns an identifier that no live operation carried before;
/// stopping it succeeds, and every later stop of the same identifier fails
/// with `InvalidOperationId`.
pub proof fn lemma_broadcast_then_stop(m: ManagerModel, tx: Seq<char>, token: u64)
    requires
        m.wf(),
        m.next_nonce < u64::MAX,
    ensures
        ({
            let (m1, r) = broadcast_model(m, Some(tx), token);
            &&& r is Ok
            &&& !m.ops.contains_key(r->Ok_0)
            &&& m1.ops.contains_key(r->Ok_0)
            &&& stop_model(m1, r->Ok_0).1 is Ok
            &&& stop_model(stop_model(m1, r->Ok_0).0, r->Ok_0).1 == Err::<
                Option<Seq<u8>>,
                RequestError,
            >(RequestError::InvalidOperationId)
        }),
{
}

/// Stopping is idempotent: after any stop, a second stop of the same
/// identifier observes "not found" — it fails, changes nothing, and signals
/// nothing.
pub proof fn lemma_stop_idempotent(m: ManagerModel, id: OperationId)
    ensures
        ({
            let m1 = stop_model(m, id).0;
            &&& stop_model(m1, id).1 == Err::<Option<Seq<u8>>, RequestError>(
                RequestError::InvalidOperationId,
            )
            &&& stop_model(m1, id).0 == m1
        }),
{
}

/// An operation stays live — and stopping it keeps succeeding — until its
/// driver terminates: on a terminal status, on cancellation, or when the
/// block source closes; and exactly then stop starts failing.
pub proof fn lemma_live_until_terminal(m: ManagerModel, id: OperationId, e: DriverEvent)
    requires
        m.ops.contains_key(id),
    ensures
        ({
            let m1 = on_event_model(m, id, e).0;
            &&& (m1.ops.contains_key(id) <==> !(step_model(m.ops[id], e).0.state is Terminated))
            &&& m1.ops.contains_key(id) ==> stop_model(m1, id).1 is Ok
            &&& !m1.ops.contains_key(id) ==> stop_model(m1, id).1 == Err::<
                Option<Seq<u8>>,
                RequestError,
            >(RequestError::InvalidOperationId)
        }),
{
}

/// Broadcasting an undecodable blob still returns a fresh identifier, but
/// the operation never asks anything of the pool: its driver terminates at
/// its first event, and from then on stop fails with `InvalidOperationId`.
pub proof fn lemma_undecodable_broadcast(
    m: ManagerModel,
    tx: Seq<char>,
    token: u64,
    e: DriverEvent,
)
    requires
        m.wf(),
        m.next_nonce < u64::MAX,
        !decodes(tx),
    ensures
        ({
            let (m1, r) = broadcast_model(m, Some(tx), token);
            let id = r->Ok_0;
            &&& r is Ok
            &&& m1.ops.contains_key(id)
            &&& on_event_model(m1, id, e).1 is None
            &&& !on_event_model(m1, id, e).0.ops.contains_key(id)
            &&& stop_model(on_event_model(m1, id, e).0, id).1 == Err::<
                Option<Seq<u8>>,
                RequestError,
            >(RequestError::InvalidOperationId)
        }),
{
}

/// An operation whose status stream closes without a terminal status stays
/// live and queryable, and the next imported block makes it resubmit — after
/// which it is still live.
pub proof fn lemma_eviction_keeps_operation_live(m: ManagerModel, id: OperationId, h: u64)
    requires
        m.ops.contains_key(id),
        m.ops[id].record is Some,
        m.ops[id].state == (DriverState::Tracking { stream_live: true }),
    ensures
        ({
            let m1 = on_event_model(m, id, DriverEvent::StatusStreamClosed).0;
            &&& m1.ops.contains_key(id)
            &&& step_model(m1.ops[id], DriverEvent::BlockImported(h)).1 == Some(
                PoolAction::Submit { block: h },
            )
            &&& import_block_model(m1, h).ops.contains_key(id)
        }),
{
}

} // verus!
