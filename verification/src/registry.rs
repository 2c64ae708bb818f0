//! The operation registry: the mapping from live operation identifier to the
//! driver it can cancel.
//!
//! An identifier is live exactly while its driver has not terminated. The
//! registry supports insertion of a freshly allocated identifier, removal,
//! cancellation, and event delivery; delivery removes the entry the moment
//! its driver terminates, so the registry's domain always equals the set of
//! live operations.

use crate::driver::clone_bytes;
use crate::driver::lemma_step_keeps_record;
use crate::driver::request_model;
use crate::driver::step_model;
use crate::driver::Driver;
use crate::driver::DriverEvent;
use crate::driver::DriverModel;
use crate::driver::PoolAction;
use crate::driver::PoolRequest;
use crate::op_id::InvalidOperationId;
use crate::op_id::OperationId;
use vstd::prelude::*;

verus! {

struct RegistryEntry {
    id: OperationId,
    driver: Driver,
}

/// The registry of live operations.
pub struct Registry {
    entries: Vec<RegistryEntry>,
}

/// Whether some entry carries `id`.
spec fn seq_has(s: Seq<RegistryEntry>, id: OperationId) -> bool {
    exists|i: int| 0 <= i < s.len() && s[i].id == id
}

/// The index of the entry carrying `id`.
spec fn seq_index(s: Seq<RegistryEntry>, id: OperationId) -> int {
    choose|i: int| 0 <= i < s.len() && s[i].id == id
}

/// No two entries carry the same identifier.
spec fn uniq(s: Seq<RegistryEntry>) -> bool {
    forall|i: int, j: int| 0 <= i < j < s.len() ==> s[i].id != s[j].id
}

/// The mapping a sequence of entries denotes.
spec fn seq_map(s: Seq<RegistryEntry>) -> Map<OperationId, DriverModel> {
    Map::new(|id: OperationId| seq_has(s, id), |id: OperationId| s[seq_index(s, id)].driver@)
}

/// In a duplicate-free sequence, the entry at a known index is what the
/// denoted mapping yields for its identifier.
proof fn lemma_lookup(s: Seq<RegistryEntry>, i: int)
    requires
        uniq(s),
        0 <= i < s.len(),
    ensures
        seq_has(s, s[i].id),
        seq_index(s, s[i].id) == i,
        seq_map(s).contains_key(s[i].id),
        seq_map(s)[s[i].id] == s[i].driver@,
{
    let id = s[i].id;
    assert(seq_has(s, id));
    let j = seq_index(s, id);
    assert(0 <= j < s.len() && s[j].id == id);
    if i < j {
        assert(s[i].id != s[j].id);
    }
    if j < i {
        assert(s[j].id != s[i].id);
    }
}

/// Appending an entry with a fresh identifier inserts it into the denoted
/// mapping.
proof fn lemma_push(s: Seq<RegistryEntry>, e: RegistryEntry)
    requires
        uniq(s),
        !seq_has(s, e.id),
    ensures
        uniq(s.push(e)),
        seq_map(s.push(e)) == seq_map(s).insert(e.id, e.driver@),
{
    let t = s.push(e);
    assert forall|i: int, j: int| 0 <= i < j < t.len() implies t[i].id != t[j].id by {
        if j < s.len() {
            assert(s[i].id != s[j].id);
        } else {
            assert(t[i] == s[i] && t[j] == e);
            assert(seq_has(s, s[i].id));
        }
    }
    assert(seq_map(t) =~= seq_map(s).insert(e.id, e.driver@)) by {
        assert forall|id: OperationId| true implies (seq_has(t, id) == (seq_has(s, id) || id
            == e.id)) by {
            if seq_has(t, id) {
                let i = choose|i: int| 0 <= i < t.len() && t[i].id == id;
                if i < s.len() {
                    assert(s[i].id == id && seq_has(s, id));
                }
            }
            if seq_has(s, id) {
                let i = choose|i: int| 0 <= i < s.len() && s[i].id == id;
                assert(t[i].id == id);
            }
            if id == e.id {
                assert(t[s.len() as int].id == id);
            }
        }
        assert forall|id: OperationId| seq_has(t, id) implies seq_map(t)[id] == seq_map(s).insert(
            e.id,
            e.driver@,
        )[id] by {
            if id == e.id {
                lemma_lookup(t, s.len() as int);
            } else {
                let i = choose|i: int| 0 <= i < s.len() && s[i].id == id;
                lemma_lookup(s, i);
                lemma_lookup(t, i);
            }
        }
    }
}

/// Removing the entry at a known index removes its identifier from the
/// denoted mapping.
proof fn lemma_remove(s: Seq<RegistryEntry>, i: int)
    requires
        uniq(s),
        0 <= i < s.len(),
    ensures
        uniq(s.remove(i)),
        seq_map(s.remove(i)) == seq_map(s).remove(s[i].id),
{
    let t = s.remove(i);
    let id = s[i].id;
    assert forall|k: int| 0 <= k < t.len() implies t[k] == (if k < i {
        s[k]
    } else {
        s[k + 1]
    }) by {}
    assert forall|a: int, b: int| 0 <= a < b < t.len() implies t[a].id != t[b].id by {
        let sa = if a < i {
            a
        } else {
            a + 1
        };
        let sb = if b < i {
            b
        } else {
            b + 1
        };
        assert(s[sa].id != s[sb].id);
    }
    assert(seq_map(t) =~= seq_map(s).remove(id)) by {
        assert forall|x: OperationId| true implies (seq_has(t, x) == (seq_has(s, x) && x
            != id)) by {
            if seq_has(t, x) {
                let k = choose|k: int| 0 <= k < t.len() && t[k].id == x;
                let sk = if k < i {
                    k
                } else {
                    k + 1
                };
                assert(s[sk].id == x);
                lemma_lookup(s, sk);
                lemma_lookup(s, i);
            }
            if seq_has(s, x) && x != id {
                let k = choose|k: int| 0 <= k < s.len() && s[k].id == x;
                if k < i {
                    assert(t[k].id == x);
                } else {
                    assert(k != i);
                    assert(t[k - 1].id == x);
                }
            }
        }
        assert forall|x: OperationId| seq_has(t, x) implies seq_map(t)[x] == seq_map(s).remove(
            id,
        )[x] by {
            let k = choose|k: int| 0 <= k < t.len() && t[k].id == x;
            let sk = if k < i {
                k
            } else {
                k + 1
            };
            lemma_lookup(t, k);
            lemma_lookup(s, sk);
        }
    }
}

/// One resubmission that the fan-out of a block notification asks for.
pub struct Resubmission {
    /// The operation that resubmits.
    pub id: OperationId,
    /// The block to validate against.
    pub block: u64,
    /// The transaction bytes.
    pub bytes: Vec<u8>,
}

/// Whether some resubmission in the list is for the operation.
pub open spec fn has_resubmission(r: Seq<Resubmission>, id: OperationId) -> bool {
    exists|k: int| 0 <= k < r.len() && r[k].id == id
}

/// The per-operation effect of delivering one event to every live driver:
/// each driver steps once; the ones that terminate leave the mapping.
pub open spec fn step_all(m: Map<OperationId, DriverModel>, e: DriverEvent) -> Map<
    OperationId,
    DriverModel,
> {
    Map::new(
        |id: OperationId| m.contains_key(id) && !(step_model(m[id], e).0.state is Terminated),
        |id: OperationId| step_model(m[id], e).0,
    )
}

/// Splitting off the head of a duplicate-free sequence splits the denoted
/// mapping.
proof fn lemma_cons(s: Seq<RegistryEntry>)
    requires
        uniq(s),
        s.len() > 0,
    ensures
        uniq(s.drop_first()),
        !seq_has(s.drop_first(), s[0].id),
        seq_map(s) == seq_map(s.drop_first()).insert(s[0].id, s[0].driver@),
{
    let t = s.drop_first();
    assert(forall|k: int| 0 <= k < t.len() ==> t[k] == s[k + 1]);
    assert forall|a: int, b: int| 0 <= a < b < t.len() implies t[a].id != t[b].id by {
        assert(s[a + 1].id != s[b + 1].id);
    }
    if seq_has(t, s[0].id) {
        let k = choose|k: int| 0 <= k < t.len() && t[k].id == s[0].id;
        assert(s[0].id != s[k + 1].id);
    }
    assert(seq_map(s) =~= seq_map(t).insert(s[0].id, s[0].driver@)) by {
        assert forall|x: OperationId| true implies (seq_has(s, x) == (seq_has(t, x) || x
            == s[0].id)) by {
            if seq_has(s, x) {
                let i = choose|i: int| 0 <= i < s.len() && s[i].id == x;
                if i > 0 {
                    assert(t[i - 1].id == x);
                }
            }
            if seq_has(t, x) {
                let k = choose|k: int| 0 <= k < t.len() && t[k].id == x;
                assert(s[k + 1].id == x);
            }
        }
        assert forall|x: OperationId| seq_has(s, x) implies seq_map(s)[x] == seq_map(t).insert(
            s[0].id,
            s[0].driver@,
        )[x] by {
            if x == s[0].id {
                lemma_lookup(s, 0);
            } else {
                let k = choose|k: int| 0 <= k < t.len() && t[k].id == x;
                lemma_lookup(t, k);
                lemma_lookup(s, k + 1);
            }
        }
    }
}

/// Inserting a fresh operation before delivering an event to all is the same
/// as delivering to all and then stepping the fresh driver alone.
proof fn lemma_step_all_insert(
    m: Map<OperationId, DriverModel>,
    id: OperationId,
    d: DriverModel,
    e: DriverEvent,
)
    requires
        !m.contains_key(id),
    ensures
        step_model(d, e).0.state is Terminated ==> step_all(m.insert(id, d), e) == step_all(m, e),
        !(step_model(d, e).0.state is Terminated) ==> step_all(m.insert(id, d), e) == step_all(
            m,
            e,
        ).insert(id, step_model(d, e).0),
{
    if step_model(d, e).0.state is Terminated {
        assert(step_all(m.insert(id, d), e) =~= step_all(m, e));
    } else {
        assert(step_all(m.insert(id, d), e) =~= step_all(m, e).insert(id, step_model(d, e).0));
    }
}

impl View for Registry {
    type V = Map<OperationId, DriverModel>;

    closed spec fn view(&self) -> Map<OperationId, DriverModel> {
        seq_map(self.entries@)
    }
}

impl Registry {
    /// Internal consistency: no identifier occurs twice.
    pub closed spec fn wf(self) -> bool {
        uniq(self.entries@)
    }

    /// An empty registry.
    pub fn new() -> (r: Registry)
        ensures
            r.wf(),
            r@ == Map::<OperationId, DriverModel>::empty(),
    {
        let r = Registry { entries: Vec::new() };
        proof {
            assert(r@ =~= Map::<OperationId, DriverModel>::empty());
        }
        r
    }

    /// Whether `id` is live.
    pub fn contains(&self, id: OperationId) -> (r: bool)
        requires
            self.wf(),
        ensures
            r == self@.contains_key(id),
    {
        match self.position(id) {
            Some(_) => true,
            None => false,
        }
    }

    /// The index of the entry carrying `id`, if it is live.
    fn position(&self, id: OperationId) -> (r: Option<usize>)
        requires
            self.wf(),
        ensures
            match r {
                Some(i) => i < self.entries@.len() && self.entries@[i as int].id == id
                    && self@.contains_key(id) && self@[id] == self.entries@[i as int].driver@,
                None => !self@.contains_key(id),
            },
    {
        let n = self.entries.len();
        let mut i: usize = 0;
        while i < n
            invariant
                self.wf(),
                n == self.entries@.len(),
                i <= n,
                forall|j: int| 0 <= j < i ==> self.entries@[j].id != id,
            decreases n - i,
        {
            if self.entries[i].id == id {
                proof {
                    lemma_lookup(self.entries@, i as int);
                }
                return Some(i);
            }
            i = i + 1;
        }
        assert(!seq_has(self.entries@, id));
        None
    }

    /// Drop every live entry at once.
    pub fn clear(&mut self)
        ensures
            final(self).wf(),
            final(self)@ == Map::<OperationId, DriverModel>::empty(),
    {
        self.entries.clear();
        proof {
            assert(self@ =~= Map::<OperationId, DriverModel>::empty());
        }
    }

    /// Add a live entry for a freshly allocated identifier.
    pub fn insert(&mut self, id: OperationId, driver: Driver)
        requires
            old(self).wf(),
            !old(self)@.contains_key(id),
        ensures
            final(self).wf(),
            final(self)@ == old(self)@.insert(id, driver@),
    {
        proof {
            if seq_has(self.entries@, id) {
                let i = seq_index(self.entries@, id);
                lemma_lookup(self.entries@, i);
            }
        }
        let ghost pre = self.entries@;
        let entry = RegistryEntry { id, driver };
        proof {
            lemma_push(pre, entry);
        }
        self.entries.push(entry);
    }

    /// Atomically remove and return the entry for `id`, if it is live.
    pub fn remove(&mut self, id: OperationId) -> (r: Option<Driver>)
        requires
            old(self).wf(),
        ensures
            final(self).wf(),
            final(self)@ == old(self)@.remove(id),
            r matches Some(d) ==> old(self)@.contains_key(id) && d@ == old(self)@[id],
            r is None ==> !old(self)@.contains_key(id) && final(self)@ == old(self)@,
    {
        match self.position(id) {
            None => {
                proof {
                    assert(self@.remove(id) =~= self@);
                }
                None
            },
            Some(i) => {
                proof {
                    lemma_remove(self.entries@, i as int);
                }
                let entry = self.entries.remove(i);
                Some(entry.driver)
            },
        }
    }

    /// Deliver one external event to the operation's driver, if it is live:
    /// the driver steps once, the entry is dropped the moment the driver
    /// terminates, and the pool request of the transition, if any, is
    /// returned with its payload. An event for an operation that is not live
    /// is ignored: the operation has already terminated or was stopped.
    pub fn deliver(&mut self, id: OperationId, e: DriverEvent) -> (r: Option<PoolRequest>)
        requires
            old(self).wf(),
        ensures
            final(self).wf(),
            !old(self)@.contains_key(id) ==> final(self)@ == old(self)@ && r is None,
            old(self)@.contains_key(id) ==> {
                let (stepped, act) = step_model(old(self)@[id], e);
                &&& final(self)@ == if stepped.state is Terminated {
                    old(self)@.remove(id)
                } else {
                    old(self)@.insert(id, stepped)
                }
                &&& match r {
                    Some(req) => act matches Some(a) && req@ == request_model(old(self)@[id], a),
                    None => act is None,
                }
            },
    {
        match self.remove(id) {
            None => None,
            Some(mut driver) => {
                let ghost d0 = driver@;
                let act = driver.step(e);
                let req: Option<PoolRequest> = match act {
                    None => None,
                    Some(PoolAction::Submit { block }) => {
                        proof {
                            lemma_step_keeps_record(d0, e);
                        }
                        let bytes = match &driver.record {
                            Some(rec) => clone_bytes(&rec.bytes),
                            None => {
                                proof {
                                    assert(false);
                                }
                                Vec::new()
                            },
                        };
                        Some(PoolRequest::Submit { block, bytes })
                    },
                    Some(PoolAction::StopWatching) => {
                        proof {
                            lemma_step_keeps_record(d0, e);
                        }
                        let hash = match &driver.record {
                            Some(rec) => clone_bytes(&rec.hash),
                            None => {
                                proof {
                                    assert(false);
                                }
                                Vec::new()
                            },
                        };
                        Some(PoolRequest::StopWatching { hash })
                    },
                };
                if driver.is_terminated() {
                    req
                } else {
                    self.insert(id, driver);
                    proof {
                        assert(self@ =~= old(self)@.insert(id, step_model(old(self)@[id], e).0));
                    }
                    req
                }
            },
        }
    }

    /// Fan a new best-block notification out to every live driver.
    ///
    /// Each driver steps once on the notification: the ones that had lost
    /// tracking (and the ones still awaiting their first block) resubmit
    /// against the new block, drivers with a live stream ignore it, and a
    /// driver without a decoded transaction terminates and leaves the
    /// registry. Returns one resubmission per driver that asked for one,
    /// with no identifier repeated.
    pub fn deliver_block(&mut self, h: u64) -> (r: Vec<Resubmission>)
        requires
            old(self).wf(),
        ensures
            final(self).wf(),
            final(self)@ == step_all(old(self)@, DriverEvent::BlockImported(h)),
            forall|k: int|
                0 <= k < r@.len() ==> {
                    let rq = #[trigger] r@[k];
                    &&& old(self)@.contains_key(rq.id)
                    &&& step_model(old(self)@[rq.id], DriverEvent::BlockImported(h)).1 == Some(
                        PoolAction::Submit { block: h },
                    )
                    &&& rq.block == h
                    &&& rq.bytes@ == old(self)@[rq.id].record->Some_0.bytes
                },
            forall|id: OperationId|
                old(self)@.contains_key(id) && (#[trigger] step_model(
                    old(self)@[id],
                    DriverEvent::BlockImported(h),
                ).1) is Some ==> has_resubmission(r@, id),
            forall|k1: int, k2: int| 0 <= k1 < k2 < r@.len() ==> r@[k1].id != r@[k2].id,
    {
        let mut drained: Vec<RegistryEntry> = Vec::new();
        core::mem::swap(&mut self.entries, &mut drained);
        let ghost s0 = drained@;
        let ghost ev = DriverEvent::BlockImported(h);
        let mut requests: Vec<Resubmission> = Vec::new();
        proof {
            assert(s0.skip(s0.len() as int) =~= Seq::<RegistryEntry>::empty());
            assert(drained@ =~= s0.subrange(0, drained@.len() as int));
            assert(seq_map(self.entries@) =~= step_all(seq_map(s0.skip(s0.len() as int)), ev));
        }
        while drained.len() > 0
            invariant
                ev == DriverEvent::BlockImported(h),
                uniq(s0),
                drained@ == s0.subrange(0, drained@.len() as int),
                drained@.len() <= s0.len(),
                uniq(self.entries@),
                seq_map(self.entries@) == step_all(
                    seq_map(s0.skip(drained@.len() as int)),
                    ev,
                ),
                forall|k: int|
                    0 <= k < requests@.len() ==> {
                        let rq = #[trigger] requests@[k];
                        &&& seq_map(s0).contains_key(rq.id)
                        &&& step_model(seq_map(s0)[rq.id], ev).1 == Some(
                            PoolAction::Submit { block: h },
                        )
                        &&& rq.block == h
                        &&& rq.bytes@ == seq_map(s0)[rq.id].record->Some_0.bytes
                    },
                forall|k: int|
                    0 <= k < requests@.len() ==> !seq_has(
                        s0.subrange(0, drained@.len() as int),
                        (#[trigger] requests@[k]).id,
                    ),
                forall|k1: int, k2: int|
                    0 <= k1 < k2 < requests@.len() ==> requests@[k1].id != requests@[k2].id,
                forall|y: OperationId|
                    seq_map(s0).contains_key(y) && !seq_has(
                        s0.subrange(0, drained@.len() as int),
                        y,
                    ) && (#[trigger] step_model(seq_map(s0)[y], ev).1) is Some ==> has_resubmission(
                        requests@,
                        y,
                    ),
            decreases drained@.len(),
        {
            let ghost m_old = drained@.len() as int;
            let mut entry = drained.pop().unwrap();
            let ghost m = m_old - 1;
            let ghost x = s0[m].id;
            let ghost d0 = s0[m].driver@;
            proof {
                assert(entry == s0[m]);
                assert(drained@ =~= s0.subrange(0, m));
                assert(forall|k: int|
                    0 <= k < s0.len() - m ==> #[trigger] s0.skip(m)[k] == s0[k + m]);
                assert(uniq(s0.skip(m))) by {
                    assert forall|a: int, b: int|
                        0 <= a < b < s0.skip(m).len() implies s0.skip(m)[a].id != s0.skip(
                        m,
                    )[b].id by {
                        assert(s0[a + m].id != s0[b + m].id);
                    }
                }
                lemma_cons(s0.skip(m));
                assert(s0.skip(m).drop_first() =~= s0.skip(m + 1));
                assert(s0.skip(m)[0] == s0[m]);
                lemma_lookup(s0, m);
                if seq_map(s0.skip(m + 1)).contains_key(x) {
                    assert(seq_has(s0.skip(m + 1), x));
                    assert(false);
                }
                lemma_step_all_insert(seq_map(s0.skip(m + 1)), x, d0, ev);
                // The shorter prefix carries a subset of the identifiers,
                // and exactly x less than the longer one.
                assert forall|y: OperationId| seq_has(s0.subrange(0, m), y) implies seq_has(
                    s0.subrange(0, m_old),
                    y,
                ) by {
                    let k = choose|k: int| 0 <= k < m && s0.subrange(0, m)[k].id == y;
                    assert(s0.subrange(0, m_old)[k].id == y);
                }
                assert forall|y: OperationId| seq_has(s0.subrange(0, m_old), y) implies (seq_has(
                    s0.subrange(0, m),
                    y,
                ) || y == x) by {
                    let k = choose|k: int| 0 <= k < m_old && s0.subrange(0, m_old)[k].id == y;
                    if k < m {
                        assert(s0.subrange(0, m)[k].id == y);
                    }
                }
                assert(s0.subrange(0, m_old)[m].id == x);
                assert(seq_has(s0.subrange(0, m_old), x));
                assert(!seq_has(s0.subrange(0, m), x)) by {
                    if seq_has(s0.subrange(0, m), x) {
                        let k = choose|k: int| 0 <= k < m && s0.subrange(0, m)[k].id == x;
                        assert(s0[k].id != s0[m].id);
                        assert(false);
                    }
                }
            }
            let ghost req_pre = requests@;
            let act = entry.driver.step(DriverEvent::BlockImported(h));
            match act {
                None => {},
                Some(PoolAction::Submit { block }) => {
                    proof {
                        lemma_step_keeps_record(d0, ev);
                    }
                    let bytes = match &entry.driver.record {
                        Some(rec) => clone_bytes(&rec.bytes),
                        None => {
                            proof {
                                assert(false);
                            }
                            Vec::new()
                        },
                    };
                    requests.push(Resubmission { id: entry.id, block, bytes });
                    proof {
                        assert(requests@[requests@.len() - 1].id == x);
                        assert(has_resubmission(requests@, x));
                    }
                },
                Some(PoolAction::StopWatching) => {
                    proof {
                        assert(false);
                    }
                },
            }
            proof {
                // The request list grew by at most the entry just processed.
                assert(req_pre.len() <= requests@.len());
                assert(forall|k: int| 0 <= k < req_pre.len() ==> requests@[k] == req_pre[k]);
                // Every operation whose step asks for a submission and whose
                // entry has been processed is covered by some request.
                assert forall|y: OperationId|
                    seq_map(s0).contains_key(y) && !seq_has(s0.subrange(0, m), y) && (
                    #[trigger] step_model(seq_map(s0)[y], ev).1) is Some implies has_resubmission(
                    requests@,
                    y,
                ) by {
                    if y == x {
                        assert(seq_map(s0)[x] == d0);
                        assert(act == step_model(d0, ev).1);
                        assert(act is Some);
                        assert(has_resubmission(requests@, x));
                    } else {
                        assert(!seq_has(s0.subrange(0, m_old), y));
                        assert(has_resubmission(req_pre, y));
                        let k = choose|k: int| 0 <= k < req_pre.len() && req_pre[k].id == y;
                        assert(requests@[k].id == y);
                    }
                }
            }
            if entry.driver.is_terminated() {
            } else {
                proof {
                    if seq_has(self.entries@, x) {
                        let k = seq_index(self.entries@, x);
                        lemma_lookup(self.entries@, k);
                        assert(seq_map(s0.skip(m + 1)).contains_key(x));
                        assert(false);
                    }
                    lemma_push(self.entries@, entry);
                }
                self.entries.push(entry);
            }
        }
        proof {
            assert(s0.skip(0) =~= s0);
            assert(s0 == old(self).entries@);
            assert(forall|y: OperationId| !seq_has(s0.subrange(0, 0), y));
        }
        requests
    }

    /// Look up `id`; if it is live, signal cancellation: the driver observes
    /// the signal, terminates, and the entry is removed. Returns the digest
    /// of the transaction the pool should best-effort stop tracking, if the
    /// driver had submitted one; fails when `id` is not live.
    ///
    /// Cancellation does not wait for anything: it cannot be blocked by a
    /// silent status stream or block source.
    pub fn cancel(&mut self, id: OperationId) -> (r: Result<Option<Vec<u8>>, InvalidOperationId>)
        requires
            old(self).wf(),
        ensures
            final(self).wf(),
            final(self)@ == old(self)@.remove(id),
            r is Ok <==> old(self)@.contains_key(id),
            r is Err ==> final(self)@ == old(self)@,
            r matches Ok(untrack) ==> {
                let act = step_model(old(self)@[id], DriverEvent::Cancelled).1;
                match untrack {
                    Some(hash) => act == Some(PoolAction::StopWatching) && hash@ == old(
                        self,
                    )@[id].record->Some_0.hash,
                    None => act is None,
                }
            },
    {
        match self.remove(id) {
            None => Err(InvalidOperationId),
            Some(mut driver) => {
                let act = driver.step(DriverEvent::Cancelled);
                match act {
                    Some(PoolAction::StopWatching) => {
                        proof {
                            lemma_step_keeps_record(old(self)@[id], DriverEvent::Cancelled);
                        }
                        match driver.record {
                            Some(rec) => Ok(Some(rec.hash)),
                            None => {
                                proof {
                                    assert(false);
                                }
                                Ok(None)
                            },
                        }
                    },
                    Some(PoolAction::Submit { .. }) => {
                        proof {
                            assert(false);
                        }
                        Ok(None)
                    },
                    None => Ok(None),
                }
            },
        }
    }
}

} // verus!
