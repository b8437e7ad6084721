//! In-memory historical metric storage for trend queries.
//!
//! Each tracked metric keeps a fixed-capacity ring buffer of samples:
//! pushing onto a full buffer evicts the oldest sample, so the buffer
//! always holds the most recent `capacity` values, oldest first.

use vstd::prelude::*;
use crate::metrics::NodeMetrics;
use crate::storage::MetricSnapshot;

verus! {

/// One push onto a ring of capacity `cap`: the oldest value is dropped
/// once the ring is full. A ring of capacity zero stores nothing.
pub open spec fn ring_push<T>(s: Seq<T>, cap: nat, v: T) -> Seq<T> {
    if cap == 0 {
        s
    } else if s.len() >= cap {
        s.drop_first().push(v)
    } else {
        s.push(v)
    }
}

/// A whole sequence of pushes, oldest first.
pub open spec fn ring_push_all<T>(s: Seq<T>, cap: nat, vs: Seq<T>) -> Seq<T>
    decreases vs.len(),
{
    if vs.len() == 0 {
        s
    } else {
        ring_push_all(ring_push(s, cap, vs.first()), cap, vs.drop_first())
    }
}

/// A ring buffer of historical values for a single metric.
#[derive(Debug, Clone)]
pub struct MetricHistory {
    capacity: usize,
    values: Vec<u64>,
}

impl View for MetricHistory {
    type V = Seq<u64>;

    closed spec fn view(&self) -> Seq<u64> {
        self.values@
    }
}

impl MetricHistory {
    /// The fixed number of samples this history can hold.
    pub closed spec fn spec_capacity(&self) -> nat {
        self.capacity as nat
    }

    /// The buffer never holds more samples than its capacity.
    pub closed spec fn wf(&self) -> bool {
        self.values@.len() <= self.capacity
    }

    /// Create a new metric history with the given capacity.
    pub fn new(capacity: usize) -> (r: Self)
        ensures
            r.wf(),
            r@ == Seq::<u64>::empty(),
            r.spec_capacity() == capacity,
    {
        MetricHistory { capacity, values: Vec::new() }
    }

    /// Add a new value, evicting the oldest one if the buffer is full.
    pub fn push(&mut self, value: u64)
        requires
            old(self).wf(),
        ensures
            final(self).wf(),
            final(self).spec_capacity() == old(self).spec_capacity(),
            final(self)@ == ring_push(old(self)@, old(self).spec_capacity(), value),
    {
        if self.capacity == 0 {
            return;
        }
        if self.values.len() >= self.capacity {
            self.values.remove(0);
        }
        self.values.push(value);
        proof {
            assert(final(self)@ =~= ring_push(old(self)@, old(self).spec_capacity(), value));
        }
    }

    /// The stored values, oldest first.
    pub fn as_slice(&self) -> (r: Vec<u64>)
        ensures
            r@ == self@,
    {
        self.values.clone()
    }

    /// The most recent value, if any.
    pub fn current(&self) -> (r: Option<u64>)
        ensures
            r == if self@.len() > 0 { Some(self@.last()) } else { None::<u64> },
    {
        if self.values.len() > 0 {
            Some(self.values[self.values.len() - 1])
        } else {
            None
        }
    }

    /// The minimum stored value, or `None` when empty.
    pub fn min(&self) -> (r: Option<u64>)
        ensures
            r is Some <==> self@.len() > 0,
            r is Some ==> self@.contains(r->Some_0),
            r is Some ==> forall|i: int| 0 <= i < self@.len() ==> r->Some_0 <= self@[i],
    {
        if self.values.len() == 0 {
            return None;
        }
        let mut best: u64 = self.values[0];
        let mut k: usize = 1;
        proof {
            assert(self@.contains(best)) by { assert(self@[0] == best); }
        }
        while k < self.values.len()
            invariant
                1 <= k <= self@.len(),
                self@.contains(best),
                forall|i: int| 0 <= i < k ==> best <= self@[i],
            decreases self@.len() - k,
        {
            if self.values[k] < best {
                best = self.values[k];
                proof {
                    assert(self@.contains(best)) by { assert(self@[k as int] == best); }
                }
            }
            k = k + 1;
        }
        Some(best)
    }

    /// The maximum stored value, or `None` when empty.
    pub fn max(&self) -> (r: Option<u64>)
        ensures
            r is Some <==> self@.len() > 0,
            r is Some ==> self@.contains(r->Some_0),
            r is Some ==> forall|i: int| 0 <= i < self@.len() ==> r->Some_0 >= self@[i],
    {
        if self.values.len() == 0 {
            return None;
        }
        let mut best: u64 = self.values[0];
        let mut k: usize = 1;
        proof {
            assert(self@.contains(best)) by { assert(self@[0] == best); }
        }
        while k < self.values.len()
            invariant
                1 <= k <= self@.len(),
                self@.contains(best),
                forall|i: int| 0 <= i < k ==> best >= self@[i],
            decreases self@.len() - k,
        {
            if self.values[k] > best {
                best = self.values[k];
                proof {
                    assert(self@.contains(best)) by { assert(self@[k as int] == best); }
                }
            }
            k = k + 1;
        }
        Some(best)
    }

    /// The average of the stored values (integer division), or `None` when empty.
    pub fn avg(&self) -> (r: Option<u64>)
        ensures
            r is Some <==> self@.len() > 0,
            r is Some ==> r->Some_0 == seq_sum(self@) / (self@.len() as int),
    {
        if self.values.len() == 0 {
            return None;
        }
        let mut total: u128 = 0;
        let mut k: usize = 0;
        while k < self.values.len()
            invariant
                0 <= k <= self@.len(),
                total == seq_sum(self@.take(k as int)),
                total <= k * (u64::MAX as int),
            decreases self@.len() - k,
        {
            proof {
                assert(self@.take(k + 1).drop_last() =~= self@.take(k as int));
                assert(seq_sum(self@.take(k + 1))
                    == seq_sum(self@.take(k as int)) + self@[k as int]);
            }
            total = total + self.values[k] as u128;
            k = k + 1;
        }
        proof {
            assert(self@.take(self@.len() as int) =~= self@);
            lemma_div_by_len_bound(seq_sum(self@), self@.len() as int, u64::MAX as int);
        }
        Some((total / self.values.len() as u128) as u64)
    }

    /// The trend: newest value minus oldest value; needs at least two samples.
    pub fn trend(&self) -> (r: Option<i128>)
        ensures
            r == if self@.len() >= 2 {
                Some((self@.last() - self@.first()) as i128)
            } else {
                None::<i128>
            },
    {
        if self.values.len() < 2 {
            return None;
        }
        let oldest = self.values[0];
        let newest = self.values[self.values.len() - 1];
        Some(newest as i128 - oldest as i128)
    }

    /// The number of stored values.
    pub fn len(&self) -> (r: usize)
        ensures
            r == self@.len(),
    {
        self.values.len()
    }

    /// Whether no values are stored.
    pub fn is_empty(&self) -> (r: bool)
        ensures
            r == (self@.len() == 0),
    {
        self.values.len() == 0
    }

    /// Remove all stored values.
    pub fn clear(&mut self)
        ensures
            final(self).wf(),
            final(self)@ == Seq::<u64>::empty(),
            final(self).spec_capacity() == old(self).spec_capacity(),
    {
        self.values.clear();
        proof {
            assert(final(self)@ =~= Seq::<u64>::empty());
        }
    }
}

/// The sum of a sequence of values.
pub open spec fn seq_sum(s: Seq<u64>) -> int
    decreases s.len(),
{
    if s.len() == 0 {
        0
    } else {
        seq_sum(s.drop_last()) + s.last()
    }
}

/// Integer division by the length cannot exceed the largest element bound.
proof fn lemma_div_by_len_bound(total: int, len: int, bound: int)
    requires
        len >= 1,
        bound >= 0,
        0 <= total <= len * bound,
    ensures
        0 <= total / len <= bound,
{
    assert(total / len <= bound) by (nonlinear_arith)
        requires len >= 1, bound >= 0, 0 <= total <= len * bound;
    assert(total / len >= 0) by (nonlinear_arith)
        requires len >= 1, total >= 0;
}

/// After pushing at least `capacity` values onto any ring of capacity
/// `capacity > 0`, the ring holds exactly the last `capacity` values
/// pushed, oldest first.
pub proof fn lemma_ring_holds_last_capacity(s: Seq<u64>, cap: nat, vs: Seq<u64>)
    requires
        cap > 0,
        s.len() <= cap,
        vs.len() >= cap,
    ensures
        ring_push_all(s, cap, vs).len() == cap,
        ring_push_all(s, cap, vs) =~= vs.subrange(vs.len() - cap, vs.len() as int),
    decreases vs.len(),
{
    lemma_ring_push_all_len(s, cap, vs);
    lemma_ring_suffix(s, cap, vs);
}

/// Length of a ring after a sequence of pushes.
proof fn lemma_ring_push_all_len(s: Seq<u64>, cap: nat, vs: Seq<u64>)
    requires
        cap > 0,
        s.len() <= cap,
    ensures
        ring_push_all(s, cap, vs).len()
            == if s.len() + vs.len() <= cap { (s.len() + vs.len()) as int } else { cap as int },
    decreases vs.len(),
{
    if vs.len() > 0 {
        lemma_ring_push_all_len(ring_push(s, cap, vs.first()), cap, vs.drop_first());
    }
}

/// The ring after enough pushes is a suffix of the pushed values.
proof fn lemma_ring_suffix(s: Seq<u64>, cap: nat, vs: Seq<u64>)
    requires
        cap > 0,
        s.len() <= cap,
        vs.len() >= cap,
    ensures
        ring_push_all(s, cap, vs) =~= vs.subrange(vs.len() - cap, vs.len() as int),
    decreases vs.len(),
{
    if vs.len() == cap {
        lemma_ring_keeps_tail(s, cap, vs);
        assert(vs.subrange(0, vs.len() as int) =~= vs);
    } else {
        lemma_ring_suffix(ring_push(s, cap, vs.first()), cap, vs.drop_first());
        assert(vs.drop_first().subrange(vs.drop_first().len() - cap, vs.drop_first().len() as int)
            =~= vs.subrange(vs.len() - cap, vs.len() as int));
    }
}

/// Pushing one value after a batch is the same as pushing the extended batch.
proof fn lemma_ring_push_all_snoc(s: Seq<u64>, cap: nat, vs: Seq<u64>, v: u64)
    ensures
        ring_push_all(s, cap, vs.push(v)) == ring_push(ring_push_all(s, cap, vs), cap, v),
    decreases vs.len(),
{
    let w = vs.push(v);
    assert(w.len() > 0);
    assert(ring_push_all(s, cap, w) == ring_push_all(ring_push(s, cap, w.first()), cap, w.drop_first()));
    if vs.len() == 0 {
        assert(w.drop_first() =~= Seq::<u64>::empty());
        assert(w.first() == v);
        assert(ring_push_all(ring_push(s, cap, v), cap, w.drop_first()) == ring_push(s, cap, v));
        assert(ring_push_all(s, cap, vs) == s);
    } else {
        assert(w.first() == vs.first());
        assert(w.drop_first() =~= vs.drop_first().push(v));
        let s1 = ring_push(s, cap, vs.first());
        lemma_ring_push_all_snoc(s1, cap, vs.drop_first(), v);
        assert(ring_push_all(s, cap, vs) == ring_push_all(s1, cap, vs.drop_first()));
    }
}

/// After pushing `vs` with `vs.len() <= cap`, the ring ends with `vs` exactly.
proof fn lemma_ring_keeps_tail(s: Seq<u64>, cap: nat, vs: Seq<u64>)
    requires
        cap > 0,
        s.len() <= cap,
        vs.len() <= cap,
    ensures
        ring_push_all(s, cap, vs).len() >= vs.len(),
        ring_push_all(s, cap, vs).len() <= cap,
        ring_push_all(s, cap, vs).subrange(
            ring_push_all(s, cap, vs).len() - vs.len(),
            ring_push_all(s, cap, vs).len() as int,
        ) =~= vs,
    decreases vs.len(),
{
    lemma_ring_push_all_len(s, cap, vs);
    if vs.len() > 0 {
        let vs0 = vs.drop_last();
        let v = vs.last();
        assert(vs0.push(v) =~= vs);
        lemma_ring_keeps_tail(s, cap, vs0);
        lemma_ring_push_all_snoc(s, cap, vs0, v);
        lemma_ring_push_all_len(s, cap, vs0);
        let r0 = ring_push_all(s, cap, vs0);
        let r = ring_push(r0, cap, v);
        if r0.len() >= cap {
            // vs0 is shorter than cap, so dropping the oldest keeps the tail
            assert(r =~= r0.drop_first().push(v));
            assert(r.subrange(r.len() - vs.len(), r.len() as int) =~= vs);
        } else {
            assert(r =~= r0.push(v));
            assert(r.subrange(r.len() - vs.len(), r.len() as int) =~= vs);
        }
    }
}


/// One ring per tracked metric, all sharing a fixed capacity set at
/// construction. A record only pushes the fields it carries: absent
/// fields leave their ring untouched that tick.
#[derive(Debug, Clone)]
pub struct MetricsHistory {
    /// Block height over time.
    pub block_height: MetricHistory,
    /// Slot number over time.
    pub slot_num: MetricHistory,
    /// Connected peers over time.
    pub peers_connected: MetricHistory,
    /// Memory use over time.
    pub memory_used: MetricHistory,
    /// Mempool transactions over time.
    pub mempool_txs: MetricHistory,
    /// Sync progress over time (hundredths of a percent).
    pub sync_progress: MetricHistory,
    /// Hot peers over time.
    pub p2p_hot_peers: MetricHistory,
    /// Warm peers over time.
    pub p2p_warm_peers: MetricHistory,
    /// Cold peers over time.
    pub p2p_cold_peers: MetricHistory,
}

/// A ring after an optional push.
pub open spec fn ring_push_opt(s: Seq<u64>, cap: nat, v: Option<u64>) -> Seq<u64> {
    match v {
        Some(x) => ring_push(s, cap, x),
        None => s,
    }
}

impl MetricsHistory {
    /// All rings hold no more than their shared capacity.
    pub open spec fn wf(&self) -> bool {
        &&& self.block_height.wf()
        &&& self.slot_num.wf()
        &&& self.peers_connected.wf()
        &&& self.memory_used.wf()
        &&& self.mempool_txs.wf()
        &&& self.sync_progress.wf()
        &&& self.p2p_hot_peers.wf()
        &&& self.p2p_warm_peers.wf()
        &&& self.p2p_cold_peers.wf()
    }

    /// The shared capacity.
    pub open spec fn spec_capacity(&self) -> nat {
        self.block_height.spec_capacity()
    }

    /// All rings share one capacity.
    pub open spec fn uniform(&self) -> bool {
        &&& self.slot_num.spec_capacity() == self.spec_capacity()
        &&& self.peers_connected.spec_capacity() == self.spec_capacity()
        &&& self.memory_used.spec_capacity() == self.spec_capacity()
        &&& self.mempool_txs.spec_capacity() == self.spec_capacity()
        &&& self.sync_progress.spec_capacity() == self.spec_capacity()
        &&& self.p2p_hot_peers.spec_capacity() == self.spec_capacity()
        &&& self.p2p_warm_peers.spec_capacity() == self.spec_capacity()
        &&& self.p2p_cold_peers.spec_capacity() == self.spec_capacity()
    }

    /// Create a collection of empty rings with a shared capacity.
    pub fn new(capacity: usize) -> (r: Self)
        ensures
            r.wf(),
            r.uniform(),
            r.spec_capacity() == capacity,
            r.block_height@ == Seq::<u64>::empty(),
            r.slot_num@ == Seq::<u64>::empty(),
            r.peers_connected@ == Seq::<u64>::empty(),
            r.memory_used@ == Seq::<u64>::empty(),
            r.mempool_txs@ == Seq::<u64>::empty(),
            r.sync_progress@ == Seq::<u64>::empty(),
            r.p2p_hot_peers@ == Seq::<u64>::empty(),
            r.p2p_warm_peers@ == Seq::<u64>::empty(),
            r.p2p_cold_peers@ == Seq::<u64>::empty(),
    {
        MetricsHistory {
            block_height: MetricHistory::new(capacity),
            slot_num: MetricHistory::new(capacity),
            peers_connected: MetricHistory::new(capacity),
            memory_used: MetricHistory::new(capacity),
            mempool_txs: MetricHistory::new(capacity),
            sync_progress: MetricHistory::new(capacity),
            p2p_hot_peers: MetricHistory::new(capacity),
            p2p_warm_peers: MetricHistory::new(capacity),
            p2p_cold_peers: MetricHistory::new(capacity),
        }
    }

    /// Feed every present field of a record into its ring; absent
    /// fields push nothing this tick.
    pub fn update(&mut self, metrics: &NodeMetrics)
        requires
            old(self).wf(),
        ensures
            final(self).wf(),
            final(self).uniform() == old(self).uniform(),
            final(self).spec_capacity() == old(self).spec_capacity(),
            final(self).block_height@ == ring_push_opt(old(self).block_height@,
                old(self).block_height.spec_capacity(), metrics.block_height),
            final(self).slot_num@ == ring_push_opt(old(self).slot_num@,
                old(self).slot_num.spec_capacity(), metrics.slot_num),
            final(self).peers_connected@ == ring_push_opt(old(self).peers_connected@,
                old(self).peers_connected.spec_capacity(), metrics.peers_connected),
            final(self).memory_used@ == ring_push_opt(old(self).memory_used@,
                old(self).memory_used.spec_capacity(), metrics.memory_used),
            final(self).mempool_txs@ == ring_push_opt(old(self).mempool_txs@,
                old(self).mempool_txs.spec_capacity(), metrics.mempool_txs),
            final(self).sync_progress@ == ring_push_opt(old(self).sync_progress@,
                old(self).sync_progress.spec_capacity(), metrics.sync_progress),
            final(self).p2p_hot_peers@ == ring_push_opt(old(self).p2p_hot_peers@,
                old(self).p2p_hot_peers.spec_capacity(), metrics.p2p.hot_peers),
            final(self).p2p_warm_peers@ == ring_push_opt(old(self).p2p_warm_peers@,
                old(self).p2p_warm_peers.spec_capacity(), metrics.p2p.warm_peers),
            final(self).p2p_cold_peers@ == ring_push_opt(old(self).p2p_cold_peers@,
                old(self).p2p_cold_peers.spec_capacity(), metrics.p2p.cold_peers),
    {
        if let Some(v) = metrics.block_height {
            self.block_height.push(v);
        }
        if let Some(v) = metrics.slot_num {
            self.slot_num.push(v);
        }
        if let Some(v) = metrics.peers_connected {
            self.peers_connected.push(v);
        }
        if let Some(v) = metrics.memory_used {
            self.memory_used.push(v);
        }
        if let Some(v) = metrics.mempool_txs {
            self.mempool_txs.push(v);
        }
        if let Some(v) = metrics.sync_progress {
            self.sync_progress.push(v);
        }
        if let Some(v) = metrics.p2p.hot_peers {
            self.p2p_hot_peers.push(v);
        }
        if let Some(v) = metrics.p2p.warm_peers {
            self.p2p_warm_peers.push(v);
        }
        if let Some(v) = metrics.p2p.cold_peers {
            self.p2p_cold_peers.push(v);
        }
    }

    /// Backfill the rings from stored snapshots, oldest first; only the
    /// fields the persistent schema keeps are fed.
    pub fn populate_history(&mut self, snapshots: &Vec<MetricSnapshot>)
        requires
            old(self).wf(),
        ensures
            final(self).wf(),
            final(self).uniform() == old(self).uniform(),
            final(self).spec_capacity() == old(self).spec_capacity(),
            final(self).block_height@ == ring_push_opt_all(old(self).block_height@,
                old(self).block_height.spec_capacity(), snapshots@,
                |s: MetricSnapshot| s.block_height),
            final(self).slot_num@ == ring_push_opt_all(old(self).slot_num@,
                old(self).slot_num.spec_capacity(), snapshots@,
                |s: MetricSnapshot| s.slot_num),
            final(self).peers_connected@ == ring_push_opt_all(old(self).peers_connected@,
                old(self).peers_connected.spec_capacity(), snapshots@,
                |s: MetricSnapshot| s.peers_connected),
            final(self).memory_used@ == ring_push_opt_all(old(self).memory_used@,
                old(self).memory_used.spec_capacity(), snapshots@,
                |s: MetricSnapshot| s.memory_used),
            final(self).mempool_txs@ == ring_push_opt_all(old(self).mempool_txs@,
                old(self).mempool_txs.spec_capacity(), snapshots@,
                |s: MetricSnapshot| s.mempool_txs),
            final(self).sync_progress@ == ring_push_opt_all(old(self).sync_progress@,
                old(self).sync_progress.spec_capacity(), snapshots@,
                |s: MetricSnapshot| s.sync_progress),
            final(self).p2p_hot_peers@ == old(self).p2p_hot_peers@,
            final(self).p2p_warm_peers@ == old(self).p2p_warm_peers@,
            final(self).p2p_cold_peers@ == old(self).p2p_cold_peers@,
    {
        let n = snapshots.len();
        let mut k: usize = 0;
        proof {
            assert(snapshots@.take(0) =~= Seq::<MetricSnapshot>::empty());
        }
        while k < n
            invariant
                0 <= k <= n,
                n == snapshots@.len(),
                self.wf(),
                self.uniform() == old(self).uniform(),
                self.spec_capacity() == old(self).spec_capacity(),
                self.block_height.spec_capacity() == old(self).block_height.spec_capacity(),
                self.slot_num.spec_capacity() == old(self).slot_num.spec_capacity(),
                self.peers_connected.spec_capacity() == old(self).peers_connected.spec_capacity(),
                self.memory_used.spec_capacity() == old(self).memory_used.spec_capacity(),
                self.mempool_txs.spec_capacity() == old(self).mempool_txs.spec_capacity(),
                self.sync_progress.spec_capacity() == old(self).sync_progress.spec_capacity(),
                self.block_height@ == ring_push_opt_all(old(self).block_height@,
                    old(self).block_height.spec_capacity(), snapshots@.take(k as int),
                    |s: MetricSnapshot| s.block_height),
                self.slot_num@ == ring_push_opt_all(old(self).slot_num@,
                    old(self).slot_num.spec_capacity(), snapshots@.take(k as int),
                    |s: MetricSnapshot| s.slot_num),
                self.peers_connected@ == ring_push_opt_all(old(self).peers_connected@,
                    old(self).peers_connected.spec_capacity(), snapshots@.take(k as int),
                    |s: MetricSnapshot| s.peers_connected),
                self.memory_used@ == ring_push_opt_all(old(self).memory_used@,
                    old(self).memory_used.spec_capacity(), snapshots@.take(k as int),
                    |s: MetricSnapshot| s.memory_used),
                self.mempool_txs@ == ring_push_opt_all(old(self).mempool_txs@,
                    old(self).mempool_txs.spec_capacity(), snapshots@.take(k as int),
                    |s: MetricSnapshot| s.mempool_txs),
                self.sync_progress@ == ring_push_opt_all(old(self).sync_progress@,
                    old(self).sync_progress.spec_capacity(), snapshots@.take(k as int),
                    |s: MetricSnapshot| s.sync_progress),
                self.p2p_hot_peers@ == old(self).p2p_hot_peers@,
                self.p2p_warm_peers@ == old(self).p2p_warm_peers@,
                self.p2p_cold_peers@ == old(self).p2p_cold_peers@,
            decreases n - k,
        {
            let s = &snapshots[k];
            proof {
                assert(snapshots@.take(k + 1).drop_last() =~= snapshots@.take(k as int));
                assert(snapshots@.take(k + 1).last() == snapshots@[k as int]);
            }
            if let Some(v) = s.block_height {
                self.block_height.push(v);
            }
            if let Some(v) = s.slot_num {
                self.slot_num.push(v);
            }
            if let Some(v) = s.peers_connected {
                self.peers_connected.push(v);
            }
            if let Some(v) = s.memory_used {
                self.memory_used.push(v);
            }
            if let Some(v) = s.mempool_txs {
                self.mempool_txs.push(v);
            }
            if let Some(v) = s.sync_progress {
                self.sync_progress.push(v);
            }
            k = k + 1;
        }
        proof {
            assert(snapshots@.take(n as int) =~= snapshots@);
        }
    }
}

/// A ring after optional pushes of a field drawn from each snapshot.
pub open spec fn ring_push_opt_all(
    s: Seq<u64>, cap: nat, snaps: Seq<MetricSnapshot>, f: spec_fn(MetricSnapshot) -> Option<u64>,
) -> Seq<u64>
    decreases snaps.len(),
{
    if snaps.len() == 0 {
        s
    } else {
        ring_push_opt(ring_push_opt_all(s, cap, snaps.drop_last(), f), cap, f(snaps.last()))
    }
}

} // verus!
