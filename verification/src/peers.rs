//! Peer tracking and statistics, aggregated from the peer-state counts
//! of the metrics record.

use vstd::prelude::*;

verus! {

/// Peer connection direction.
#[derive(Debug, Clone, Copy, PartialEq, Eq, Structural)]
pub enum PeerDirection {
    /// Incoming connection.
    Incoming,
    /// Outgoing connection.
    Outgoing,
    /// Bidirectional connection.
    Duplex,
}

/// Peer state, cold to hot.
#[derive(Debug, Clone, Copy, PartialEq, Eq, Structural)]
pub enum PeerState {
    /// Known but not yet promoted.
    Cold,
    /// Promoted but not active.
    Warm,
    /// Actively used.
    Hot,
}

/// Latency bucket for round-trip-time classification.
#[derive(Debug, Clone, Copy, PartialEq, Eq, Structural)]
pub enum LatencyBucket {
    /// Under 50 ms.
    VeryLow,
    /// 50 to 100 ms.
    Low,
    /// 100 to 200 ms.
    Medium,
    /// Over 200 ms.
    High,
    /// Unreachable or timed out.
    Unreachable,
}

/// The bucket a round-trip time falls into; an unknown or sentinel
/// time counts as unreachable.
pub open spec fn spec_latency_bucket(rtt_ms: Option<u64>) -> LatencyBucket {
    match rtt_ms {
        Some(rtt) => if rtt < 50 {
            LatencyBucket::VeryLow
        } else if rtt < 100 {
            LatencyBucket::Low
        } else if rtt < 200 {
            LatencyBucket::Medium
        } else if rtt < 99999 {
            LatencyBucket::High
        } else {
            LatencyBucket::Unreachable
        },
        None => LatencyBucket::Unreachable,
    }
}

/// Individual peer information.
#[derive(Debug, Clone)]
pub struct Peer {
    /// Peer address, if known.
    pub ip: Option<String>,
    /// Peer port, if known.
    pub port: Option<u16>,
    /// Connection direction.
    pub direction: PeerDirection,
    /// Peer state, if known.
    pub state: Option<PeerState>,
    /// Round-trip time in milliseconds, if measured.
    pub rtt_ms: Option<u64>,
    /// Country code of the peer's address, if looked up.
    pub location: Option<String>,
    /// When this entry was last updated, Unix seconds.
    pub updated_at: u64,
}

impl Peer {
    /// A fresh peer with only a direction, seen at `now`.
    pub fn new(direction: PeerDirection, now: u64) -> (r: Self)
        ensures
            r.ip is None,
            r.port is None,
            r.direction == direction,
            r.state is None,
            r.rtt_ms is None,
            r.location is None,
            r.updated_at == now,
    {
        Peer {
            ip: None,
            port: None,
            direction,
            state: None,
            rtt_ms: None,
            location: None,
            updated_at: now,
        }
    }

    /// The latency bucket of this peer's round-trip time.
    pub fn latency_bucket(&self) -> (r: LatencyBucket)
        ensures
            r == spec_latency_bucket(self.rtt_ms),
    {
        match self.rtt_ms {
            Some(rtt) => if rtt < 50 {
                LatencyBucket::VeryLow
            } else if rtt < 100 {
                LatencyBucket::Low
            } else if rtt < 200 {
                LatencyBucket::Medium
            } else if rtt < 99999 {
                LatencyBucket::High
            } else {
                LatencyBucket::Unreachable
            },
            None => LatencyBucket::Unreachable,
        }
    }
}

/// How many peers of a sequence are in the given state.
pub open spec fn count_state(s: Seq<Peer>, st: PeerState) -> int
    decreases s.len(),
{
    if s.len() == 0 {
        0
    } else {
        count_state(s.drop_last(), st) + if s.last().state == Some(st) { 1int } else { 0 }
    }
}

/// How many peers of a sequence have the given direction.
pub open spec fn count_direction(s: Seq<Peer>, d: PeerDirection) -> int
    decreases s.len(),
{
    if s.len() == 0 {
        0
    } else {
        count_direction(s.drop_last(), d) + if s.last().direction == d { 1int } else { 0 }
    }
}

/// How many peers of a sequence fall into the given latency bucket.
pub open spec fn count_bucket(s: Seq<Peer>, b: LatencyBucket) -> int
    decreases s.len(),
{
    if s.len() == 0 {
        0
    } else {
        count_bucket(s.drop_last(), b) + if spec_latency_bucket(s.last().rtt_ms) == b {
            1int
        } else {
            0
        }
    }
}

/// Whether a peer's measured round-trip time counts as reachable.
pub open spec fn is_reachable(p: Peer) -> bool {
    p.rtt_ms is Some && p.rtt_ms->Some_0 < 99999
}

/// How many peers have a reachable round-trip time.
pub open spec fn count_reachable(s: Seq<Peer>) -> int
    decreases s.len(),
{
    if s.len() == 0 {
        0
    } else {
        count_reachable(s.drop_last()) + if is_reachable(s.last()) { 1int } else { 0 }
    }
}

/// How many peers have an unreachable measured round-trip time.
pub open spec fn count_unreachable(s: Seq<Peer>) -> int
    decreases s.len(),
{
    if s.len() == 0 {
        0
    } else {
        count_unreachable(s.drop_last()) + if s.last().rtt_ms is Some
            && s.last().rtt_ms->Some_0 >= 99999 { 1int } else { 0 }
    }
}

/// The sum of the reachable peers' round-trip times.
pub open spec fn sum_rtt(s: Seq<Peer>) -> int
    decreases s.len(),
{
    if s.len() == 0 {
        0
    } else {
        sum_rtt(s.drop_last()) + if is_reachable(s.last()) {
            s.last().rtt_ms->Some_0 as int
        } else {
            0
        }
    }
}

/// Aggregated peer statistics.
#[derive(Debug, Clone)]
pub struct PeerStats {
    /// Hot peers.
    pub hot_count: u64,
    /// Warm peers.
    pub warm_count: u64,
    /// Cold peers.
    pub cold_count: u64,
    /// Incoming connections.
    pub incoming_count: u64,
    /// Outgoing connections.
    pub outgoing_count: u64,
    /// Duplex connections.
    pub duplex_count: u64,
    /// Peers under 50 ms.
    pub very_low_count: u64,
    /// Peers between 50 and 100 ms.
    pub low_count: u64,
    /// Peers between 100 and 200 ms.
    pub medium_count: u64,
    /// Peers over 200 ms.
    pub high_count: u64,
    /// Peers in the unreachable bucket.
    pub unreachable_bucket_count: u64,
    /// Average round-trip time of the reachable peers, milliseconds.
    pub avg_rtt_ms: u64,
    /// Sum of the reachable peers' round-trip times.
    pub rtt_sum: u128,
    /// Reachable peers.
    pub reachable_count: u64,
    /// Unreachable peers (with a measured sentinel time).
    pub unreachable_count: u64,
}

impl PeerStats {
    /// The peers in the given state.
    pub fn peers_by_state(&self, st: PeerState) -> (r: u64)
        ensures
            st == PeerState::Hot ==> r == self.hot_count,
            st == PeerState::Warm ==> r == self.warm_count,
            st == PeerState::Cold ==> r == self.cold_count,
    {
        match st {
            PeerState::Hot => self.hot_count,
            PeerState::Warm => self.warm_count,
            PeerState::Cold => self.cold_count,
        }
    }

    /// The peers with the given direction.
    pub fn peers_by_direction(&self, d: PeerDirection) -> (r: u64)
        ensures
            d == PeerDirection::Incoming ==> r == self.incoming_count,
            d == PeerDirection::Outgoing ==> r == self.outgoing_count,
            d == PeerDirection::Duplex ==> r == self.duplex_count,
    {
        match d {
            PeerDirection::Incoming => self.incoming_count,
            PeerDirection::Outgoing => self.outgoing_count,
            PeerDirection::Duplex => self.duplex_count,
        }
    }

    /// The peers in the given latency bucket.
    pub fn peers_by_latency(&self, b: LatencyBucket) -> (r: u64)
        ensures
            b == LatencyBucket::VeryLow ==> r == self.very_low_count,
            b == LatencyBucket::Low ==> r == self.low_count,
            b == LatencyBucket::Medium ==> r == self.medium_count,
            b == LatencyBucket::High ==> r == self.high_count,
            b == LatencyBucket::Unreachable ==> r == self.unreachable_bucket_count,
    {
        match b {
            LatencyBucket::VeryLow => self.very_low_count,
            LatencyBucket::Low => self.low_count,
            LatencyBucket::Medium => self.medium_count,
            LatencyBucket::High => self.high_count,
            LatencyBucket::Unreachable => self.unreachable_bucket_count,
        }
    }

    /// The share of reachable peers in a latency bucket, in hundredths
    /// of a percent; for the unreachable bucket, the share of all
    /// measured peers that are unreachable. Nothing when no peer is
    /// reachable.
    pub fn latency_percentage(&self, b: LatencyBucket) -> (r: Option<u64>)
        requires
            self.reachable_count + self.unreachable_count <= u64::MAX,
            self.very_low_count <= self.reachable_count,
            self.low_count <= self.reachable_count,
            self.medium_count <= self.reachable_count,
            self.high_count <= self.reachable_count,
        ensures
            self.reachable_count == 0 ==> r is None,
            self.reachable_count > 0 && b != LatencyBucket::Unreachable ==> r == Some((
                match b {
                    LatencyBucket::VeryLow => self.very_low_count,
                    LatencyBucket::Low => self.low_count,
                    LatencyBucket::Medium => self.medium_count,
                    LatencyBucket::High => self.high_count,
                    LatencyBucket::Unreachable => 0u64,
                } as int * 10000 / self.reachable_count as int) as u64),
            self.reachable_count > 0 && b == LatencyBucket::Unreachable ==> r == Some((
                self.unreachable_count as int * 10000
                    / (self.reachable_count + self.unreachable_count)) as u64),
    {
        if self.reachable_count == 0 {
            return None;
        }
        if matches!(b, LatencyBucket::Unreachable) {
            let total: u128 = self.reachable_count as u128 + self.unreachable_count as u128;
            let hp: u128 = self.unreachable_count as u128 * 10000 / total;
            proof {
                assert(self.unreachable_count as int * 10000
                    / (self.reachable_count + self.unreachable_count) <= 10000)
                    by (nonlinear_arith)
                    requires self.reachable_count >= 1,
                        self.unreachable_count <= self.reachable_count + self.unreachable_count;
            }
            Some(hp as u64)
        } else {
            let count = self.peers_by_latency(b);
            let hp: u128 = count as u128 * 10000 / self.reachable_count as u128;
            proof {
                assert(count as int * 10000 / self.reachable_count as int <= 10000)
                    by (nonlinear_arith)
                    requires self.reachable_count >= 1, count <= self.reachable_count;
            }
            Some(hp as u64)
        }
    }

    /// Aggregate statistics from a list of peers.
    #[verifier::loop_isolation(false)]
    #[verifier::rlimit(100)]
    pub fn from_peers(peers: &Vec<Peer>) -> (r: Self)
        ensures
            r.hot_count == count_state(peers@, PeerState::Hot),
            r.warm_count == count_state(peers@, PeerState::Warm),
            r.cold_count == count_state(peers@, PeerState::Cold),
            r.incoming_count == count_direction(peers@, PeerDirection::Incoming),
            r.outgoing_count == count_direction(peers@, PeerDirection::Outgoing),
            r.duplex_count == count_direction(peers@, PeerDirection::Duplex),
            r.very_low_count == count_bucket(peers@, LatencyBucket::VeryLow),
            r.low_count == count_bucket(peers@, LatencyBucket::Low),
            r.medium_count == count_bucket(peers@, LatencyBucket::Medium),
            r.high_count == count_bucket(peers@, LatencyBucket::High),
            r.unreachable_bucket_count == count_bucket(peers@, LatencyBucket::Unreachable),
            r.reachable_count == count_reachable(peers@),
            r.unreachable_count == count_unreachable(peers@),
            r.rtt_sum == sum_rtt(peers@),
            r.avg_rtt_ms == if count_reachable(peers@) > 0 {
                sum_rtt(peers@) / count_reachable(peers@)
            } else {
                0int
            },
    {
        let n = peers.len();
        let mut hot: u64 = 0;
        let mut warm: u64 = 0;
        let mut cold: u64 = 0;
        let mut incoming: u64 = 0;
        let mut outgoing: u64 = 0;
        let mut duplex: u64 = 0;
        let mut very_low: u64 = 0;
        let mut low: u64 = 0;
        let mut medium: u64 = 0;
        let mut high: u64 = 0;
        let mut unreachable_bucket: u64 = 0;
        let mut reachable: u64 = 0;
        let mut unreachable: u64 = 0;
        let mut rtt_sum: u128 = 0;
        let mut k: usize = 0;
        proof {
            assert(peers@.take(0) =~= Seq::<Peer>::empty());
        }
        while k < n
            invariant
                0 <= k <= n,
                hot == count_state(peers@.take(k as int), PeerState::Hot),
                warm == count_state(peers@.take(k as int), PeerState::Warm),
                cold == count_state(peers@.take(k as int), PeerState::Cold),
                incoming == count_direction(peers@.take(k as int), PeerDirection::Incoming),
                outgoing == count_direction(peers@.take(k as int), PeerDirection::Outgoing),
                duplex == count_direction(peers@.take(k as int), PeerDirection::Duplex),
                very_low == count_bucket(peers@.take(k as int), LatencyBucket::VeryLow),
                low == count_bucket(peers@.take(k as int), LatencyBucket::Low),
                medium == count_bucket(peers@.take(k as int), LatencyBucket::Medium),
                high == count_bucket(peers@.take(k as int), LatencyBucket::High),
                unreachable_bucket == count_bucket(peers@.take(k as int), LatencyBucket::Unreachable),
                reachable == count_reachable(peers@.take(k as int)),
                unreachable == count_unreachable(peers@.take(k as int)),
                rtt_sum == sum_rtt(peers@.take(k as int)),
                hot <= k && warm <= k && cold <= k,
                incoming <= k && outgoing <= k && duplex <= k,
                very_low <= k && low <= k && medium <= k && high <= k,
                unreachable_bucket <= k,
                reachable <= k && unreachable <= k,
                rtt_sum <= reachable as int * 99999,
            decreases n - k,
        {
            proof {
                assert(peers@.take(k + 1).drop_last() =~= peers@.take(k as int));
                assert(peers@.take(k + 1).last() == peers@[k as int]);
            }
            let p = &peers[k];
            match p.state {
                Some(PeerState::Hot) => { hot = hot + 1; },
                Some(PeerState::Warm) => { warm = warm + 1; },
                Some(PeerState::Cold) => { cold = cold + 1; },
                None => {},
            }
            match p.direction {
                PeerDirection::Incoming => { incoming = incoming + 1; },
                PeerDirection::Outgoing => { outgoing = outgoing + 1; },
                PeerDirection::Duplex => { duplex = duplex + 1; },
            }
            match p.latency_bucket() {
                LatencyBucket::VeryLow => { very_low = very_low + 1; },
                LatencyBucket::Low => { low = low + 1; },
                LatencyBucket::Medium => { medium = medium + 1; },
                LatencyBucket::High => { high = high + 1; },
                LatencyBucket::Unreachable => { unreachable_bucket = unreachable_bucket + 1; },
            }
            match p.rtt_ms {
                Some(rtt) => {
                    if rtt < 99999 {
                        rtt_sum = rtt_sum + rtt as u128;
                        reachable = reachable + 1;
                    } else {
                        unreachable = unreachable + 1;
                    }
                },
                None => {},
            }
            k = k + 1;
        }
        proof {
            assert(peers@.take(n as int) =~= peers@);
        }
        let avg: u64 = if reachable > 0 {
            proof {
                assert(sum_rtt(peers@) / count_reachable(peers@) <= 99999) by (nonlinear_arith)
                    requires count_reachable(peers@) >= 1,
                        0 <= sum_rtt(peers@) <= count_reachable(peers@) * 99999int;
            }
            (rtt_sum / reachable as u128) as u64
        } else {
            0
        };
        PeerStats {
            hot_count: hot,
            warm_count: warm,
            cold_count: cold,
            incoming_count: incoming,
            outgoing_count: outgoing,
            duplex_count: duplex,
            very_low_count: very_low,
            low_count: low,
            medium_count: medium,
            high_count: high,
            unreachable_bucket_count: unreachable_bucket,
            avg_rtt_ms: avg,
            rtt_sum,
            reachable_count: reachable,
            unreachable_count: unreachable,
        }
    }
}

/// The peers built from the state counts of one poll: hot, then warm,
/// then cold, with the directions the metrics imply.
pub open spec fn spec_built_peer(st: PeerState, dir: PeerDirection, now: u64) -> Peer {
    Peer {
        ip: None,
        port: None,
        direction: dir,
        state: Some(st),
        rtt_ms: None,
        location: None,
        updated_at: now,
    }
}

/// Peer monitor tracking the peer list and its statistics.
#[derive(Debug, Clone)]
pub struct PeerMonitor {
    peers: Vec<Peer>,
    stats: PeerStats,
    last_updated: u64,
}

impl PeerMonitor {
    /// The tracked peers.
    pub closed spec fn spec_peers(&self) -> Seq<Peer> {
        self.peers@
    }

    /// The cached statistics agree with the tracked peers.
    pub closed spec fn wf(&self) -> bool {
        &&& self.stats.hot_count == count_state(self.peers@, PeerState::Hot)
        &&& self.stats.warm_count == count_state(self.peers@, PeerState::Warm)
        &&& self.stats.cold_count == count_state(self.peers@, PeerState::Cold)
        &&& self.stats.reachable_count == count_reachable(self.peers@)
    }

    /// When the monitor was last updated.
    pub closed spec fn spec_last_updated(&self) -> u64 {
        self.last_updated
    }

    /// A monitor with no peers.
    pub fn new() -> (r: Self)
        ensures
            r.wf(),
            r.spec_peers() == Seq::<Peer>::empty(),
            r.spec_last_updated() == 0,
    {
        PeerMonitor {
            peers: Vec::new(),
            stats: PeerStats {
                hot_count: 0,
                warm_count: 0,
                cold_count: 0,
                incoming_count: 0,
                outgoing_count: 0,
                duplex_count: 0,
                very_low_count: 0,
                low_count: 0,
                medium_count: 0,
                high_count: 0,
                unreachable_bucket_count: 0,
                avg_rtt_ms: 0,
                rtt_sum: 0,
                reachable_count: 0,
                unreachable_count: 0,
            },
            last_updated: 0,
        }
    }

    /// Rebuild the peer list from the state counts of one poll: one
    /// duplex peer per hot and warm peer, one incoming peer per cold
    /// peer, and recompute the statistics.
    #[verifier::loop_isolation(false)]
    #[verifier::rlimit(100)]
    pub fn update_from_metrics(
        &mut self,
        hot_peers: Option<u64>,
        warm_peers: Option<u64>,
        cold_peers: Option<u64>,
        _incoming_conns: Option<u64>,
        _outgoing_conns: Option<u64>,
        _duplex_conns: Option<u64>,
        now: u64,
    )
        requires
            (match hot_peers { Some(h) => h as int, None => 0 })
                + (match warm_peers { Some(w) => w as int, None => 0 })
                + (match cold_peers { Some(c) => c as int, None => 0 }) <= usize::MAX,
        ensures
            final(self).wf(),
            ({
                let h = match hot_peers { Some(h) => h as int, None => 0 };
                let w = match warm_peers { Some(w) => w as int, None => 0 };
                let c = match cold_peers { Some(c) => c as int, None => 0 };
                &&& final(self).spec_peers().len() == h + w + c
                &&& count_state(final(self).spec_peers(), PeerState::Hot) == h
                &&& count_state(final(self).spec_peers(), PeerState::Warm) == w
                &&& count_state(final(self).spec_peers(), PeerState::Cold) == c
                &&& final(self).spec_last_updated() == now
                &&& forall|i: int| 0 <= i < h
                        ==> final(self).spec_peers()[i]
                            == spec_built_peer(PeerState::Hot, PeerDirection::Duplex, now)
                &&& forall|i: int| h <= i < h + w
                        ==> final(self).spec_peers()[i]
                            == spec_built_peer(PeerState::Warm, PeerDirection::Duplex, now)
                &&& forall|i: int| h + w <= i < h + w + c
                        ==> final(self).spec_peers()[i]
                            == spec_built_peer(PeerState::Cold, PeerDirection::Incoming, now)
            }),
    {
        self.peers = Vec::new();
        let hot = match hot_peers { Some(h) => h, None => 0 };
        let warm = match warm_peers { Some(w) => w, None => 0 };
        let cold = match cold_peers { Some(c) => c, None => 0 };
        let mut k: u64 = 0;
        while k < hot
            invariant
                0 <= k <= hot,
                self.peers@.len() == k,
                forall|i: int| 0 <= i < k ==> self.peers@[i]
                    == spec_built_peer(PeerState::Hot, PeerDirection::Duplex, now),
                count_state(self.peers@, PeerState::Hot) == k as int,
                count_state(self.peers@, PeerState::Warm) == 0,
                count_state(self.peers@, PeerState::Cold) == 0,
            decreases hot - k,
        {
            let mut peer = Peer::new(PeerDirection::Duplex, now);
            peer.state = Some(PeerState::Hot);
            let ghost prev = self.peers@;
            self.peers.push(peer);
            proof {
                assert(self.peers@.drop_last() =~= prev);
            }
            k = k + 1;
        }
        let mut k2: u64 = 0;
        while k2 < warm
            invariant
                0 <= k2 <= warm,
                self.peers@.len() == hot + k2,
                forall|i: int| 0 <= i < hot ==> self.peers@[i]
                    == spec_built_peer(PeerState::Hot, PeerDirection::Duplex, now),
                forall|i: int| hot <= i < hot + k2 ==> self.peers@[i]
                    == spec_built_peer(PeerState::Warm, PeerDirection::Duplex, now),
                count_state(self.peers@, PeerState::Hot) == hot as int,
                count_state(self.peers@, PeerState::Warm) == k2 as int,
                count_state(self.peers@, PeerState::Cold) == 0,
            decreases warm - k2,
        {
            let mut peer = Peer::new(PeerDirection::Duplex, now);
            peer.state = Some(PeerState::Warm);
            let ghost prev = self.peers@;
            self.peers.push(peer);
            proof {
                assert(self.peers@.drop_last() =~= prev);
            }
            k2 = k2 + 1;
        }
        let mut k3: u64 = 0;
        while k3 < cold
            invariant
                0 <= k3 <= cold,
                self.peers@.len() == hot + warm + k3,
                forall|i: int| 0 <= i < hot ==> self.peers@[i]
                    == spec_built_peer(PeerState::Hot, PeerDirection::Duplex, now),
                forall|i: int| hot <= i < hot + warm ==> self.peers@[i]
                    == spec_built_peer(PeerState::Warm, PeerDirection::Duplex, now),
                forall|i: int| hot + warm <= i < hot + warm + k3 ==> self.peers@[i]
                    == spec_built_peer(PeerState::Cold, PeerDirection::Incoming, now),
                count_state(self.peers@, PeerState::Hot) == hot as int,
                count_state(self.peers@, PeerState::Warm) == warm as int,
                count_state(self.peers@, PeerState::Cold) == k3 as int,
            decreases cold - k3,
        {
            let mut peer = Peer::new(PeerDirection::Incoming, now);
            peer.state = Some(PeerState::Cold);
            let ghost prev = self.peers@;
            self.peers.push(peer);
            proof {
                assert(self.peers@.drop_last() =~= prev);
            }
            k3 = k3 + 1;
        }
        self.stats = PeerStats::from_peers(&self.peers);
        self.last_updated = now;
    }

    /// The current statistics.
    pub fn stats(&self) -> (r: &PeerStats)
        requires
            self.wf(),
        ensures
            r.hot_count == count_state(self.spec_peers(), PeerState::Hot),
            r.warm_count == count_state(self.spec_peers(), PeerState::Warm),
            r.cold_count == count_state(self.spec_peers(), PeerState::Cold),
            r.reachable_count == count_reachable(self.spec_peers()),
    {
        &self.stats
    }

    /// The tracked peers.
    pub fn peers(&self) -> (r: &Vec<Peer>)
        ensures
            r@ == self.spec_peers(),
    {
        &self.peers
    }

    /// How many peers are tracked.
    pub fn count(&self) -> (r: u64)
        requires
            self.spec_peers().len() <= u64::MAX,
        ensures
            r == self.spec_peers().len(),
    {
        self.peers.len() as u64
    }

    /// When the monitor was last updated.
    pub fn last_updated(&self) -> (r: u64)
        ensures
            r == self.spec_last_updated(),
    {
        self.last_updated
    }
}

} // verus!
