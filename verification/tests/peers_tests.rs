use sview::peers::{LatencyBucket, Peer, PeerDirection, PeerMonitor, PeerState, PeerStats};

#[test]
fn test_peer_creation() {
    let peer = Peer::new(PeerDirection::Incoming, 0);
    assert_eq!(peer.direction, PeerDirection::Incoming);
    assert_eq!(peer.state, None);
}

#[test]
fn test_latency_bucket() {
    let mut peer = Peer::new(PeerDirection::Outgoing, 0);
    peer.rtt_ms = Some(25);
    assert_eq!(peer.latency_bucket(), LatencyBucket::VeryLow);

    peer.rtt_ms = Some(75);
    assert_eq!(peer.latency_bucket(), LatencyBucket::Low);

    peer.rtt_ms = Some(150);
    assert_eq!(peer.latency_bucket(), LatencyBucket::Medium);

    peer.rtt_ms = Some(300);
    assert_eq!(peer.latency_bucket(), LatencyBucket::High);
}

#[test]
fn test_peer_stats() {
    let mut peers = vec![];
    for i in 0..10 {
        let mut peer = Peer::new(
            if i < 5 { PeerDirection::Incoming } else { PeerDirection::Outgoing },
            0,
        );
        peer.state = Some(if i < 3 {
            PeerState::Hot
        } else if i < 7 {
            PeerState::Warm
        } else {
            PeerState::Cold
        });
        peer.rtt_ms = Some((i * 20) as u64);
        peers.push(peer);
    }

    let stats = PeerStats::from_peers(&peers);
    assert_eq!(stats.peers_by_state(PeerState::Hot), 3);
    assert_eq!(stats.peers_by_state(PeerState::Warm), 4);
    assert_eq!(stats.peers_by_state(PeerState::Cold), 3);
    assert_eq!(stats.reachable_count, 10);
    assert_eq!(stats.avg_rtt_ms, 90);
}

#[test]
fn test_peer_monitor() {
    let mut monitor = PeerMonitor::new();
    monitor.update_from_metrics(Some(5), Some(10), Some(20), Some(8), Some(12), Some(15), 0);

    assert_eq!(monitor.count(), 35);
    assert_eq!(monitor.stats().peers_by_state(PeerState::Hot), 5);
    assert_eq!(monitor.stats().peers_by_state(PeerState::Warm), 10);
    assert_eq!(monitor.stats().peers_by_state(PeerState::Cold), 20);
}

#[test]
fn test_latency_percentages() {
    let mut peers = vec![];
    for rtt in [10u64, 10, 150, 999999] {
        let mut p = Peer::new(PeerDirection::Outgoing, 0);
        p.rtt_ms = Some(rtt);
        peers.push(p);
    }
    let stats = PeerStats::from_peers(&peers);
    assert_eq!(stats.reachable_count, 3);
    assert_eq!(stats.unreachable_count, 1);
    // two of three reachable peers are very low: 66.66%
    assert_eq!(stats.latency_percentage(LatencyBucket::VeryLow), Some(6666));
    assert_eq!(stats.latency_percentage(LatencyBucket::Medium), Some(3333));
    // one of four measured peers is unreachable: 25.00%
    assert_eq!(stats.latency_percentage(LatencyBucket::Unreachable), Some(2500));
}
