use pea2pea::known_peers::PeerStats as KnownPeerStats;
use pea2pea::node_stats::NodeStats;
use pea2pea::peer_stats::PeerStats;
use pea2pea::{IpAddr, KnownPeers, SocketAddr, Stats};

fn addr(port: u16) -> SocketAddr {
    SocketAddr::new(IpAddr::V6(0x2001_0db8 << 96), port)
}

#[test]
fn stats_start_at_zero_and_count_messages() {
    let mut stats = Stats::default();
    assert_eq!(stats.sent(), (0, 0));
    assert_eq!(stats.received(), (0, 0));
    stats.register_sent_message(10);
    stats.register_sent_message(5);
    stats.register_received_message(7);
    assert_eq!(stats.sent(), (2, 15));
    assert_eq!(stats.received(), (1, 7));
    assert!(stats.created() <= std::time::Instant::now());
}

#[test]
fn node_stats_count_connections_and_messages() {
    let mut stats = NodeStats::default();
    stats.register_connection();
    stats.register_connection();
    stats.register_sent_message(3);
    stats.register_received_message(4);
    stats.register_received_message(6);
    assert_eq!(stats.connections(), 2);
    assert_eq!(stats.sent(), (1, 3));
    assert_eq!(stats.received(), (2, 10));
}

#[test]
fn peer_stats_track_connections_and_messages() {
    let mut stats = PeerStats::default();
    assert_eq!(stats.times_connected(), 1);
    assert_eq!(stats.first_seen(), stats.last_seen());
    stats.new_connection();
    stats.got_message(100);
    stats.got_message(20);
    assert_eq!(stats.times_connected(), 2);
    assert_eq!(stats.msg_count(), 2);
    assert_eq!(stats.bytes_received(), 120);
    assert_eq!(stats.failures(), 0);
    assert!(stats.first_seen() <= stats.last_seen());
}

#[test]
fn known_peers_register_only_known_addresses() {
    let mut peers = KnownPeers::new();
    assert_eq!(peers.get(addr(1)), None);
    peers.register_connection(addr(1));
    assert_eq!(peers.get(addr(1)), None);
    peers.add(addr(1));
    assert_eq!(peers.get(addr(1)), Some(KnownPeerStats::new()));
    peers.register_connection(addr(1));
    peers.register_sent_message(addr(1), 30);
    peers.register_received_message(addr(1), 12);
    peers.register_received_message(addr(1), 8);
    peers.register_failure(addr(1));
    let stats = peers.get(addr(1)).unwrap();
    assert_eq!(stats.times_connected, 1);
    assert_eq!((stats.msgs_sent, stats.bytes_sent), (1, 30));
    assert_eq!((stats.msgs_received, stats.bytes_received), (2, 20));
    assert_eq!(stats.failures, 1);
    // a different port is a different peer
    assert_eq!(peers.get(addr(2)), None);
}

#[test]
fn adding_a_known_peer_keeps_its_stats() {
    let mut peers = KnownPeers::new();
    peers.add(addr(1));
    peers.register_failure(addr(1));
    peers.add(addr(1));
    assert_eq!(peers.get(addr(1)).unwrap().failures, 1);
}

#[test]
fn removing_a_peer_returns_its_stats() {
    let mut peers = KnownPeers::new();
    peers.add(addr(1));
    peers.register_sent_message(addr(1), 4);
    let removed = peers.remove(addr(1)).unwrap();
    assert_eq!(removed.bytes_sent, 4);
    assert_eq!(peers.get(addr(1)), None);
    assert_eq!(peers.remove(addr(1)), None);
}

#[test]
fn ipv4_and_ipv6_peers_are_distinct() {
    let mut peers = KnownPeers::new();
    let a = SocketAddr::new(IpAddr::V4(1), 9);
    let b = SocketAddr::new(IpAddr::V6(1), 9);
    peers.add(a);
    assert!(peers.get(a).is_some());
    assert!(peers.get(b).is_none());
}

#[test]
fn known_peers_list_their_addresses() {
    let mut peers = KnownPeers::new();
    assert!(peers.addrs().is_empty());
    peers.add(addr(1));
    peers.add(addr(2));
    peers.add(addr(1));
    peers.add(SocketAddr::new(IpAddr::V4(0x0a00_0001), 2));
    let mut addrs = peers.addrs();
    assert_eq!(addrs.len(), 3);
    addrs.sort_by_key(|a| (a.port(), matches!(a.ip(), IpAddr::V6(_))));
    assert_eq!(addrs, vec![addr(1), SocketAddr::new(IpAddr::V4(0x0a00_0001), 2), addr(2)]);
    peers.remove(addr(2));
    assert_eq!(peers.addrs().len(), 2);
}

#[test]
fn ipv6_scopes_are_distinct_peers() {
    let mut peers = KnownPeers::new();
    let link_local: u128 = 0xfe80 << 112 | 1;
    let a = SocketAddr::new_v6(link_local, 9, 0, 2);
    let b = SocketAddr::new_v6(link_local, 9, 0, 3);
    assert_ne!(a, b);
    assert_eq!(a.scope_id(), 2);
    assert_eq!(b.flowinfo(), 0);
    peers.add(a);
    assert!(peers.get(a).is_some());
    assert!(peers.get(b).is_none());
}

#[test]
fn totals_do_not_depend_on_the_order_of_registrations() {
    let mut a = Stats::default();
    let created = a.created();
    a.register_sent_message(1);
    a.register_received_message(2);
    a.register_sent_message(3);
    let mut b = Stats::default();
    b.register_received_message(2);
    b.register_sent_message(3);
    b.register_sent_message(1);
    assert_eq!(a.sent(), b.sent());
    assert_eq!(a.received(), b.received());
    assert_eq!(a.sent(), (2, 4));
    assert_eq!(a.created(), created);
}

#[test]
fn byte_totals_wrap_around_a_u64() {
    let mut stats = NodeStats::default();
    stats.register_sent_message(usize::MAX);
    stats.register_sent_message(usize::MAX);
    stats.register_sent_message(3);
    let expected = (usize::MAX as u64).wrapping_add(usize::MAX as u64).wrapping_add(3);
    assert_eq!(stats.sent(), (3, expected));
}
