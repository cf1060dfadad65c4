use pea2pea::connections::{ConnectError, ShuttingDown};
use pea2pea::{Config, ConnectionSide, Connections, IpAddr, SocketAddr};

fn v4(a: u8, b: u8, c: u8, d: u8, port: u16) -> SocketAddr {
    SocketAddr::new(IpAddr::V4(u32::from_be_bytes([a, b, c, d])), port)
}

fn config(max_connections: u16, per_ip: u16, max_connecting: u16) -> Config {
    Config {
        max_connections,
        max_connections_per_ip: per_ip,
        max_connecting,
        ..Config::default()
    }
}

#[test]
fn connection_side_negation_flips_and_is_an_involution() {
    assert_eq!(!ConnectionSide::Initiator, ConnectionSide::Responder);
    assert_eq!(!ConnectionSide::Responder, ConnectionSide::Initiator);
    assert_eq!(!!ConnectionSide::Initiator, ConnectionSide::Initiator);
}

#[test]
fn loopback_detection() {
    assert!(IpAddr::V4(u32::from_be_bytes([127, 0, 0, 1])).is_loopback());
    assert!(IpAddr::V4(u32::from_be_bytes([127, 9, 8, 7])).is_loopback());
    assert!(!IpAddr::V4(u32::from_be_bytes([128, 0, 0, 1])).is_loopback());
    assert!(IpAddr::V6(1).is_loopback());
    assert!(!IpAddr::V6(0).is_loopback());
}

#[test]
fn default_config_values() {
    let c = Config::default();
    assert_eq!(c.name, None);
    assert_eq!(c.listener_addr, Some(v4(0, 0, 0, 0, 0)));
    assert_eq!(c.listener_backlog, 128);
    assert_eq!(c.max_connections, 100);
    assert_eq!(c.max_connections_per_ip, 1);
    assert_eq!(c.max_connecting, 100);
    assert_eq!(c.connection_timeout_ms, 1_000);
    assert!(!c.allow_duplicate_connections);
}

#[test]
fn reservation_marks_the_address_pending() {
    let mut conns = Connections::new();
    let a = v4(10, 0, 0, 1, 4000);
    assert_eq!(conns.check_and_reserve(a, &config(10, 2, 10)), Ok(()));
    assert!(conns.is_connecting(a));
    assert_eq!(conns.num_connecting(), 1);
    assert_eq!(conns.num_connected(), 0);
}

#[test]
fn per_ip_limit_counts_pending_and_established() {
    let cfg = config(10, 2, 10);
    let mut conns = Connections::new();
    let a = v4(10, 0, 0, 1, 1);
    let b = v4(10, 0, 0, 1, 2);
    let c = v4(10, 0, 0, 1, 3);
    assert_eq!(conns.check_and_reserve(a, &cfg), Ok(()));
    assert_eq!(conns.add(a, false), Ok(()));
    conns.release(a, true);
    assert_eq!(conns.check_and_reserve(b, &cfg), Ok(()));
    assert_eq!(conns.check_and_reserve(c, &cfg), Err(ConnectError::PerIpLimit));
    // another IP is not affected
    assert_eq!(conns.check_and_reserve(v4(10, 0, 0, 2, 3), &cfg), Ok(()));
}

#[test]
fn pending_limit_is_enforced() {
    let cfg = config(10, 10, 2);
    let mut conns = Connections::new();
    assert_eq!(conns.check_and_reserve(v4(1, 1, 1, 1, 1), &cfg), Ok(()));
    assert_eq!(conns.check_and_reserve(v4(1, 1, 1, 2, 1), &cfg), Ok(()));
    assert_eq!(conns.check_and_reserve(v4(1, 1, 1, 3, 1), &cfg), Err(ConnectError::PendingLimit));
}

#[test]
fn connection_limit_counts_pending_connections() {
    let cfg = config(2, 10, 10);
    let mut conns = Connections::new();
    let a = v4(1, 1, 1, 1, 1);
    assert_eq!(conns.check_and_reserve(a, &cfg), Ok(()));
    assert_eq!(conns.add(a, false), Ok(()));
    conns.release(a, true);
    assert_eq!(conns.check_and_reserve(v4(1, 1, 1, 2, 1), &cfg), Ok(()));
    assert_eq!(conns.check_and_reserve(v4(1, 1, 1, 3, 1), &cfg), Err(ConnectError::ConnectionLimit));
}

#[test]
fn duplicate_reservation_is_refused() {
    let cfg = config(10, 10, 10);
    let mut conns = Connections::new();
    let a = v4(1, 1, 1, 1, 1);
    assert_eq!(conns.check_and_reserve(a, &cfg), Ok(()));
    assert_eq!(conns.check_and_reserve(a, &cfg), Err(ConnectError::AlreadyConnecting));
}

#[test]
fn limits_are_checked_in_order() {
    // the per-IP limit is reported even though the pending limit is reached too
    let cfg = config(1, 1, 1);
    let mut conns = Connections::new();
    let a = v4(1, 1, 1, 1, 1);
    assert_eq!(conns.check_and_reserve(a, &cfg), Ok(()));
    assert_eq!(conns.check_and_reserve(a, &cfg), Err(ConnectError::PerIpLimit));
    assert_eq!(conns.check_and_reserve(v4(2, 2, 2, 2, 2), &cfg), Err(ConnectError::PendingLimit));
}

#[test]
fn abandoned_reservation_frees_the_slot() {
    let cfg = config(10, 1, 10);
    let mut conns = Connections::new();
    let a = v4(1, 1, 1, 1, 1);
    assert_eq!(conns.check_and_reserve(a, &cfg), Ok(()));
    conns.release(a, false);
    assert!(!conns.is_connecting(a));
    assert_eq!(conns.num_connecting(), 0);
    assert_eq!(conns.check_and_reserve(a, &cfg), Ok(()));
}

#[test]
fn completed_connection_keeps_its_ip_slot_until_disconnect() {
    let cfg = config(10, 1, 10);
    let mut conns = Connections::new();
    let a = v4(1, 1, 1, 1, 1);
    assert_eq!(conns.check_and_reserve(a, &cfg), Ok(()));
    assert_eq!(conns.add(a, false), Ok(()));
    conns.release(a, true);
    assert!(conns.is_connected(a));
    assert!(!conns.is_connecting(a));
    assert_eq!(conns.check_and_reserve(v4(1, 1, 1, 1, 2), &cfg), Err(ConnectError::PerIpLimit));
    assert!(conns.remove(a));
    conns.release_ip(a.ip());
    assert!(!conns.is_connected(a));
    assert_eq!(conns.check_and_reserve(v4(1, 1, 1, 1, 2), &cfg), Ok(()));
}

#[test]
fn adding_while_shutting_down_is_refused() {
    let mut conns = Connections::new();
    let a = v4(1, 1, 1, 1, 1);
    assert_eq!(conns.add(a, true), Err(ShuttingDown));
    assert!(!conns.is_connected(a));
    assert!(!conns.remove(a));
}

#[test]
fn connected_addrs_lists_each_connection_once() {
    let mut conns = Connections::new();
    let a = v4(1, 1, 1, 1, 1);
    let b = v4(1, 1, 1, 1, 2);
    conns.add(a, false).unwrap();
    conns.add(b, false).unwrap();
    conns.add(a, false).unwrap();
    let mut addrs = conns.addrs();
    addrs.sort_by_key(|x| x.port());
    assert_eq!(addrs, vec![a, b]);
    assert_eq!(conns.num_connected(), 2);
}

#[test]
fn self_connect_is_refused() {
    let conns = Connections::new();
    let own = v4(192, 168, 1, 5, 8000);
    assert_eq!(conns.check_target(own, Some(own), false), Err(ConnectError::SelfConnect));
    // the same port on a loopback address is the node itself too
    assert_eq!(conns.check_target(v4(127, 0, 0, 1, 8000), Some(own), false), Err(ConnectError::SelfConnect));
    assert_eq!(conns.check_target(v4(127, 0, 0, 1, 8001), Some(own), false), Ok(()));
    assert_eq!(conns.check_target(v4(192, 168, 1, 6, 8000), Some(own), false), Ok(()));
    assert_eq!(conns.check_target(own, None, false), Ok(()));
}

#[test]
fn duplicate_connections_depend_on_the_config() {
    let mut conns = Connections::new();
    let a = v4(10, 1, 1, 1, 1);
    conns.add(a, false).unwrap();
    assert_eq!(conns.check_target(a, None, false), Err(ConnectError::AlreadyConnected));
    assert_eq!(conns.check_target(a, None, true), Ok(()));
}

#[test]
fn limits_hold_through_churn() {
    let cfg = config(3, 3, 2);
    let mut conns = Connections::new();
    for round in 0..5u16 {
        for port in 0..6u16 {
            let a = v4(10, 0, 0, (port % 3) as u8, 1000 + port + round);
            if conns.check_and_reserve(a, &cfg).is_ok() {
                assert!(conns.num_connecting() <= 2);
                if port % 2 == 0 {
                    conns.add(a, false).unwrap();
                    conns.release(a, true);
                } else {
                    conns.release(a, false);
                }
            }
            assert!(conns.num_connected() <= 3);
            assert!(conns.num_connected() + conns.num_connecting() <= 3);
        }
        for a in conns.addrs() {
            assert!(conns.remove(a));
            conns.release_ip(a.ip());
        }
        assert_eq!(conns.num_connected(), 0);
    }
}

#[test]
fn ipv6_scopes_are_distinct_connections_of_one_ip() {
    let cfg = config(10, 2, 10);
    let mut conns = Connections::new();
    let link_local: u128 = 0xfe80 << 112 | 1;
    let a = SocketAddr::new_v6(link_local, 9, 0, 2);
    let b = SocketAddr::new_v6(link_local, 9, 0, 3);
    assert_eq!(conns.check_and_reserve(a, &cfg), Ok(()));
    assert_eq!(conns.check_and_reserve(b, &cfg), Ok(()));
    assert!(conns.is_connecting(a) && conns.is_connecting(b));
    let c = SocketAddr::new_v6(link_local, 10, 0, 4);
    assert_eq!(conns.check_and_reserve(c, &cfg), Err(ConnectError::PerIpLimit));
}
