use pea2pea::addr_map::AddrMap;
use pea2pea::{IpAddr, SocketAddr};

fn addr(port: u16) -> SocketAddr {
    SocketAddr::new(IpAddr::V4(0x0a00_0001), port)
}

#[test]
fn insert_get_and_replace() {
    let mut map: AddrMap<SocketAddr, u32> = AddrMap::new();
    assert_eq!(map.len(), 0);
    assert_eq!(map.insert(addr(1), 10), None);
    assert_eq!(map.insert(addr(2), 20), None);
    assert_eq!(map.get(&addr(1)), Some(&10));
    assert_eq!(map.insert(addr(1), 11), Some(10));
    assert_eq!(map.get(&addr(1)), Some(&11));
    assert_eq!(map.len(), 2);
    assert!(map.contains_key(&addr(2)));
    assert!(!map.contains_key(&addr(3)));
}

#[test]
fn remove_keeps_the_other_entries() {
    let mut map: AddrMap<SocketAddr, u32> = AddrMap::new();
    for port in 1..=5 {
        map.insert(addr(port), port as u32 * 10);
    }
    assert_eq!(map.remove(&addr(2)), Some(20));
    assert_eq!(map.remove(&addr(2)), None);
    assert_eq!(map.len(), 4);
    for port in [1, 3, 4, 5] {
        assert_eq!(map.get(&addr(port)), Some(&(port as u32 * 10)));
    }
    let mut keys = map.keys();
    keys.sort_by_key(|a| a.port());
    assert_eq!(keys, vec![addr(1), addr(3), addr(4), addr(5)]);
}

#[test]
fn ip_addresses_as_keys() {
    let mut map: AddrMap<IpAddr, usize> = AddrMap::new();
    map.insert(IpAddr::V4(1), 1);
    map.insert(IpAddr::V6(1), 2);
    assert_eq!(map.get(&IpAddr::V4(1)), Some(&1));
    assert_eq!(map.get(&IpAddr::V6(1)), Some(&2));
}
