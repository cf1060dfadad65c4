//! Statistics about the peers a node knows of, whether currently connected or not.

use vstd::prelude::*;

use crate::addr::{IpAddr, SocketAddr};
use crate::stats::wrapping_sum;

verus! {

/// Contains statistics related to a single peer. The counters wrap around at the bounds of
/// their types.
#[derive(Clone, Copy, Debug, PartialEq, Eq, Structural)]
pub struct PeerStats {
    /// The number of times a connection with the peer has been established.
    pub times_connected: usize,
    /// The number of messages sent to the peer.
    pub msgs_sent: usize,
    /// The number of messages received from the peer.
    pub msgs_received: usize,
    /// The number of bytes sent to the peer.
    pub bytes_sent: u64,
    /// The number of bytes received from the peer.
    pub bytes_received: u64,
    /// The number of failures related to the peer.
    pub failures: usize,
}

/// Statistics with every counter at zero.
pub open spec fn zero_stats() -> PeerStats {
    PeerStats {
        times_connected: 0,
        msgs_sent: 0,
        msgs_received: 0,
        bytes_sent: 0,
        bytes_received: 0,
        failures: 0,
    }
}

impl PeerStats {
    /// Creates statistics with every counter at zero.
    pub fn new() -> (res: Self)
        ensures
            res == zero_stats(),
    {
        PeerStats {
            times_connected: 0,
            msgs_sent: 0,
            msgs_received: 0,
            bytes_sent: 0,
            bytes_received: 0,
            failures: 0,
        }
    }
}

/// `a + b`, wrapping around at the bounds of a `usize`.
pub open spec fn wrapping_usize_sum(a: usize, b: usize) -> usize {
    vstd::wrapping::usize_specs::wrapping_add(a, b)
}

/// The key under which a peer's statistics are filed: the IP version, the IP address, the
/// port, the flow information and the scope identifier.
pub type PeerKey = (u8, u128, u16, u32, u32);

/// The key of the given address.
pub open spec fn peer_key(addr: SocketAddr) -> PeerKey {
    match addr.ip {
        IpAddr::V4(bits) => (4u8, bits as u128, addr.port, addr.flowinfo, addr.scope_id),
        IpAddr::V6(bits) => (6u8, bits, addr.port, addr.flowinfo, addr.scope_id),
    }
}

/// Whether `key` is the key of some address.
pub open spec fn is_peer_key(key: PeerKey) -> bool {
    (key.0 == 4 && key.1 <= u32::MAX) || key.0 == 6
}

/// The address whose key is `key`.
pub open spec fn key_addr(key: PeerKey) -> SocketAddr {
    SocketAddr {
        ip: if key.0 == 4 {
            IpAddr::V4(key.1 as u32)
        } else {
            IpAddr::V6(key.1)
        },
        port: key.2,
        flowinfo: key.3,
        scope_id: key.4,
    }
}

fn key_of(addr: SocketAddr) -> (res: PeerKey)
    ensures
        res == peer_key(addr),
{
    match addr.ip {
        IpAddr::V4(bits) => (4u8, bits as u128, addr.port, addr.flowinfo, addr.scope_id),
        IpAddr::V6(bits) => (6u8, bits, addr.port, addr.flowinfo, addr.scope_id),
    }
}

fn addr_of(key: PeerKey) -> (res: SocketAddr)
    requires
        is_peer_key(key),
    ensures
        res == key_addr(key),
{
    let ip = if key.0 == 4 {
        IpAddr::V4(key.1 as u32)
    } else {
        IpAddr::V6(key.1)
    };
    SocketAddr { ip, port: key.2, flowinfo: key.3, scope_id: key.4 }
}

proof fn lemma_key_roundtrip(addr: SocketAddr, key: PeerKey)
    ensures
        is_peer_key(peer_key(addr)),
        key_addr(peer_key(addr)) == addr,
        is_peer_key(key) ==> peer_key(key_addr(key)) == key,
{
    if let IpAddr::V4(bits) = addr.ip {
        assert((bits as u128) as u32 == bits);
    }
    if is_peer_key(key) && key.0 == 4 {
        assert((key.1 as u32) as u128 == key.1);
    }
}

proof fn lemma_peer_key_injective(a: SocketAddr, b: SocketAddr)
    ensures
        peer_key(a) == peer_key(b) ==> a == b,
{
}

/// The hasher of `fxhash`, whose hash depends on nothing but the bytes hashed.
#[verifier::external_type_specification]
#[verifier::external_body]
pub struct ExFxHasher(fxhash::FxHasher);

/// A builder of default hashers of type `H`.
#[verifier::external_type_specification]
#[verifier::external_body]
#[verifier::reject_recursive_types(H)]
pub struct ExBuildHasherDefault<H>(std::hash::BuildHasherDefault<H>);

/// The map in which the statistics of the known peers are kept.
type PeerMap = fxhash::FxHashMap<PeerKey, PeerStats>;

/// Creates an empty `fxhash::FxHashMap`, through its `Default` impl.
#[verifier::external_body]
fn fx_new() -> (res: PeerMap)
    ensures
        res@.dom() == Set::<PeerKey>::empty(),
{
    fxhash::FxHashMap::default()
}

/// Looks a key up in an `fxhash::FxHashMap` with `HashMap::get`, copying the value found.
#[verifier::external_body]
fn fx_get(map: &PeerMap, key: &PeerKey) -> (res: Option<PeerStats>)
    ensures
        match res {
            Some(v) => map@.contains_key(*key) && v == map@[*key],
            None => !map@.contains_key(*key),
        },
{
    map.get(key).copied()
}

/// Stores a value for a key in an `fxhash::FxHashMap` with `HashMap::insert`.
#[verifier::external_body]
fn fx_insert(map: &mut PeerMap, key: PeerKey, value: PeerStats)
    ensures
        final(map)@ == old(map)@.insert(key, value),
{
    map.insert(key, value);
}

/// Removes a key from an `fxhash::FxHashMap` with `HashMap::remove`, returning its value.
#[verifier::external_body]
fn fx_remove(map: &mut PeerMap, key: &PeerKey) -> (res: Option<PeerStats>)
    ensures
        final(map)@ == old(map)@.remove(*key),
        match res {
            Some(v) => old(map)@.contains_key(*key) && v == old(map)@[*key],
            None => !old(map)@.contains_key(*key),
        },
{
    map.remove(key)
}

/// Lists the keys of an `fxhash::FxHashMap` with `HashMap::keys`: every key of the map, each
/// once, in an order that the contract leaves open.
#[verifier::external_body]
fn fx_keys(map: &PeerMap) -> (res: Vec<PeerKey>)
    ensures
        res@.no_duplicates(),
        res@.to_set() == map@.dom(),
{
    map.keys().copied().collect()
}

/// Contains statistics related to the node's peers, currently connected or not.
pub struct KnownPeers {
    peers: PeerMap,
}

impl KnownPeers {
    /// Every key in the map is the key of an address.
    #[verifier::type_invariant]
    spec fn keys_valid(self) -> bool {
        forall|k: PeerKey| #[trigger] self.peers@.contains_key(k) ==> is_peer_key(k)
    }

    /// The statistics of every known peer.
    pub closed spec fn peers(self) -> Map<SocketAddr, PeerStats> {
        Map::new(
            |addr: SocketAddr| self.peers@.contains_key(peer_key(addr)),
            |addr: SocketAddr| self.peers@[peer_key(addr)],
        )
    }

    /// Creates an empty collection.
    pub fn new() -> (res: Self)
        ensures
            res.peers() == Map::<SocketAddr, PeerStats>::empty(),
    {
        let res = KnownPeers { peers: fx_new() };
        assert(res.peers() =~= Map::<SocketAddr, PeerStats>::empty());
        res
    }

    /// Takes the map out, leaving an empty one behind.
    fn take_map(&mut self) -> (res: PeerMap)
        ensures
            res@ == old(self).peers@,
            forall|k: PeerKey| #[trigger] res@.contains_key(k) ==> is_peer_key(k),
    {
        proof {
            use_type_invariant(&*self);
        }
        let mut taken = KnownPeers { peers: fx_new() };
        std::mem::swap(self, &mut taken);
        let KnownPeers { peers } = taken;
        peers
    }

    /// Stores `stats` under the key of `addr`.
    fn store(&mut self, addr: SocketAddr, stats: PeerStats)
        ensures
            final(self).peers() == old(self).peers().insert(addr, stats),
    {
        let ghost before = self.peers();
        let mut map = self.take_map();
        let key = key_of(addr);
        fx_insert(&mut map, key, stats);
        proof {
            lemma_key_roundtrip(addr, key);
        }
        *self = KnownPeers { peers: map };
        proof {
            assert forall|a: SocketAddr| #![trigger peer_key(a)] true by {
                lemma_peer_key_injective(a, addr);
            }
        }
        assert(self.peers() =~= before.insert(addr, stats));
    }

    /// Adds an address to the list of known peers, with zeroed statistics; an address that
    /// is known already keeps its statistics.
    pub fn add(&mut self, addr: SocketAddr)
        ensures
            final(self).peers() == if old(self).peers().contains_key(addr) {
                old(self).peers()
            } else {
                old(self).peers().insert(addr, zero_stats())
            },
    {
        if fx_get(&self.peers, &key_of(addr)).is_none() {
            self.store(addr, PeerStats::new());
        }
    }

    /// Removes an address from the list of known peers; returns its statistics, if it was known.
    pub fn remove(&mut self, addr: SocketAddr) -> (res: Option<PeerStats>)
        ensures
            final(self).peers() == old(self).peers().remove(addr),
            match res {
                Some(stats) => old(self).peers().contains_key(addr) && stats == old(self).peers()[addr],
                None => !old(self).peers().contains_key(addr),
            },
    {
        let key = key_of(addr);
        let ghost before = self.peers();
        let mut map = self.take_map();
        let res = fx_remove(&mut map, &key);
        *self = KnownPeers { peers: map };
        proof {
            assert forall|a: SocketAddr| #![trigger peer_key(a)] true by {
                lemma_peer_key_injective(a, addr);
            }
        }
        assert(self.peers() =~= before.remove(addr));
        res
    }

    /// Returns the statistics of the given peer, if it is known.
    pub fn get(&self, addr: SocketAddr) -> (res: Option<PeerStats>)
        ensures
            match res {
                Some(stats) => self.peers().contains_key(addr) && stats == self.peers()[addr],
                None => !self.peers().contains_key(addr),
            },
    {
        fx_get(&self.peers, &key_of(addr))
    }

    /// Returns the addresses of the known peers, each once.
    pub fn addrs(&self) -> (res: Vec<SocketAddr>)
        ensures
            res@.no_duplicates(),
            res@.to_set() == self.peers().dom(),
    {
        proof {
            use_type_invariant(self);
        }
        let keys = fx_keys(&self.peers);
        let mut res: Vec<SocketAddr> = Vec::new();
        let mut i: usize = 0;
        while i < keys.len()
            invariant
                i <= keys.len(),
                keys@.no_duplicates(),
                keys@.to_set() == self.peers@.dom(),
                forall|k: PeerKey| #[trigger] self.peers@.contains_key(k) ==> is_peer_key(k),
                res.len() == i,
                forall|j: int| 0 <= j < i ==> #[trigger] res@[j] == key_addr(keys@[j]),
            decreases keys.len() - i,
        {
            assert(keys@.to_set().contains(keys@[i as int]));
            res.push(addr_of(keys[i]));
            i = i + 1;
        }
        proof {
            assert forall|j: int, l: int| 0 <= j < res.len() && 0 <= l < res.len() && j != l implies res@[j]
                != res@[l] by {
                assert(keys@.to_set().contains(keys@[j]));
                assert(keys@.to_set().contains(keys@[l]));
                lemma_key_roundtrip(res@[j], keys@[j]);
                lemma_key_roundtrip(res@[l], keys@[l]);
            }
            assert forall|a: SocketAddr| #[trigger] res@.to_set().contains(a) == self.peers().dom().contains(a) by {
                lemma_key_roundtrip(a, peer_key(a));
                if res@.to_set().contains(a) {
                    let j = choose|j: int| 0 <= j < res.len() && res@[j] == a;
                    assert(keys@.to_set().contains(keys@[j]));
                    lemma_key_roundtrip(a, keys@[j]);
                }
                if self.peers().dom().contains(a) {
                    assert(keys@.to_set().contains(peer_key(a)));
                    let j = choose|j: int| 0 <= j < keys.len() && keys@[j] == peer_key(a);
                    assert(res@[j] == a);
                }
            }
            assert(res@.to_set() =~= self.peers().dom());
        }
        res
    }

    /// Registers a connection to the given address, if it is known.
    pub fn register_connection(&mut self, addr: SocketAddr)
        ensures
            final(self).peers() == if old(self).peers().contains_key(addr) {
                let s = old(self).peers()[addr];
                old(self).peers().insert(
                    addr,
                    PeerStats { times_connected: wrapping_usize_sum(s.times_connected, 1), ..s },
                )
            } else {
                old(self).peers()
            },
    {
        if let Some(mut stats) = self.get(addr) {
            stats.times_connected = stats.times_connected.wrapping_add(1);
            self.store(addr, stats);
        }
    }

    /// Registers the submission of a message of `len` bytes to the given address, if it is known.
    pub fn register_sent_message(&mut self, to: SocketAddr, len: usize)
        ensures
            final(self).peers() == if old(self).peers().contains_key(to) {
                let s = old(self).peers()[to];
                old(self).peers().insert(
                    to,
                    PeerStats {
                        msgs_sent: wrapping_usize_sum(s.msgs_sent, 1),
                        bytes_sent: wrapping_sum(s.bytes_sent, len as u64),
                        ..s
                    },
                )
            } else {
                old(self).peers()
            },
    {
        if let Some(mut stats) = self.get(to) {
            stats.msgs_sent = stats.msgs_sent.wrapping_add(1);
            stats.bytes_sent = stats.bytes_sent.wrapping_add(len as u64);
            self.store(to, stats);
        }
    }

    /// Registers the receipt of a message of `len` bytes from the given address, if it is known.
    pub fn register_received_message(&mut self, from: SocketAddr, len: usize)
        ensures
            final(self).peers() == if old(self).peers().contains_key(from) {
                let s = old(self).peers()[from];
                old(self).peers().insert(
                    from,
                    PeerStats {
                        msgs_received: wrapping_usize_sum(s.msgs_received, 1),
                        bytes_received: wrapping_sum(s.bytes_received, len as u64),
                        ..s
                    },
                )
            } else {
                old(self).peers()
            },
    {
        if let Some(mut stats) = self.get(from) {
            stats.msgs_received = stats.msgs_received.wrapping_add(1);
            stats.bytes_received = stats.bytes_received.wrapping_add(len as u64);
            self.store(from, stats);
        }
    }

    /// Registers a failure associated with the given address, if it is known.
    pub fn register_failure(&mut self, addr: SocketAddr)
        ensures
            final(self).peers() == if old(self).peers().contains_key(addr) {
                let s = old(self).peers()[addr];
                old(self).peers().insert(addr, PeerStats { failures: wrapping_usize_sum(s.failures, 1), ..s })
            } else {
                old(self).peers()
            },
    {
        if let Some(mut stats) = self.get(addr) {
            stats.failures = stats.failures.wrapping_add(1);
            self.store(addr, stats);
        }
    }
}

} // verus!

verus! {

/// Adding a peer that is already known changes nothing, so adding a peer twice is the same as
/// adding it once.
pub proof fn law_adding_twice_is_adding_once(
    p0: KnownPeers,
    p1: KnownPeers,
    p2: KnownPeers,
    addr: SocketAddr,
)
    requires
        p1.peers() == if p0.peers().contains_key(addr) {
            p0.peers()
        } else {
            p0.peers().insert(addr, zero_stats())
        },
        p2.peers() == if p1.peers().contains_key(addr) {
            p1.peers()
        } else {
            p1.peers().insert(addr, zero_stats())
        },
    ensures
        p2.peers() == p1.peers(),
        p1.peers().contains_key(addr),
{
}

} // verus!
