//! Connection bookkeeping: which peers are connected, which connections are being set up, and
//! the limits that decide whether another one may be.

use vstd::prelude::*;

use crate::addr::{IpAddr, SocketAddr};
use crate::addr_map::AddrMap;
use crate::config::Config;

verus! {

/// Indicates who was the initiator and who was the responder when the connection was established.
#[derive(Clone, Copy, Debug, PartialEq, Eq, Structural)]
pub enum ConnectionSide {
    /// The side that initiated the connection.
    Initiator,
    /// The side that accepted the connection.
    Responder,
}

impl ConnectionSide {
    /// The opposite side.
    pub open spec fn opposite(self) -> ConnectionSide {
        match self {
            ConnectionSide::Initiator => ConnectionSide::Responder,
            ConnectionSide::Responder => ConnectionSide::Initiator,
        }
    }
}

impl core::ops::Not for ConnectionSide {
    type Output = Self;

    fn not(self) -> (res: Self::Output) {
        match self {
            Self::Initiator => Self::Responder,
            Self::Responder => Self::Initiator,
        }
    }
}

impl vstd::std_specs::ops::NotSpecImpl for ConnectionSide {
    open spec fn obeys_not_spec() -> bool {
        true
    }

    open spec fn not_req(self) -> bool {
        true
    }

    open spec fn not_spec(self) -> Self {
        self.opposite()
    }
}

/// Describes what triggered a disconnect.
#[derive(Clone, Copy, Debug, PartialEq, Eq, Structural, Hash)]
pub enum DisconnectOrigin {
    /// The task running the on-connect hook terminated abnormally before defusing its
    /// connection cleanup.
    OnConnectAbort,
    /// The reader task for the connection terminated.
    Reading,
    /// The disconnect was initiated by shutting the node down.
    Shutdown,
    /// The disconnect was explicitly requested by the user.
    User,
    /// The writer task for the connection terminated.
    Writing,
}

} // verus!

verus! {

/// The reasons for which the node refuses to set up a connection.
#[derive(Clone, Copy, Debug, PartialEq, Eq, Structural)]
pub enum ConnectError {
    /// The target is the node's own listening address.
    SelfConnect,
    /// The node is already connected to the target and duplicate connections are not allowed.
    AlreadyConnected,
    /// The maximum number of connections with the target's IP has been reached.
    PerIpLimit,
    /// The maximum number of pending connections has been reached.
    PendingLimit,
    /// The maximum number of connections (pending and established) has been reached.
    ConnectionLimit,
    /// A connection with the target is already being set up.
    AlreadyConnecting,
}

/// The node is shutting down, so no connection can be registered.
#[derive(Clone, Copy, Debug, PartialEq, Eq, Structural)]
pub struct ShuttingDown;

/// The connections of a node: those fully established, those being set up, and the number of
/// connections (pending and established) per IP address.
pub struct Connections {
    active: AddrMap<SocketAddr, ()>,
    connecting: AddrMap<SocketAddr, ()>,
    ip_counts: AddrMap<IpAddr, usize>,
}

/// `count` decreased by one, stopping at zero.
pub open spec fn decremented(count: nat) -> nat {
    if count > 0 {
        (count - 1) as nat
    } else {
        0
    }
}

/// Why a connection to `addr` would be refused before any limit is consulted, given the node's
/// listening address, whether duplicate connections are allowed and whether `addr` is
/// connected already.
pub open spec fn target_error(
    addr: SocketAddr,
    listening_addr: Option<SocketAddr>,
    allow_duplicate_connections: bool,
    connected: bool,
) -> Option<ConnectError> {
    if listening_addr is Some && (addr == listening_addr->0 || (addr.ip.spec_is_loopback() && addr.port
        == listening_addr->0.port)) {
        Some(ConnectError::SelfConnect)
    } else if !allow_duplicate_connections && connected {
        Some(ConnectError::AlreadyConnected)
    } else {
        None
    }
}


/// `post` is `pre` unchanged.
pub open spec fn unchanged(pre: Connections, post: Connections) -> bool {
    &&& post.active() == pre.active()
    &&& post.connecting() == pre.connecting()
    &&& forall|ip: IpAddr| #[trigger] post.ip_count(ip) == pre.ip_count(ip)
}

/// `post` is `pre` with `addr` reserved: pending, and counted towards the limit of its IP.
pub open spec fn reserved(pre: Connections, post: Connections, addr: SocketAddr) -> bool {
    &&& post.active() == pre.active()
    &&& post.connecting() == pre.connecting().insert(addr)
    &&& forall|ip: IpAddr| #[trigger] post.ip_count(ip) == if ip == addr.ip {
        pre.ip_count(ip) + 1
    } else {
        pre.ip_count(ip)
    }
}

/// `post` is `pre` with the reservation of `addr` ended; unless the connection `completed`, it
/// no longer counts towards the limit of its IP.
pub open spec fn released(pre: Connections, post: Connections, addr: SocketAddr, completed: bool) -> bool {
    &&& post.active() == pre.active()
    &&& post.connecting() == pre.connecting().remove(addr)
    &&& forall|ip: IpAddr| #[trigger] post.ip_count(ip) == if ip == addr.ip && !completed {
        decremented(pre.ip_count(ip))
    } else {
        pre.ip_count(ip)
    }
}

/// `post` is `pre` with `addr` registered as fully established.
pub open spec fn added(pre: Connections, post: Connections, addr: SocketAddr) -> bool {
    &&& post.active() == pre.active().insert(addr)
    &&& post.connecting() == pre.connecting()
    &&& forall|ip: IpAddr| #[trigger] post.ip_count(ip) == pre.ip_count(ip)
}

/// `post` is `pre` with `addr` no longer registered as fully established.
pub open spec fn removed(pre: Connections, post: Connections, addr: SocketAddr) -> bool {
    &&& post.active() == pre.active().remove(addr)
    &&& post.connecting() == pre.connecting()
    &&& forall|ip: IpAddr| #[trigger] post.ip_count(ip) == pre.ip_count(ip)
}

/// `post` is `pre` with one connection fewer counted towards the limit of `ip`.
pub open spec fn ip_released(pre: Connections, post: Connections, ip: IpAddr) -> bool {
    &&& post.active() == pre.active()
    &&& post.connecting() == pre.connecting()
    &&& forall|other: IpAddr| #[trigger] post.ip_count(other) == if other == ip {
        decremented(pre.ip_count(other))
    } else {
        pre.ip_count(other)
    }
}

impl Connections {
    /// The addresses of the fully established connections.
    pub closed spec fn active(self) -> Set<SocketAddr> {
        self.active.entries().dom()
    }

    /// The addresses of the connections being set up.
    pub closed spec fn connecting(self) -> Set<SocketAddr> {
        self.connecting.entries().dom()
    }

    /// The number of connections (pending and established) held with the given IP address.
    pub closed spec fn ip_count(self, ip: IpAddr) -> nat {
        if self.ip_counts.entries().contains_key(ip) {
            self.ip_counts.entries()[ip] as nat
        } else {
            0
        }
    }

    /// The bookkeeping holds finitely many addresses.
    pub proof fn lemma_finite(self)
        ensures
            self.active().finite(),
            self.connecting().finite(),
    {
        self.active.lemma_finite();
        self.connecting.lemma_finite();
    }

    /// Why a reservation of a connection slot for `addr` would be refused under the given
    /// configuration, if it would.
    pub open spec fn reserve_error(self, addr: SocketAddr, config: Config) -> Option<ConnectError> {
        if self.ip_count(addr.ip) >= config.max_connections_per_ip {
            Some(ConnectError::PerIpLimit)
        } else if self.connecting().len() >= config.max_connecting {
            Some(ConnectError::PendingLimit)
        } else if self.active().len() + self.connecting().len() >= config.max_connections {
            Some(ConnectError::ConnectionLimit)
        } else if self.connecting().contains(addr) {
            Some(ConnectError::AlreadyConnecting)
        } else {
            None
        }
    }

    /// Creates an empty set of connections.
    pub fn new() -> (res: Self)
        ensures
            res.active() == Set::<SocketAddr>::empty(),
            res.connecting() == Set::<SocketAddr>::empty(),
            forall|ip: IpAddr| res.ip_count(ip) == 0,
    {
        Connections { active: AddrMap::new(), connecting: AddrMap::new(), ip_counts: AddrMap::new() }
    }

    /// Registers a fully established connection, unless the node is shutting down.
    pub fn add(&mut self, addr: SocketAddr, shutting_down: bool) -> (res: Result<(), ShuttingDown>)
        ensures
            res is Err <==> shutting_down,
            if shutting_down {
                unchanged(*old(self), *final(self))
            } else {
                added(*old(self), *final(self), addr)
            },
    {
        if shutting_down {
            return Err(ShuttingDown);
        }
        let _ = self.active.insert(addr, ());
        Ok(())
    }

    /// Removes a fully established connection; returns `true` if it was registered.
    pub fn remove(&mut self, addr: SocketAddr) -> (res: bool)
        ensures
            res == old(self).active().contains(addr),
            removed(*old(self), *final(self), addr),
    {
        self.active.remove(&addr).is_some()
    }

    /// Checks whether the provided address is connected.
    pub fn is_connected(&self, addr: SocketAddr) -> (res: bool)
        ensures
            res == self.active().contains(addr),
    {
        self.active.contains_key(&addr)
    }

    /// Returns the number of active connections.
    pub fn num_connected(&self) -> (res: usize)
        ensures
            res == self.active().len(),
    {
        self.active.len()
    }

    /// Returns the addresses of active connections, each once.
    pub fn addrs(&self) -> (res: Vec<SocketAddr>)
        ensures
            res@.no_duplicates(),
            res@.to_set() == self.active(),
    {
        self.active.keys()
    }

    /// Checks if a connection with the provided address is being set up.
    pub fn is_connecting(&self, addr: SocketAddr) -> (res: bool)
        ensures
            res == self.connecting().contains(addr),
    {
        self.connecting.contains_key(&addr)
    }

    /// Returns the number of connections that are being set up.
    pub fn num_connecting(&self) -> (res: usize)
        ensures
            res == self.connecting().len(),
    {
        self.connecting.len()
    }

    /// Checks that a connection to `addr` may be attempted at all: it must not target the
    /// node's own listening address (the same address, or the same port on a loopback
    /// address), and, unless duplicate connections are allowed, `addr` must not be connected.
    pub fn check_target(
        &self,
        addr: SocketAddr,
        listening_addr: Option<SocketAddr>,
        allow_duplicate_connections: bool,
    ) -> (res: Result<(), ConnectError>)
        ensures
            match res {
                Ok(()) => target_error(addr, listening_addr, allow_duplicate_connections, self.active().contains(addr)) is None,
                Err(e) => target_error(addr, listening_addr, allow_duplicate_connections, self.active().contains(addr)) == Some(e),
            },
    {
        if let Some(own) = listening_addr {
            if addr == own || addr.ip.is_loopback() && addr.port == own.port {
                return Err(ConnectError::SelfConnect);
            }
        }
        if !allow_duplicate_connections && self.is_connected(addr) {
            return Err(ConnectError::AlreadyConnected);
        }
        Ok(())
    }

    fn increment_ip(&mut self, ip: IpAddr)
        requires
            old(self).ip_count(ip) < u16::MAX,
        ensures
            final(self).active() == old(self).active(),
            final(self).connecting() == old(self).connecting(),
            forall|other: IpAddr| #[trigger] final(self).ip_count(other) == if other == ip {
                old(self).ip_count(other) + 1
            } else {
                old(self).ip_count(other)
            },
    {
        let count: usize = match self.ip_counts.get(&ip) {
            Some(c) => *c,
            None => 0,
        };
        let _ = self.ip_counts.insert(ip, count + 1);
    }

    fn decrement_ip(&mut self, ip: IpAddr)
        ensures
            final(self).active() == old(self).active(),
            final(self).connecting() == old(self).connecting(),
            forall|other: IpAddr| #[trigger] final(self).ip_count(other) == if other == ip {
                decremented(old(self).ip_count(other))
            } else {
                old(self).ip_count(other)
            },
    {
        let count: usize = match self.ip_counts.get(&ip) {
            Some(c) => *c,
            None => return,
        };
        if count > 1 {
            let _ = self.ip_counts.insert(ip, count - 1);
        } else {
            let _ = self.ip_counts.remove(&ip);
        }
    }

    /// Atomically checks the connection limits for a connection with `addr` and, if they
    /// allow it, reserves a slot: `addr` becomes a pending connection and counts towards the
    /// limit of its IP address. Each successful reservation is to be followed by exactly one
    /// [`Connections::release`].
    pub fn check_and_reserve(&mut self, addr: SocketAddr, config: &Config) -> (res: Result<(), ConnectError>)
        ensures
            match res {
                Ok(()) => old(self).reserve_error(addr, *config) is None && reserved(
                    *old(self),
                    *final(self),
                    addr,
                ),
                Err(e) => old(self).reserve_error(addr, *config) == Some(e) && unchanged(
                    *old(self),
                    *final(self),
                ),
            },
    {
        let ip = addr.ip;
        let num_ip_conns: usize = match self.ip_counts.get(&ip) {
            Some(c) => *c,
            None => 0,
        };
        if num_ip_conns >= config.max_connections_per_ip as usize {
            return Err(ConnectError::PerIpLimit);
        }
        let num_connecting = self.connecting.len();
        if num_connecting >= config.max_connecting as usize {
            return Err(ConnectError::PendingLimit);
        }
        let num_connected = self.active.len();
        if num_connected as u128 + num_connecting as u128 >= config.max_connections as u128 {
            return Err(ConnectError::ConnectionLimit);
        }
        if self.connecting.contains_key(&addr) {
            return Err(ConnectError::AlreadyConnecting);
        }
        let ghost before = *self;
        assert(before.reserve_error(addr, *config) is None);
        self.increment_ip(ip);
        let ghost mid = *self;
        let _ = self.connecting.insert(addr, ());
        assert(self.connecting() =~= before.connecting().insert(addr));
        assert forall|other: IpAddr| #[trigger] self.ip_count(other) == if other == addr.ip {
            before.ip_count(other) + 1
        } else {
            before.ip_count(other)
        } by {
            assert(self.ip_count(other) == mid.ip_count(other));
        }
        Ok(())
    }

    /// Ends a reservation made by [`Connections::check_and_reserve`]: `addr` is no longer
    /// pending, and, unless the connection was `completed` (and so counts as an established one
    /// from now on), it stops counting towards the limit of its IP address.
    pub fn release(&mut self, addr: SocketAddr, completed: bool)
        ensures
            released(*old(self), *final(self), addr, completed),
    {
        let _ = self.connecting.remove(&addr);
        if !completed {
            self.decrement_ip(addr.ip);
        }
    }

    /// Stops counting a connection that was just disconnected towards the limit of its IP
    /// address.
    pub fn release_ip(&mut self, ip: IpAddr)
        ensures
            ip_released(*old(self), *final(self), ip),
    {
        self.decrement_ip(ip);
    }
}

} // verus!

verus! {

/// A reservation that is abandoned (released before the connection completes) leaves the
/// bookkeeping exactly as it was before the reservation: the address is not pending and the
/// per-IP counts are back where they were.
pub proof fn law_abandoned_reservation_leaves_no_trace(
    s0: Connections,
    s1: Connections,
    s2: Connections,
    addr: SocketAddr,
    config: Config,
)
    requires
        s0.reserve_error(addr, config) is None,
        reserved(s0, s1, addr),
        released(s1, s2, addr, false),
    ensures
        unchanged(s0, s2),
{
    assert(s2.connecting() =~= s0.connecting());
}

/// A connection that is reserved, completed and registered, and later disconnected (removed
/// and no longer counted towards its IP) leaves the bookkeeping as it was before it was
/// attempted, provided it did not duplicate an established connection.
pub proof fn law_connect_then_disconnect_leaves_no_trace(
    s0: Connections,
    s1: Connections,
    s2: Connections,
    s3: Connections,
    s4: Connections,
    s5: Connections,
    addr: SocketAddr,
    config: Config,
)
    requires
        !s0.active().contains(addr),
        s0.reserve_error(addr, config) is None,
        reserved(s0, s1, addr),
        added(s1, s2, addr),
        released(s2, s3, addr, true),
        removed(s3, s4, addr),
        ip_released(s4, s5, addr.ip),
    ensures
        unchanged(s0, s5),
{
    assert(s5.connecting() =~= s0.connecting());
    assert(s5.active() =~= s0.active());
}

/// A successful reservation never takes the node past one of its limits: afterwards the IP of
/// the address holds at most `max_connections_per_ip` connections, at most `max_connecting`
/// connections are pending, and established and pending connections together number at most
/// `max_connections`. It also never reserves an address that was already pending.
pub proof fn law_reservation_respects_limits(s0: Connections, s1: Connections, addr: SocketAddr, config: Config)
    requires
        s0.reserve_error(addr, config) is None,
        reserved(s0, s1, addr),
    ensures
        !s0.connecting().contains(addr),
        s1.ip_count(addr.ip) <= config.max_connections_per_ip,
        s1.connecting().len() <= config.max_connecting,
        s1.active().len() + s1.connecting().len() <= config.max_connections,
{
    s0.lemma_finite();
}

} // verus!

verus! {

/// Whether an address has the IP `ip`.
pub open spec fn ip_is(ip: IpAddr) -> spec_fn(SocketAddr) -> bool {
    |a: SocketAddr| a.ip == ip
}

/// The number of addresses in `s` with the IP `ip`.
pub open spec fn with_ip(s: Set<SocketAddr>, ip: IpAddr) -> nat {
    s.filter(ip_is(ip)).len()
}

/// Every IP is counted towards its limit exactly once for each pending and once for each
/// established connection with one of its addresses.
pub open spec fn accounted(c: Connections) -> bool {
    forall|ip: IpAddr| #[trigger] c.ip_count(ip) == with_ip(c.connecting(), ip) + with_ip(c.active(), ip)
}

proof fn lemma_with_ip_insert(s: Set<SocketAddr>, a: SocketAddr, ip: IpAddr)
    requires
        s.finite(),
    ensures
        with_ip(s.insert(a), ip) == with_ip(s, ip) + (if a.ip == ip && !s.contains(a) { 1int } else { 0 }),
{
    s.lemma_len_filter(ip_is(ip));
    if a.ip == ip {
        assert(s.insert(a).filter(ip_is(ip)) =~= s.filter(ip_is(ip)).insert(a));
    } else {
        assert(s.insert(a).filter(ip_is(ip)) =~= s.filter(ip_is(ip)));
    }
}

proof fn lemma_with_ip_remove(s: Set<SocketAddr>, a: SocketAddr, ip: IpAddr)
    requires
        s.finite(),
    ensures
        with_ip(s.remove(a), ip) + (if a.ip == ip && s.contains(a) { 1int } else { 0 }) == with_ip(s, ip),
{
    s.lemma_len_filter(ip_is(ip));
    if a.ip == ip {
        assert(s.remove(a).filter(ip_is(ip)) =~= s.filter(ip_is(ip)).remove(a));
    } else {
        assert(s.remove(a).filter(ip_is(ip)) =~= s.filter(ip_is(ip)));
    }
}

/// A node starts with nothing pending, nothing established and nothing counted.
pub proof fn law_accounted_initially(c: Connections)
    requires
        c.active() == Set::<SocketAddr>::empty(),
        c.connecting() == Set::<SocketAddr>::empty(),
        forall|ip: IpAddr| c.ip_count(ip) == 0,
    ensures
        accounted(c),
{
    assert forall|ip: IpAddr| #[trigger] c.ip_count(ip) == with_ip(c.connecting(), ip) + with_ip(c.active(), ip) by {
        assert(Set::<SocketAddr>::empty().filter(ip_is(ip)) =~= Set::<SocketAddr>::empty());
    }
}

proof fn lemma_accounting_step(s0: Connections, s2: Connections, addr: SocketAddr)
    requires
        accounted(s0),
        s2.connecting() == s0.connecting() || s2.connecting() == s0.connecting().insert(addr)
            || s2.connecting() == s0.connecting().remove(addr),
        s2.active() == s0.active() || s2.active() == s0.active().insert(addr) || s2.active()
            == s0.active().remove(addr),
        forall|ip: IpAddr| #[trigger] s2.ip_count(ip) + with_ip(s0.connecting(), ip) + with_ip(s0.active(), ip)
            == s0.ip_count(ip) + with_ip(s2.connecting(), ip) + with_ip(s2.active(), ip),
    ensures
        accounted(s2),
{
}

proof fn lemma_with_ip_steps(s0: Connections, addr: SocketAddr, ip: IpAddr)
    ensures
        with_ip(s0.connecting().insert(addr), ip) == with_ip(s0.connecting(), ip) + (if addr.ip == ip
            && !s0.connecting().contains(addr) { 1int } else { 0 }),
        with_ip(s0.connecting().remove(addr), ip) + (if addr.ip == ip && s0.connecting().contains(addr) {
            1int
        } else {
            0
        }) == with_ip(s0.connecting(), ip),
        with_ip(s0.active().insert(addr), ip) == with_ip(s0.active(), ip) + (if addr.ip == ip
            && !s0.active().contains(addr) { 1int } else { 0 }),
        with_ip(s0.active().remove(addr), ip) + (if addr.ip == ip && s0.active().contains(addr) {
            1int
        } else {
            0
        }) == with_ip(s0.active(), ip),
{
    s0.lemma_finite();
    lemma_with_ip_insert(s0.connecting(), addr, ip);
    lemma_with_ip_remove(s0.connecting(), addr, ip);
    lemma_with_ip_insert(s0.active(), addr, ip);
    lemma_with_ip_remove(s0.active(), addr, ip);
}

/// A successful reservation keeps every IP counted exactly once per pending and per
/// established connection.
pub proof fn law_reservation_keeps_accounting(s0: Connections, s1: Connections, addr: SocketAddr)
    requires
        accounted(s0),
        !s0.connecting().contains(addr),
        reserved(s0, s1, addr),
    ensures
        accounted(s1),
{
    assert forall|ip: IpAddr| #[trigger] s1.ip_count(ip) + with_ip(s0.connecting(), ip) + with_ip(s0.active(), ip)
        == s0.ip_count(ip) + with_ip(s1.connecting(), ip) + with_ip(s1.active(), ip) by {
        lemma_with_ip_steps(s0, addr, ip);
    }
    lemma_accounting_step(s0, s1, addr);
}

/// Releasing a pending reservation that did not complete keeps every IP counted exactly once
/// per pending and per established connection.
pub proof fn law_abandonment_keeps_accounting(s0: Connections, s1: Connections, addr: SocketAddr)
    requires
        accounted(s0),
        s0.connecting().contains(addr),
        released(s0, s1, addr, false),
    ensures
        accounted(s1),
{
    assert forall|ip: IpAddr| #[trigger] s1.ip_count(ip) + with_ip(s0.connecting(), ip) + with_ip(s0.active(), ip)
        == s0.ip_count(ip) + with_ip(s1.connecting(), ip) + with_ip(s1.active(), ip) by {
        lemma_with_ip_steps(s0, addr, ip);
        assert(s0.ip_count(ip) == with_ip(s0.connecting(), ip) + with_ip(s0.active(), ip));
    }
    lemma_accounting_step(s0, s1, addr);
}

/// Registering a completed connection and then releasing its reservation keeps every IP
/// counted exactly once per pending and per established connection, provided the connection
/// does not duplicate an established one.
pub proof fn law_completion_keeps_accounting(s0: Connections, s1: Connections, s2: Connections, addr: SocketAddr)
    requires
        accounted(s0),
        s0.connecting().contains(addr),
        !s0.active().contains(addr),
        added(s0, s1, addr),
        released(s1, s2, addr, true),
    ensures
        accounted(s2),
{
    assert forall|ip: IpAddr| #[trigger] s2.ip_count(ip) + with_ip(s0.connecting(), ip) + with_ip(s0.active(), ip)
        == s0.ip_count(ip) + with_ip(s2.connecting(), ip) + with_ip(s2.active(), ip) by {
        lemma_with_ip_steps(s0, addr, ip);
    }
    lemma_accounting_step(s0, s2, addr);
}

/// Removing an established connection and then releasing its count keeps every IP counted
/// exactly once per pending and per established connection.
pub proof fn law_disconnect_keeps_accounting(s0: Connections, s1: Connections, s2: Connections, addr: SocketAddr)
    requires
        accounted(s0),
        s0.active().contains(addr),
        removed(s0, s1, addr),
        ip_released(s1, s2, addr.ip),
    ensures
        accounted(s2),
{
    assert forall|ip: IpAddr| #[trigger] s2.ip_count(ip) + with_ip(s0.connecting(), ip) + with_ip(s0.active(), ip)
        == s0.ip_count(ip) + with_ip(s2.connecting(), ip) + with_ip(s2.active(), ip) by {
        lemma_with_ip_steps(s0, addr, ip);
        assert(s0.ip_count(ip) == with_ip(s0.connecting(), ip) + with_ip(s0.active(), ip));
    }
    lemma_accounting_step(s0, s2, addr);
}

} // verus!

verus! {

/// Negating a connection side twice gives the side back: the two sides are each other's
/// opposite.
pub proof fn law_opposite_side_is_an_involution(side: ConnectionSide)
    ensures
        side.opposite().opposite() == side,
        side.opposite() != side,
{
}

} // verus!

verus! {

/// A call that changes the bookkeeping of a node's connections.
#[derive(Clone, Copy, Debug, PartialEq, Eq, Structural)]
pub enum BookStep {
    /// [`Connections::check_and_reserve`] for the address, whichever way it went.
    Reserve(SocketAddr),
    /// [`Connections::add`] for the address, whether or not the node was shutting down.
    Add(SocketAddr),
    /// [`Connections::release`] for the address, with whether the connection completed.
    Release(SocketAddr, bool),
    /// [`Connections::remove`] for the address.
    Remove(SocketAddr),
    /// [`Connections::release_ip`] for the IP address.
    ReleaseIp(IpAddr),
}

/// `post` follows `pre` by the call `step` under `config`, as the calls' contracts state it. A
/// node registers as established only a connection whose slot it reserved and has not yet
/// released, so an `Add` is of a pending address.
pub open spec fn book_step(pre: Connections, post: Connections, step: BookStep, config: Config) -> bool {
    match step {
        BookStep::Reserve(addr) => if pre.reserve_error(addr, config) is None {
            reserved(pre, post, addr)
        } else {
            unchanged(pre, post)
        },
        BookStep::Add(addr) => pre.connecting().contains(addr) && (added(pre, post, addr) || unchanged(
            pre,
            post,
        )),
        BookStep::Release(addr, completed) => released(pre, post, addr, completed),
        BookStep::Remove(addr) => removed(pre, post, addr),
        BookStep::ReleaseIp(ip) => ip_released(pre, post, ip),
    }
}

/// The connections held are within the limits of `config`: established and pending addresses
/// together number at most `max_connections`, at most `max_connecting` are pending, and no IP
/// address counts more than `max_connections_per_ip` connections.
pub open spec fn within_limits(c: Connections, config: Config) -> bool {
    &&& c.active().union(c.connecting()).len() <= config.max_connections
    &&& c.connecting().len() <= config.max_connecting
    &&& forall|ip: IpAddr| #[trigger] c.ip_count(ip) <= config.max_connections_per_ip
}

/// Every call of the connection protocol keeps the connections within the limits of the
/// configuration; in particular at most `max_connections` connections are established and at
/// most `max_connecting` pending, after any of them.
pub proof fn law_step_keeps_limits(pre: Connections, post: Connections, step: BookStep, config: Config)
    requires
        within_limits(pre, config),
        book_step(pre, post, step, config),
    ensures
        within_limits(post, config),
        post.active().len() <= config.max_connections,
        post.connecting().len() <= config.max_connecting,
{
    pre.lemma_finite();
    post.lemma_finite();
    let pu = pre.active().union(pre.connecting());
    let qu = post.active().union(post.connecting());
    match step {
        BookStep::Reserve(addr) => {
            if pre.reserve_error(addr, config) is None {
                assert(qu =~= pu.insert(addr));
                vstd::set_lib::lemma_len_union(pre.active(), pre.connecting());
            } else {
                assert(qu =~= pu);
            }
        },
        BookStep::Add(addr) => {
            assert(qu =~= pu);
        },
        BookStep::Release(addr, completed) => {
            assert(qu.subset_of(pu));
            vstd::set_lib::lemma_len_subset(qu, pu);
        },
        BookStep::Remove(addr) => {
            assert(qu.subset_of(pu));
            vstd::set_lib::lemma_len_subset(qu, pu);
        },
        BookStep::ReleaseIp(ip) => {
            assert(qu =~= pu);
        },
    }
    assert(post.active().subset_of(qu));
    vstd::set_lib::lemma_len_subset(post.active(), qu);
}

/// From a node's empty bookkeeping, every state that the connection protocol reaches is within
/// the limits of the configuration: at every state at most `max_connections` connections are
/// established and at most `max_connecting` are pending, whatever the interleaving of inbound
/// and outbound attempts.
pub proof fn law_limits_hold_at_every_state(states: Seq<Connections>, steps: Seq<BookStep>, config: Config, n: int)
    requires
        states.len() == steps.len() + 1,
        states[0].active() == Set::<SocketAddr>::empty(),
        states[0].connecting() == Set::<SocketAddr>::empty(),
        forall|ip: IpAddr| states[0].ip_count(ip) == 0,
        forall|i: int| 0 <= i < steps.len() ==> book_step(states[i], states[i + 1], #[trigger] steps[i], config),
        0 <= n < states.len(),
    ensures
        within_limits(states[n], config),
        states[n].active().len() <= config.max_connections,
        states[n].connecting().len() <= config.max_connecting,
    decreases n,
{
    if n == 0 {
        assert(states[0].active().union(states[0].connecting()) =~= Set::<SocketAddr>::empty());
    } else {
        law_limits_hold_at_every_state(states, steps, config, n - 1);
        assert(book_step(states[n - 1], states[n], steps[n - 1], config));
        law_step_keeps_limits(states[n - 1], states[n], steps[n - 1], config);
    }
}

} // verus!

verus! {

/// Whether `addr` is the node's own listening address: the same address, or the same port on a
/// loopback address.
pub open spec fn is_own_address(addr: SocketAddr, listening_addr: Option<SocketAddr>) -> bool {
    match listening_addr {
        Some(own) => addr == own || (addr.ip.spec_is_loopback() && addr.port == own.port),
        None => false,
    }
}

/// Apart from refusing a connection to the node itself, the target check does not depend on
/// whether or where the node listens: a target that is not the node's own address gets the same
/// answer as on a node that does not listen at all.
pub proof fn law_target_check_ignores_listening_address(
    c: Connections,
    addr: SocketAddr,
    listening_addr: Option<SocketAddr>,
    allow_duplicate_connections: bool,
)
    requires
        !is_own_address(addr, listening_addr),
    ensures
        target_error(addr, listening_addr, allow_duplicate_connections, c.active().contains(addr))
            == target_error(addr, None, allow_duplicate_connections, c.active().contains(addr)),
{
}

/// Unless duplicate connections are allowed, a target that is already connected is refused as
/// `AlreadyConnected` (when it is not the node's own address), whether or not the node listens;
/// a target that is not connected and not the node's own address is let through.
pub proof fn law_duplicate_target_refused(
    c: Connections,
    addr: SocketAddr,
    listening_addr: Option<SocketAddr>,
)
    requires
        !is_own_address(addr, listening_addr),
    ensures
        c.active().contains(addr) ==> target_error(addr, listening_addr, false, true) == Some(
            ConnectError::AlreadyConnected,
        ),
        target_error(addr, listening_addr, false, false) is None,
        target_error(addr, listening_addr, true, c.active().contains(addr)) is None,
{
}

/// When duplicate connections are allowed, the target check never answers `AlreadyConnected`:
/// it lets the target through, or refuses it as the node's own address, and it refuses it only
/// when it is the node's own address.
pub proof fn law_duplicates_allowed_never_refused(
    c: Connections,
    addr: SocketAddr,
    listening_addr: Option<SocketAddr>,
)
    ensures
        target_error(addr, listening_addr, true, c.active().contains(addr)) is None
            || target_error(addr, listening_addr, true, c.active().contains(addr)) == Some(
            ConnectError::SelfConnect,
        ),
        target_error(addr, listening_addr, true, c.active().contains(addr)) == Some(
            ConnectError::SelfConnect,
        ) <==> is_own_address(addr, listening_addr),
{
}

/// A target that is the node's own address is always refused as `SelfConnect`.
pub proof fn law_self_connect_refused(
    connected: bool,
    addr: SocketAddr,
    listening_addr: Option<SocketAddr>,
    allow_duplicate_connections: bool,
)
    requires
        is_own_address(addr, listening_addr),
    ensures
        target_error(addr, listening_addr, allow_duplicate_connections, connected) == Some(
            ConnectError::SelfConnect,
        ),
{
}

/// A reservation succeeds exactly when the per-IP count of the address is below its limit, fewer
/// than `max_connecting` connections are pending, established and pending connections together
/// are fewer than `max_connections`, and the address itself is not pending. Established
/// connections count only towards `max_connections` and the per-IP limit, never towards the
/// pending limit, and an established address (a duplicate connection) can be reserved again.
pub proof fn law_reservation_succeeds_when_limits_have_room(c: Connections, addr: SocketAddr, config: Config)
    ensures
        c.reserve_error(addr, config) is None <==> {
            &&& c.ip_count(addr.ip) < config.max_connections_per_ip
            &&& c.connecting().len() < config.max_connecting
            &&& c.active().len() + c.connecting().len() < config.max_connections
            &&& !c.connecting().contains(addr)
        },
{
}

/// Each refusal of a reservation names a limit that is actually reached: `PerIpLimit` only when
/// the IP of the address holds `max_connections_per_ip` connections, `PendingLimit` only when
/// `max_connecting` connections are pending, `ConnectionLimit` only when established and pending
/// connections together reach `max_connections`, and `AlreadyConnecting` only when the address
/// is pending; a reservation is never refused for another reason.
pub proof fn law_reservation_refusals_name_a_reached_limit(c: Connections, addr: SocketAddr, config: Config)
    ensures
        c.reserve_error(addr, config) == Some(ConnectError::PerIpLimit) ==> c.ip_count(addr.ip)
            >= config.max_connections_per_ip,
        c.reserve_error(addr, config) == Some(ConnectError::PendingLimit) ==> c.connecting().len()
            >= config.max_connecting,
        c.reserve_error(addr, config) == Some(ConnectError::ConnectionLimit) ==> c.active().len()
            + c.connecting().len() >= config.max_connections,
        c.reserve_error(addr, config) == Some(ConnectError::AlreadyConnecting) ==> c.connecting().contains(
            addr,
        ),
        c.reserve_error(addr, config) is None || c.reserve_error(addr, config) == Some(ConnectError::PerIpLimit)
            || c.reserve_error(addr, config) == Some(ConnectError::PendingLimit) || c.reserve_error(addr, config)
            == Some(ConnectError::ConnectionLimit) || c.reserve_error(addr, config) == Some(
            ConnectError::AlreadyConnecting,
        ),
{
}

/// Registering an established connection never makes a reservation fail on the pending limit:
/// if a reservation was not refused as `PendingLimit` before, it is not refused so afterwards.
pub proof fn law_established_connections_leave_the_pending_limit_alone(
    s0: Connections,
    s1: Connections,
    registered: SocketAddr,
    addr: SocketAddr,
    config: Config,
)
    requires
        added(s0, s1, registered),
        s0.reserve_error(addr, config) != Some(ConnectError::PendingLimit),
        s0.ip_count(addr.ip) < config.max_connections_per_ip,
    ensures
        s1.reserve_error(addr, config) != Some(ConnectError::PendingLimit),
{
}

} // verus!
