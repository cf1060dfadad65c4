//! Network addresses as plain values.

use vstd::prelude::*;

verus! {

/// An IP address: either a 32-bit IPv4 address or a 128-bit IPv6 address, both in network
/// (big-endian) bit order, so that the first octet of an IPv4 address is its top byte.
#[derive(Clone, Copy, Debug, PartialEq, Eq, Structural, Hash)]
pub enum IpAddr {
    /// An IPv4 address.
    V4(u32),
    /// An IPv6 address.
    V6(u128),
}

/// A socket address: an IP address and a port, and, for an IPv6 address, its flow information
/// and scope identifier, which tell apart addresses such as `fe80::1%2` and `fe80::1%3`. An
/// IPv4 socket address has neither, and both fields are zero.
#[derive(Clone, Copy, Debug, PartialEq, Eq, Structural, Hash)]
pub struct SocketAddr {
    /// The IP address.
    pub ip: IpAddr,
    /// The port.
    pub port: u16,
    /// The IPv6 flow information; zero for an IPv4 address.
    pub flowinfo: u32,
    /// The IPv6 scope identifier; zero for an IPv4 address.
    pub scope_id: u32,
}

impl IpAddr {
    /// An IPv4 address is a loopback address when its first octet is 127; the only IPv6
    /// loopback address is `::1`.
    pub open spec fn spec_is_loopback(self) -> bool {
        match self {
            IpAddr::V4(bits) => bits / 0x100_0000 == 127,
            IpAddr::V6(bits) => bits == 1,
        }
    }

    /// Returns `true` for a loopback address.
    pub fn is_loopback(&self) -> (res: bool)
        ensures
            res == self.spec_is_loopback(),
    {
        match self {
            IpAddr::V4(bits) => *bits / 0x100_0000 == 127,
            IpAddr::V6(bits) => *bits == 1,
        }
    }
}

impl SocketAddr {
    /// Creates a socket address from an IP address and a port, with no flow information and
    /// no scope identifier.
    pub fn new(ip: IpAddr, port: u16) -> (res: SocketAddr)
        ensures
            res.ip == ip,
            res.port == port,
            res.flowinfo == 0,
            res.scope_id == 0,
    {
        SocketAddr { ip, port, flowinfo: 0, scope_id: 0 }
    }

    /// Creates an IPv6 socket address from its IP address, port, flow information and scope
    /// identifier.
    pub fn new_v6(ip: u128, port: u16, flowinfo: u32, scope_id: u32) -> (res: SocketAddr)
        ensures
            res.ip == IpAddr::V6(ip),
            res.port == port,
            res.flowinfo == flowinfo,
            res.scope_id == scope_id,
    {
        SocketAddr { ip: IpAddr::V6(ip), port, flowinfo, scope_id }
    }

    /// Returns the IPv6 flow information (zero for an IPv4 address).
    pub fn flowinfo(&self) -> (res: u32)
        ensures
            res == self.flowinfo,
    {
        self.flowinfo
    }

    /// Returns the IPv6 scope identifier (zero for an IPv4 address).
    pub fn scope_id(&self) -> (res: u32)
        ensures
            res == self.scope_id,
    {
        self.scope_id
    }

    /// Returns the IP address.
    pub fn ip(&self) -> (res: IpAddr)
        ensures
            res == self.ip,
    {
        self.ip
    }

    /// Returns the port.
    pub fn port(&self) -> (res: u16)
        ensures
            res == self.port,
    {
        self.port
    }
}

} // verus!

verus! {

impl crate::addr_map::PlainKey for SocketAddr {
    fn same(&self, other: &Self) -> (res: bool) {
        *self == *other
    }
}

impl crate::addr_map::PlainKey for IpAddr {
    fn same(&self, other: &Self) -> (res: bool) {
        *self == *other
    }
}

} // verus!
