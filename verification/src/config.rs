//! The node's configuration.

use vstd::prelude::*;

use crate::addr::{IpAddr, SocketAddr};

verus! {

/// The node's configuration. See [`Config::default`] for the defaults.
#[derive(Clone, Debug)]
pub struct Config {
    /// A user-friendly identifier of the node. If set to `None`, the node is assigned a
    /// sequential, zero-based numeric identifier when it is created.
    pub name: Option<String>,
    /// The socket address the node's connection listener should bind to; if set to `None`,
    /// the node does not listen for inbound connections at all.
    pub listener_addr: Option<SocketAddr>,
    /// The depth of the OS accept queue: how many fully-established inbound connections the
    /// kernel holds awaiting `accept`.
    pub listener_backlog: u32,
    /// The maximum number of active connections the node can maintain at any given time; the
    /// pending connections are counted too.
    pub max_connections: u16,
    /// The maximum number of active connections the node can maintain with a single IP; the
    /// pending connections are counted too.
    pub max_connections_per_ip: u16,
    /// The maximum number of simultaneous connection attempts (pending connections), covering
    /// both outbound connects in progress and inbound connections still being set up.
    pub max_connecting: u16,
    /// The maximum time (in milliseconds) allowed to establish a raw TCP connection.
    pub connection_timeout_ms: u16,
    /// Determines whether duplicate connections to the same target address are allowed.
    pub allow_duplicate_connections: bool,
}

/// The address a node listens on by default: port 0 (any free port) of the unspecified IPv4
/// address `0.0.0.0`.
pub open spec fn default_listener_addr() -> SocketAddr {
    SocketAddr { ip: IpAddr::V4(0), port: 0, flowinfo: 0, scope_id: 0 }
}

impl Default for Config {
    fn default() -> (res: Self)
        ensures
            res.name is None,
            res.listener_addr == Some(default_listener_addr()),
            res.listener_backlog == 128,
            res.max_connections == 100,
            res.max_connections_per_ip == 1,
            res.max_connecting == 100,
            res.connection_timeout_ms == 1_000,
            !res.allow_duplicate_connections,
    {
        Config {
            name: None,
            listener_addr: Some(SocketAddr { ip: IpAddr::V4(0), port: 0, flowinfo: 0, scope_id: 0 }),
            listener_backlog: 128,
            max_connections: 100,
            max_connections_per_ip: 1,
            max_connecting: 100,
            connection_timeout_ms: 1_000,
            allow_duplicate_connections: false,
        }
    }
}

} // verus!
