//! **pea2pea** is a simple, low-level, and customizable implementation of a TCP P2P node. This
//! crate holds its bookkeeping: which connections a node may set up and which it holds, the
//! links that make a group of nodes form a topology, and the statistics kept about peers and
//! traffic.

pub mod addr;
pub mod addr_map;
pub mod config;
pub mod connections;
pub mod known_peers;
pub mod node_stats;
pub mod peer_stats;
pub mod protocols;
pub mod stats;
pub mod topology;

pub use addr::{IpAddr, SocketAddr};
pub use config::Config;
pub use connections::{ConnectionSide, Connections, DisconnectOrigin};
pub use known_peers::KnownPeers;
pub use stats::Stats;
pub use topology::Topology;
