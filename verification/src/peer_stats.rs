//! What a node remembers of a single peer: how often it connected and what it sent.

use vstd::prelude::*;

use crate::stats::now;

verus! {

/// Statistics related to a single peer, with the times at which it was first and last seen.
#[derive(Debug)]
pub struct PeerStats {
    times_connected: usize,
    first_seen: std::time::Instant,
    last_seen: std::time::Instant,
    msg_count: usize,
    bytes_received: u64,
    failures: u8,
}

impl PeerStats {
    /// The number of times a connection with the peer has been established.
    pub closed spec fn connection_count(self) -> usize {
        self.times_connected
    }

    /// The number of messages received from the peer.
    pub closed spec fn message_count(self) -> usize {
        self.msg_count
    }

    /// The number of bytes received from the peer.
    pub closed spec fn received_bytes(self) -> u64 {
        self.bytes_received
    }

    /// The number of failures related to the peer.
    pub closed spec fn failure_count(self) -> u8 {
        self.failures
    }

    /// The time the peer was first seen.
    pub closed spec fn first_seen_at(self) -> std::time::Instant {
        self.first_seen
    }

    /// The time the peer was last seen.
    pub closed spec fn last_seen_at(self) -> std::time::Instant {
        self.last_seen
    }

    /// Registers another established connection with the peer, which is seen now.
    pub fn new_connection(&mut self)
        requires
            old(self).connection_count() < usize::MAX,
        ensures
            final(self).connection_count() == old(self).connection_count() + 1,
            final(self).message_count() == old(self).message_count(),
            final(self).received_bytes() == old(self).received_bytes(),
            final(self).failure_count() == old(self).failure_count(),
            final(self).first_seen_at() == old(self).first_seen_at(),
    {
        self.times_connected = self.times_connected + 1;
        self.last_seen = now();
    }

    /// Registers a message of `msg_len` bytes received from the peer, which is seen now.
    pub fn got_message(&mut self, msg_len: usize)
        requires
            old(self).message_count() < usize::MAX,
            old(self).received_bytes() + msg_len <= u64::MAX,
        ensures
            final(self).message_count() == old(self).message_count() + 1,
            final(self).received_bytes() == old(self).received_bytes() + msg_len,
            final(self).connection_count() == old(self).connection_count(),
            final(self).failure_count() == old(self).failure_count(),
            final(self).first_seen_at() == old(self).first_seen_at(),
    {
        self.msg_count = self.msg_count + 1;
        self.bytes_received = self.bytes_received + msg_len as u64;
        self.last_seen = now();
    }

    /// Returns the number of times a connection with the peer has been established.
    pub fn times_connected(&self) -> (res: usize)
        ensures
            res == self.connection_count(),
    {
        self.times_connected
    }

    /// Returns the number of messages received from the peer.
    pub fn msg_count(&self) -> (res: usize)
        ensures
            res == self.message_count(),
    {
        self.msg_count
    }

    /// Returns the number of bytes received from the peer.
    pub fn bytes_received(&self) -> (res: u64)
        ensures
            res == self.received_bytes(),
    {
        self.bytes_received
    }

    /// Returns the number of failures related to the peer.
    pub fn failures(&self) -> (res: u8)
        ensures
            res == self.failure_count(),
    {
        self.failures
    }

    /// Returns the time the peer was first seen.
    pub fn first_seen(&self) -> (res: std::time::Instant)
        ensures
            res == self.first_seen_at(),
    {
        self.first_seen
    }

    /// Returns the time the peer was last seen.
    pub fn last_seen(&self) -> (res: std::time::Instant)
        ensures
            res == self.last_seen_at(),
    {
        self.last_seen
    }
}

impl Default for PeerStats {
    /// A peer seen for the first time now, over its first connection.
    fn default() -> (res: Self)
        ensures
            res.connection_count() == 1,
            res.message_count() == 0,
            res.received_bytes() == 0,
            res.failure_count() == 0,
            res.first_seen_at() == res.last_seen_at(),
    {
        let now = now();
        PeerStats {
            times_connected: 1,
            first_seen: now,
            last_seen: now,
            msg_count: 0,
            bytes_received: 0,
            failures: 0,
        }
    }
}

} // verus!
