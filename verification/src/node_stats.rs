//! Statistics about a node as a whole.

use vstd::prelude::*;

use crate::stats::{lemma_wrapped_sum, wrapped, wrapping_sum};

verus! {

/// Contains statistics related to the node. The counters wrap around when they exceed the range
/// of a `u64`.
pub struct NodeStats {
    connections: u64,
    msgs_sent: u64,
    msgs_received: u64,
    bytes_sent: u64,
    bytes_received: u64,
}

impl NodeStats {
    /// The number of connections the node has established during its lifetime.
    pub closed spec fn connection_total(self) -> u64 {
        self.connections
    }

    /// The number of sent messages and their collective size in bytes.
    pub closed spec fn sent_totals(self) -> (u64, u64) {
        (self.msgs_sent, self.bytes_sent)
    }

    /// The number of received messages and their collective size in bytes.
    pub closed spec fn received_totals(self) -> (u64, u64) {
        (self.msgs_received, self.bytes_received)
    }

    /// Registers an established connection.
    pub fn register_connection(&mut self)
        ensures
            final(self).connection_total() == wrapping_sum(old(self).connection_total(), 1),
            final(self).sent_totals() == old(self).sent_totals(),
            final(self).received_totals() == old(self).received_totals(),
    {
        self.connections = self.connections.wrapping_add(1);
    }

    /// Registers a sent message of the provided `size` in bytes.
    pub fn register_sent_message(&mut self, size: usize)
        ensures
            final(self).sent_totals() == (
                wrapping_sum(old(self).sent_totals().0, 1),
                wrapping_sum(old(self).sent_totals().1, size as u64),
            ),
            final(self).received_totals() == old(self).received_totals(),
            final(self).connection_total() == old(self).connection_total(),
    {
        self.msgs_sent = self.msgs_sent.wrapping_add(1);
        self.bytes_sent = self.bytes_sent.wrapping_add(size as u64);
    }

    /// Registers a received message of the provided `size` in bytes.
    pub fn register_received_message(&mut self, size: usize)
        ensures
            final(self).received_totals() == (
                wrapping_sum(old(self).received_totals().0, 1),
                wrapping_sum(old(self).received_totals().1, size as u64),
            ),
            final(self).sent_totals() == old(self).sent_totals(),
            final(self).connection_total() == old(self).connection_total(),
    {
        self.msgs_received = self.msgs_received.wrapping_add(1);
        self.bytes_received = self.bytes_received.wrapping_add(size as u64);
    }

    /// Returns the number of connections the node has established during its lifetime.
    pub fn connections(&self) -> (res: u64)
        ensures
            res == self.connection_total(),
    {
        self.connections
    }

    /// Returns the number of sent messages and their collective size in bytes.
    pub fn sent(&self) -> (res: (u64, u64))
        ensures
            res == self.sent_totals(),
    {
        (self.msgs_sent, self.bytes_sent)
    }

    /// Returns the number of received messages and their collective size in bytes.
    pub fn received(&self) -> (res: (u64, u64))
        ensures
            res == self.received_totals(),
    {
        (self.msgs_received, self.bytes_received)
    }
}

impl Default for NodeStats {
    /// Creates statistics with all counters at zero.
    fn default() -> (res: Self)
        ensures
            res.connection_total() == 0,
            res.sent_totals() == (0u64, 0u64),
            res.received_totals() == (0u64, 0u64),
    {
        NodeStats { connections: 0, msgs_sent: 0, msgs_received: 0, bytes_sent: 0, bytes_received: 0 }
    }
}

} // verus!

verus! {

/// A registration made in the node's statistics.
#[derive(Clone, Copy, Debug, PartialEq, Eq, Structural)]
pub enum NodeEvent {
    /// An established connection, registered with [`NodeStats::register_connection`].
    Connected,
    /// A message sent, with its size in bytes, registered with
    /// [`NodeStats::register_sent_message`].
    Sent(usize),
    /// A message received, with its size in bytes, registered with
    /// [`NodeStats::register_received_message`].
    Received(usize),
}

/// The number of connections, of messages sent and their size in bytes, and of messages
/// received and their size in bytes, over the given registrations.
pub open spec fn node_tally(events: Seq<NodeEvent>) -> (nat, nat, nat, nat, nat)
    decreases events.len(),
{
    if events.len() == 0 {
        (0, 0, 0, 0, 0)
    } else {
        let t = node_tally(events.drop_last());
        match events.last() {
            NodeEvent::Connected => ((t.0 + 1) as nat, t.1, t.2, t.3, t.4),
            NodeEvent::Sent(size) => (t.0, (t.1 + 1) as nat, (t.2 + size) as nat, t.3, t.4),
            NodeEvent::Received(size) => (t.0, t.1, t.2, (t.3 + 1) as nat, (t.4 + size) as nat),
        }
    }
}

/// `post` is `pre` after the registration `event`, as the contracts of the `register_*`
/// methods of [`NodeStats`] state it.
pub open spec fn node_step(pre: NodeStats, post: NodeStats, event: NodeEvent) -> bool {
    match event {
        NodeEvent::Connected => {
            &&& post.connection_total() == wrapping_sum(pre.connection_total(), 1)
            &&& post.sent_totals() == pre.sent_totals()
            &&& post.received_totals() == pre.received_totals()
        },
        NodeEvent::Sent(size) => {
            &&& post.sent_totals() == (
                wrapping_sum(pre.sent_totals().0, 1),
                wrapping_sum(pre.sent_totals().1, size as u64),
            )
            &&& post.received_totals() == pre.received_totals()
            &&& post.connection_total() == pre.connection_total()
        },
        NodeEvent::Received(size) => {
            &&& post.received_totals() == (
                wrapping_sum(pre.received_totals().0, 1),
                wrapping_sum(pre.received_totals().1, size as u64),
            )
            &&& post.sent_totals() == pre.sent_totals()
            &&& post.connection_total() == pre.connection_total()
        },
    }
}

/// `states` is a run of the node's statistics through the registrations `events`, one after
/// the other.
pub open spec fn node_run(states: Seq<NodeStats>, events: Seq<NodeEvent>) -> bool {
    &&& states.len() == events.len() + 1
    &&& forall|i: int| 0 <= i < events.len() ==> node_step(states[i], states[i + 1], #[trigger] events[i])
}

proof fn lemma_node_run_prefix(states: Seq<NodeStats>, events: Seq<NodeEvent>, n: int)
    requires
        node_run(states, events),
        states[0].connection_total() == 0,
        states[0].sent_totals() == (0u64, 0u64),
        states[0].received_totals() == (0u64, 0u64),
        0 <= n <= events.len(),
    ensures
        ({
            let t = node_tally(events.take(n));
            &&& states[n].connection_total() == wrapped(t.0)
            &&& states[n].sent_totals() == (wrapped(t.1), wrapped(t.2))
            &&& states[n].received_totals() == (wrapped(t.3), wrapped(t.4))
        }),
    decreases n,
{
    if n == 0 {
        assert(events.take(0) =~= Seq::<NodeEvent>::empty());
    } else {
        let t = node_tally(events.take(n - 1));
        lemma_node_run_prefix(states, events, n - 1);
        assert(events.take(n).drop_last() =~= events.take(n - 1));
        assert(events.take(n).last() == events[n - 1]);
        assert(node_step(states[n - 1], states[n], events[n - 1]));
        match events[n - 1] {
            NodeEvent::Connected => {
                lemma_wrapped_sum(t.0, 1);
            },
            NodeEvent::Sent(size) => {
                lemma_wrapped_sum(t.1, 1);
                lemma_wrapped_sum(t.2, size as u64);
            },
            NodeEvent::Received(size) => {
                lemma_wrapped_sum(t.3, 1);
                lemma_wrapped_sum(t.4, size as u64);
            },
        }
    }
}

/// Starting from all counters at zero, the node's statistics report the number of connections
/// registered, and the number of messages registered on each side with their cumulative size,
/// whatever the order of the registrations: exactly, for each total that fits in a `u64`, and
/// wrapped around its bounds otherwise.
pub proof fn law_node_totals_accumulate(states: Seq<NodeStats>, events: Seq<NodeEvent>)
    requires
        node_run(states, events),
        states[0].connection_total() == 0,
        states[0].sent_totals() == (0u64, 0u64),
        states[0].received_totals() == (0u64, 0u64),
    ensures
        ({
            let t = node_tally(events);
            &&& states.last().connection_total() == wrapped(t.0)
            &&& states.last().sent_totals() == (wrapped(t.1), wrapped(t.2))
            &&& states.last().received_totals() == (wrapped(t.3), wrapped(t.4))
            &&& t.0 <= u64::MAX ==> states.last().connection_total() == t.0
            &&& t.1 <= u64::MAX ==> states.last().sent_totals().0 == t.1
            &&& t.2 <= u64::MAX ==> states.last().sent_totals().1 == t.2
            &&& t.3 <= u64::MAX ==> states.last().received_totals().0 == t.3
            &&& t.4 <= u64::MAX ==> states.last().received_totals().1 == t.4
        }),
{
    let t = node_tally(events);
    lemma_node_run_prefix(states, events, events.len() as int);
    assert(events.take(events.len() as int) =~= events);
    let m: nat = 0x1_0000_0000_0000_0000;
    if t.0 <= u64::MAX {
        vstd::arithmetic::div_mod::lemma_small_mod(t.0, m);
    }
    if t.1 <= u64::MAX {
        vstd::arithmetic::div_mod::lemma_small_mod(t.1, m);
    }
    if t.2 <= u64::MAX {
        vstd::arithmetic::div_mod::lemma_small_mod(t.2, m);
    }
    if t.3 <= u64::MAX {
        vstd::arithmetic::div_mod::lemma_small_mod(t.3, m);
    }
    if t.4 <= u64::MAX {
        vstd::arithmetic::div_mod::lemma_small_mod(t.4, m);
    }
}

} // verus!
