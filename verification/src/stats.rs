//! Statistics about the traffic of a node or of a connection.

use vstd::prelude::*;

verus! {

/// A point in time, as read from the monotonic clock.
#[verifier::external_type_specification]
#[verifier::external_body]
pub struct ExInstant(std::time::Instant);

/// Reads the monotonic clock with `std::time::Instant::now`. Nothing is claimed of the instant
/// it returns.
#[verifier::external_body]
pub(crate) fn now() -> (res: std::time::Instant) {
    std::time::Instant::now()
}

/// `a + b`, wrapping around at the bounds of a `u64`.
pub open spec fn wrapping_sum(a: u64, b: u64) -> u64 {
    vstd::wrapping::u64_specs::wrapping_add(a, b)
}

/// Contains basic statistics related to a node or a connection. The counters wrap around when
/// they exceed the range of a `u64`.
pub struct Stats {
    created: std::time::Instant,
    msgs_sent: u64,
    msgs_received: u64,
    bytes_sent: u64,
    bytes_received: u64,
}

impl Stats {
    /// The number of sent messages and their collective size in bytes.
    pub closed spec fn sent_totals(self) -> (u64, u64) {
        (self.msgs_sent, self.bytes_sent)
    }

    /// The number of received messages and their collective size in bytes.
    pub closed spec fn received_totals(self) -> (u64, u64) {
        (self.msgs_received, self.bytes_received)
    }

    /// The creation time.
    pub closed spec fn creation_time(self) -> std::time::Instant {
        self.created
    }

    /// Registers a sent message of the provided `size` in bytes.
    pub fn register_sent_message(&mut self, size: usize)
        ensures
            final(self).sent_totals() == (
                wrapping_sum(old(self).sent_totals().0, 1),
                wrapping_sum(old(self).sent_totals().1, size as u64),
            ),
            final(self).received_totals() == old(self).received_totals(),
            final(self).creation_time() == old(self).creation_time(),
    {
        self.msgs_sent = self.msgs_sent.wrapping_add(1);
        self.bytes_sent = self.bytes_sent.wrapping_add(size as u64);
    }

    /// Registers a received message of the provided `size` in bytes.
    pub fn register_received_message(&mut self, size: usize)
        ensures
            final(self).received_totals() == (
                wrapping_sum(old(self).received_totals().0, 1),
                wrapping_sum(old(self).received_totals().1, size as u64),
            ),
            final(self).sent_totals() == old(self).sent_totals(),
            final(self).creation_time() == old(self).creation_time(),
    {
        self.msgs_received = self.msgs_received.wrapping_add(1);
        self.bytes_received = self.bytes_received.wrapping_add(size as u64);
    }

    /// Returns the creation time.
    pub fn created(&self) -> (res: std::time::Instant)
        ensures
            res == self.creation_time(),
    {
        self.created
    }

    /// Returns the number of sent messages and their collective size in bytes.
    pub fn sent(&self) -> (res: (u64, u64))
        ensures
            res == self.sent_totals(),
    {
        (self.msgs_sent, self.bytes_sent)
    }

    /// Returns the number of received messages and their collective size in bytes.
    pub fn received(&self) -> (res: (u64, u64))
        ensures
            res == self.received_totals(),
    {
        (self.msgs_received, self.bytes_received)
    }
}

impl Default for Stats {
    /// Creates statistics with all counters at zero, created now.
    fn default() -> (res: Self)
        ensures
            res.sent_totals() == (0u64, 0u64),
            res.received_totals() == (0u64, 0u64),
    {
        Stats { created: now(), msgs_sent: 0, msgs_received: 0, bytes_sent: 0, bytes_received: 0 }
    }
}

} // verus!

verus! {

/// A message registered in a set of statistics, with its size in bytes.
#[derive(Clone, Copy, Debug, PartialEq, Eq, Structural)]
pub enum Traffic {
    /// A message sent, registered with [`Stats::register_sent_message`].
    Sent(usize),
    /// A message received, registered with [`Stats::register_received_message`].
    Received(usize),
}

/// The number of messages sent, their size in bytes, the number of messages received and their
/// size in bytes, over the given registrations.
pub open spec fn traffic_tally(events: Seq<Traffic>) -> (nat, nat, nat, nat)
    decreases events.len(),
{
    if events.len() == 0 {
        (0, 0, 0, 0)
    } else {
        let t = traffic_tally(events.drop_last());
        match events.last() {
            Traffic::Sent(size) => ((t.0 + 1) as nat, (t.1 + size) as nat, t.2, t.3),
            Traffic::Received(size) => (t.0, t.1, (t.2 + 1) as nat, (t.3 + size) as nat),
        }
    }
}

/// `post` is `pre` after the registration `event`, as the contracts of
/// [`Stats::register_sent_message`] and [`Stats::register_received_message`] state it.
pub open spec fn traffic_step(pre: Stats, post: Stats, event: Traffic) -> bool {
    &&& post.creation_time() == pre.creation_time()
    &&& match event {
        Traffic::Sent(size) => {
            &&& post.sent_totals() == (
                wrapping_sum(pre.sent_totals().0, 1),
                wrapping_sum(pre.sent_totals().1, size as u64),
            )
            &&& post.received_totals() == pre.received_totals()
        },
        Traffic::Received(size) => {
            &&& post.received_totals() == (
                wrapping_sum(pre.received_totals().0, 1),
                wrapping_sum(pre.received_totals().1, size as u64),
            )
            &&& post.sent_totals() == pre.sent_totals()
        },
    }
}

/// `states` is a run of statistics through the registrations `events`, one after the other.
pub open spec fn traffic_run(states: Seq<Stats>, events: Seq<Traffic>) -> bool {
    &&& states.len() == events.len() + 1
    &&& forall|i: int| 0 <= i < events.len() ==> traffic_step(states[i], states[i + 1], #[trigger] events[i])
}

/// `n` as a counter that wraps around at the bounds of a `u64` shows it.
pub open spec fn wrapped(n: nat) -> u64 {
    (n % 0x1_0000_0000_0000_0000) as u64
}

/// Adding `y` to a wrapped count is wrapping the sum.
pub proof fn lemma_wrapped_sum(a: nat, y: u64)
    ensures
        wrapping_sum(wrapped(a), y) == wrapped((a + y) as nat),
{
    let m: int = 0x1_0000_0000_0000_0000;
    let x: int = a as int % m;
    vstd::arithmetic::div_mod::lemma_mod_bound(a as int, m);
    vstd::arithmetic::div_mod::lemma_add_mod_noop(a as int, y as int, m);
    vstd::arithmetic::div_mod::lemma_small_mod(y as nat, m as nat);
    vstd::arithmetic::div_mod::lemma_mod_bound(a + y, m);
    if x + y < m {
        vstd::arithmetic::div_mod::lemma_small_mod((x + y) as nat, m as nat);
    } else {
        vstd::arithmetic::div_mod::lemma_mod_sub_multiples_vanish(x + y, m);
        vstd::arithmetic::div_mod::lemma_small_mod((x + y - m) as nat, m as nat);
    }
}

proof fn lemma_traffic_run_prefix(states: Seq<Stats>, events: Seq<Traffic>, n: int)
    requires
        traffic_run(states, events),
        states[0].sent_totals() == (0u64, 0u64),
        states[0].received_totals() == (0u64, 0u64),
        0 <= n <= events.len(),
    ensures
        ({
            let t = traffic_tally(events.take(n));
            &&& states[n].sent_totals() == (wrapped(t.0), wrapped(t.1))
            &&& states[n].received_totals() == (wrapped(t.2), wrapped(t.3))
        }),
    decreases n,
{
    if n == 0 {
        assert(events.take(0) =~= Seq::<Traffic>::empty());
    } else {
        let t = traffic_tally(events.take(n - 1));
        lemma_traffic_run_prefix(states, events, n - 1);
        assert(events.take(n).drop_last() =~= events.take(n - 1));
        assert(events.take(n).last() == events[n - 1]);
        assert(traffic_step(states[n - 1], states[n], events[n - 1]));
        match events[n - 1] {
            Traffic::Sent(size) => {
                lemma_wrapped_sum(t.0, 1);
                lemma_wrapped_sum(t.1, size as u64);
            },
            Traffic::Received(size) => {
                lemma_wrapped_sum(t.2, 1);
                lemma_wrapped_sum(t.3, size as u64);
            },
        }
    }
}

/// Starting from all counters at zero, the statistics report the number of messages registered
/// on each side and their cumulative size, whatever the order of the registrations: exactly,
/// for each total that fits in a `u64`, and wrapped around its bounds otherwise.
pub proof fn law_stats_totals_accumulate(states: Seq<Stats>, events: Seq<Traffic>)
    requires
        traffic_run(states, events),
        states[0].sent_totals() == (0u64, 0u64),
        states[0].received_totals() == (0u64, 0u64),
    ensures
        ({
            let t = traffic_tally(events);
            &&& states.last().sent_totals() == (wrapped(t.0), wrapped(t.1))
            &&& states.last().received_totals() == (wrapped(t.2), wrapped(t.3))
            &&& t.0 <= u64::MAX ==> states.last().sent_totals().0 == t.0
            &&& t.1 <= u64::MAX ==> states.last().sent_totals().1 == t.1
            &&& t.2 <= u64::MAX ==> states.last().received_totals().0 == t.2
            &&& t.3 <= u64::MAX ==> states.last().received_totals().1 == t.3
        }),
{
    let t = traffic_tally(events);
    lemma_traffic_run_prefix(states, events, events.len() as int);
    assert(events.take(events.len() as int) =~= events);
    let m: nat = 0x1_0000_0000_0000_0000;
    if t.0 <= u64::MAX {
        vstd::arithmetic::div_mod::lemma_small_mod(t.0, m);
    }
    if t.1 <= u64::MAX {
        vstd::arithmetic::div_mod::lemma_small_mod(t.1, m);
    }
    if t.2 <= u64::MAX {
        vstd::arithmetic::div_mod::lemma_small_mod(t.2, m);
    }
    if t.3 <= u64::MAX {
        vstd::arithmetic::div_mod::lemma_small_mod(t.3, m);
    }
}

/// The creation time of a set of statistics never changes, whatever is registered in it.
pub proof fn law_stats_creation_time_fixed(states: Seq<Stats>, events: Seq<Traffic>, n: int)
    requires
        traffic_run(states, events),
        0 <= n < states.len(),
    ensures
        states[n].creation_time() == states[0].creation_time(),
    decreases n,
{
    if n > 0 {
        law_stats_creation_time_fixed(states, events, n - 1);
        assert(traffic_step(states[n - 1], states[n], events[n - 1]));
    }
}

} // verus!
