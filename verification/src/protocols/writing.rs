//! The bookkeeping of the writing protocol: the message senders of the connections, the count
//! and encoded size of the messages of a batch, and when the writer goes on.

use vstd::prelude::*;

use crate::addr::SocketAddr;
use crate::addr_map::AddrMap;
use crate::protocols::reading::QueueOutcome;

verus! {

/// Counts the messages of a batch and their cumulative encoded size in bytes. Each message is
/// measured by how much its encoding grows the write buffer, with the buffer's length read just
/// before the encoding, after any flush that made room for it, so that flushes never hide
/// bytes from the count.
pub struct BatchMeter {
    messages: usize,
    bytes: usize,
}

impl BatchMeter {
    /// The messages measured so far.
    pub closed spec fn spec_messages(self) -> usize {
        self.messages
    }

    /// The cumulative encoded size of the messages measured so far.
    pub closed spec fn spec_bytes(self) -> usize {
        self.bytes
    }

    /// Starts a batch with no message measured.
    pub fn new() -> (res: Self)
        ensures
            res.spec_messages() == 0,
            res.spec_bytes() == 0,
    {
        BatchMeter { messages: 0, bytes: 0 }
    }

    /// Records a message whose encoding took the write buffer from `before` to `after` bytes;
    /// returns the message's encoded size.
    pub fn record_encoded(&mut self, before: usize, after: usize) -> (size: usize)
        requires
            before <= after,
            old(self).spec_messages() < usize::MAX,
            old(self).spec_bytes() + (after - before) <= usize::MAX,
        ensures
            size == after - before,
            final(self).spec_messages() == old(self).spec_messages() + 1,
            final(self).spec_bytes() == old(self).spec_bytes() + (after - before),
    {
        let size = after - before;
        self.messages = self.messages + 1;
        self.bytes = self.bytes + size;
        size
    }

    /// Returns the number of messages measured so far.
    pub fn messages(&self) -> (res: usize)
        ensures
            res == self.spec_messages(),
    {
        self.messages
    }

    /// Returns the cumulative encoded size of the messages measured so far.
    pub fn bytes(&self) -> (res: usize)
        ensures
            res == self.spec_bytes(),
    {
        self.bytes
    }
}

/// The cumulative encoded size of messages whose encodings took the write buffer from the first
/// to the second length of each pair.
pub open spec fn encoded_total(encodings: Seq<(usize, usize)>) -> int
    decreases encodings.len(),
{
    if encodings.len() == 0 {
        0
    } else {
        encoded_total(encodings.drop_last()) + (encodings.last().1 - encodings.last().0)
    }
}

/// A batch meter that starts empty and records the encodings of a batch's messages one after
/// the other ends with the number of messages and their cumulative encoded size, whatever
/// flushes happened between the encodings.
pub proof fn law_batch_counts_every_message(meters: Seq<BatchMeter>, encodings: Seq<(usize, usize)>, n: int)
    requires
        meters.len() == encodings.len() + 1,
        meters[0].spec_messages() == 0,
        meters[0].spec_bytes() == 0,
        forall|i: int|
            0 <= i < encodings.len() ==> {
                let e = #[trigger] encodings[i];
                &&& e.0 <= e.1
                &&& meters[i + 1].spec_messages() == meters[i].spec_messages() + 1
                &&& meters[i + 1].spec_bytes() == meters[i].spec_bytes() + (e.1 - e.0)
            },
        0 <= n <= encodings.len(),
    ensures
        meters[n].spec_messages() == n,
        meters[n].spec_bytes() == encoded_total(encodings.take(n)),
    decreases n,
{
    if n == 0 {
        assert(encodings.take(0) =~= Seq::<(usize, usize)>::empty());
    } else {
        law_batch_counts_every_message(meters, encodings, n - 1);
        assert(encodings.take(n).drop_last() =~= encodings.take(n - 1));
        let e = encodings[n - 1];
        assert(encodings.take(n).last() == e);
    }
}

/// Decides whether the writer of a connection goes on after writing a batch: it stops for good
/// once a batch could not be written, after failing every delivery of that batch.
pub fn keep_writing(batch_written: bool) -> (res: bool)
    ensures
        res == batch_written,
{
    batch_written
}

/// How far an attempt to hand a message to one connection's writer got.
#[derive(Clone, Copy, Debug, PartialEq, Eq, Structural)]
pub enum UnicastRoute {
    /// The writing protocol is not enabled.
    WritingDisabled,
    /// No writer is registered for the address.
    NoSender,
    /// The message was offered to the connection's queue, with this outcome.
    Offered(QueueOutcome),
}

/// Why a message could not be handed to a connection's writer.
#[derive(Clone, Copy, Debug, PartialEq, Eq, Structural)]
pub enum UnicastError {
    /// The writing protocol is not enabled.
    Unsupported,
    /// The node is not connected to the address.
    NotConnected,
    /// The connection's outbound queue is full.
    QuotaExceeded,
    /// The connection's writer is gone.
    BrokenPipe,
}

/// The result of a unicast that got as far as `route`: success once the message is queued,
/// otherwise the error that names where it stopped.
pub fn unicast_result(route: UnicastRoute) -> (res: Result<(), UnicastError>)
    ensures
        res == match route {
            UnicastRoute::WritingDisabled => Err(UnicastError::Unsupported),
            UnicastRoute::NoSender => Err(UnicastError::NotConnected),
            UnicastRoute::Offered(QueueOutcome::Queued) => Ok(()),
            UnicastRoute::Offered(QueueOutcome::Full) => Err(UnicastError::QuotaExceeded),
            UnicastRoute::Offered(QueueOutcome::Closed) => Err(UnicastError::BrokenPipe),
        },
{
    match route {
        UnicastRoute::WritingDisabled => Err(UnicastError::Unsupported),
        UnicastRoute::NoSender => Err(UnicastError::NotConnected),
        UnicastRoute::Offered(QueueOutcome::Queued) => Ok(()),
        UnicastRoute::Offered(QueueOutcome::Full) => Err(UnicastError::QuotaExceeded),
        UnicastRoute::Offered(QueueOutcome::Closed) => Err(UnicastError::BrokenPipe),
    }
}

/// The message senders of the connections that the writing protocol serves, each filed under
/// the connection's address together with a number that identifies the connection.
pub struct WritingSenders<T> {
    senders: AddrMap<SocketAddr, (u64, T)>,
}

impl<T> WritingSenders<T> {
    /// The registered senders with their identifiers.
    pub closed spec fn entries(self) -> Map<SocketAddr, (u64, T)> {
        self.senders.entries()
    }

    /// Creates an empty registry.
    pub fn new() -> (res: Self)
        ensures
            res.entries() == Map::<SocketAddr, (u64, T)>::empty(),
    {
        WritingSenders { senders: AddrMap::new() }
    }

    /// Registers the sender of the connection with `addr`, identified by `id`, replacing any
    /// sender registered for that address before.
    pub fn insert(&mut self, addr: SocketAddr, id: u64, sender: T)
        ensures
            final(self).entries() == old(self).entries().insert(addr, (id, sender)),
    {
        let _ = self.senders.insert(addr, (id, sender));
    }

    /// Returns the sender registered for `addr`, if any.
    pub fn get(&self, addr: SocketAddr) -> (res: Option<&T>)
        ensures
            match res {
                Some(sender) => self.entries().contains_key(addr) && *sender == self.entries()[addr].1,
                None => !self.entries().contains_key(addr),
            },
    {
        match self.senders.get(&addr) {
            Some(entry) => Some(&entry.1),
            None => None,
        }
    }

    /// Removes the sender registered for `addr`, whichever connection it belongs to; returns
    /// `true` if there was one.
    pub fn remove(&mut self, addr: SocketAddr) -> (res: bool)
        ensures
            res == old(self).entries().contains_key(addr),
            final(self).entries() == old(self).entries().remove(addr),
    {
        self.senders.remove(&addr).is_some()
    }

    /// Removes the sender registered for `addr` only if it still belongs to the connection
    /// identified by `id`: a newer connection that reused the address keeps its sender.
    /// Returns `true` if a sender was removed.
    pub fn remove_if_current(&mut self, addr: SocketAddr, id: u64) -> (res: bool)
        ensures
            res == (old(self).entries().contains_key(addr) && old(self).entries()[addr].0 == id),
            final(self).entries() == if res {
                old(self).entries().remove(addr)
            } else {
                old(self).entries()
            },
    {
        let current = match self.senders.get(&addr) {
            Some(entry) => entry.0 == id,
            None => false,
        };
        if current {
            let _ = self.senders.remove(&addr);
        }
        current
    }

    /// Returns the addresses that have a registered sender, each once.
    pub fn addrs(&self) -> (res: Vec<SocketAddr>)
        ensures
            res@.no_duplicates(),
            res@.to_set() == self.entries().dom(),
    {
        self.senders.keys()
    }
}

/// The cleanup of a connection's sender never removes the sender of a newer connection with
/// the same address: once another connection registered its sender, a cleanup carrying the
/// identifier of the old one leaves the registry as it is.
pub proof fn law_stale_cleanup_keeps_newer_sender<T>(
    s0: WritingSenders<T>,
    s1: WritingSenders<T>,
    s2: WritingSenders<T>,
    addr: SocketAddr,
    old_id: u64,
    new_id: u64,
    sender: T,
    removed: bool,
)
    requires
        old_id != new_id,
        s1.entries() == s0.entries().insert(addr, (new_id, sender)),
        removed == (s1.entries().contains_key(addr) && s1.entries()[addr].0 == old_id),
        s2.entries() == if removed {
            s1.entries().remove(addr)
        } else {
            s1.entries()
        },
    ensures
        !removed,
        s2.entries() == s1.entries(),
        s2.entries()[addr] == (new_id, sender),
{
}

} // verus!
