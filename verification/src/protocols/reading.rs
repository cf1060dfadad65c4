//! The reading protocol's decisions: attribution of the bytes read from a connection to the
//! messages decoded from them, and when the reader of a connection goes on reading.

use vstd::prelude::*;

verus! {

/// Attributes the bytes that a decoder consumes to the messages it produces: bytes consumed by
/// calls that produce no message are carried over to the next message.
pub struct MessageAccounting {
    acc: usize,
}

impl MessageAccounting {
    /// The bytes consumed so far that belong to no produced message yet.
    pub closed spec fn spec_pending(self) -> usize {
        self.acc
    }

    /// Starts with nothing carried over.
    pub fn new() -> (res: Self)
        ensures
            res.spec_pending() == 0,
    {
        MessageAccounting { acc: 0 }
    }

    /// Returns the bytes consumed so far that belong to no produced message yet.
    pub fn pending(&self) -> (res: usize)
        ensures
            res == self.spec_pending(),
    {
        self.acc
    }

    /// Accounts for one call of a decoder that shrank its input buffer from `initial_len` to
    /// `final_len` bytes and produced a message or not. Returns the size to register for the
    /// produced message, which includes the bytes carried over; when no message was produced,
    /// the consumed bytes are carried over instead.
    pub fn on_decode(&mut self, initial_len: usize, final_len: usize, produced: bool) -> (res: Option<usize>)
        requires
            final_len <= initial_len,
            initial_len - final_len + old(self).spec_pending() <= usize::MAX,
        ensures
            ({
                let read_len = initial_len - final_len + old(self).spec_pending();
                if read_len == 0 {
                    res is None && final(self).spec_pending() == old(self).spec_pending()
                } else if produced {
                    res == Some(read_len as usize) && final(self).spec_pending() == 0
                } else {
                    res is None && final(self).spec_pending() == read_len
                }
            }),
    {
        let read_len = initial_len - final_len + self.acc;
        if read_len != 0 {
            if produced {
                self.acc = 0;
                return Some(read_len);
            } else {
                self.acc = read_len;
            }
        }
        None
    }
}

/// No byte is lost or counted twice: the bytes carried over after a decode, together with the
/// size registered for a produced message, equal the bytes carried over before plus the bytes
/// the decoder consumed.
pub proof fn law_decoded_bytes_conserved(
    before: MessageAccounting,
    after: MessageAccounting,
    initial_len: usize,
    final_len: usize,
    produced: bool,
    registered: Option<usize>,
)
    requires
        final_len <= initial_len,
        initial_len - final_len + before.spec_pending() <= usize::MAX,
        ({
            let read_len = initial_len - final_len + before.spec_pending();
            if read_len == 0 {
                registered is None && after.spec_pending() == before.spec_pending()
            } else if produced {
                registered == Some(read_len as usize) && after.spec_pending() == 0
            } else {
                registered is None && after.spec_pending() == read_len
            }
        }),
    ensures
        after.spec_pending() + (match registered {
            Some(n) => n as int,
            None => 0,
        }) == before.spec_pending() + (initial_len - final_len),
{
}

/// What an attempt to read the next frame from a connection gave.
#[derive(Clone, Copy, Debug, PartialEq, Eq, Structural)]
pub enum ReadOutcome {
    /// A whole frame was read and decoded.
    Frame,
    /// The decoder or the stream reported an error.
    DecodeError,
    /// The peer closed the stream.
    EndOfStream,
    /// No frame arrived within the idle timeout.
    IdleTimeout,
}

/// What handing a decoded frame over to the processing queue gave.
#[derive(Clone, Copy, Debug, PartialEq, Eq, Structural)]
pub enum QueueOutcome {
    /// The frame was queued.
    Queued,
    /// The queue was full and the frame was dropped (only without backpressure: with
    /// backpressure the reader waits for room instead).
    Full,
    /// The processing side is gone.
    Closed,
}

/// Decides whether the reader of a connection goes on after an attempt to read, given whether
/// it exerts backpressure, what the read gave and, for a frame, what queueing it gave. It goes
/// on only after a frame that was queued, or, without backpressure, dropped from a full queue;
/// a decode error, the end of the stream, the idle timeout or a closed queue stop it.
pub fn keep_reading(backpressure: bool, read: ReadOutcome, queued: Option<QueueOutcome>) -> (res: bool)
    ensures
        res == (read == ReadOutcome::Frame && match queued {
            Some(QueueOutcome::Queued) => true,
            Some(QueueOutcome::Full) => !backpressure,
            _ => false,
        }),
{
    match read {
        ReadOutcome::Frame => match queued {
            Some(QueueOutcome::Queued) => true,
            Some(QueueOutcome::Full) => !backpressure,
            Some(QueueOutcome::Closed) => false,
            None => false,
        },
        _ => false,
    }
}

/// The time in milliseconds that the reader waits for a frame before it gives the connection
/// up; a configured `0` means that it waits for ever.
pub fn idle_limit_ms(ms: u64) -> (res: Option<u64>)
    ensures
        res == (if ms == 0 {
            None
        } else {
            Some(ms)
        }),
{
    if ms == 0 {
        None
    } else {
        Some(ms)
    }
}

} // verus!
