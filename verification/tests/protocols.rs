use pea2pea::protocols::reading::{idle_limit_ms, keep_reading, MessageAccounting, QueueOutcome, ReadOutcome};
use pea2pea::protocols::writing::{keep_writing, unicast_result, BatchMeter, UnicastError, UnicastRoute, WritingSenders};
use pea2pea::{IpAddr, SocketAddr};

fn addr(port: u16) -> SocketAddr {
    SocketAddr::new(IpAddr::V4(0x7f00_0001), port)
}

#[test]
fn decoded_message_gets_the_consumed_bytes() {
    let mut acc = MessageAccounting::new();
    assert_eq!(acc.on_decode(10, 0, true), Some(10));
}

#[test]
fn partial_reads_are_carried_over_to_the_next_message() {
    let mut acc = MessageAccounting::new();
    assert_eq!(acc.on_decode(4, 0, false), None);
    assert_eq!(acc.on_decode(6, 3, false), None);
    assert_eq!(acc.on_decode(3, 0, true), Some(10));
    assert_eq!(acc.on_decode(0, 0, false), None);
    assert_eq!(acc.on_decode(5, 5, true), None);
}

#[test]
fn batch_meter_counts_each_encoded_message() {
    let mut meter = BatchMeter::new();
    assert_eq!(meter.record_encoded(2, 10), 8);
    assert_eq!(meter.record_encoded(10, 25), 15);
    assert_eq!(meter.messages(), 2);
    assert_eq!(meter.bytes(), 23);
}

#[test]
fn batch_meter_is_not_fooled_by_a_flush() {
    // two frames of 60002 bytes; the buffer is flushed before the second one is encoded
    let mut meter = BatchMeter::new();
    assert_eq!(meter.record_encoded(0, 60002), 60002);
    assert_eq!(meter.record_encoded(0, 60002), 60002);
    assert_eq!(meter.messages(), 2);
    assert_eq!(meter.bytes(), 120004);
}

#[test]
fn writer_stops_after_a_failed_batch() {
    assert!(keep_writing(true));
    assert!(!keep_writing(false));
}

#[test]
fn reader_goes_on_after_a_queued_frame() {
    for backpressure in [true, false] {
        assert!(keep_reading(backpressure, ReadOutcome::Frame, Some(QueueOutcome::Queued)));
        assert!(!keep_reading(backpressure, ReadOutcome::Frame, Some(QueueOutcome::Closed)));
        assert!(!keep_reading(backpressure, ReadOutcome::DecodeError, None));
        assert!(!keep_reading(backpressure, ReadOutcome::EndOfStream, None));
        assert!(!keep_reading(backpressure, ReadOutcome::IdleTimeout, None));
    }
}

#[test]
fn reader_without_backpressure_drops_a_frame_and_goes_on() {
    assert!(keep_reading(false, ReadOutcome::Frame, Some(QueueOutcome::Full)));
    assert!(!keep_reading(true, ReadOutcome::Frame, Some(QueueOutcome::Full)));
}

#[test]
fn zero_idle_timeout_means_none() {
    assert_eq!(idle_limit_ms(0), None);
    assert_eq!(idle_limit_ms(60_000), Some(60_000));
}

#[test]
fn senders_are_found_by_address() {
    let mut senders = WritingSenders::new();
    senders.insert(addr(1), 0, "first");
    senders.insert(addr(2), 1, "second");
    assert_eq!(senders.get(addr(1)), Some(&"first"));
    assert_eq!(senders.get(addr(3)), None);
    let mut addrs = senders.addrs();
    addrs.sort_by_key(|a| a.port());
    assert_eq!(addrs, vec![addr(1), addr(2)]);
    assert!(senders.remove(addr(1)));
    assert!(!senders.remove(addr(1)));
    assert_eq!(senders.get(addr(1)), None);
}

#[test]
fn stale_cleanup_keeps_the_newer_sender() {
    let mut senders = WritingSenders::new();
    senders.insert(addr(1), 0, "old");
    senders.insert(addr(1), 1, "new");
    assert!(!senders.remove_if_current(addr(1), 0));
    assert_eq!(senders.get(addr(1)), Some(&"new"));
    assert!(senders.remove_if_current(addr(1), 1));
    assert_eq!(senders.get(addr(1)), None);
}

#[test]
fn unicast_errors_name_where_the_message_stopped() {
    assert_eq!(unicast_result(UnicastRoute::WritingDisabled), Err(UnicastError::Unsupported));
    assert_eq!(unicast_result(UnicastRoute::NoSender), Err(UnicastError::NotConnected));
    assert_eq!(unicast_result(UnicastRoute::Offered(QueueOutcome::Queued)), Ok(()));
    assert_eq!(unicast_result(UnicastRoute::Offered(QueueOutcome::Full)), Err(UnicastError::QuotaExceeded));
    assert_eq!(unicast_result(UnicastRoute::Offered(QueueOutcome::Closed)), Err(UnicastError::BrokenPipe));
}
