use quic_engine::error::StreamError;
use quic_engine::send::{SendHalf, SendState, StreamData, Written};

fn frame(f: Option<StreamData>) -> (u64, Vec<u8>, bool) {
    let f = f.expect("frame");
    (f.offset, f.data, f.fin)
}

#[test]
fn a_write_takes_what_the_credit_allows() {
    let mut s = SendHalf::new(10);
    assert_eq!(s.state(), SendState::Ready);
    assert_eq!(s.write(b"hello", u64::MAX), Ok(Written::Accepted(5)));
    assert_eq!(s.state(), SendState::Send);
    assert_eq!(s.remaining(), 5);
    assert_eq!(s.write(b"world!!", u64::MAX), Ok(Written::Accepted(5)));
    assert_eq!(s.write(b"!!", u64::MAX), Ok(Written::Blocked));
    assert!(s.on_max_stream_data(12));
    assert!(!s.on_max_stream_data(11));
    assert_eq!(s.write(b"!!!", u64::MAX), Ok(Written::Accepted(2)));
    assert_eq!(s.write(b"", u64::MAX), Ok(Written::Accepted(0)));
}

#[test]
fn a_write_takes_no_more_than_the_connection_has_room_for() {
    let mut s = SendHalf::new(100);
    assert_eq!(s.write(b"hello", 3), Ok(Written::Accepted(3)));
    assert_eq!(s.write(b"lo", 0), Ok(Written::Blocked));
}

#[test]
fn only_a_half_that_is_being_written_can_be_finished() {
    let mut s = SendHalf::new(10);
    assert_eq!(s.finish(), Err(StreamError::UnknownStream));
    assert_eq!(s.write(b"a", u64::MAX), Ok(Written::Accepted(1)));
    assert_eq!(s.finish(), Ok(()));
    assert_eq!(s.state(), SendState::DataSent);
    assert_eq!(s.finish(), Err(StreamError::UnknownStream));
    assert_eq!(s.write(b"b", u64::MAX), Err(StreamError::UnknownStream));
}

#[test]
fn frames_carry_the_data_in_order() {
    let mut s = SendHalf::new(100);
    assert!(s.poll_transmit(4).is_none());
    s.write(b"hello world", u64::MAX).unwrap();
    assert_eq!(frame(s.poll_transmit(4)), (0, b"hell".to_vec(), false));
    assert!(s.poll_transmit(0).is_none());
    assert_eq!(frame(s.poll_transmit(4)), (4, b"o wo".to_vec(), false));
    s.finish().unwrap();
    assert_eq!(frame(s.poll_transmit(4)), (8, b"rld".to_vec(), true));
    assert!(s.poll_transmit(4).is_none());
}

#[test]
fn the_end_of_a_stream_travels_alone_when_the_data_has_left() {
    let mut s = SendHalf::new(100);
    s.write(b"abc", u64::MAX).unwrap();
    assert_eq!(frame(s.poll_transmit(10)), (0, b"abc".to_vec(), false));
    s.finish().unwrap();
    assert_eq!(frame(s.poll_transmit(10)), (3, vec![], true));
    assert!(s.poll_transmit(10).is_none());
}

#[test]
fn what_was_lost_goes_before_what_is_new() {
    let mut s = SendHalf::new(100);
    s.write(b"0123456789", u64::MAX).unwrap();
    assert_eq!(frame(s.poll_transmit(4)).0, 0);
    assert_eq!(frame(s.poll_transmit(4)).0, 4);
    s.on_loss(0, 4, false);
    assert_eq!(frame(s.poll_transmit(100)), (0, b"0123".to_vec(), false));
    assert_eq!(frame(s.poll_transmit(100)), (8, b"89".to_vec(), false));
    assert!(s.poll_transmit(100).is_none());
}

#[test]
fn what_was_acknowledged_meanwhile_is_not_sent_again() {
    let mut s = SendHalf::new(100);
    s.write(b"0123456789", u64::MAX).unwrap();
    assert_eq!(frame(s.poll_transmit(10)).1.len(), 10);
    s.on_ack(2, 3, false);
    s.on_loss(0, 10, false);
    assert_eq!(frame(s.poll_transmit(100)), (0, b"01".to_vec(), false));
    assert_eq!(frame(s.poll_transmit(100)), (5, b"56789".to_vec(), false));
    assert!(s.poll_transmit(100).is_none());
}

#[test]
fn the_half_is_done_when_all_and_the_end_are_acknowledged() {
    let mut s = SendHalf::new(100);
    s.write(b"abcdef", u64::MAX).unwrap();
    s.finish().unwrap();
    assert_eq!(frame(s.poll_transmit(3)), (0, b"abc".to_vec(), false));
    assert_eq!(frame(s.poll_transmit(3)), (3, b"def".to_vec(), true));
    s.on_ack(3, 3, true);
    assert_eq!(s.state(), SendState::DataSent);
    s.on_ack(0, 3, false);
    assert_eq!(s.state(), SendState::DataRecvd);
    // Late news change nothing.
    s.on_loss(0, 6, true);
    assert_eq!(s.state(), SendState::DataRecvd);
    assert!(s.poll_transmit(10).is_none());
}

#[test]
fn a_lost_end_is_sent_again() {
    let mut s = SendHalf::new(100);
    s.write(b"abc", u64::MAX).unwrap();
    s.finish().unwrap();
    assert_eq!(frame(s.poll_transmit(10)), (0, b"abc".to_vec(), true));
    s.on_ack(0, 3, false);
    s.on_loss(0, 0, true);
    assert_eq!(frame(s.poll_transmit(10)), (3, vec![], true));
    s.on_ack(3, 0, true);
    assert_eq!(s.state(), SendState::DataRecvd);
}

#[test]
fn an_acknowledgment_of_what_never_left_counts_for_nothing() {
    let mut s = SendHalf::new(100);
    s.write(b"abc", u64::MAX).unwrap();
    s.finish().unwrap();
    s.on_ack(0, 3, true);
    assert_eq!(s.state(), SendState::DataSent);
    s.on_ack(0, u64::MAX, true);
    s.on_ack(u64::MAX, u64::MAX, false);
    assert_eq!(frame(s.poll_transmit(10)), (0, b"abc".to_vec(), true));
}

#[test]
fn a_reset_is_possible_until_the_half_is_done() {
    let mut s = SendHalf::new(100);
    assert_eq!(s.reset(3), Ok(()));
    assert_eq!(s.state(), SendState::ResetSent);
    assert_eq!(s.reset(4), Err(StreamError::UnknownStream));
    assert_eq!(s.write(b"a", u64::MAX), Err(StreamError::UnknownStream));
    assert_eq!(s.poll_reset(), Some((3, 0)));
    assert_eq!(s.poll_reset(), None);
    s.on_reset_fate(false);
    assert_eq!(s.poll_reset(), Some((3, 0)));
    s.on_reset_fate(true);
    assert_eq!(s.state(), SendState::ResetRecvd);

    let mut s = SendHalf::new(100);
    s.write(b"abc", u64::MAX).unwrap();
    s.finish().unwrap();
    assert_eq!(s.reset(9), Ok(()));
    assert_eq!(s.poll_reset(), Some((9, 3)));
    assert!(s.poll_transmit(10).is_none());

    let mut s = SendHalf::new(100);
    s.write(b"abc", u64::MAX).unwrap();
    s.finish().unwrap();
    let _ = s.poll_transmit(10);
    s.on_ack(0, 3, true);
    assert_eq!(s.reset(9), Err(StreamError::UnknownStream));
}

#[test]
fn a_request_to_stop_reaches_the_writer() {
    let mut s = SendHalf::new(100);
    s.write(b"abc", u64::MAX).unwrap();
    s.on_stop_sending(42);
    assert_eq!(s.state(), SendState::ResetSent);
    assert_eq!(s.write(b"d", u64::MAX), Err(StreamError::Stopped(42)));
    assert_eq!(s.finish(), Err(StreamError::Stopped(42)));
    assert_eq!(s.poll_reset(), Some((42, 3)));
}
