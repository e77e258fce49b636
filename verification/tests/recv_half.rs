use quic_engine::recv::{FrameError, ReadOutcome, ReadToEnd, RecvHalf, RecvState};

fn data(r: ReadOutcome) -> Vec<u8> {
    match r {
        ReadOutcome::Data(v) => v,
        other => panic!("no data: {:?}", other),
    }
}

#[test]
fn frames_in_order() {
    let mut r = RecvHalf::new(100, 2);
    assert_eq!(r.state(), RecvState::Idle);
    assert!(matches!(r.read(10), ReadOutcome::Blocked));
    assert_eq!(r.on_frame(0, b"hello ", false), Ok(6));
    assert_eq!(r.state(), RecvState::Recv);
    assert_eq!(r.on_frame(6, b"world", true), Ok(5));
    assert_eq!(r.state(), RecvState::DataRecvd);
    assert_eq!(data(r.read(100)), b"hello world");
    assert_eq!(r.state(), RecvState::DataRead);
    assert!(matches!(r.read(100), ReadOutcome::Finished));
}

#[test]
fn frames_out_of_order_leave_a_gap_until_it_is_filled() {
    let mut r = RecvHalf::new(100, 2);
    assert_eq!(r.on_frame(6, b"world", true), Ok(11));
    assert_eq!(r.state(), RecvState::SizeKnown);
    assert!(matches!(r.read(100), ReadOutcome::Blocked));
    assert_eq!(r.on_frame(0, b"hel", false), Ok(0));
    assert_eq!(data(r.read(100)), b"hel");
    assert!(matches!(r.read(100), ReadOutcome::Blocked));
    assert_eq!(r.on_frame(3, b"lo ", false), Ok(0));
    assert_eq!(r.state(), RecvState::DataRecvd);
    assert_eq!(data(r.read(100)), b"lo world");
    assert!(matches!(r.read(100), ReadOutcome::Finished));
}

#[test]
fn a_repeated_or_overlapping_frame_changes_nothing() {
    let mut r = RecvHalf::new(100, 2);
    assert_eq!(r.on_frame(0, b"abcd", false), Ok(4));
    assert_eq!(r.on_frame(0, b"abcd", false), Ok(0));
    // The first copy of a byte is the one that counts.
    assert_eq!(r.on_frame(2, b"XXef", false), Ok(2));
    assert_eq!(data(r.read(100)), b"abcdef");
    assert_eq!(r.on_frame(0, b"abcdef", false), Ok(0));
    assert!(matches!(r.read(100), ReadOutcome::Blocked));
}

#[test]
fn reads_of_any_size_give_the_same_bytes() {
    let payload: Vec<u8> = (0..=255u8).cycle().take(1000).collect();
    for size in [1usize, 2, 3, 7, 64, 999, 1000, 5000] {
        let mut r = RecvHalf::new(2000, 2);
        assert_eq!(r.on_frame(500, &payload[500..], true), Ok(1000));
        assert_eq!(r.on_frame(0, &payload[..500], false), Ok(0));
        let mut got = Vec::new();
        loop {
            match r.read(size) {
                ReadOutcome::Data(v) => {
                    assert!(!v.is_empty() && v.len() <= size);
                    got.extend_from_slice(&v);
                }
                ReadOutcome::Finished => break,
                other => panic!("{:?}", other),
            }
        }
        assert_eq!(got, payload);
        assert_eq!(r.state(), RecvState::DataRead);
    }
}

#[test]
fn a_frame_beyond_the_credit_is_a_violation() {
    let mut r = RecvHalf::new(10, 2);
    assert_eq!(r.granted(), 10);
    assert_eq!(r.examine(0, 11, false), Err(FrameError::FlowControl));
    assert_eq!(r.on_frame(0, b"0123456789a", false), Err(FrameError::FlowControl));
    assert_eq!(r.on_frame(10, b"a", false), Err(FrameError::FlowControl));
    assert_eq!(r.on_frame(u64::MAX, b"a", false), Err(FrameError::FlowControl));
    assert_eq!(r.state(), RecvState::Idle);
    assert_eq!(r.on_frame(0, b"0123456789", false), Ok(10));
    assert_eq!(r.consumed(), 10);
}

#[test]
fn a_contradiction_about_the_length_is_a_violation() {
    let mut r = RecvHalf::new(100, 2);
    assert_eq!(r.on_frame(0, b"abcdef", false), Ok(6));
    // An end that lies before what has arrived.
    assert_eq!(r.on_frame(0, b"abc", true), Err(FrameError::FinalSize));
    assert_eq!(r.on_frame(6, b"gh", true), Ok(2));
    // Data beyond the end, and another end.
    assert_eq!(r.on_frame(8, b"i", false), Err(FrameError::FinalSize));
    assert_eq!(r.on_frame(0, b"abcdefg", true), Err(FrameError::FinalSize));
    assert_eq!(r.on_frame(u64::MAX, b"a", false), Err(FrameError::FinalSize));
    // The same end once more is no contradiction.
    assert_eq!(r.on_frame(6, b"gh", true), Ok(0));
}

#[test]
fn an_empty_stream() {
    let mut r = RecvHalf::new(100, 2);
    assert_eq!(r.on_frame(0, b"", true), Ok(0));
    assert_eq!(r.state(), RecvState::DataRecvd);
    assert!(matches!(r.read(10), ReadOutcome::Finished));
    assert_eq!(r.state(), RecvState::DataRead);
}

#[test]
fn reading_to_the_end() {
    let mut r = RecvHalf::new(100, 2);
    assert!(matches!(r.read_to_end(5), ReadToEnd::Pending));
    assert_eq!(r.on_frame(0, b"abc", false), Ok(3));
    assert!(matches!(r.read_to_end(5), ReadToEnd::Pending));
    // What has arrived was taken out of the window meanwhile.
    assert_eq!(r.released(), 3);
    assert_eq!(r.on_frame(3, b"defg", false), Ok(4));
    assert!(matches!(r.read_to_end(5), ReadToEnd::TooLong));
    assert_eq!(r.on_frame(7, b"", true), Ok(0));
    assert!(matches!(r.read_to_end(6), ReadToEnd::TooLong));
    match r.read_to_end(7) {
        ReadToEnd::Complete(v) => assert_eq!(v, b"abcdefg"),
        other => panic!("{:?}", other),
    }
    assert_eq!(r.state(), RecvState::DataRead);
}

#[test]
fn reading_to_the_end_after_a_partial_read() {
    let mut r = RecvHalf::new(100, 2);
    assert_eq!(r.on_frame(0, b"abcdef", true), Ok(6));
    assert_eq!(data(r.read(2)), b"ab");
    match r.read_to_end(usize::MAX) {
        ReadToEnd::Complete(v) => assert_eq!(v, b"cdef"),
        other => panic!("{:?}", other),
    }
}

#[test]
fn a_reset_reaches_the_reader() {
    let mut r = RecvHalf::new(100, 2);
    assert_eq!(r.on_frame(0, b"abc", false), Ok(3));
    assert_eq!(r.on_reset(7, 2), Err(FrameError::FinalSize));
    assert_eq!(r.on_reset(7, 101), Err(FrameError::FlowControl));
    assert_eq!(r.on_reset(7, 10), Ok(7));
    assert_eq!(r.state(), RecvState::ResetRecvd);
    assert_eq!(r.on_frame(3, b"def", false), Ok(0));
    assert!(matches!(r.read(10), ReadOutcome::Reset(7)));
    assert_eq!(r.state(), RecvState::ResetRead);
    assert!(matches!(r.read_to_end(10), ReadToEnd::Reset(7)));
    assert_eq!(r.on_reset(9, 10), Ok(0));
}

#[test]
fn the_credit_of_a_stream_is_renewed_as_it_is_read() {
    let mut r = RecvHalf::new(37, 2);
    assert_eq!(r.on_frame(0, &[1u8; 37], false), Ok(37));
    assert_eq!(r.take_update(), None);
    assert_eq!(data(r.read(100)).len(), 37);
    assert_eq!(r.take_update(), Some(74));
    assert_eq!(r.take_update(), None);
    assert_eq!(r.on_frame(37, &[2u8; 37], true), Ok(37));
    let _ = r.read(100);
    // The length is known: the peer needs no more credit.
    assert_eq!(r.take_update(), None);
}
