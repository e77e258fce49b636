use quic_engine::flow::{credit_cap, Exceeded, FlowControlWindow, ReceiveCredit};
use quic_engine::stream_id::MAX_VARINT;

#[test]
fn a_window_admits_what_fits_and_nothing_more() {
    let mut w = FlowControlWindow::new(100);
    assert_eq!((w.consumed(), w.granted(), w.remaining()), (0, 100, 100));
    assert_eq!(w.consume(60), Ok(()));
    assert_eq!(w.consume(41), Err(Exceeded));
    assert_eq!((w.consumed(), w.remaining()), (60, 40));
    assert_eq!(w.consume(40), Ok(()));
    assert_eq!(w.remaining(), 0);
    assert_eq!(w.consume(1), Err(Exceeded));
    assert_eq!(w.consume(0), Ok(()));
}

#[test]
fn the_allowance_never_shrinks() {
    let mut w = FlowControlWindow::new(100);
    assert!(w.raise(150));
    assert_eq!(w.granted(), 150);
    assert!(!w.raise(120));
    assert_eq!(w.granted(), 150);
    assert!(!w.raise(150));
    assert!(!w.raise(u64::MAX));
    assert_eq!(w.granted(), 150);
}

#[test]
fn the_allowance_is_cut_down_to_the_limit() {
    assert!(credit_cap() <= MAX_VARINT);
    let w = FlowControlWindow::new(u64::MAX);
    assert_eq!(w.granted(), credit_cap());
}

#[test]
fn an_update_is_due_when_little_is_left() {
    let mut c = ReceiveCredit::new(100, 2);
    assert_eq!(c.granted(), 100);
    assert_eq!(c.take_update(), None);
    assert_eq!(c.receive(60), Ok(()));
    c.release(60);
    // 40 are left, which is under half of the window.
    assert_eq!(c.take_update(), Some(160));
    assert_eq!(c.granted(), 160);
    assert_eq!(c.take_update(), None);
}

#[test]
fn no_update_while_enough_is_left_or_nothing_was_read() {
    let mut c = ReceiveCredit::new(100, 2);
    assert_eq!(c.receive(50), Ok(()));
    c.release(50);
    // Exactly half is left: not under the threshold.
    assert_eq!(c.take_update(), None);
    let mut c = ReceiveCredit::new(100, 2);
    assert_eq!(c.receive(100), Ok(()));
    // Nothing was read: there is nothing more to grant.
    assert_eq!(c.take_update(), None);
    c.release(1);
    assert_eq!(c.take_update(), Some(101));
}

#[test]
fn a_window_of_37_bytes_keeps_moving() {
    let mut c = ReceiveCredit::new(37, 2);
    let mut granted = 37;
    for round in 1..100u64 {
        assert_eq!(c.receive(37), Ok(()));
        assert_eq!(c.receive(1), Err(Exceeded));
        c.release(37);
        let next = c.take_update().expect("update");
        assert!(next > granted);
        assert_eq!(next, 37 * (round + 1));
        granted = next;
    }
}

#[test]
fn a_tiny_window_is_renewed_when_it_is_used_up() {
    // With a window of one byte the threshold is zero.
    let mut c = ReceiveCredit::new(1, 2);
    assert_eq!(c.receive(1), Ok(()));
    assert!(c.release_checked(1));
    assert_eq!(c.take_update(), Some(2));
}

#[test]
fn a_release_beyond_what_arrived_is_refused() {
    let mut c = ReceiveCredit::new(10, 1);
    assert_eq!(c.receive(4), Ok(()));
    assert!(!c.release_checked(5));
    assert_eq!(c.released(), 0);
    assert!(c.release_checked(4));
    assert_eq!(c.released(), 4);
    assert_eq!(c.consumed(), 4);
}

#[test]
fn a_divisor_of_zero_counts_as_one() {
    let mut c = ReceiveCredit::new(10, 0);
    assert_eq!(c.receive(5), Ok(()));
    c.release(5);
    // Five are left, the threshold is the whole window.
    assert_eq!(c.take_update(), Some(15));
}
