use quic_engine::congestion::{Controller, NewReno, MAX_WINDOW};
use quic_engine::frame::AckRange;
use quic_engine::recovery::{Backoff, Ledger, Level, SentFrame};
use quic_engine::rtt::{RttEstimator, GRANULARITY, MAX_RTT};
use quic_engine::send::Fate;

#[test]
fn the_first_sample_replaces_what_was_assumed() {
    let mut e = RttEstimator::new(333_000);
    assert_eq!((e.smoothed, e.var, e.sampled), (333_000, 166_500, false));
    assert_eq!(e.pto(25_000), 333_000 + 4 * 166_500 + 25_000);
    e.update(100_000, 5_000);
    assert_eq!((e.latest, e.smoothed, e.var, e.min), (100_000, 100_000, 50_000, 100_000));
    assert!(e.sampled);
}

#[test]
fn a_later_sample_moves_the_mean_by_an_eighth() {
    let mut e = RttEstimator::new(0);
    e.update(100_000, 0);
    e.update(180_000, 20_000);
    // The delay of the peer is taken off: the sample counts as 160 000.
    assert_eq!(e.latest, 180_000);
    assert_eq!(e.min, 100_000);
    assert_eq!(e.smoothed, (7 * 100_000 + 160_000) / 8);
    assert_eq!(e.var, (3 * 50_000 + 60_000) / 4);
    // A delay that would lead under the shortest sample is not taken off.
    e.update(110_000, 50_000);
    assert_eq!(e.smoothed, (7 * 107_500 + 110_000) / 8);
    e.update(90_000, 0);
    assert_eq!(e.min, 90_000);
}

#[test]
fn times_are_cut_down_to_the_longest_that_counts() {
    let mut e = RttEstimator::new(u64::MAX);
    assert_eq!(e.smoothed, MAX_RTT);
    e.update(u64::MAX, u64::MAX);
    assert_eq!(e.smoothed, MAX_RTT);
    assert!(e.pto(u64::MAX) >= e.smoothed);
    let quick = RttEstimator::new(0);
    assert_eq!(quick.pto(0), GRANULARITY);
    assert_eq!(quick.loss_delay(0), GRANULARITY);
}

#[test]
fn the_age_of_loss_is_nine_eighths_of_the_larger_time() {
    let mut e = RttEstimator::new(0);
    e.update(80_000, 0);
    e.update(160_000, 0);
    assert_eq!(e.smoothed, 90_000);
    assert_eq!(e.loss_delay(25_000), 160_000 + 20_000 + 25_000);
}

#[test]
fn the_window_begins_at_a_multiple_of_the_datagram() {
    let c = NewReno::new(1200, 10);
    assert_eq!((c.window, c.min_window, c.in_flight), (12_000, 2_400, 0));
    assert_eq!(c.ssthresh, MAX_WINDOW);
    assert_eq!(NewReno::new(1200, 1).window, 2_400);
    assert_eq!(NewReno::new(0, 10).max_datagram, 1);
    assert_eq!(NewReno::new(u64::MAX, u64::MAX).window, MAX_WINDOW);
}

#[test]
fn new_data_is_only_sent_under_the_window() {
    let mut c = NewReno::new(1200, 10);
    assert!(c.can_send(12_000));
    assert!(c.on_sent(12_000));
    assert!(!c.can_send(1));
    assert!(!c.on_sent(1));
    assert_eq!(c.in_flight, 12_000);
    c.on_probe(500);
    assert_eq!(c.in_flight, 12_500);
    c.forget(500);
    assert_eq!(c.in_flight, 12_000);
    assert_eq!(c.window, 12_000);
}

#[test]
fn the_window_grows_by_what_is_acknowledged_until_the_first_loss() {
    let mut c = NewReno::new(1200, 10);
    assert!(c.on_sent(3_000));
    c.on_ack(1_000, 0);
    assert_eq!((c.window, c.in_flight), (13_000, 2_000));
    c.on_ack(2_000, 0);
    assert_eq!((c.window, c.in_flight), (15_000, 0));
}

#[test]
fn a_loss_halves_the_window_once_for_each_round() {
    let mut c = NewReno::new(1200, 10);
    assert!(c.on_sent(6_000));
    c.on_loss(1_000, 10, 100);
    assert_eq!((c.window, c.ssthresh, c.in_flight), (6_000, 6_000, 5_000));
    assert_eq!(c.recovery_start, Some(100));
    // A packet that left before the cut does not cut again.
    c.on_loss(1_000, 50, 120);
    assert_eq!((c.window, c.in_flight), (6_000, 4_000));
    // Nor does its acknowledgment make the window grow.
    c.on_ack(1_000, 100, );
    assert_eq!((c.window, c.in_flight), (6_000, 3_000));
    // One that left after it does.
    c.on_loss(1_000, 101, 200);
    assert_eq!(c.window, 3_000);
    c.on_loss(1_000, 201, 300);
    assert_eq!(c.window, 2_400);
    c.on_loss(1_000, 301, 400);
    assert_eq!(c.window, 2_400);
    assert_eq!(c.in_flight, 0);
    c.on_loss(1_000, 401, 500);
    assert_eq!(c.in_flight, 0);
}

#[test]
fn after_a_loss_the_window_grows_slowly() {
    let mut c = NewReno::new(1000, 10);
    assert!(c.on_sent(10_000));
    c.on_loss(0, 1, 5);
    assert_eq!(c.window, 5_000);
    c.on_ack(1_000, 10);
    assert_eq!(c.window, 5_000 + 1_000 * 1_000 / 5_000);
    let mut round = c;
    let before = round.window;
    for _ in 0..5 {
        round.on_ack(1_000, 10);
    }
    // About one datagram for a whole window of acknowledgments.
    assert!(round.window > before && round.window <= before + 1_000);
}

#[test]
fn the_wait_doubles_up_to_its_limit() {
    let mut b = Backoff::new(8);
    assert_eq!(b.wait(100), 100);
    b.on_probe();
    assert_eq!(b.wait(100), 200);
    b.on_probe();
    b.on_probe();
    assert_eq!(b.factor, 8);
    b.on_probe();
    assert_eq!(b.wait(100), 800);
    assert_eq!(b.wait(u64::MAX), u64::MAX);
    b.reset();
    assert_eq!(b.wait(100), 100);
    assert_eq!(Backoff::new(0).cap, 1);
    let mut odd = Backoff::new(5);
    odd.on_probe();
    odd.on_probe();
    odd.on_probe();
    assert_eq!(odd.factor, 5);
}

fn ledger_with(n: u64) -> Ledger {
    let mut l = Ledger::new(3);
    for i in 0..n {
        let number = l.record(i * 10, 100, true, Level::OneRtt, vec![SentFrame::Ping]);
        assert_eq!(number, i);
    }
    l
}

fn range(first: u64, last: u64) -> AckRange {
    AckRange { first, last }
}

#[test]
fn packets_are_numbered_in_order() {
    let mut l = ledger_with(3);
    assert_eq!(l.next_number(), 3);
    let info = l.info(1).unwrap();
    assert_eq!((info.time_sent, info.size, info.fate, info.frames), (10, 100, Fate::InFlight, 1));
    assert_eq!(l.frame(1, 0), Some(SentFrame::Ping));
    assert_eq!(l.frame(1, 1), None);
    assert!(l.info(3).is_none());
    assert_eq!(l.frame(3, 0), None);
    assert_eq!(l.record(99, 1, false, Level::Initial, vec![]), 3);
}

#[test]
fn an_acknowledgment_names_each_packet_once() {
    let mut l = ledger_with(6);
    assert_eq!(l.on_ack(&vec![range(4, 5), range(1, 2)]), Some(vec![1, 2, 4, 5]));
    assert_eq!(l.largest_acked(), Some(5));
    assert_eq!(l.on_ack(&vec![range(0, 2)]), Some(vec![0]));
    assert_eq!(l.largest_acked(), Some(5));
    assert_eq!(l.on_ack(&vec![range(0, 5)]), Some(vec![3]));
    assert_eq!(l.on_ack(&vec![range(0, 5)]), Some(vec![]));
    // A run that is empty names nothing.
    assert_eq!(l.on_ack(&vec![range(9, 3)]), Some(vec![]));
    assert_eq!(l.on_ack(&vec![]), Some(vec![]));
}

#[test]
fn an_acknowledgment_of_a_packet_that_never_left_is_refused() {
    let mut l = ledger_with(3);
    assert_eq!(l.on_ack(&vec![range(0, 3)]), None);
    assert_eq!(l.largest_acked(), None);
    assert_eq!(l.info(0).unwrap().fate, Fate::InFlight);
    assert_eq!(l.on_ack(&vec![range(0, 2)]), Some(vec![0, 1, 2]));
}

#[test]
fn a_packet_is_lost_when_three_later_ones_are_acknowledged() {
    let mut l = ledger_with(6);
    assert_eq!(l.on_ack(&vec![range(3, 3)]), Some(vec![3]));
    // Packet 0 is three behind; 1 and 2 are not.
    assert_eq!(l.detect_lost(60, 1_000_000), vec![0]);
    assert_eq!(l.info(0).unwrap().fate, Fate::Lost);
    assert_eq!(l.detect_lost(60, 1_000_000), Vec::<u64>::new());
    assert_eq!(l.on_ack(&vec![range(5, 5)]), Some(vec![5]));
    assert_eq!(l.detect_lost(60, 1_000_000), vec![1, 2]);
    // Packet 4 is only one behind, and young.
    assert_eq!(l.info(4).unwrap().fate, Fate::InFlight);
    // A late acknowledgment of a packet that counts as lost is no news.
    assert_eq!(l.on_ack(&vec![range(0, 0)]), Some(vec![]));
}

#[test]
fn a_packet_is_lost_when_it_is_too_old() {
    let mut l = ledger_with(3);
    assert_eq!(l.on_ack(&vec![range(2, 2)]), Some(vec![2]));
    // Packet 0 left at 0, packet 1 at 10.
    assert_eq!(l.detect_lost(104, 100), vec![0]);
    assert_eq!(l.detect_lost(109, 100), Vec::<u64>::new());
    assert_eq!(l.detect_lost(110, 100), vec![1]);
}

#[test]
fn nothing_is_lost_before_anything_is_acknowledged() {
    let mut l = ledger_with(5);
    assert_eq!(l.detect_lost(u64::MAX, 0), Vec::<u64>::new());
    assert_eq!(l.oldest_awaited(), Some(0));
}

#[test]
fn the_oldest_packet_that_is_waited_for() {
    let mut l = Ledger::new(3);
    assert_eq!(l.oldest_awaited(), None);
    l.record(0, 10, false, Level::Initial, vec![]);
    assert_eq!(l.oldest_awaited(), None);
    l.record(0, 10, true, Level::Initial, vec![SentFrame::Ping]);
    l.record(0, 10, true, Level::Initial, vec![SentFrame::Ping]);
    assert_eq!(l.oldest_awaited(), Some(1));
    assert!(l.give_up(1));
    assert!(!l.give_up(1));
    assert!(!l.give_up(7));
    assert_eq!(l.oldest_awaited(), Some(2));
    assert_eq!(l.on_ack(&vec![range(2, 2)]), Some(vec![2]));
    assert_eq!(l.oldest_awaited(), None);
}

#[test]
fn what_travelled_under_the_keys_of_one_level_can_be_given_up() {
    let mut l = Ledger::new(3);
    l.record(0, 10, true, Level::ZeroRtt, vec![SentFrame::Ping]);
    l.record(0, 10, true, Level::Initial, vec![SentFrame::Ping]);
    l.record(0, 10, true, Level::ZeroRtt, vec![SentFrame::Ping]);
    assert_eq!(l.on_ack(&vec![range(2, 2)]), Some(vec![2]));
    assert_eq!(l.lose_level(Level::ZeroRtt), vec![0]);
    assert_eq!(l.lose_level(Level::ZeroRtt), Vec::<u64>::new());
    assert_eq!(l.info(1).unwrap().fate, Fate::InFlight);
}
