use quic_engine::error::ConnectionError;
use quic_engine::lifecycle::{ConnState, EarlyData, LifeEvent, Lifecycle};

const PTO: u64 = 1000;

#[test]
fn a_connection_begins_in_the_handshake() {
    let l = Lifecycle::new(5, Some(500), 3, false);
    assert_eq!(l.state, ConnState::Handshaking);
    assert_eq!(l.idle_deadline, Some(505));
    assert_eq!(l.deadline(), Some(505));
    assert_eq!(l.early, EarlyData::Unused);
    assert_eq!(l.error, None);
    let early = Lifecycle::new(5, None, 3, true);
    assert_eq!(early.state, ConnState::ZeroRttActive);
    assert_eq!(early.early, EarlyData::Pending);
    assert_eq!(early.deadline(), None);
}

#[test]
fn the_handshake_leads_to_the_established_state() {
    let mut l = Lifecycle::new(0, Some(500), 3, false);
    l.step(1, PTO, LifeEvent::EarlyReady);
    assert_eq!(l.state, ConnState::ZeroRttActive);
    l.step(2, PTO, LifeEvent::Connected);
    assert_eq!(l.state, ConnState::Established);
    l.step(3, PTO, LifeEvent::EarlyReady);
    l.step(3, PTO, LifeEvent::Connected);
    assert_eq!(l.state, ConnState::Established);
}

#[test]
fn every_packet_begins_the_allowed_silence_anew() {
    let mut l = Lifecycle::new(0, Some(500), 3, false);
    l.step(400, PTO, LifeEvent::Received);
    assert_eq!(l.idle_deadline, Some(900));
    l.step(899, PTO, LifeEvent::Timeout);
    assert_eq!(l.state, ConnState::Handshaking);
    l.step(900, PTO, LifeEvent::Timeout);
    assert_eq!(l.state, ConnState::Closed);
    assert_eq!(l.error, Some(ConnectionError::TimedOut));
    assert_eq!(l.deadline(), None);
}

#[test]
fn silence_ends_the_connection_without_a_close() {
    let mut l = Lifecycle::new(0, Some(500_000), 3, false);
    l.step(499_999, PTO, LifeEvent::Timeout);
    assert_eq!(l.state, ConnState::Handshaking);
    l.step(500_000, PTO, LifeEvent::Timeout);
    assert_eq!(l.state, ConnState::Closed);
    assert!(!l.close_due);
    assert_eq!(l.error, Some(ConnectionError::TimedOut));
}

#[test]
fn without_a_timeout_silence_ends_nothing() {
    let mut l = Lifecycle::new(0, None, 3, false);
    l.step(u64::MAX, PTO, LifeEvent::Timeout);
    assert_eq!(l.state, ConnState::Handshaking);
}

#[test]
fn the_close_is_sent_again_three_times_and_no_more() {
    let mut l = Lifecycle::new(0, Some(500), 3, false);
    l.step(1, PTO, LifeEvent::Connected);
    l.step(10, PTO, LifeEvent::Close(ConnectionError::LocallyClosed));
    assert_eq!(l.state, ConnState::Closing);
    assert_eq!(l.error, Some(ConnectionError::LocallyClosed));
    assert!(l.close_due);
    assert_eq!(l.drain_deadline, Some(10 + 3 * PTO));
    assert_eq!(l.deadline(), Some(3010));
    l.step(11, PTO, LifeEvent::CloseSent);
    assert!(!l.close_due);
    let mut sent = 1;
    for round in 0..10 {
        l.step(20 + round, PTO, LifeEvent::Received);
        if l.close_due {
            l.step(20 + round, PTO, LifeEvent::CloseSent);
            sent += 1;
        }
    }
    assert_eq!(sent, 4);
    assert_eq!(l.state, ConnState::Draining);
    l.step(3009, PTO, LifeEvent::Timeout);
    assert_eq!(l.state, ConnState::Draining);
    l.step(3010, PTO, LifeEvent::Timeout);
    assert_eq!(l.state, ConnState::Closed);
    assert_eq!(l.error, Some(ConnectionError::LocallyClosed));
}

#[test]
fn a_closing_connection_that_hears_nothing_is_over_after_the_drain() {
    let mut l = Lifecycle::new(0, Some(500), 3, false);
    l.step(10, PTO, LifeEvent::Close(ConnectionError::LocallyClosed));
    l.step(11, PTO, LifeEvent::CloseSent);
    assert_eq!(l.state, ConnState::Closing);
    l.step(3010, PTO, LifeEvent::Timeout);
    assert_eq!(l.state, ConnState::Closed);
}

#[test]
fn the_close_of_the_peer_drains_the_connection() {
    let mut l = Lifecycle::new(0, Some(500), 3, false);
    l.step(1, PTO, LifeEvent::Connected);
    l.step(10, PTO, LifeEvent::PeerClosed(ConnectionError::ApplicationClosed(7)));
    assert_eq!(l.state, ConnState::Draining);
    assert_eq!(l.error, Some(ConnectionError::ApplicationClosed(7)));
    assert!(!l.close_due);
    l.step(20, PTO, LifeEvent::Received);
    assert!(!l.close_due);
    l.step(20, PTO, LifeEvent::Close(ConnectionError::LocallyClosed));
    assert_eq!(l.error, Some(ConnectionError::ApplicationClosed(7)));
    l.step(3010, PTO, LifeEvent::Timeout);
    assert_eq!(l.state, ConnState::Closed);
}

#[test]
fn the_first_reason_stays() {
    let mut l = Lifecycle::new(0, Some(500), 3, false);
    l.step(10, PTO, LifeEvent::Close(ConnectionError::LocallyClosed));
    l.step(11, PTO, LifeEvent::PeerClosed(ConnectionError::ApplicationClosed(7)));
    assert_eq!(l.state, ConnState::Draining);
    assert_eq!(l.error, Some(ConnectionError::LocallyClosed));
    l.step(12, PTO, LifeEvent::Connected);
    assert_eq!(l.state, ConnState::Draining);
}

#[test]
fn the_peer_says_once_whether_it_takes_early_data() {
    let mut l = Lifecycle::new(0, None, 3, true);
    l.step(1, PTO, LifeEvent::EarlyResolved(false));
    assert_eq!(l.early, EarlyData::Rejected);
    assert_eq!(l.state, ConnState::ZeroRttActive);
    l.step(2, PTO, LifeEvent::EarlyResolved(true));
    assert_eq!(l.early, EarlyData::Rejected);
    let mut l = Lifecycle::new(0, None, 3, true);
    l.step(1, PTO, LifeEvent::EarlyResolved(true));
    assert_eq!(l.early, EarlyData::Accepted);
    let mut none = Lifecycle::new(0, None, 3, false);
    none.step(1, PTO, LifeEvent::EarlyResolved(true));
    assert_eq!(none.early, EarlyData::Unused);
}

#[test]
fn times_are_cut_down_to_what_a_clock_can_hold() {
    let mut l = Lifecycle::new(u64::MAX - 1, Some(500), 0, false);
    assert_eq!(l.idle_deadline, Some(u64::MAX));
    l.step(u64::MAX - 1, u64::MAX, LifeEvent::Close(ConnectionError::LocallyClosed));
    assert_eq!(l.drain_deadline, Some(u64::MAX));
    // With no resend the first send of the close is the last.
    l.step(u64::MAX - 1, 0, LifeEvent::CloseSent);
    assert_eq!(l.state, ConnState::Draining);
}
