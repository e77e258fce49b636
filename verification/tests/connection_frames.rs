use quic_engine::config::{TransportConfig, PACKET_OVERHEAD};
use quic_engine::connection::{Connection, Packet, PeerLimits};
use quic_engine::endpoint::{Address, ConnectionId, Datagram, Endpoint, Handled};
use quic_engine::error::{ConnectionError, StreamError, TransportErrorCode};
use quic_engine::frame::{AckRange, Frame};
use quic_engine::lifecycle::ConnState;
use quic_engine::recovery::Level;
use quic_engine::recv::ReadOutcome;
use quic_engine::send::Written;
use quic_engine::stream_id::{Dir, Side, StreamId};
use quic_engine::streams::{Opened, PerDir};

fn peer_limits() -> PeerLimits {
    PeerLimits { streams: PerDir { bi: 10, uni: 10 }, connection_window: 100_000, stream_window: 50_000 }
}

fn connected(side: Side) -> Connection {
    let mut c = Connection::new(side, TransportConfig::default(), 0, None);
    c.on_keys(Level::Handshake);
    c.on_keys(Level::OneRtt);
    c.on_connected(peer_limits());
    assert_eq!(c.state(), ConnState::Established);
    c
}

fn stream(id: u64, offset: u64, data: &[u8], fin: bool) -> Frame {
    Frame::Stream { id: StreamId(id), offset, data: data.to_vec(), fin }
}

fn frames_of(c: &mut Connection, now: u64) -> Vec<Frame> {
    let mut all = Vec::new();
    while let Some(p) = c.poll_transmit(now) {
        all.extend(p.frames);
    }
    all
}

#[test]
fn every_breach_has_its_number() {
    for e in [
        TransportErrorCode::FlowControl,
        TransportErrorCode::StreamLimit,
        TransportErrorCode::StreamState,
        TransportErrorCode::FinalSize,
        TransportErrorCode::ProtocolViolation,
    ] {
        assert_eq!(TransportErrorCode::from_code(e.code()), e);
    }
    assert_eq!(TransportErrorCode::FlowControl.code(), 3);
    assert_eq!(TransportErrorCode::StreamLimit.code(), 4);
    assert_eq!(TransportErrorCode::StreamState.code(), 5);
    assert_eq!(TransportErrorCode::FinalSize.code(), 6);
    assert_eq!(TransportErrorCode::ProtocolViolation.code(), 10);
    assert_eq!(TransportErrorCode::from_code(999), TransportErrorCode::ProtocolViolation);
}

#[test]
fn nothing_can_be_opened_during_the_handshake() {
    let mut c = Connection::new(Side::Client, TransportConfig::default(), 0, None);
    assert_eq!(c.state(), ConnState::Handshaking);
    assert_eq!(c.open(Dir::Bi), Ok(Opened::Blocked));
    assert_eq!(c.write(StreamId(0), b"x"), Ok(Written::Blocked));
    c.on_connected(peer_limits());
    assert_eq!(c.open(Dir::Bi), Ok(Opened::Stream(StreamId(0))));
}

#[test]
fn a_breach_of_the_peer_closes_the_connection_with_its_number() {
    let mut c = connected(Side::Server);
    // The client may open a hundred streams; this is one more.
    c.on_frame(5, Level::OneRtt, &stream(400, 0, b"x", false));
    assert_eq!(c.state(), ConnState::Closing);
    assert_eq!(
        c.error(),
        Some(ConnectionError::TransportError(TransportErrorCode::StreamLimit))
    );
    let sent = frames_of(&mut c, 6);
    assert_eq!(sent.len(), 1);
    match &sent[0] {
        Frame::Close { code, application, reason } => {
            assert_eq!((*code, *application), (4, false));
            assert!(reason.is_empty());
        }
        other => panic!("{:?}", other),
    }
    // Every operation ends with the matching failure.
    assert_eq!(
        c.open(Dir::Bi),
        Err(ConnectionError::TransportError(TransportErrorCode::StreamLimit))
    );
    assert_eq!(c.write(StreamId(1), b"x"), Err(StreamError::ConnectionClosed));
    assert_eq!(c.finish(StreamId(1)), Err(StreamError::ConnectionClosed));
    assert_eq!(c.reset(StreamId(1), 0), Err(StreamError::ConnectionClosed));
}

#[test]
fn each_kind_of_breach_is_found() {
    let cases: Vec<(Frame, TransportErrorCode)> = vec![
        (stream(1, 0, b"x", false), TransportErrorCode::StreamState),
        (stream(0, 2_000_000, b"x", false), TransportErrorCode::FlowControl),
        (Frame::HandshakeDone, TransportErrorCode::ProtocolViolation),
        (
            Frame::Ack { delay: 0, ranges: vec![AckRange { first: 0, last: 0 }] },
            TransportErrorCode::ProtocolViolation,
        ),
        (Frame::StopSending { id: StreamId(5), code: 1 }, TransportErrorCode::StreamState),
    ];
    for (frame, code) in cases {
        let mut c = connected(Side::Server);
        c.on_frame(5, Level::OneRtt, &frame);
        assert_eq!(c.error(), Some(ConnectionError::TransportError(code)), "{:?}", frame);
    }
    let mut c = connected(Side::Server);
    c.on_frame(5, Level::OneRtt, &stream(0, 0, b"abc", true));
    c.on_frame(5, Level::OneRtt, &stream(0, 3, b"d", false));
    assert_eq!(
        c.error(),
        Some(ConnectionError::TransportError(TransportErrorCode::FinalSize))
    );
}

#[test]
fn the_data_of_streams_does_not_travel_under_the_keys_of_the_handshake() {
    let mut c = connected(Side::Server);
    c.on_frame(5, Level::Handshake, &stream(0, 0, b"x", false));
    assert_eq!(
        c.error(),
        Some(ConnectionError::TransportError(TransportErrorCode::ProtocolViolation))
    );
    let mut c = connected(Side::Server);
    c.on_frame(5, Level::ZeroRtt, &Frame::Crypto { offset: 0, data: b"x".to_vec() });
    assert_eq!(
        c.error(),
        Some(ConnectionError::TransportError(TransportErrorCode::ProtocolViolation))
    );
    let mut c = connected(Side::Client);
    c.on_frame(5, Level::OneRtt, &Frame::HandshakeDone);
    c.on_frame(5, Level::OneRtt, &Frame::Ping);
    assert_eq!(c.error(), None);
}

#[test]
fn a_close_frame_of_the_peer_drains_the_connection() {
    let mut c = connected(Side::Server);
    c.on_frame(5, Level::OneRtt, &stream(0, 0, b"abc", true));
    c.on_frame(
        6,
        Level::OneRtt,
        &Frame::Close { code: 77, application: true, reason: b"bye".to_vec() },
    );
    assert_eq!(c.state(), ConnState::Draining);
    assert_eq!(c.error(), Some(ConnectionError::ApplicationClosed(77)));
    // A draining connection sends nothing and hears nothing.
    assert!(c.poll_transmit(7).is_none());
    c.handle_packet(8, &Packet { level: Level::OneRtt, number: 9, frames: vec![stream(4, 0, b"x", false)] });
    assert_eq!(c.accept(Dir::Bi), Some(StreamId(0)));
    assert_eq!(c.accept(Dir::Bi), None);
    // What arrived before can be read.
    assert!(matches!(c.read(StreamId(0), 10), Ok(ReadOutcome::Data(v)) if v == b"abc"));
    assert!(matches!(c.read(StreamId(0), 10), Ok(ReadOutcome::Finished)));
    let deadline = c.poll_timeout().expect("drain");
    c.handle_timeout(deadline - 1);
    assert_eq!(c.state(), ConnState::Draining);
    c.handle_timeout(deadline);
    assert_eq!(c.state(), ConnState::Closed);
    assert_eq!(c.poll_timeout(), None);
}

#[test]
fn a_close_with_the_number_of_a_breach() {
    let mut c = connected(Side::Server);
    c.on_frame(6, Level::OneRtt, &Frame::Close { code: 3, application: false, reason: vec![] });
    assert_eq!(
        c.error(),
        Some(ConnectionError::TransportError(TransportErrorCode::FlowControl))
    );
}

#[test]
fn a_read_that_would_wait_fails_once_the_connection_has_ended() {
    let mut c = connected(Side::Server);
    c.on_frame(5, Level::OneRtt, &stream(0, 0, b"abc", false));
    c.close(6, 1, b"");
    assert_eq!(c.error(), Some(ConnectionError::LocallyClosed));
    assert!(matches!(c.read(StreamId(0), 2), Ok(ReadOutcome::Data(v)) if v == b"ab"));
    assert!(matches!(c.read(StreamId(0), 2), Ok(ReadOutcome::Data(v)) if v == b"c"));
    assert!(matches!(c.read(StreamId(0), 2), Err(StreamError::ConnectionClosed)));
    assert!(matches!(c.read_to_end(StreamId(0), 2), Err(StreamError::ConnectionClosed)));
    assert!(matches!(c.read(StreamId(4), 2), Err(StreamError::UnknownStream)));
}

#[test]
fn the_close_is_sent_once_and_again_when_the_peer_goes_on() {
    let mut c = connected(Side::Client);
    c.close(10, 42, b"done");
    assert_eq!(c.state(), ConnState::Closing);
    let first = frames_of(&mut c, 10);
    assert_eq!(first.len(), 1);
    match &first[0] {
        Frame::Close { code, application, reason } => {
            assert_eq!((*code, *application, reason.as_slice()), (42, true, &b"done"[..]))
        }
        other => panic!("{:?}", other),
    }
    assert!(c.poll_transmit(11).is_none());
    let mut closes = 1;
    for n in 0..10 {
        c.handle_packet(12 + n, &Packet { level: Level::OneRtt, number: n, frames: vec![Frame::Ping] });
        closes += frames_of(&mut c, 12 + n).len();
    }
    assert_eq!(closes, 4);
    assert_eq!(c.state(), ConnState::Draining);
    // Closing again changes nothing.
    c.close(30, 1, b"");
    assert_eq!(c.error(), Some(ConnectionError::LocallyClosed));
}

#[test]
fn packets_without_keys_are_dropped() {
    let mut c = Connection::new(Side::Server, TransportConfig::default(), 0, None);
    c.handle_packet(1, &Packet { level: Level::OneRtt, number: 0, frames: vec![stream(0, 0, b"x", false)] });
    assert_eq!(c.error(), None);
    assert_eq!(c.accept(Dir::Bi), None);
    assert!(c.poll_transmit(2).is_none());
}

#[test]
fn what_arrives_is_acknowledged() {
    let mut c = connected(Side::Server);
    // The server tells the client that the handshake is done.
    let first = frames_of(&mut c, 1);
    assert!(matches!(first.as_slice(), [Frame::HandshakeDone]));
    for n in [0u64, 1, 2, 5] {
        c.handle_packet(2, &Packet { level: Level::OneRtt, number: n, frames: vec![Frame::Ping] });
    }
    let p = c.poll_transmit(3).expect("acknowledgment");
    assert_eq!(p.level, Level::OneRtt);
    assert_eq!(p.number, 1);
    match p.frames.as_slice() {
        [Frame::Ack { ranges, .. }] => {
            assert_eq!(
                ranges.as_slice(),
                &[AckRange { first: 0, last: 2 }, AckRange { first: 5, last: 5 }]
            )
        }
        other => panic!("{:?}", other),
    }
    assert_eq!(p.size(), PACKET_OVERHEAD);
    assert!(c.poll_transmit(3).is_none());
    // An acknowledgment asks for none.
    c.handle_packet(
        4,
        &Packet {
            level: Level::OneRtt,
            number: 6,
            frames: vec![Frame::Ack { delay: 0, ranges: vec![AckRange { first: 0, last: 0 }] }],
        },
    );
    assert!(c.poll_transmit(5).is_none());
}

#[test]
fn a_packet_counts_with_what_it_carries() {
    let p = Packet {
        level: Level::OneRtt,
        number: 0,
        frames: vec![stream(0, 0, &[0u8; 100], false), Frame::Ping, Frame::Crypto { offset: 0, data: vec![0u8; 5] }],
    };
    assert_eq!(p.size(), PACKET_OVERHEAD + 105);
    let d = Datagram { dcid: ConnectionId(1), scid: ConnectionId(2), packet: p };
    assert_eq!(d.size(1200), PACKET_OVERHEAD + 105);
    let first = Datagram {
        dcid: ConnectionId(1),
        scid: ConnectionId(2),
        packet: Packet { level: Level::Initial, number: 0, frames: vec![Frame::Ping] },
    };
    assert_eq!(first.size(1200), 1200);
    assert_eq!(first.size(10), PACKET_OVERHEAD);
}

#[test]
fn an_overdue_acknowledgment_makes_the_connection_send_again() {
    let mut config = TransportConfig::default();
    config.initial_rtt = 10_000;
    config.max_idle_timeout = None;
    let mut c = Connection::new(Side::Client, config, 0, None);
    assert_eq!(c.write_crypto(Level::Initial, b"hello"), Ok(Written::Accepted(5)));
    let p = c.poll_transmit(0).expect("packet");
    assert!(matches!(p.frames.as_slice(), [Frame::Crypto { offset: 0, .. }]));
    assert!(c.poll_transmit(0).is_none());
    // The wait is the mean, four deviations and the delay of the peer.
    let base = 10_000 + 4 * 5_000 + 25_000;
    assert_eq!(c.poll_timeout(), Some(base));
    c.handle_timeout(base - 1);
    assert!(c.poll_transmit(base - 1).is_none());
    c.handle_timeout(base);
    let again = c.poll_transmit(base).expect("packet");
    assert_eq!(again.number, 1);
    match again.frames.as_slice() {
        [Frame::Crypto { offset, data }] => assert_eq!((*offset, data.as_slice()), (0, &b"hello"[..])),
        other => panic!("{:?}", other),
    }
    // The next wait is twice as long.
    assert_eq!(c.poll_timeout(), Some(base + 2 * base));
    // The acknowledgment ends the waiting.
    c.handle_packet(
        base + 10,
        &Packet {
            level: Level::Initial,
            number: 0,
            frames: vec![Frame::Ack { delay: 0, ranges: vec![AckRange { first: 1, last: 1 }] }],
        },
    );
    assert_eq!(c.poll_timeout(), None);
    assert!(c.poll_transmit(base + 10).is_none());
}

fn addr(host: u128, port: u16) -> Address {
    Address { v6: false, ip: host, port, multicast: false }
}

fn hello(dcid: u64, scid: u64) -> Datagram {
    Datagram {
        dcid: ConnectionId(dcid),
        scid: ConnectionId(scid),
        packet: Packet {
            level: Level::Initial,
            number: 0,
            frames: vec![Frame::Crypto { offset: 0, data: b"hello".to_vec() }],
        },
    }
}

#[test]
fn datagrams_find_their_connection_by_the_id() {
    let config = TransportConfig::default();
    let mut ep = Endpoint::new(addr(1, 443), Some(config), None).unwrap();
    assert!(ep.is_idle());
    assert_eq!(ep.accept(), None);
    let first = hello(1000, 7);
    let h = match ep.handle(0, addr(2, 5000), 1200, &first) {
        Handled::New(h) => h,
        other => panic!("{:?}", other),
    };
    assert_eq!(ep.connections(), 1);
    assert_eq!(ep.remote_addr(h), Some(addr(2, 5000)));
    // The same id leads to the same connection, whatever the address.
    assert_eq!(ep.handle(1, addr(3, 6000), 1200, &first), Handled::Routed(h));
    // So does the id that the endpoint chose.
    assert_eq!(ep.handle(1, addr(2, 5000), 100, &hello(0, 7)), Handled::Routed(h));
    // Another id begins another connection.
    let other = match ep.handle(2, addr(4, 5000), 1200, &hello(2000, 8)) {
        Handled::New(h) => h,
        other => panic!("{:?}", other),
    };
    assert_ne!(other, h);
    assert_eq!(ep.accept(), Some(h));
    assert_eq!(ep.accept(), Some(other));
    assert_eq!(ep.accept(), None);
    assert!(!ep.is_idle());
    // A packet beyond the first level begins nothing.
    let mut late = hello(3000, 9);
    late.packet.level = Level::OneRtt;
    assert_eq!(ep.handle(3, addr(5, 5000), 1200, &late), Handled::Dropped);
    assert!(ep.connection(quic_engine::endpoint::ConnectionHandle(7)).is_none());
    assert!(ep.connection_mut(quic_engine::endpoint::ConnectionHandle(7)).is_none());
    assert_eq!(ep.local_addr(), addr(1, 443));
}

#[test]
fn an_endpoint_without_a_server_configuration_takes_nothing_in() {
    let config = TransportConfig::default();
    let mut ep = Endpoint::new(addr(1, 443), None, Some(config)).unwrap();
    assert_eq!(ep.handle(0, addr(2, 5000), 1200, &hello(1000, 7)), Handled::Dropped);
    let mut closed = Endpoint::new(addr(1, 443), Some(config), None).unwrap();
    closed.close(0, 0, b"");
    assert_eq!(closed.handle(0, addr(2, 5000), 1200, &hello(1000, 7)), Handled::Dropped);
    let mut bad = config;
    bad.max_datagram_size = 1;
    assert!(Endpoint::new(addr(1, 443), Some(bad), None).is_err());
    assert!(Endpoint::new(addr(1, 443), None, Some(bad)).is_err());
}

#[test]
fn an_address_that_is_not_proven_gets_three_times_what_came_from_it() {
    let config = TransportConfig::default();
    let mut ep = Endpoint::new(addr(1, 443), Some(config), None).unwrap();
    let h = match ep.handle(0, addr(2, 5000), 1200, &hello(1000, 7)) {
        Handled::New(h) => h,
        other => panic!("{:?}", other),
    };
    {
        let c = ep.connection_mut(h).unwrap();
        c.on_keys(Level::Handshake);
        // A long flight of the handshake.
        assert!(matches!(c.write_crypto(Level::Initial, &[1u8; 6000]), Ok(Written::Accepted(6000))));
    }
    let mut sent = 0;
    let mut count = 0;
    while let Some((to, d)) = ep.poll_transmit(1) {
        assert_eq!(to, addr(2, 5000));
        assert_eq!(d.dcid, ConnectionId(7));
        sent += d.size(config.max_datagram_size);
        count += 1;
    }
    assert!(sent <= 3 * 1200, "{} bytes", sent);
    assert_eq!(count, 3);
    // More arrives: more may leave.
    assert_eq!(ep.handle(2, addr(2, 5000), 1200, &hello(1000, 7)), Handled::Routed(h));
    while let Some((_, d)) = ep.poll_transmit(3) {
        sent += d.size(config.max_datagram_size);
    }
    assert!(sent <= 3 * 2400, "{} bytes", sent);
    assert!(sent > 3 * 1200);
    // A packet under the keys of the handshake proves the address.
    let mut proof = hello(0, 7);
    proof.packet.level = Level::Handshake;
    proof.packet.frames = vec![Frame::Ping];
    assert_eq!(ep.handle(4, addr(2, 5000), 100, &proof), Handled::Routed(h));
    let mut rest = 0;
    while let Some((_, d)) = ep.poll_transmit(5) {
        rest += d.size(config.max_datagram_size);
    }
    assert!(sent + rest > 6000);
}

#[test]
fn the_endpoint_wakes_for_the_earliest_connection() {
    let mut quick = TransportConfig::default();
    quick.max_idle_timeout = Some(500_000);
    let mut ep = Endpoint::new(addr(1, 443), None, Some(quick)).unwrap();
    assert_eq!(ep.poll_timeout(), None);
    let a = ep.connect(100, addr(2, 1), ConnectionId(900), None).unwrap();
    let b = ep.connect(50, addr(2, 2), ConnectionId(901), None).unwrap();
    assert_eq!(ep.poll_timeout(), Some(500_050));
    ep.handle_timeout(500_050);
    assert_eq!(ep.connection(b).unwrap().error(), Some(ConnectionError::TimedOut));
    assert_eq!(ep.connection(a).unwrap().error(), None);
    assert_eq!(ep.poll_timeout(), Some(500_100));
    assert!(!ep.is_idle());
    ep.handle_timeout(500_100);
    assert!(ep.is_idle());
    // Datagrams no longer find a connection that is over.
    let mut late = hello(0, 7);
    late.packet.level = Level::OneRtt;
    assert_eq!(ep.handle(600_000, addr(2, 1), 100, &late), Handled::Dropped);
}

#[test]
fn a_sign_of_life_is_sent_at_every_interval() {
    let mut config = TransportConfig::default();
    config.keep_alive_interval = Some(100_000);
    config.max_idle_timeout = None;
    let mut c = Connection::new(Side::Client, config, 50, None);
    // During the handshake the time passes without a sign of life.
    assert_eq!(c.poll_timeout(), Some(100_050));
    c.handle_timeout(100_050);
    assert!(c.poll_transmit(100_050).is_none());
    c.on_keys(Level::OneRtt);
    c.on_connected(peer_limits());
    assert_eq!(c.poll_timeout(), Some(200_050));
    c.handle_timeout(200_049);
    assert!(c.poll_transmit(200_049).is_none());
    c.handle_timeout(200_050);
    let p = c.poll_transmit(200_050).expect("sign of life");
    assert!(matches!(p.frames.as_slice(), [Frame::Ping]));
    assert!(c.poll_transmit(200_050).is_none());
    // The next one is due an interval later.
    c.handle_packet(
        200_060,
        &Packet {
            level: Level::OneRtt,
            number: 0,
            frames: vec![Frame::Ack { delay: 0, ranges: vec![AckRange { first: 0, last: 0 }] }],
        },
    );
    assert_eq!(c.poll_timeout(), Some(300_050));
}

#[test]
fn a_peer_that_no_longer_knows_the_connection() {
    let mut c = connected(Side::Client);
    c.on_stateless_reset(9);
    assert_eq!(c.state(), ConnState::Draining);
    assert_eq!(c.error(), Some(ConnectionError::Reset));
    assert!(c.poll_transmit(10).is_none());
    // The first reason stays.
    c.on_version_mismatch(11);
    assert_eq!(c.error(), Some(ConnectionError::Reset));
}

#[test]
fn a_peer_that_speaks_another_version() {
    let mut c = Connection::new(Side::Client, TransportConfig::default(), 0, None);
    c.on_version_mismatch(9);
    assert_eq!(c.state(), ConnState::Draining);
    assert_eq!(c.error(), Some(ConnectionError::VersionMismatch));
    assert_eq!(c.open(Dir::Bi), Err(ConnectionError::VersionMismatch));
}

#[test]
fn a_connection_can_be_found_under_several_ids() {
    let config = TransportConfig::default();
    let mut ep = Endpoint::new(addr(1, 443), Some(config), None).unwrap();
    let h = match ep.handle(0, addr(2, 5000), 1200, &hello(1000, 7)) {
        Handled::New(h) => h,
        other => panic!("{:?}", other),
    };
    let more = ep.issue_cid(h).expect("id");
    assert_eq!(more, ConnectionId(1));
    assert_eq!(ep.issue_cid(h), Some(ConnectionId(2)));
    assert_eq!(ep.issue_cid(quic_engine::endpoint::ConnectionHandle(5)), None);
    let mut moved = hello(1, 7);
    moved.packet.level = Level::OneRtt;
    moved.packet.frames = vec![Frame::Ping];
    // From a new address, under the new id.
    assert_eq!(ep.handle(1, addr(9, 9), 100, &moved), Handled::Routed(h));
    // The next connection gets the next id.
    match ep.handle(2, addr(3, 5000), 1200, &hello(2000, 8)) {
        Handled::New(other) => {
            assert_ne!(other, h);
            let mut d = hello(3, 8);
            d.packet.frames = vec![Frame::Ping];
            assert_eq!(ep.handle(3, addr(3, 5000), 100, &d), Handled::Routed(other));
        }
        other => panic!("{:?}", other),
    }
}

#[test]
fn the_endpoint_holds_no_more_connections_than_it_has_ids_for() {
    let config = TransportConfig::default();
    let mut ep = Endpoint::new(addr(1, 443), None, Some(config)).unwrap();
    // The first id of the endpoint is taken as the id of the peer.
    assert_eq!(
        ep.connect(0, addr(2, 1), ConnectionId(0), None),
        Err(quic_engine::endpoint::ConnectError::TooManyConnections)
    );
    assert!(ep.connect(0, addr(2, 1), ConnectionId(5), None).is_ok());
}
