//! Whole connections between endpoints that live in one process: the
//! datagrams travel through a queue, the clock is a counter, and the
//! handshake is played by a stand-in that exchanges fixed messages.

use std::collections::VecDeque;

use quic_engine::config::TransportConfig;
use quic_engine::connection::{Connection, PeerLimits};
use quic_engine::echo::{
    gen_data, ClientFailure, ClientPhase, Echo, EchoArgs, EchoClient, EchoPhase, Progress,
};
use quic_engine::endpoint::{
    Address, ConnectError, ConnectionHandle, ConnectionId, Datagram, Endpoint, Handled,
};
use quic_engine::error::{ConnectionError, StreamError};
use quic_engine::lifecycle::{ConnState, EarlyData};
use quic_engine::recovery::Level;
use quic_engine::recv::{ReadOutcome, ReadToEnd, RecvState};
use quic_engine::send::{SendState, Written};
use quic_engine::stream_id::{Dir, StreamId};
use quic_engine::streams::{Opened, PerDir};

const MS: u64 = 1000;

fn v4(host: u8, port: u16) -> Address {
    Address { v6: false, ip: 0x7f00_0000 + host as u128, port, multicast: false }
}

fn v6(host: u8, port: u16) -> Address {
    Address { v6: true, ip: host as u128, port, multicast: false }
}

fn limits_of(config: &TransportConfig) -> PeerLimits {
    PeerLimits {
        streams: PerDir {
            bi: config.max_concurrent_bidi_streams,
            uni: config.max_concurrent_uni_streams,
        },
        connection_window: config.receive_window,
        stream_window: config.stream_receive_window,
    }
}

/// The stand-in for the handshake of one connection.
struct Tls {
    client: bool,
    /// How far the exchange of messages has come.
    stage: u8,
    /// Whether the client offered early data.
    early: bool,
    initial: Vec<u8>,
    handshake: Vec<u8>,
    data: Vec<u8>,
}

impl Tls {
    fn new(client: bool, early: bool) -> Tls {
        Tls { client, stage: 0, early, initial: vec![], handshake: vec![], data: vec![] }
    }
}

struct Node {
    addr: Address,
    ep: Endpoint,
    tls: Vec<Option<Tls>>,
    /// The limits of the peer by which this side was last served, kept for
    /// early data.
    ticket: Option<PeerLimits>,
    /// Whether this side takes early data.
    accept_early: bool,
    /// Whether streams of connections that peers begin are usable before
    /// the handshake is complete.
    serve_early: bool,
    next_first: u64,
}

struct Flight {
    at: u64,
    from: Address,
    to: Address,
    size: u64,
    datagram: Datagram,
}

struct Net {
    now: u64,
    latency: u64,
    nodes: Vec<Node>,
    wire: VecDeque<Flight>,
    /// Of a hundred datagrams, about this many are lost.
    lose_percent: u64,
    dice: u64,
    /// Every datagram whose count is a multiple of this arrives twice.
    twice_every: u64,
    /// Every datagram whose count is a multiple of this arrives late.
    late_every: u64,
    count: u64,
}

fn drain(conn: &mut Connection, level: Level, into: &mut Vec<u8>) {
    loop {
        match conn.read_crypto(level, 1024) {
            ReadOutcome::Data(v) => {
                if v.is_empty() {
                    break;
                }
                into.extend_from_slice(&v);
            }
            _ => break,
        }
    }
}

fn say(conn: &mut Connection, level: Level, message: &[u8]) {
    match conn.write_crypto(level, message) {
        Ok(Written::Accepted(n)) => assert_eq!(n, message.len()),
        other => panic!("handshake bytes were not taken: {:?}", other),
    }
}

impl Node {
    fn new(addr: Address, server: Option<TransportConfig>, client: Option<TransportConfig>) -> Node {
        Node {
            addr,
            ep: Endpoint::new(addr, server, client).expect("configuration"),
            tls: vec![],
            ticket: None,
            accept_early: true,
            serve_early: false,
            next_first: 1 << 62,
        }
    }

    fn conn(&mut self, h: ConnectionHandle) -> &mut Connection {
        self.ep.connection_mut(h).expect("connection")
    }

    fn tls_slot(&mut self, key: usize) -> &mut Option<Tls> {
        while self.tls.len() <= key {
            self.tls.push(None);
        }
        &mut self.tls[key]
    }

    /// Begins a connection; with `early` and a ticket the streams are usable
    /// at once.
    fn connect(&mut self, now: u64, remote: Address, early: bool) -> Result<ConnectionHandle, ConnectError> {
        let limits = if early { self.ticket } else { None };
        let first = ConnectionId(self.next_first);
        self.next_first += 1;
        let h = self.ep.connect(now, remote, first, limits)?;
        *self.tls_slot(h.0) = Some(Tls::new(true, limits.is_some()));
        let hello: &[u8] = if limits.is_some() { b"CH1" } else { b"CH0" };
        say(self.conn(h), Level::Initial, hello);
        Ok(h)
    }

    /// Plays the part of the handshake for every connection.
    fn drive_handshake(&mut self, peer_config: &TransportConfig) {
        for key in 0..self.ep.connections() {
            let h = ConnectionHandle(key);
            if self.tls_slot(key).is_none() {
                *self.tls_slot(key) = Some(Tls::new(false, false));
            }
            let mut tls = self.tls[key].take().unwrap();
            let accept_early = self.accept_early;
            let serve_early = self.serve_early;
            let mut ticket = None;
            {
                let conn = self.ep.connection_mut(h).unwrap();
                drain(conn, Level::Initial, &mut tls.initial);
                drain(conn, Level::Handshake, &mut tls.handshake);
                drain(conn, Level::OneRtt, &mut tls.data);
                if tls.client {
                    if tls.stage == 0 && tls.initial.len() >= 2 {
                        assert_eq!(&tls.initial[..2], b"SH");
                        conn.on_keys(Level::Handshake);
                        tls.stage = 1;
                    }
                    if tls.stage == 1 && tls.handshake.len() >= 4 {
                        assert_eq!(&tls.handshake[..2], b"EE");
                        let accepted = tls.handshake[2] == b'1';
                        if tls.early {
                            conn.on_early_resolved(accepted);
                        }
                        say(conn, Level::Handshake, b"FIN");
                        conn.on_keys(Level::OneRtt);
                        conn.on_connected(limits_of(peer_config));
                        tls.stage = 2;
                    }
                    if tls.stage == 2 && tls.data.len() >= 3 {
                        assert_eq!(&tls.data[..3], b"TKT");
                        ticket = Some(limits_of(peer_config));
                        tls.stage = 3;
                    }
                } else {
                    if tls.stage == 0 && tls.initial.len() >= 3 {
                        assert_eq!(&tls.initial[..2], b"CH");
                        let offered = tls.initial[2] == b'1';
                        say(conn, Level::Initial, b"SH");
                        conn.on_keys(Level::Handshake);
                        let taken = offered && accept_early;
                        say(conn, Level::Handshake, if taken { b"EE1F" } else { b"EE0F" });
                        conn.on_keys(Level::OneRtt);
                        if taken {
                            conn.on_keys(Level::ZeroRtt);
                        }
                        if serve_early {
                            conn.on_early_ready(limits_of(peer_config));
                        }
                        tls.stage = 1;
                    }
                    if tls.stage == 1 && tls.handshake.len() >= 3 {
                        assert_eq!(&tls.handshake[..3], b"FIN");
                        conn.on_connected(limits_of(peer_config));
                        say(conn, Level::OneRtt, b"TKT");
                        tls.stage = 2;
                    }
                }
            }
            if ticket.is_some() {
                self.ticket = ticket;
            }
            self.tls[key] = Some(tls);
        }
    }
}

impl Net {
    fn new(latency: u64) -> Net {
        Net {
            now: 0,
            latency,
            nodes: vec![],
            wire: VecDeque::new(),
            lose_percent: 0,
            dice: 0x2545_f491_4f6c_dd1d,
            twice_every: 0,
            late_every: 0,
            count: 0,
        }
    }

    fn add(&mut self, node: Node) -> usize {
        self.nodes.push(node);
        self.nodes.len() - 1
    }
}

impl Net {
    /// Sends what is to be sent, delivers what has arrived, and plays the
    /// handshake. The result tells whether anything happened.
    fn turn(&mut self, peer_config: &TransportConfig) -> bool {
        let mut busy = false;
        for i in 0..self.nodes.len() {
            self.nodes[i].drive_handshake(peer_config);
            let from = self.nodes[i].addr;
            while let Some((to, datagram)) = self.nodes[i].ep.poll_transmit(self.now) {
                let size = datagram.size(peer_config.max_datagram_size);
                busy = true;
                self.count += 1;
                self.dice ^= self.dice << 13;
                self.dice ^= self.dice >> 7;
                self.dice ^= self.dice << 17;
                if self.dice % 100 < self.lose_percent {
                    continue;
                }
                let late = self.late_every != 0 && self.count % self.late_every == 0;
                let at = self.now + if late { 5 * self.latency } else { self.latency };
                if self.twice_every != 0 && self.count % self.twice_every == 0 {
                    let datagram = datagram.clone();
                    self.wire.push_back(Flight { at, from, to, size, datagram });
                }
                self.wire.push_back(Flight { at, from, to, size, datagram });
            }
        }
        while let Some(i) = self.wire.iter().position(|f| f.at <= self.now) {
            let f = self.wire.remove(i).unwrap();
            busy = true;
            if let Some(node) = self.nodes.iter_mut().find(|n| n.addr == f.to) {
                let _: Handled = node.ep.handle(self.now, f.from, f.size, &f.datagram);
            }
        }
        busy
    }

    /// Moves the clock to the next moment at which something is due, and
    /// lets the timers of that moment fire. A timer fires a moment after
    /// its time, never before. The result tells whether the clock moved.
    fn sleep(&mut self, limit: u64) -> bool {
        let mut next: Option<u64> = self.wire.iter().map(|f| f.at).min();
        for node in &self.nodes {
            if let Some(t) = node.ep.poll_timeout() {
                let t = t + 1;
                next = Some(next.map_or(t, |n| n.min(t)));
            }
        }
        match next {
            Some(t) if t <= limit => {
                if t > self.now {
                    self.now = t;
                }
                for node in &mut self.nodes {
                    node.ep.handle_timeout(self.now);
                }
                true
            }
            _ => {
                self.now = limit;
                for node in &mut self.nodes {
                    node.ep.handle_timeout(self.now);
                }
                false
            }
        }
    }

    /// Runs the exchange until `done` holds, for `span` of time at most.
    fn run_until<F: FnMut(&mut Net) -> bool>(&mut self, peer_config: &TransportConfig, span: u64, mut done: F) -> bool {
        let limit = self.now + span;
        let mut rounds: u64 = 0;
        loop {
            if done(self) {
                return true;
            }
            rounds += 1;
            assert!(rounds < 50_000_000, "the exchange does not come to an end");
            if self.turn(peer_config) {
                continue;
            }
            if done(self) {
                return true;
            }
            if self.now >= limit {
                return false;
            }
            self.sleep(limit);
        }
    }

    /// Lets `span` of time pass.
    fn pass(&mut self, peer_config: &TransportConfig, span: u64) {
        self.run_until(peer_config, span, |_| false);
    }
}

fn established(net: &mut Net, node: usize, h: ConnectionHandle) -> bool {
    net.nodes[node].conn(h).state() == ConnState::Established
}

fn self_connecting(config: TransportConfig) -> (Net, usize) {
    let mut net = Net::new(100);
    let node = net.add(Node::new(v4(1, 4433), Some(config), Some(config)));
    (net, node)
}

/// Waits until the connection `h` of `node` is made, as awaiting a pending
/// connection does: the result is the reason if it ends before.
fn await_connect(net: &mut Net, config: &TransportConfig, node: usize, h: ConnectionHandle) -> Result<(), ConnectionError> {
    net.run_until(config, 60_000 * MS, |net| {
        let c = net.nodes[node].conn(h);
        c.state() == ConnState::Established || c.error().is_some()
    });
    let c = net.nodes[node].conn(h);
    match c.error() {
        Some(e) => Err(e),
        None => {
            assert_eq!(c.state(), ConnState::Established);
            Ok(())
        }
    }
}

fn accept_connection(net: &mut Net, config: &TransportConfig, node: usize) -> ConnectionHandle {
    let mut got = None;
    net.run_until(config, 60_000 * MS, |net| {
        if got.is_none() {
            got = net.nodes[node].ep.accept();
        }
        got.is_some()
    });
    got.expect("endpoint")
}

fn open_stream(net: &mut Net, config: &TransportConfig, node: usize, h: ConnectionHandle, dir: Dir) -> Result<StreamId, ConnectionError> {
    let mut out = None;
    net.run_until(config, 60_000 * MS, |net| {
        match net.nodes[node].conn(h).open(dir) {
            Ok(Opened::Stream(id)) => {
                out = Some(Ok(id));
                true
            }
            Ok(Opened::Blocked) => false,
            Err(e) => {
                out = Some(Err(e));
                true
            }
        }
    });
    out.expect("stream open")
}

fn write_all(net: &mut Net, config: &TransportConfig, node: usize, h: ConnectionHandle, id: StreamId, data: &[u8]) -> Result<(), StreamError> {
    let mut written = 0;
    let mut failed = None;
    net.run_until(config, 60_000 * MS, |net| {
        if written == data.len() {
            return true;
        }
        match net.nodes[node].conn(h).write(id, &data[written..]) {
            Ok(Written::Accepted(n)) => {
                written += n;
                written == data.len()
            }
            Ok(Written::Blocked) => false,
            Err(e) => {
                failed = Some(e);
                true
            }
        }
    });
    match failed {
        Some(e) => Err(e),
        None => {
            assert_eq!(written, data.len());
            Ok(())
        }
    }
}

/// Finishes the stream and waits until the peer has acknowledged all of it.
fn finish(net: &mut Net, config: &TransportConfig, node: usize, h: ConnectionHandle, id: StreamId) -> Result<(), StreamError> {
    net.nodes[node].conn(h).finish(id)?;
    let mut lost = false;
    net.run_until(config, 60_000 * MS, |net| {
        let c = net.nodes[node].conn(h);
        match c.stream_states(id) {
            Some((SendState::DataRecvd, _)) => true,
            _ => {
                lost = c.error().is_some();
                lost
            }
        }
    });
    if lost {
        Err(StreamError::ConnectionClosed)
    } else {
        Ok(())
    }
}

fn accept_stream(net: &mut Net, config: &TransportConfig, node: usize, h: ConnectionHandle, dir: Dir) -> Option<StreamId> {
    let mut got = None;
    net.run_until(config, 60_000 * MS, |net| {
        let c = net.nodes[node].conn(h);
        got = c.accept(dir);
        got.is_some() || c.error().is_some()
    });
    got
}

fn read_to_end(net: &mut Net, config: &TransportConfig, node: usize, h: ConnectionHandle, id: StreamId, limit: usize) -> Result<Vec<u8>, StreamError> {
    let mut out = None;
    net.run_until(config, 60_000 * MS, |net| {
        match net.nodes[node].conn(h).read_to_end(id, limit) {
            Ok(ReadToEnd::Complete(v)) => {
                out = Some(Ok(v));
                true
            }
            Ok(ReadToEnd::Pending) => false,
            Ok(other) => panic!("read_to_end: {:?}", other),
            Err(e) => {
                out = Some(Err(e));
                true
            }
        }
    });
    out.expect("read_to_end")
}

#[test]
fn handshake_timeout() {
    const IDLE_TIMEOUT: u64 = 500 * MS;
    let mut transport_config = TransportConfig::default();
    transport_config.max_idle_timeout = Some(IDLE_TIMEOUT);
    transport_config.initial_rtt = 10 * MS;
    let mut net = Net::new(100);
    let client = net.add(Node::new(v4(1, 5000), None, Some(transport_config)));

    let start = net.now;
    let h = net.nodes[client].connect(start, v4(1, 1), false).unwrap();
    match await_connect(&mut net, &transport_config, client, h) {
        Err(ConnectionError::TimedOut) => {}
        Err(e) => panic!("unexpected error: {:?}", e),
        Ok(_) => panic!("unexpected success"),
    }
    let dt = net.now - start;
    assert!(dt > IDLE_TIMEOUT && dt < 2 * IDLE_TIMEOUT);
    // The connection went straight to its end, not through the closing.
    assert_eq!(net.nodes[client].conn(h).state(), ConnState::Closed);
}

#[test]
fn close_endpoint() {
    let config = TransportConfig::default();
    let mut net = Net::new(100);
    let node = net.add(Node::new(v4(1, 5000), None, Some(config)));
    let h = net.nodes[node].connect(0, v4(1, 1234), false).unwrap();
    net.nodes[node].ep.close(net.now, 0, &[]);
    match await_connect(&mut net, &config, node, h) {
        Err(ConnectionError::LocallyClosed) => (),
        Err(e) => panic!("unexpected error: {:?}", e),
        Ok(_) => {
            panic!("unexpected success");
        }
    }
}

#[test]
fn local_addr() {
    // The loopback address of the newer family.
    let addr = Address { v6: true, ip: 1, port: 0, multicast: false };
    let ep = Endpoint::new(addr, None, None).unwrap();
    assert_eq!(addr, ep.local_addr());
}

#[test]
fn read_after_close() {
    let config = TransportConfig::default();
    let (mut net, node) = self_connecting(config);

    const MSG: &[u8] = b"goodbye!";
    let local = net.nodes[node].ep.local_addr();
    let client = net.nodes[node].connect(net.now, local, false).unwrap();
    await_connect(&mut net, &config, node, client).expect("connect");
    let server = accept_connection(&mut net, &config, node);
    await_connect(&mut net, &config, node, server).expect("connection");

    let s = open_stream(&mut net, &config, node, server, Dir::Uni).unwrap();
    write_all(&mut net, &config, node, server, s, MSG).unwrap();
    finish(&mut net, &config, node, server, s).unwrap();
    // The sender lets go of the connection.
    net.nodes[node].conn(server).close(net.now, 0, b"");

    net.pass(&config, 100 * MS);
    let stream = accept_stream(&mut net, &config, node, client, Dir::Uni).expect("incoming streams");
    let msg = read_to_end(&mut net, &config, node, client, stream, usize::MAX).expect("read_to_end");
    assert_eq!(msg, MSG);
}

#[test]
fn accept_after_close() {
    let config = TransportConfig::default();
    let (mut net, node) = self_connecting(config);

    const MSG: &[u8] = b"goodbye!";
    let local = net.nodes[node].ep.local_addr();
    let sender = net.nodes[node].connect(net.now, local, false).unwrap();
    await_connect(&mut net, &config, node, sender).expect("connect");
    let s = open_stream(&mut net, &config, node, sender, Dir::Uni).unwrap();
    write_all(&mut net, &config, node, sender, s, MSG).unwrap();
    finish(&mut net, &config, node, sender, s).unwrap();
    net.nodes[node].conn(sender).close(net.now, 0, b"");

    // Allow some time for the close to be sent and processed
    net.pass(&config, 100 * MS);

    // Despite the connection having closed, we should be able to accept it...
    let receiver = accept_connection(&mut net, &config, node);

    // ...and read what was sent.
    let stream = accept_stream(&mut net, &config, node, receiver, Dir::Uni).expect("incoming streams");
    let msg = read_to_end(&mut net, &config, node, receiver, stream, usize::MAX).expect("read_to_end");
    assert_eq!(msg, MSG);

    // But it's still definitely closed.
    assert!(open_stream(&mut net, &config, node, receiver, Dir::Uni).is_err());
    assert_eq!(
        net.nodes[node].conn(receiver).error(),
        Some(ConnectionError::ApplicationClosed(0))
    );
}

/// Serves one incoming connection of the early-data exchange: reads the
/// stream of the peer and sends one of its own.
fn serve_goodbye(net: &mut Net, config: &TransportConfig, node: usize, msg: &[u8]) -> ConnectionHandle {
    let server = accept_connection(net, config, node);
    let s = open_stream(net, config, node, server, Dir::Uni).expect("open_uni");
    write_all(net, config, node, server, s, msg).expect("write");
    finish(net, config, node, server, s).expect("finish");
    server
}

#[test]
fn zero_rtt() {
    let config = TransportConfig::default();
    let (mut net, node) = self_connecting(config);
    net.nodes[node].serve_early = true;

    const MSG: &[u8] = b"goodbye!";
    let local = net.nodes[node].ep.local_addr();

    // Without keys of an earlier session there is no early data.
    assert!(net.nodes[node].ticket.is_none(), "0-RTT succeeded without keys");
    let first = net.nodes[node].connect(net.now, local, true).unwrap();
    assert_eq!(net.nodes[node].conn(first).early_data(), EarlyData::Unused);
    assert_eq!(net.nodes[node].conn(first).state(), ConnState::Handshaking);
    await_connect(&mut net, &config, node, first).expect("connect");
    let server = serve_goodbye(&mut net, &config, node, MSG);

    // Buy time for the driver to process the server's NewSessionTicket
    net.pass(&config, 100 * MS);
    let stream = accept_stream(&mut net, &config, node, first, Dir::Uni).expect("incoming streams");
    let msg = read_to_end(&mut net, &config, node, first, stream, usize::MAX).expect("read_to_end");
    assert_eq!(msg, MSG);
    net.nodes[node].conn(first).close(net.now, 0, b"");
    net.nodes[node].conn(server).close(net.now, 0, b"");
    assert!(net.run_until(&config, 60_000 * MS, |net| net.nodes[node].ep.is_idle()));

    // initial connection complete
    assert!(net.nodes[node].ticket.is_some(), "missing 0-RTT keys");
    let second = net.nodes[node].connect(net.now, local, true).unwrap();
    assert_eq!(net.nodes[node].conn(second).state(), ConnState::ZeroRttActive);
    assert_eq!(net.nodes[node].conn(second).early_data(), EarlyData::Pending);
    // Send something ASAP to use 0-RTT
    let s = match net.nodes[node].conn(second).open(Dir::Uni) {
        Ok(Opened::Stream(id)) => id,
        other => panic!("0-RTT open uni: {:?}", other),
    };
    match net.nodes[node].conn(second).write(s, MSG) {
        Ok(Written::Accepted(n)) => assert_eq!(n, MSG.len(), "0-RTT write"),
        other => panic!("0-RTT write: {:?}", other),
    }
    net.nodes[node].conn(second).finish(s).expect("0-RTT finish");

    let server = serve_goodbye(&mut net, &config, node, MSG);
    let theirs = accept_stream(&mut net, &config, node, server, Dir::Uni).expect("incoming streams");
    let msg = read_to_end(&mut net, &config, node, server, theirs, usize::MAX).expect("read_to_end");
    assert_eq!(msg, MSG);

    let stream = accept_stream(&mut net, &config, node, second, Dir::Uni).expect("incoming streams");
    let msg = read_to_end(&mut net, &config, node, second, stream, usize::MAX).expect("read_to_end");
    assert_eq!(msg, MSG);
    await_connect(&mut net, &config, node, second).expect("connect");
    assert_eq!(net.nodes[node].conn(second).early_data(), EarlyData::Accepted);

    net.nodes[node].conn(second).close(net.now, 0, b"");
    net.nodes[node].conn(server).close(net.now, 0, b"");
    assert!(net.run_until(&config, 60_000 * MS, |net| net.nodes[node].ep.is_idle()));
}

#[test]
fn zero_rtt_rejected_data_is_sent_again() {
    let config = TransportConfig::default();
    let (mut net, node) = self_connecting(config);
    const MSG: &[u8] = b"goodbye!";
    let local = net.nodes[node].ep.local_addr();

    let first = net.nodes[node].connect(net.now, local, false).unwrap();
    await_connect(&mut net, &config, node, first).expect("connect");
    let server = accept_connection(&mut net, &config, node);
    net.pass(&config, 100 * MS);
    assert!(net.nodes[node].ticket.is_some());
    net.nodes[node].conn(first).close(net.now, 0, b"");
    net.nodes[node].conn(server).close(net.now, 0, b"");

    // This time the server does not take early data.
    net.nodes[node].accept_early = false;
    let second = net.nodes[node].connect(net.now, local, true).unwrap();
    let s = match net.nodes[node].conn(second).open(Dir::Uni) {
        Ok(Opened::Stream(id)) => id,
        other => panic!("open: {:?}", other),
    };
    assert!(matches!(net.nodes[node].conn(second).write(s, MSG), Ok(Written::Accepted(8))));
    net.nodes[node].conn(second).finish(s).unwrap();

    let server = accept_connection(&mut net, &config, node);
    let theirs = accept_stream(&mut net, &config, node, server, Dir::Uni).expect("incoming streams");
    let msg = read_to_end(&mut net, &config, node, server, theirs, usize::MAX).expect("read_to_end");
    // The flag is false, and the data arrived all the same, once.
    assert_eq!(net.nodes[node].conn(second).early_data(), EarlyData::Rejected);
    assert_eq!(msg, MSG);
    assert_eq!(net.nodes[node].conn(server).accept(Dir::Uni), None);
}

/// The echo exchange between a client and a server with addresses of their
/// own.
fn run_echo(args: EchoArgs) {
    let transport_config = args.transport().unwrap();
    let mut net = Net::new(100);
    let server = net.add(Node::new(args.server_addr, Some(transport_config), None));
    // A socket of the newer family reaches hosts of both families.
    let client = net.add(Node::new(args.client_addr, None, Some(transport_config)));

    let h = net.nodes[client].connect(net.now, args.server_addr, false).unwrap();
    await_connect(&mut net, &transport_config, client, h).expect("connect");
    let incoming = accept_connection(&mut net, &transport_config, server);
    assert_eq!(net.nodes[server].ep.remote_addr(incoming), Some(args.client_addr));

    let mut echoes: Vec<Echo> = vec![];
    let mut part = EchoClient::new(&args);
    let ok = net.run_until(&transport_config, 600_000 * MS, |net| {
        // The server echoes every stream that the client opens.
        {
            let conn = net.nodes[server].conn(incoming);
            while let Some(theirs) = conn.accept(Dir::Bi) {
                echoes.push(Echo::new(theirs));
            }
            for echo in echoes.iter_mut() {
                while let Progress::Again = echo.step(conn) {}
            }
        }
        let now = net.now;
        let conn = net.nodes[client].conn(h);
        while let Progress::Again = part.step(now, conn) {}
        matches!(part.phase(), ClientPhase::Done | ClientPhase::Failed)
    });
    assert!(ok, "the echo did not come back");
    assert_eq!(part.failure(), None, "Data mismatch");
    assert_eq!(part.phase(), ClientPhase::Done);
    assert_eq!(part.done(), args.nr_streams);
    assert_eq!(echoes.len(), args.nr_streams);
    // Every echo has written back all that it read and has finished.
    assert!(echoes.iter().all(|e| e.phase() == EchoPhase::Done && e.failure().is_none()));
    // The client has closed the connection.
    assert_eq!(net.nodes[client].conn(h).error(), Some(ConnectionError::LocallyClosed));
    assert!(net.run_until(&transport_config, 600_000 * MS, |net| {
        net.nodes[client].ep.is_idle() && net.nodes[server].ep.is_idle()
    }));
    assert_eq!(
        net.nodes[server].conn(incoming).error(),
        Some(ConnectionError::ApplicationClosed(0))
    );
}

#[test]
fn echo_v6() {
    run_echo(EchoArgs {
        client_addr: v6(2, 4000),
        server_addr: v6(1, 4001),
        nr_streams: 1,
        stream_size: 10 * 1024,
        receive_window: None,
        stream_receive_window: None,
    });
}

#[test]
fn echo_v4() {
    run_echo(EchoArgs {
        client_addr: v4(2, 4000),
        server_addr: v4(1, 4001),
        nr_streams: 1,
        stream_size: 10 * 1024,
        receive_window: None,
        stream_receive_window: None,
    });
}

#[test]
fn echo_dualstack() {
    run_echo(EchoArgs {
        client_addr: v6(2, 4000),
        server_addr: v4(1, 4001),
        nr_streams: 1,
        stream_size: 10 * 1024,
        receive_window: None,
        stream_receive_window: None,
    });
}

#[test]
fn stress_receive_window() {
    run_echo(EchoArgs {
        client_addr: v4(2, 4000),
        server_addr: v4(1, 4001),
        nr_streams: 50,
        stream_size: 25 * 1024 + 11,
        receive_window: Some(37),
        stream_receive_window: Some(100 * 1024 * 1024),
    });
}

#[test]
fn stress_stream_receive_window() {
    // Note that there is no point in runnning this with too many streams,
    // since the window is only active within a stream
    run_echo(EchoArgs {
        client_addr: v4(2, 4000),
        server_addr: v4(1, 4001),
        nr_streams: 2,
        stream_size: 250 * 1024 + 11,
        receive_window: Some(100 * 1024 * 1024),
        stream_receive_window: Some(37),
    });
}

#[test]
fn stress_both_windows() {
    run_echo(EchoArgs {
        client_addr: v4(2, 4000),
        server_addr: v4(1, 4001),
        nr_streams: 50,
        stream_size: 25 * 1024 + 11,
        receive_window: Some(37),
        stream_receive_window: Some(37),
    });
}

#[test]
fn connect_refuses_bad_addresses() {
    let config = TransportConfig::default();
    let mut v4_only = Node::new(v4(1, 5000), None, Some(config));
    assert_eq!(
        v4_only.connect(0, v6(1, 1), false).err(),
        Some(ConnectError::InvalidRemoteAddress)
    );
    assert_eq!(
        v4_only.connect(0, v4(1, 0), false).err(),
        Some(ConnectError::InvalidRemoteAddress)
    );
    let group = Address { v6: false, ip: 0xe000_0001, port: 1, multicast: true };
    assert_eq!(v4_only.connect(0, group, false).err(), Some(ConnectError::InvalidRemoteAddress));
    let mut silent = Node::new(v4(1, 5001), Some(config), None);
    assert_eq!(
        silent.connect(0, v4(1, 1), false).err(),
        Some(ConnectError::NoDefaultClientConfig)
    );
    v4_only.ep.close(0, 0, b"");
    assert_eq!(v4_only.connect(0, v4(1, 1), false).err(), Some(ConnectError::EndpointStopping));
}

#[test]
fn recv_state_reaches_data_read() {
    let config = TransportConfig::default();
    let (mut net, node) = self_connecting(config);
    let local = net.nodes[node].ep.local_addr();
    let client = net.nodes[node].connect(net.now, local, false).unwrap();
    await_connect(&mut net, &config, node, client).expect("connect");
    let server = accept_connection(&mut net, &config, node);
    let s = open_stream(&mut net, &config, node, client, Dir::Uni).unwrap();
    write_all(&mut net, &config, node, client, s, b"abc").unwrap();
    finish(&mut net, &config, node, client, s).unwrap();
    let theirs = accept_stream(&mut net, &config, node, server, Dir::Uni).unwrap();
    assert_eq!(theirs, s);
    assert_eq!(
        net.nodes[node].conn(server).stream_states(theirs).map(|s| s.1),
        Some(RecvState::DataRecvd)
    );
    let got = read_to_end(&mut net, &config, node, server, theirs, 3).unwrap();
    assert_eq!(got, b"abc");
    assert_eq!(
        net.nodes[node].conn(server).stream_states(theirs).map(|s| s.1),
        Some(RecvState::DataRead)
    );
}

/// One stream of `size` bytes from a client to a server over the net
/// `net`, read by reads of `read_size` bytes at most.
fn transfer(mut net: Net, size: usize, read_size: usize) -> Net {
    let mut config = TransportConfig::default();
    config.initial_rtt = 10 * MS;
    let server = net.add(Node::new(v4(1, 4001), Some(config), None));
    let client = net.add(Node::new(v4(2, 4000), None, Some(config)));
    let h = net.nodes[client].connect(net.now, v4(1, 4001), false).unwrap();
    await_connect(&mut net, &config, client, h).expect("connect");
    let incoming = accept_connection(&mut net, &config, server);
    let id = open_stream(&mut net, &config, client, h, Dir::Uni).unwrap();
    let msg = gen_data(size, 7);
    write_all(&mut net, &config, client, h, id, &msg).unwrap();
    net.nodes[client].conn(h).finish(id).unwrap();
    let theirs = accept_stream(&mut net, &config, server, incoming, Dir::Uni).expect("stream");
    let mut data: Vec<u8> = vec![];
    let mut complete = false;
    assert!(net.run_until(&config, 600_000 * MS, |net| {
        loop {
            match net.nodes[server].conn(incoming).read(theirs, read_size).expect("read") {
                ReadOutcome::Data(v) => {
                    assert!(v.len() <= read_size);
                    data.extend_from_slice(&v)
                }
                ReadOutcome::Finished => {
                    complete = true;
                    break;
                }
                ReadOutcome::Blocked => break,
                ReadOutcome::Reset(code) => panic!("reset {}", code),
            }
        }
        complete
    }));
    assert_eq!(data, msg);
    // The writer learns that everything arrived.
    assert!(net.run_until(&config, 600_000 * MS, |net| {
        matches!(
            net.nodes[client].conn(h).stream_states(id),
            Some((SendState::DataRecvd, _))
        )
    }));
    net
}

#[test]
fn transfer_read_in_one_call_or_in_many() {
    transfer(Net::new(100), 5000, usize::MAX);
    transfer(Net::new(100), 5000, 1);
    transfer(Net::new(100), 5000, 7);
}

#[test]
fn transfer_survives_loss() {
    let mut net = Net::new(100);
    net.lose_percent = 10;
    let net = transfer(net, 40_000, 1000);
    assert!(net.count > 0);
    let mut net = Net::new(100);
    net.lose_percent = 30;
    transfer(net, 10_000, 1000);
}

#[test]
fn transfer_survives_duplicates_and_reordering() {
    let mut net = Net::new(100);
    net.twice_every = 2;
    net.late_every = 3;
    transfer(net, 40_000, 1000);
    let mut net = Net::new(100);
    net.twice_every = 1;
    net.late_every = 2;
    net.lose_percent = 20;
    transfer(net, 40_000, 333);
}

#[test]
fn the_client_of_the_exchange_fails_when_the_echo_differs() {
    let config = TransportConfig::default();
    let args = EchoArgs {
        client_addr: v4(2, 4000),
        server_addr: v4(1, 4001),
        nr_streams: 2,
        stream_size: 100,
        receive_window: None,
        stream_receive_window: None,
    };
    let mut net = Net::new(100);
    let server = net.add(Node::new(args.server_addr, Some(config), None));
    let client = net.add(Node::new(args.client_addr, None, Some(config)));
    let h = net.nodes[client].connect(net.now, args.server_addr, false).unwrap();
    await_connect(&mut net, &config, client, h).expect("connect");
    let incoming = accept_connection(&mut net, &config, server);
    let mut part = EchoClient::new(&args);
    assert_eq!(part.phase(), ClientPhase::Opening);
    let mut answered = false;
    let mut theirs = None;
    assert!(net.run_until(&config, 60_000 * MS, |net| {
        // This server answers with bytes of its own.
        let conn = net.nodes[server].conn(incoming);
        if theirs.is_none() {
            theirs = conn.accept(Dir::Bi);
        }
        if let (Some(id), false) = (theirs, answered) {
            if let Ok(Written::Accepted(100)) = conn.write(id, &[0u8; 100]) {
                conn.finish(id).unwrap();
                answered = true;
            }
        }
        let now = net.now;
        let conn = net.nodes[client].conn(h);
        while let Progress::Again = part.step(now, conn) {}
        matches!(part.phase(), ClientPhase::Done | ClientPhase::Failed)
    }));
    assert_eq!(part.phase(), ClientPhase::Failed);
    assert_eq!(part.failure(), Some(ClientFailure::Mismatch));
    assert_eq!(part.done(), 0);
    assert_eq!(part.step(net.now, net.nodes[client].conn(h)), Progress::Done);
}

#[test]
fn the_client_of_an_exchange_without_streams_only_closes() {
    let config = TransportConfig::default();
    let mut args = EchoArgs {
        client_addr: v4(2, 4000),
        server_addr: v4(1, 4001),
        nr_streams: 0,
        stream_size: 100,
        receive_window: None,
        stream_receive_window: None,
    };
    let mut conn = Connection::new(quic_engine::stream_id::Side::Client, config, 0, None);
    let mut part = EchoClient::new(&args);
    assert_eq!(part.step(5, &mut conn), Progress::Again);
    assert_eq!(part.phase(), ClientPhase::Closing);
    assert_eq!(part.step(5, &mut conn), Progress::Done);
    assert_eq!(part.phase(), ClientPhase::Done);
    assert_eq!(conn.error(), Some(ConnectionError::LocallyClosed));
    // On a connection that has ended no stream can be opened.
    args.nr_streams = 1;
    let mut late = EchoClient::new(&args);
    assert_eq!(late.step(6, &mut conn), Progress::Done);
    assert_eq!(
        late.failure(),
        Some(ClientFailure::Connection(ConnectionError::LocallyClosed))
    );
}

#[test]
fn signs_of_life_keep_a_connection_from_timing_out() {
    let mut config = TransportConfig::default();
    config.max_idle_timeout = Some(500 * MS);
    config.initial_rtt = 10 * MS;
    for keep_alive in [None, Some(200 * MS)] {
        config.keep_alive_interval = keep_alive;
        let (mut net, node) = self_connecting(config);
        let local = net.nodes[node].ep.local_addr();
        let client = net.nodes[node].connect(net.now, local, false).unwrap();
        await_connect(&mut net, &config, node, client).expect("connect");
        let server = accept_connection(&mut net, &config, node);
        net.pass(&config, 5_000 * MS);
        let expected = if keep_alive.is_some() { None } else { Some(ConnectionError::TimedOut) };
        assert_eq!(net.nodes[node].conn(client).error(), expected);
        assert_eq!(net.nodes[node].conn(server).error(), expected);
    }
}

#[test]
fn echo_of_a_stream_without_bytes() {
    run_echo(EchoArgs {
        client_addr: v4(2, 4000),
        server_addr: v4(1, 4001),
        nr_streams: 1,
        stream_size: 0,
        receive_window: None,
        stream_receive_window: None,
    });
}

#[test]
fn echo_of_several_streams_without_bytes_under_small_windows() {
    run_echo(EchoArgs {
        client_addr: v4(2, 4000),
        server_addr: v4(1, 4001),
        nr_streams: 3,
        stream_size: 0,
        receive_window: Some(37),
        stream_receive_window: Some(37),
    });
}

#[test]
fn a_stream_counts_only_when_the_peer_has_acknowledged_it() {
    let config = TransportConfig::default();
    let args = EchoArgs {
        client_addr: v4(2, 4000),
        server_addr: v4(1, 4001),
        nr_streams: 1,
        stream_size: 10,
        receive_window: None,
        stream_receive_window: None,
    };
    let mut net = Net::new(100);
    let server = net.add(Node::new(args.server_addr, Some(config), None));
    let client = net.add(Node::new(args.client_addr, None, Some(config)));
    let h = net.nodes[client].connect(net.now, args.server_addr, false).unwrap();
    await_connect(&mut net, &config, client, h).expect("connect");
    let incoming = accept_connection(&mut net, &config, server);
    let mut part = EchoClient::new(&args);
    let mut echoes: Vec<Echo> = vec![];
    let mut settling_seen = false;
    assert!(net.run_until(&config, 60_000 * MS, |net| {
        {
            let conn = net.nodes[server].conn(incoming);
            while let Some(theirs) = conn.accept(Dir::Bi) {
                echoes.push(Echo::new(theirs));
            }
            for echo in echoes.iter_mut() {
                while let Progress::Again = echo.step(conn) {}
            }
        }
        let now = net.now;
        let conn = net.nodes[client].conn(h);
        loop {
            let before = part.done();
            let p = part.step(now, conn);
            settling_seen |= part.phase() == ClientPhase::Settling;
            if part.done() > before {
                // The stream was finished and all of it acknowledged.
                let id = StreamId(0);
                assert_eq!(conn.stream_states(id).map(|s| s.0), Some(SendState::DataRecvd));
            }
            if p != Progress::Again {
                break;
            }
        }
        matches!(part.phase(), ClientPhase::Done | ClientPhase::Failed)
    }));
    assert_eq!(part.failure(), None);
    assert_eq!(part.done(), 1);
}
