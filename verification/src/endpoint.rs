//! The endpoint: it owns the connections, finds the connection that an
//! incoming datagram is for by the connection id, takes in new connections,
//! and holds back what would go to a peer whose address is not proven.

use vstd::prelude::*;
use crate::config::{ConfigError, TransportConfig};
use crate::connection::{
    sooner, wire_size, ConnModel, Connection, Packet, PacketView, PeerLimits,
};
use crate::lifecycle::ConnState;
use crate::recovery::Level;
use crate::stream_id::Side;

verus! {

/// The token by which datagrams find their connection, chosen by the side
/// that receives them.
#[derive(Clone, Copy, Debug, PartialEq, Eq, Structural, Hash)]
pub struct ConnectionId(pub u64);

/// The address of a peer, as plain values.
#[derive(Clone, Copy, Debug, PartialEq, Eq, Structural)]
pub struct Address {
    /// Whether the address is of the newer family.
    pub v6: bool,
    /// The number of the host.
    pub ip: u128,
    pub port: u16,
    /// Whether the address names a group of hosts.
    pub multicast: bool,
}

impl Address {
    /// Whether a connection can be made to the address.
    pub open spec fn spec_connectable(&self) -> bool {
        self.port != 0 && self.ip != 0 && !self.multicast
    }

    #[verifier::when_used_as_spec(spec_connectable)]
    pub fn connectable(&self) -> (b: bool)
        ensures
            b == self.spec_connectable(),
    {
        self.port != 0 && self.ip != 0 && !self.multicast
    }
}

/// The name under which the application holds a connection of an endpoint.
#[derive(Clone, Copy, Debug, PartialEq, Eq, Structural, Hash)]
pub struct ConnectionHandle(pub usize);

/// Why a connection could not be begun.
#[derive(Clone, Copy, Debug, PartialEq, Eq, Structural)]
pub enum ConnectError {
    /// The endpoint has been closed.
    EndpointStopping,
    /// The endpoint has no configuration for connections that it begins.
    NoDefaultClientConfig,
    /// No connection can be made to the address: it names no host or a
    /// group of hosts, or it is of a family that the endpoint cannot reach.
    InvalidRemoteAddress,
    /// The endpoint holds as many connections as it can.
    TooManyConnections,
}

/// A datagram as the codec hands it over.
#[derive(Clone, Debug)]
pub struct Datagram {
    /// The connection id that the receiver chose.
    pub dcid: ConnectionId,
    /// The connection id that the sender chose for the answers.
    pub scid: ConnectionId,
    pub packet: Packet,
}

/// The size that counts for the datagram of a packet: a packet of the
/// first level is filled up to the size of the largest datagram, so that a
/// peer that answers it has something to answer with.
pub open spec fn datagram_size(packet: PacketView, largest: u64) -> nat {
    if packet.level == Level::Initial && wire_size(packet.frames) < largest {
        largest as nat
    } else {
        wire_size(packet.frames)
    }
}

impl Datagram {
    /// The size that counts for the datagram, cut down to what a counter
    /// can hold, where `largest` is the size of the largest datagram.
    pub fn size(&self, largest: u64) -> (s: u64)
        ensures
            s == (if datagram_size(self.packet@, largest) <= u64::MAX {
                datagram_size(self.packet@, largest) as u64
            } else {
                u64::MAX
            }),
    {
        let plain: u64 = self.packet.size();
        match self.packet.level {
            Level::Initial => if plain < largest {
                largest
            } else {
                plain
            },
            _ => plain,
        }
    }
}

/// What became of a datagram.
#[derive(Clone, Copy, Debug, PartialEq, Eq, Structural)]
pub enum Handled {
    /// It belonged to the connection.
    Routed(ConnectionHandle),
    /// It began the connection.
    New(ConnectionHandle),
    /// It belonged to no connection and began none.
    Dropped,
}

/// One entry of the table that leads from connection ids to connections.
#[derive(Clone, Copy, Debug, PartialEq, Eq, Structural)]
pub struct Route {
    pub cid: ConnectionId,
    pub key: usize,
}

/// What an endpoint keeps of one connection, as a mathematical value.
pub struct EntryModel {
    pub conn: ConnModel,
    pub remote: Address,
    /// The id under which this side receives.
    pub local_cid: ConnectionId,
    /// The id under which the peer receives.
    pub remote_cid: ConnectionId,
    /// Whether the peer has proven that it receives at its address.
    pub validated: bool,
    /// How many bytes have arrived from the peer.
    pub received: u64,
    /// How many bytes were sent to the peer.
    pub sent: u64,
    /// Whether datagrams still find the connection.
    pub routed: bool,
}

/// How many times what it has received an endpoint sends to an address that
/// is not proven.
pub const AMPLIFICATION: u64 = 3;

impl EntryModel {
    /// To an address that is not proven, no more is sent than three times
    /// what came from it.
    pub open spec fn bounded(self) -> bool {
        self.validated || self.sent <= AMPLIFICATION * self.received
    }

    /// How many bytes were sent to the peer once the datagram of `packet`
    /// has left.
    pub open spec fn sent_after(self, packet: PacketView) -> u64 {
        let size = datagram_size(packet, self.conn.config.max_datagram_size);
        if self.sent + size <= u64::MAX {
            (self.sent + size) as u64
        } else {
            u64::MAX
        }
    }

    /// Whether a datagram of the largest size may be sent now.
    pub open spec fn may_send(self) -> bool {
        self.validated || self.sent + self.conn.config.max_datagram_size <= AMPLIFICATION
            * self.received
    }

    /// The entry after a datagram of `size` bytes arrived for it at `now`.
    /// A packet under the keys of the handshake proves the address.
    pub open spec fn after_datagram(self, now: u64, scid: ConnectionId, size: u64, packet: PacketView) -> EntryModel {
        EntryModel {
            conn: self.conn.after_received(now, packet.level, packet.number, packet.frames),
            remote_cid: scid,
            validated: self.validated || packet.level == Level::Handshake || packet.level
                == Level::OneRtt,
            received: if self.received + size <= u64::MAX {
                (self.received + size) as u64
            } else {
                u64::MAX
            },
            ..self
        }
    }
}

/// What an endpoint keeps of one connection.
pub struct Entry {
    conn: Connection,
    remote: Address,
    local_cid: ConnectionId,
    remote_cid: ConnectionId,
    validated: bool,
    received: u64,
    sent: u64,
    routed: bool,
}

impl View for Entry {
    type V = EntryModel;

    closed spec fn view(&self) -> EntryModel {
        EntryModel {
            conn: self.conn@,
            remote: self.remote,
            local_cid: self.local_cid,
            remote_cid: self.remote_cid,
            validated: self.validated,
            received: self.received,
            sent: self.sent,
            routed: self.routed,
        }
    }
}

impl Entry {
    pub closed spec fn wf(&self) -> bool {
        self.conn.wf() && self@.bounded()
    }

    /// Hands out the next datagram of the connection, unless the address
    /// of the peer is not proven and too much was sent to it already.
    fn poll(&mut self, now: u64) -> (r: Option<Datagram>)
        requires
            old(self).wf(),
        ensures
            final(self).wf(),
            r is None ==> final(self)@ == old(self)@ && (old(self)@.may_send() ==> old(self)@.conn.sends(now, None, old(self)@.conn)),
            r matches Some(d) ==> {
                &&& old(self)@.may_send()
                &&& old(self)@.conn.sends(now, Some(d.packet@), final(self)@.conn)
                &&& d.dcid == old(self)@.remote_cid
                &&& d.scid == old(self)@.local_cid
                &&& final(self)@ == (EntryModel {
                    conn: final(self)@.conn,
                    sent: old(self)@.sent_after(d.packet@),
                    ..old(self)@
                })
            },
    {
        let largest: u64 = self.conn.max_datagram();
        let may: bool = self.validated || (self.sent as u128) + (largest as u128) <= (
        AMPLIFICATION as u128) * (self.received as u128);
        assert(may == self@.may_send());
        if !may {
            return None;
        }
        match self.conn.poll_transmit(now) {
            Some(packet) => {
                let d = Datagram { dcid: self.remote_cid, scid: self.local_cid, packet };
                let size: u64 = d.size(largest);
                self.sent = if size > u64::MAX - self.sent { u64::MAX } else { self.sent + size };
                Some(d)
            },
            None => None,
        }
    }
}

/// The connection that the id `cid` leads to: the first entry of the table
/// with that id.
pub open spec fn route_of(routes: Seq<Route>, cid: ConnectionId) -> Option<usize>
    decreases routes.len(),
{
    if routes.len() == 0 {
        None
    } else if routes[0].cid == cid {
        Some(routes[0].key)
    } else {
        route_of(routes.subrange(1, routes.len() as int), cid)
    }
}

/// The table without the entries that lead to connections that are over.
pub open spec fn pruned(routes: Seq<Route>, entries: Seq<EntryModel>) -> Seq<Route>
    decreases routes.len(),
{
    if routes.len() == 0 {
        routes
    } else {
        let front = pruned(routes.drop_last(), entries);
        let r = routes.last();
        if r.key < entries.len() && entries[r.key as int].conn.life.state != ConnState::Closed {
            front.push(r)
        } else {
            front
        }
    }
}

/// The earliest time at which one of the first `upto` connections has to
/// be woken.
pub open spec fn earliest(entries: Seq<EntryModel>, upto: nat) -> Option<u64>
    decreases upto,
{
    if upto == 0 {
        None
    } else {
        sooner(earliest(entries, (upto - 1) as nat), entries[upto - 1].conn.next_timeout())
    }
}

/// The endpoint as a mathematical value.
pub struct EndpointModel {
    pub local: Address,
    pub entries: Seq<EntryModel>,
    pub routes: Seq<Route>,
    /// The connections that peers began, in the order in which they came.
    pub incoming: Seq<usize>,
    /// How many of them the application has accepted.
    pub accepted: nat,
    /// The configuration for connections that peers begin, if the endpoint
    /// takes any.
    pub server: Option<TransportConfig>,
    /// The configuration for connections that the endpoint begins.
    pub client: Option<TransportConfig>,
    pub closed: bool,
    /// The connection id that the endpoint hands out next.
    pub next_cid: u64,
}

impl EndpointModel {
    pub open spec fn wf(self) -> bool {
        &&& forall|i: int| 0 <= i < self.routes.len() ==> (#[trigger] self.routes[i]).key
            < self.entries.len()
        &&& forall|i: int| 0 <= i < self.incoming.len() ==> #[trigger] self.incoming[i]
            < self.entries.len()
        &&& forall|i: int| 0 <= i < self.entries.len() ==> (#[trigger] self.entries[i]).bounded()
        &&& self.accepted <= self.incoming.len()
        &&& self.server matches Some(c) ==> c.valid()
        &&& self.client matches Some(c) ==> c.valid()
    }

    /// Why a connection to `remote`, first addressed by `first`, cannot be
    /// begun, if it cannot.
    pub open spec fn connect_error(self, remote: Address, first: ConnectionId) -> Option<ConnectError> {
        if self.closed {
            Some(ConnectError::EndpointStopping)
        } else if self.client is None {
            Some(ConnectError::NoDefaultClientConfig)
        } else if !remote.spec_connectable() || (remote.v6 && !self.local.v6) {
            Some(ConnectError::InvalidRemoteAddress)
        } else if !self.has_room(first) {
            Some(ConnectError::TooManyConnections)
        } else {
            None
        }
    }

    /// Whether the endpoint has room for a further connection and an id
    /// for it that leads nowhere yet.
    pub open spec fn has_room(self, other: ConnectionId) -> bool {
        &&& self.entries.len() < usize::MAX
        &&& self.next_cid < u64::MAX
        &&& route_of(self.routes, ConnectionId(self.next_cid)) is None
        &&& other != ConnectionId(self.next_cid)
    }

    /// The entry of a connection that begins at `now`.
    pub open spec fn fresh_entry(self, side: Side, config: TransportConfig, now: u64, remote: Address, remote_cid: ConnectionId, early: Option<PeerLimits>) -> EntryModel {
        EntryModel {
            conn: ConnModel::begin(side, config, now, early),
            remote,
            local_cid: ConnectionId(self.next_cid),
            remote_cid,
            validated: side == Side::Client,
            received: 0,
            sent: 0,
            routed: true,
        }
    }

    /// The endpoint after it began a connection to `remote` at `now`. The
    /// peer is first addressed by `first`, an id that the caller drew at
    /// random.
    pub open spec fn after_connect(self, now: u64, remote: Address, first: ConnectionId, early: Option<PeerLimits>) -> EndpointModel {
        EndpointModel {
            entries: self.entries.push(
                self.fresh_entry(Side::Client, self.client->0, now, remote, first, early),
            ),
            routes: self.routes.push(
                Route { cid: ConnectionId(self.next_cid), key: self.entries.len() as usize },
            ),
            next_cid: (self.next_cid + 1) as u64,
            ..self
        }
    }

    /// Whether a datagram that finds no connection begins one.
    pub open spec fn takes_in(self, dcid: ConnectionId, level: Level) -> bool {
        !self.closed && self.server is Some && level == Level::Initial && self.has_room(dcid)
    }

    /// The endpoint after a datagram began a connection at `now`.
    pub open spec fn after_new(self, now: u64, remote: Address, dcid: ConnectionId, scid: ConnectionId, size: u64, packet: PacketView) -> EndpointModel {
        let key = self.entries.len() as usize;
        EndpointModel {
            entries: self.entries.push(
                self.fresh_entry(Side::Server, self.server->0, now, remote, scid, None).after_datagram(
                    now,
                    scid,
                    size,
                    packet,
                ),
            ),
            routes: self.routes.push(Route { cid: ConnectionId(self.next_cid), key }).push(
                Route { cid: dcid, key },
            ),
            incoming: self.incoming.push(key),
            next_cid: (self.next_cid + 1) as u64,
            ..self
        }
    }

    /// What becomes of a datagram: it goes to the connection that its id
    /// leads to, or begins a connection, or is dropped.
    pub open spec fn ending(self, dcid: ConnectionId, level: Level) -> Handled {
        match route_of(self.routes, dcid) {
            Some(key) => Handled::Routed(ConnectionHandle(key)),
            None => if self.takes_in(dcid, level) {
                Handled::New(ConnectionHandle(self.entries.len() as usize))
            } else {
                Handled::Dropped
            },
        }
    }

    /// The endpoint after a datagram of `size` bytes arrived from `remote`
    /// at `now`.
    pub open spec fn after_datagram(self, now: u64, remote: Address, dcid: ConnectionId, scid: ConnectionId, size: u64, packet: PacketView) -> EndpointModel {
        match self.ending(dcid, packet.level) {
            Handled::Routed(h) => EndpointModel {
                entries: self.entries.update(
                    h.0 as int,
                    self.entries[h.0 as int].after_datagram(now, scid, size, packet),
                ),
                ..self
            },
            Handled::New(_) => self.after_new(now, remote, dcid, scid, size, packet),
            Handled::Dropped => self,
        }
    }

    /// Whether no connection is left that has not come to its end.
    pub open spec fn idle(self) -> bool {
        forall|i: int|
            0 <= i < self.entries.len() ==> (#[trigger] self.entries[i]).conn.life.state
                == ConnState::Closed
    }
}

/// An endpoint.
pub struct Endpoint {
    local: Address,
    entries: Vec<Entry>,
    routes: Vec<Route>,
    incoming: Vec<usize>,
    accepted: usize,
    server: Option<TransportConfig>,
    client: Option<TransportConfig>,
    closed: bool,
    next_cid: u64,
}

impl View for Endpoint {
    type V = EndpointModel;

    closed spec fn view(&self) -> EndpointModel {
        EndpointModel {
            local: self.local,
            entries: Seq::new(self.entries@.len(), |i: int| self.entries@[i]@),
            routes: self.routes@,
            incoming: self.incoming@,
            accepted: self.accepted as nat,
            server: self.server,
            client: self.client,
            closed: self.closed,
            next_cid: self.next_cid,
        }
    }
}

/// Finds the connection that `cid` leads to.
fn find_route(routes: &Vec<Route>, cid: ConnectionId) -> (r: Option<usize>)
    ensures
        r == route_of(routes@, cid),
        r matches Some(k) ==> exists|i: int|
            0 <= i < routes@.len() && (#[trigger] routes@[i]).key == k && routes@[i].cid == cid,
{
    let n: usize = routes.len();
    let mut i: usize = 0;
    assert(routes@.subrange(0, n as int) =~= routes@);
    while i < n
        invariant
            i <= n,
            n == routes@.len(),
            route_of(routes@, cid) == route_of(routes@.subrange(i as int, n as int), cid),
        decreases n - i,
    {
        let ghost rest = routes@.subrange(i as int, n as int);
        assert(rest[0] == routes@[i as int]);
        assert(rest.subrange(1, rest.len() as int) =~= routes@.subrange(i + 1, n as int));
        if routes[i].cid == cid {
            return Some(routes[i].key);
        }
        i = i + 1;
    }
    assert(routes@.subrange(n as int, n as int).len() == 0);
    None
}

impl Endpoint {
    pub closed spec fn wf(&self) -> bool {
        &&& self@.wf()
        &&& forall|i: int| 0 <= i < self.entries@.len() ==> (#[trigger] self.entries@[i]).wf()
    }

    /// Validity of the endpoint implies validity of its model.
    pub proof fn lemma_wf_model(&self)
        requires
            self.wf(),
        ensures
            self@.wf(),
    {
    }

    /// The endpoint at the address `local` on which nothing has happened.
    pub open spec fn new_model(local: Address, server: Option<TransportConfig>, client: Option<TransportConfig>) -> EndpointModel {
        EndpointModel {
            local,
            entries: Seq::empty(),
            routes: Seq::empty(),
            incoming: Seq::empty(),
            accepted: 0,
            server,
            client,
            closed: false,
            next_cid: 0,
        }
    }

    /// An endpoint at the address `local`. With `server` it takes in the
    /// connections that peers begin, with `client` it can begin connections
    /// itself. A configuration that cannot be used is refused.
    pub fn new(local: Address, server: Option<TransportConfig>, client: Option<TransportConfig>) -> (r: Result<
        Endpoint,
        ConfigError,
    >)
        ensures
            match r {
                Ok(e) => e.wf() && e@ == Self::new_model(local, server, client) && (server matches Some(
                    c,
                ) ==> c.valid()) && (client matches Some(c) ==> c.valid()),
                Err(e) => (server is Some && server->0.spec_check() == Some(e)) || ((server is None
                    || server->0.valid()) && client is Some && client->0.spec_check() == Some(e)),
            },
    {
        match &server {
            Some(c) => match c.check() {
                Some(e) => {
                    return Err(e);
                },
                None => {},
            },
            None => {},
        }
        match &client {
            Some(c) => match c.check() {
                Some(e) => {
                    return Err(e);
                },
                None => {},
            },
            None => {},
        }
        let e = Endpoint {
            local,
            entries: Vec::new(),
            routes: Vec::new(),
            incoming: Vec::new(),
            accepted: 0,
            server,
            client,
            closed: false,
            next_cid: 0,
        };
        assert(e@.entries =~= Seq::<EntryModel>::empty());
        Ok(e)
    }

    pub fn local_addr(&self) -> (a: Address)
        ensures
            a == self@.local,
    {
        self.local
    }

    /// How many connections the endpoint has ever held.
    pub fn connections(&self) -> (n: usize)
        ensures
            n == self@.entries.len(),
    {
        self.entries.len()
    }

    fn has_room(&self, other: ConnectionId) -> (b: bool)
        ensures
            b == self@.has_room(other),
    {
        self.entries.len() < usize::MAX && self.next_cid < u64::MAX && find_route(
            &self.routes,
            ConnectionId(self.next_cid),
        ).is_none() && other.0 != self.next_cid
    }

    /// Begins a connection to `remote` at `now`. The peer is first addressed
    /// by `first`, an id that the caller drew at random; with `early` the
    /// streams can be used at once, under the limits of an earlier session.
    pub fn connect(&mut self, now: u64, remote: Address, first: ConnectionId, early: Option<PeerLimits>) -> (r: Result<
        ConnectionHandle,
        ConnectError,
    >)
        requires
            old(self).wf(),
        ensures
            final(self).wf(),
            match r {
                Err(e) => final(self)@ == old(self)@ && old(self)@.connect_error(remote, first)
                    == Some(e),
                Ok(h) => old(self)@.connect_error(remote, first) is None && h.0 == old(self)@.entries.len() && final(self)@ == old(self)@.after_connect(
                    now,
                    remote,
                    first,
                    early,
                ),
            },
    {
        if self.closed {
            return Err(ConnectError::EndpointStopping);
        }
        let config: TransportConfig = match self.client {
            Some(c) => c,
            None => {
                return Err(ConnectError::NoDefaultClientConfig);
            },
        };
        if !remote.connectable() || (remote.v6 && !self.local.v6) {
            return Err(ConnectError::InvalidRemoteAddress);
        }
        if !self.has_room(first) {
            return Err(ConnectError::TooManyConnections);
        }
        let ghost pre = self@;
        let key: usize = self.entries.len();
        let entry = Entry {
            conn: Connection::new(Side::Client, config, now, early),
            remote,
            local_cid: ConnectionId(self.next_cid),
            remote_cid: first,
            validated: true,
            received: 0,
            sent: 0,
            routed: true,
        };
        self.entries.push(entry);
        self.routes.push(Route { cid: ConnectionId(self.next_cid), key });
        self.next_cid = self.next_cid + 1;
        assert(self@.entries =~= pre.after_connect(now, remote, first, early).entries);
        Ok(ConnectionHandle(key))
    }

    /// Takes in a datagram of `size` bytes that arrived from `remote` at
    /// `now`.
    pub fn handle(&mut self, now: u64, remote: Address, size: u64, datagram: &Datagram) -> (r: Handled)
        requires
            old(self).wf(),
        ensures
            final(self).wf(),
            r == old(self)@.ending(datagram.dcid, datagram.packet.level),
            final(self)@ == old(self)@.after_datagram(
                now,
                remote,
                datagram.dcid,
                datagram.scid,
                size,
                datagram.packet@,
            ),
    {
        let ghost pre = self@;
        match find_route(&self.routes, datagram.dcid) {
            Some(key) => {
                let e = &mut self.entries[key];
                e.received = if size > u64::MAX - e.received { u64::MAX } else { e.received + size };
                match datagram.packet.level {
                    Level::Handshake => {
                        e.validated = true;
                    },
                    Level::OneRtt => {
                        e.validated = true;
                    },
                    _ => {},
                }
                e.remote_cid = datagram.scid;
                e.conn.handle_packet(now, &datagram.packet);
                assert(self@.entries =~= pre.after_datagram(
                    now,
                    remote,
                    datagram.dcid,
                    datagram.scid,
                    size,
                    datagram.packet@,
                ).entries);
                Handled::Routed(ConnectionHandle(key))
            },
            None => {
                let level_ok: bool = match datagram.packet.level {
                    Level::Initial => true,
                    _ => false,
                };
                let config: TransportConfig = match self.server {
                    Some(c) => c,
                    None => {
                        return Handled::Dropped;
                    },
                };
                if self.closed || !level_ok || !self.has_room(datagram.dcid) {
                    return Handled::Dropped;
                }
                let key: usize = self.entries.len();
                let mut conn = Connection::new(Side::Server, config, now, None);
                conn.handle_packet(now, &datagram.packet);
                let entry = Entry {
                    conn,
                    remote,
                    local_cid: ConnectionId(self.next_cid),
                    remote_cid: datagram.scid,
                    validated: false,
                    received: size,
                    sent: 0,
                    routed: true,
                };
                self.entries.push(entry);
                self.routes.push(Route { cid: ConnectionId(self.next_cid), key });
                self.routes.push(Route { cid: datagram.dcid, key });
                self.incoming.push(key);
                self.next_cid = self.next_cid + 1;
                assert(self@.entries =~= pre.after_datagram(
                    now,
                    remote,
                    datagram.dcid,
                    datagram.scid,
                    size,
                    datagram.packet@,
                ).entries);
                Handled::New(ConnectionHandle(key))
            },
        }
    }

    /// Gives the connection under the handle `h` a further id under which
    /// datagrams find it, so that the peer can go on when its address
    /// changes. The result is the new id, unless there is none to give.
    pub fn issue_cid(&mut self, h: ConnectionHandle) -> (r: Option<ConnectionId>)
        requires
            old(self).wf(),
        ensures
            final(self).wf(),
            r is Some <==> h.0 < old(self)@.entries.len() && old(self)@.entries[h.0 as int].routed
                && old(self)@.next_cid < u64::MAX && route_of(
                old(self)@.routes,
                ConnectionId(old(self)@.next_cid),
            ) is None,
            r is None ==> final(self)@ == old(self)@,
            r matches Some(cid) ==> cid == ConnectionId(old(self)@.next_cid) && final(self)@ == (
            EndpointModel {
                routes: old(self)@.routes.push(Route { cid, key: h.0 }),
                next_cid: (old(self)@.next_cid + 1) as u64,
                ..old(self)@
            }),
    {
        if h.0 >= self.entries.len() || !self.entries[h.0].routed || self.next_cid == u64::MAX {
            return None;
        }
        let cid = ConnectionId(self.next_cid);
        if find_route(&self.routes, cid).is_some() {
            return None;
        }
        let ghost pre = self@;
        self.routes.push(Route { cid, key: h.0 });
        self.next_cid = self.next_cid + 1;
        assert(self@.entries =~= pre.entries);
        Some(cid)
    }

    /// Hands the application the next connection that a peer began, in the
    /// order in which they came; each is handed out once.
    pub fn accept(&mut self) -> (r: Option<ConnectionHandle>)
        requires
            old(self).wf(),
        ensures
            final(self).wf(),
            match r {
                None => old(self)@.accepted == old(self)@.incoming.len() && final(self)@ == old(self)@,
                Some(h) => old(self)@.accepted < old(self)@.incoming.len() && h.0 == old(self)@.incoming[old(self)@.accepted as int] && final(self)@ == (EndpointModel {
                    accepted: old(self)@.accepted + 1,
                    ..old(self)@
                }),
            },
    {
        if self.accepted >= self.incoming.len() {
            return None;
        }
        let key: usize = self.incoming[self.accepted];
        let ghost pre = self@;
        self.accepted = self.accepted + 1;
        assert(self@.entries =~= pre.entries);
        Some(ConnectionHandle(key))
    }

    /// Whether no connection is left that has not come to its end.
    pub fn is_idle(&self) -> (b: bool)
        requires
            self.wf(),
        ensures
            b == self@.idle(),
    {
        let n: usize = self.entries.len();
        let mut i: usize = 0;
        while i < n
            invariant
                i <= n,
                n == self.entries@.len(),
                forall|j: int|
                    0 <= j < i ==> (#[trigger] self@.entries[j]).conn.life.state
                        == ConnState::Closed,
            decreases n - i,
        {
            if self.entries[i].conn.state() != ConnState::Closed {
                assert(self@.entries[i as int].conn.life.state != ConnState::Closed);
                return false;
            }
            i = i + 1;
        }
        true
    }
}

impl EndpointModel {
    /// The entries after the clock was found at `now` for the first `upto`
    /// of them. A connection that is over is no longer found by datagrams.
    pub open spec fn timed(self, now: u64, upto: int) -> Seq<EntryModel> {
        Seq::new(
            self.entries.len(),
            |i: int|
                if i < upto {
                    EntryModel {
                        conn: self.entries[i].conn.after_timeout(now),
                        routed: self.entries[i].routed && self.entries[i].conn.after_timeout(
                            now,
                        ).life.state != ConnState::Closed,
                        ..self.entries[i]
                    }
                } else {
                    self.entries[i]
                },
        )
    }

    /// The endpoint after the clock was found at `now`: every connection
    /// takes note, and the table no longer leads to those that are over.
    pub open spec fn after_timeout(self, now: u64) -> EndpointModel {
        let entries = self.timed(now, self.entries.len() as int);
        EndpointModel { entries, routes: pruned(self.routes, entries), ..self }
    }

    /// The entries after the first `upto` connections were closed.
    pub open spec fn shut(self, now: u64, code: u64, reason: Seq<u8>, upto: int) -> Seq<EntryModel> {
        Seq::new(
            self.entries.len(),
            |i: int|
                if i < upto {
                    EntryModel {
                        conn: self.entries[i].conn.after_close(now, code, reason),
                        ..self.entries[i]
                    }
                } else {
                    self.entries[i]
                },
        )
    }

    /// The endpoint after it was closed at `now`: it begins and takes in no
    /// further connection, and every connection that lives is closed from
    /// this side.
    pub open spec fn after_close(self, now: u64, code: u64, reason: Seq<u8>) -> EndpointModel {
        EndpointModel {
            entries: self.shut(now, code, reason, self.entries.len() as int),
            closed: true,
            ..self
        }
    }

    /// Whether the connection at the place `j` sends nothing at `now`: it
    /// may not send, or it has nothing to send.
    pub open spec fn quiet(self, now: u64, j: int) -> bool {
        self.entries[j].may_send() ==> self.entries[j].conn.sends(now, None, self.entries[j].conn)
    }

    /// Whether none of the first `upto` connections sends anything at
    /// `now`.
    pub open spec fn quiet_below(self, now: u64, upto: int) -> bool {
        forall|j: int| 0 <= j < upto ==> self.quiet(now, j)
    }

    /// Whether `out` is the datagram that the endpoint sends next at `now`,
    /// and `after` the endpoint once it has left: the packet of the first
    /// connection, in the order of the handles, that may send and has
    /// anything to send.
    pub open spec fn sends(self, now: u64, out: Option<(Address, ConnectionId, ConnectionId, PacketView)>, after: EndpointModel) -> bool {
        match out {
            None => after == self && self.quiet_below(now, self.entries.len() as int),
            Some((to, dcid, scid, packet)) => exists|key: int|
                {
                    &&& 0 <= key < self.entries.len()
                    &&& self.quiet_below(now, key)
                    &&& self.entries[key].may_send()
                    &&& self.entries[key].conn.sends(now, Some(packet), after.entries[key].conn)
                    &&& to == self.entries[key].remote
                    &&& dcid == self.entries[key].remote_cid
                    &&& scid == self.entries[key].local_cid
                    &&& after == (EndpointModel {
                        entries: self.entries.update(
                            key,
                            EntryModel {
                                conn: after.entries[key].conn,
                                sent: self.entries[key].sent_after(packet),
                                ..self.entries[key]
                            },
                        ),
                        ..self
                    })
                },
        }
    }
}

impl Endpoint {
    /// The connection under the handle `h`, if there is one.
    pub fn connection(&self, h: ConnectionHandle) -> (r: Option<&Connection>)
        requires
            self.wf(),
        ensures
            r is Some <==> h.0 < self@.entries.len(),
            r matches Some(c) ==> c.wf() && c@ == self@.entries[h.0 as int].conn,
    {
        if h.0 < self.entries.len() {
            Some(&self.entries[h.0].conn)
        } else {
            None
        }
    }

    /// The connection under the handle `h`, to be worked on. Whatever the
    /// caller does to the connection, the endpoint stays valid as long as
    /// the connection does.
    pub fn connection_mut(&mut self, h: ConnectionHandle) -> (r: Option<&mut Connection>)
        requires
            old(self).wf(),
        ensures
            r is Some <==> h.0 < old(self)@.entries.len(),
            r is None ==> final(self)@ == old(self)@ && final(self).wf(),
            r matches Some(c) ==> {
                &&& c.wf()
                &&& c@ == old(self)@.entries[h.0 as int].conn
                &&& final(self)@ == (EndpointModel {
                    entries: old(self)@.entries.update(
                        h.0 as int,
                        EntryModel { conn: final(c)@, ..old(self)@.entries[h.0 as int] },
                    ),
                    ..old(self)@
                })
                &&& final(c).wf() ==> final(self).wf()
            },
    {
        if h.0 < self.entries.len() {
            let ghost pre = self@;
            let c = &mut self.entries[h.0].conn;
            proof {
                assert(after_borrow(self)@.entries =~= pre.entries.update(
                    h.0 as int,
                    EntryModel { conn: final(c)@, ..pre.entries[h.0 as int] },
                ));
            }
            Some(c)
        } else {
            None
        }
    }

    /// The address of the peer of the connection under the handle `h`.
    pub fn remote_addr(&self, h: ConnectionHandle) -> (r: Option<Address>)
        requires
            self.wf(),
        ensures
            r is Some <==> h.0 < self@.entries.len(),
            r matches Some(a) ==> a == self@.entries[h.0 as int].remote,
    {
        if h.0 < self.entries.len() {
            Some(self.entries[h.0].remote)
        } else {
            None
        }
    }

    /// Hands out the datagram that the endpoint sends next at `now`, with
    /// the address that it goes to.
    pub fn poll_transmit(&mut self, now: u64) -> (r: Option<(Address, Datagram)>)
        requires
            old(self).wf(),
        ensures
            final(self).wf(),
            old(self)@.sends(
                now,
                match r {
                    Some((to, d)) => Some((to, d.dcid, d.scid, d.packet@)),
                    None => None,
                },
                final(self)@,
            ),
    {
        let ghost pre = self@;
        let n: usize = self.entries.len();
        let mut i: usize = 0;
        while i < n
            invariant
                i <= n,
                n == self.entries@.len(),
                self.wf(),
                self@ == pre,
                pre == old(self)@,
                pre.quiet_below(now, i as int),
            decreases n - i,
        {
            let to: Address = self.entries[i].remote;
            let ghost before = self.entries@[i as int]@;
            assert(self@.entries[i as int] == before);
            match self.entries[i].poll(now) {
                Some(d) => {
                    proof {
                        let key = i as int;
                        let after = self@;
                        let packet = d.packet@;
                        assert(after.entries[key] == self.entries@[key]@);
                        assert(pre.entries[key] == before);
                        assert(after.entries =~= pre.entries.update(key, after.entries[key]));
                        assert(pre.entries[key].may_send());
                        assert(pre.entries[key].conn.sends(
                            now,
                            Some(packet),
                            after.entries[key].conn,
                        ));
                        assert(after == (EndpointModel {
                            entries: pre.entries.update(
                                key,
                                EntryModel {
                                    conn: after.entries[key].conn,
                                    sent: pre.entries[key].sent_after(packet),
                                    ..pre.entries[key]
                                },
                            ),
                            ..pre
                        }));
                        assert(pre.sends(now, Some((to, d.dcid, d.scid, packet)), after));
                    }
                    return Some((to, d));
                },
                None => {
                    assert(self@.entries =~= pre.entries);
                    assert(pre.quiet(now, i as int));
                },
            }
            i = i + 1;
        }
        None
    }

    /// Takes in that the clock has reached `now`.
    pub fn handle_timeout(&mut self, now: u64)
        requires
            old(self).wf(),
        ensures
            final(self).wf(),
            final(self)@ == old(self)@.after_timeout(now),
    {
        let ghost pre = self@;
        let n: usize = self.entries.len();
        let mut i: usize = 0;
        assert(self@.entries =~= pre.timed(now, 0));
        while i < n
            invariant
                i <= n,
                n == self.entries@.len(),
                n == pre.entries.len(),
                pre.wf(),
                forall|j: int| 0 <= j < n ==> (#[trigger] self.entries@[j]).wf(),
                self@ == (EndpointModel { entries: pre.timed(now, i as int), ..pre }),
            decreases n - i,
        {
            let ghost before = self@;
            let e = &mut self.entries[i];
            e.conn.handle_timeout(now);
            if e.conn.state() == ConnState::Closed {
                e.routed = false;
            }
            i = i + 1;
            proof {
                assert forall|j: int| 0 <= j < n implies self@.entries[j] == pre.timed(
                    now,
                    i as int,
                )[j] by {
                    assert(before.entries[j] == pre.timed(now, i - 1)[j]);
                    if j != i - 1 {
                        assert(self@.entries[j] == before.entries[j]);
                    }
                }
                assert(self@.entries =~= pre.timed(now, i as int));
            }
        }
        let ghost entries = self@.entries;
        let mut kept: Vec<Route> = Vec::new();
        let m: usize = self.routes.len();
        let mut k: usize = 0;
        assert(self.routes@.take(0) =~= Seq::<Route>::empty());
        while k < m
            invariant
                k <= m,
                m == self.routes@.len(),
                n == self.entries@.len(),
                self.routes@ == pre.routes,
                entries == self@.entries,
                self@ == (EndpointModel { entries, ..pre }),
                kept@ == pruned(self.routes@.take(k as int), entries),
                forall|j: int| 0 <= j < kept@.len() ==> (#[trigger] kept@[j]).key < n,
            decreases m - k,
        {
            let r: Route = self.routes[k];
            proof {
                assert(self.routes@.take(k + 1).drop_last() =~= self.routes@.take(k as int));
                assert(self.routes@.take(k + 1).last() == r);
            }
            if r.key < n && self.entries[r.key].conn.state() != ConnState::Closed {
                kept.push(r);
            }
            k = k + 1;
        }
        proof {
            assert(self.routes@.take(k as int) =~= self.routes@);
        }
        self.routes = kept;
        assert(self@.entries =~= entries);
    }

    /// The time at which the clock has to wake the endpoint next: the
    /// earliest that any of its connections asks for.
    pub fn poll_timeout(&self) -> (t: Option<u64>)
        requires
            self.wf(),
        ensures
            t == earliest(self@.entries, self@.entries.len()),
    {
        let n: usize = self.entries.len();
        let mut best: Option<u64> = None;
        let mut i: usize = 0;
        while i < n
            invariant
                i <= n,
                n == self.entries@.len(),
                self.wf(),
                best == earliest(self@.entries, i as nat),
            decreases n - i,
        {
            let t: Option<u64> = self.entries[i].conn.poll_timeout();
            best = match (best, t) {
                (Some(x), Some(y)) => Some(if x < y { x } else { y }),
                (Some(x), None) => Some(x),
                (None, y) => y,
            };
            i = i + 1;
        }
        best
    }

    /// Closes the endpoint at `now`: it begins and takes in no further
    /// connection, and every connection is closed from this side, so that a
    /// connection that was just begun ends as closed by this side.
    pub fn close(&mut self, now: u64, code: u64, reason: &[u8])
        requires
            old(self).wf(),
        ensures
            final(self).wf(),
            final(self)@ == old(self)@.after_close(now, code, reason@),
    {
        let ghost pre = self@;
        self.closed = true;
        let n: usize = self.entries.len();
        let mut i: usize = 0;
        assert(self@.entries =~= pre.shut(now, code, reason@, 0));
        while i < n
            invariant
                i <= n,
                n == self.entries@.len(),
                n == pre.entries.len(),
                pre.wf(),
                forall|j: int| 0 <= j < n ==> (#[trigger] self.entries@[j]).wf(),
                self@ == (EndpointModel {
                    entries: pre.shut(now, code, reason@, i as int),
                    closed: true,
                    ..pre
                }),
            decreases n - i,
        {
            let ghost before = self@;
            let e = &mut self.entries[i];
            e.conn.close(now, code, reason);
            i = i + 1;
            proof {
                assert forall|j: int| 0 <= j < n implies self@.entries[j] == pre.shut(
                    now,
                    code,
                    reason@,
                    i as int,
                )[j] by {
                    assert(before.entries[j] == pre.shut(now, code, reason@, i - 1)[j]);
                    if j != i - 1 {
                        assert(self@.entries[j] == before.entries[j]);
                    }
                }
                assert(self@.entries =~= pre.shut(now, code, reason@, i as int));
            }
        }
    }
}

/// A connection that is closed with its endpoint right after it was begun
/// ends as closed by this side.
pub proof fn lemma_close_after_connect(e: EndpointModel, now: u64, remote: Address, first: ConnectionId, early: Option<PeerLimits>, later: u64, code: u64, reason: Seq<u8>)
    requires
        e.wf(),
        e.connect_error(remote, first) is None,
    ensures
        e.after_connect(now, remote, first, early).after_close(later, code, reason).entries.last().conn.life.error
            == Some(crate::error::ConnectionError::LocallyClosed),
        e.after_connect(now, remote, first, early).after_close(later, code, reason).entries.last().conn.life.state
            == ConnState::Closing,
        e.after_connect(now, remote, first, early).after_close(later, code, reason).closed,
{
}

/// Whatever arrives and whatever is sent, an endpoint sends to an address
/// that is not proven no more than three times what came from it.
pub proof fn lemma_amplification_bound(e: EndpointModel, key: int)
    requires
        e.wf(),
        0 <= key < e.entries.len(),
        !e.entries[key].validated,
    ensures
        e.entries[key].sent <= AMPLIFICATION * e.entries[key].received,
{
}

} // verus!
