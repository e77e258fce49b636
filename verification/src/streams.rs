//! The table of streams of one connection: it allocates identifiers, keeps
//! the two halves of every stream, and holds the credit of the connection.

use vstd::prelude::*;
use crate::error::{StreamError, TransportErrorCode};
use crate::frame::Frame;
use crate::flow::{CreditModel, FlowControlWindow, ReceiveCredit, WindowModel};
use crate::recv::{FrameError, ReadOutcome, ReadToEnd, RecvHalf, RecvModel, RecvState};
use crate::send::{Fate, SendHalf, SendModel, SendState, StreamData, Written};
use crate::stream_id::{Dir, Side, StreamId, MAX_STREAM_INDEX};

verus! {

/// One number for each direction of stream.
#[derive(Clone, Copy, Debug, PartialEq, Eq, Structural)]
pub struct PerDir {
    pub bi: u64,
    pub uni: u64,
}

impl PerDir {
    pub open spec fn spec_of(self, dir: Dir) -> u64 {
        match dir {
            Dir::Bi => self.bi,
            Dir::Uni => self.uni,
        }
    }

    pub open spec fn with(self, dir: Dir, value: u64) -> PerDir {
        match dir {
            Dir::Bi => PerDir { bi: value, ..self },
            Dir::Uni => PerDir { uni: value, ..self },
        }
    }

    #[verifier::when_used_as_spec(spec_of)]
    pub fn of(self, dir: Dir) -> (v: u64)
        ensures
            v == self.spec_of(dir),
    {
        match dir {
            Dir::Bi => self.bi,
            Dir::Uni => self.uni,
        }
    }

    fn set(&mut self, dir: Dir, value: u64)
        ensures
            *final(self) == old(self).with(dir, value),
    {
        match dir {
            Dir::Bi => {
                self.bi = value;
            },
            Dir::Uni => {
                self.uni = value;
            },
        }
    }

    /// No number of `self` is below its counterpart in `earlier`.
    pub open spec fn at_least(self, earlier: PerDir) -> bool {
        self.bi >= earlier.bi && self.uni >= earlier.uni
    }
}

/// The limits that one side of a connection sets for the other.
#[derive(Clone, Copy, Debug, PartialEq, Eq, Structural)]
pub struct StreamLimits {
    /// How many streams of each direction the other side may have open at
    /// one time.
    pub concurrent: PerDir,
    /// The credit of the connection as a whole.
    pub connection_window: u64,
    /// The credit of each stream.
    pub stream_window: u64,
}

/// The largest number of streams of one class.
pub const MAX_STREAMS: u64 = 1152921504606846976;

/// What an attempt to open a stream achieved.
#[derive(Clone, Copy, Debug, PartialEq, Eq, Structural)]
pub enum Opened {
    /// The new stream.
    Stream(StreamId),
    /// The peer allows no further stream of this direction now: the caller
    /// waits.
    Blocked,
}

/// One entry of the table as a mathematical value.
pub struct SlotModel {
    /// Whether the stream of this entry has been opened.
    pub open: bool,
    pub send: SendModel,
    pub recv: RecvModel,
    /// Whether the end of the stream has been counted.
    pub counted: bool,
}

impl SlotModel {
    /// An entry whose stream has not been opened.
    pub open spec fn vacant() -> SlotModel {
        SlotModel {
            open: false,
            send: SendModel::fresh(FlowControlWindow::new_model(0)),
            recv: RecvModel::fresh(ReceiveCredit::new_model(0, 1)),
            counted: false,
        }
    }

    /// The entry of a stream that has just been opened, with `credit` to
    /// send and a window of `window` to receive.
    pub open spec fn opened(credit: u64, window: u64, divisor: u64) -> SlotModel {
        SlotModel {
            open: true,
            send: SendModel::fresh(FlowControlWindow::new_model(credit)),
            recv: RecvModel::fresh(ReceiveCredit::new_model(window, divisor)),
            counted: false,
        }
    }

    pub open spec fn wf(self) -> bool {
        self.send.wf() && self.recv.wf()
    }

    /// The sending half has come to an end.
    pub open spec fn send_over(self) -> bool {
        self.send.state == SendState::DataRecvd || self.send.state == SendState::ResetRecvd
    }

    /// The receiving half has come to an end.
    pub open spec fn recv_over(self) -> bool {
        self.recv.state == RecvState::DataRead || self.recv.state == RecvState::ResetRead
    }
}

/// One entry of the table.
pub struct Slot {
    open: bool,
    send: SendHalf,
    recv: RecvHalf,
    counted: bool,
}

impl View for Slot {
    type V = SlotModel;

    closed spec fn view(&self) -> SlotModel {
        SlotModel { open: self.open, send: self.send@, recv: self.recv@, counted: self.counted }
    }
}

impl Slot {
    pub closed spec fn wf(&self) -> bool {
        self.send.wf() && self.recv.wf()
    }

    fn vacant() -> (s: Slot)
        ensures
            s.wf(),
            s@ == SlotModel::vacant(),
    {
        Slot { open: false, send: SendHalf::new(0), recv: RecvHalf::new(0, 1), counted: false }
    }

    fn opened(credit: u64, window: u64, divisor: u64) -> (s: Slot)
        ensures
            s.wf(),
            s@ == SlotModel::opened(credit, window, divisor),
    {
        Slot {
            open: true,
            send: SendHalf::new(credit),
            recv: RecvHalf::new(window, divisor),
            counted: false,
        }
    }
}

/// The largest number of streams of one class that the table can hold:
/// what the protocol can express and what this machine can address.
pub open spec fn stream_cap() -> u64 {
    if (usize::MAX / 4) as int <= MAX_STREAMS as int {
        (usize::MAX / 4) as u64
    } else {
        MAX_STREAMS
    }
}

/// The number of streams that `n` would allow, cut down to the largest
/// number that the table can hold.
pub open spec fn capped_streams(n: u64) -> u64 {
    if n <= stream_cap() {
        n
    } else {
        stream_cap()
    }
}

fn cap_streams(n: u64) -> (c: u64)
    ensures
        c == capped_streams(n),
{
    let m: u64 = (usize::MAX / 4) as u64;
    let cap: u64 = if m <= MAX_STREAMS { m } else { MAX_STREAMS };
    if n <= cap {
        n
    } else {
        cap
    }
}

/// Whether the side `side` sends on the stream `id`.
pub open spec fn sends_on(side: Side, id: StreamId) -> bool {
    id.spec_dir() == Dir::Bi || id.spec_initiator() == side
}

/// Whether the side `side` receives on the stream `id`.
pub open spec fn receives_on(side: Side, id: StreamId) -> bool {
    id.spec_dir() == Dir::Bi || id.spec_initiator() != side
}

/// The table as a mathematical value.
pub struct TableModel {
    pub side: Side,
    /// The entries, each at the place that its identifier names.
    pub slots: Seq<SlotModel>,
    /// How many streams this side has opened.
    pub opened: PerDir,
    /// How many streams the peer has opened.
    pub seen: PerDir,
    /// How many of the peer's streams the application has accepted.
    pub accepted: PerDir,
    /// How many of the peer's streams have come to an end.
    pub closed: PerDir,
    /// How many streams the peer allows this side to open in all.
    pub peer_max: PerDir,
    /// How many streams this side allows the peer to open in all.
    pub local_max: PerDir,
    /// The number last announced to the peer of `local_max`.
    pub announced_max: PerDir,
    /// What this side allows the peer.
    pub local: StreamLimits,
    /// The credit that the peer gives each stream of this side.
    pub peer_stream_credit: u64,
    /// The credit of the connection for what arrives.
    pub conn_recv: CreditModel,
    /// The credit of the connection for what is written.
    pub conn_send: WindowModel,
    /// An update is due once less than the window divided by this is left.
    pub divisor: u64,
}

impl TableModel {
    /// How many streams of the class of `id` exist.
    pub open spec fn count(self, id: StreamId) -> u64 {
        if id.spec_initiator() == self.side {
            self.opened.spec_of(id.spec_dir())
        } else {
            self.seen.spec_of(id.spec_dir())
        }
    }

    /// The stream `id` has been opened.
    pub open spec fn is_open(self, id: StreamId) -> bool {
        id.spec_index() < self.count(id)
    }

    pub open spec fn has_send(self, id: StreamId) -> bool {
        self.is_open(id) && sends_on(self.side, id)
    }

    pub open spec fn has_recv(self, id: StreamId) -> bool {
        self.is_open(id) && receives_on(self.side, id)
    }

    pub open spec fn slot(self, id: StreamId) -> SlotModel {
        self.slots[id.0 as int]
    }

    pub open spec fn wf(self) -> bool {
        &&& forall|i: int| 0 <= i < self.slots.len() ==> (#[trigger] self.slots[i]).wf()
        &&& forall|i: int|
            0 <= i < self.slots.len() ==> ((#[trigger] self.slots[i]).open <==> self.is_open(
                StreamId(i as u64),
            ))
        &&& forall|id: StreamId| #[trigger] self.is_open(id) ==> id.0 < self.slots.len()
        &&& self.slots.len() <= u64::MAX
        &&& self.opened.at_least(PerDir { bi: 0, uni: 0 })
        &&& self.peer_max.at_least(self.opened)
        &&& self.local_max.at_least(self.seen)
        &&& self.seen.at_least(self.accepted)
        &&& self.seen.at_least(self.closed)
        &&& self.local_max.at_least(self.announced_max)
        &&& self.local_max.bi <= self.closed.bi + self.local.concurrent.bi
        &&& self.local_max.uni <= self.closed.uni + self.local.concurrent.uni
        &&& self.peer_max.bi <= stream_cap()
        &&& self.peer_max.uni <= stream_cap()
        &&& self.local_max.bi <= stream_cap()
        &&& self.local_max.uni <= stream_cap()
        &&& self.conn_recv.wf()
        &&& self.conn_send.wf()
    }

    /// Nothing that only ever grows has shrunk from `self` to `later`.
    pub open spec fn precedes(self, later: TableModel) -> bool {
        &&& later.side == self.side
        &&& later.opened.at_least(self.opened)
        &&& later.seen.at_least(self.seen)
        &&& later.accepted.at_least(self.accepted)
        &&& later.closed.at_least(self.closed)
        &&& later.peer_max.at_least(self.peer_max)
        &&& later.local_max.at_least(self.local_max)
        &&& later.conn_recv.window.granted >= self.conn_recv.window.granted
        &&& later.conn_send.granted >= self.conn_send.granted
    }

    /// Whether a stream of direction `dir` can be opened now.
    pub open spec fn can_open(self, dir: Dir) -> bool {
        self.opened.spec_of(dir) < self.peer_max.spec_of(dir)
    }

    /// The identifier that the next stream of direction `dir` gets.
    pub open spec fn next_id(self, dir: Dir) -> StreamId {
        StreamId(StreamId::encode(self.side, dir, self.opened.spec_of(dir) as nat) as u64)
    }

    /// The entries after the one at `at` was put in place; entries that had
    /// to be added on the way are vacant.
    pub open spec fn placed(self, at: nat, slot: SlotModel) -> Seq<SlotModel> {
        let n = if self.slots.len() > at {
            self.slots.len()
        } else {
            at + 1
        };
        Seq::new(
            n,
            |i: int|
                if i == at {
                    slot
                } else if i < self.slots.len() {
                    self.slots[i]
                } else {
                    SlotModel::vacant()
                },
        )
    }

    /// The table after this side opened a stream of direction `dir`.
    pub open spec fn after_open(self, dir: Dir) -> TableModel {
        TableModel {
            slots: self.placed(
                self.next_id(dir).0 as nat,
                SlotModel::opened(self.peer_stream_credit, self.local.stream_window, self.divisor),
            ),
            opened: self.opened.with(dir, (self.opened.spec_of(dir) + 1) as u64),
            ..self
        }
    }

    /// Whether a stream of the peer waits to be accepted.
    pub open spec fn can_accept(self, dir: Dir) -> bool {
        self.accepted.spec_of(dir) < self.seen.spec_of(dir)
    }

    /// The identifier of the stream that is accepted next.
    pub open spec fn next_accept(self, dir: Dir) -> StreamId {
        StreamId(
            StreamId::encode(self.side.spec_peer(), dir, self.accepted.spec_of(dir) as nat) as u64,
        )
    }

    pub open spec fn after_accept(self, dir: Dir) -> TableModel {
        TableModel {
            accepted: self.accepted.with(dir, (self.accepted.spec_of(dir) + 1) as u64),
            ..self
        }
    }

    /// The table with the entry of `id` replaced.
    pub open spec fn with_slot(self, id: StreamId, slot: SlotModel) -> TableModel {
        TableModel { slots: self.slots.update(id.0 as int, slot), ..self }
    }

    /// The failure of a write on `id`, if it fails.
    pub open spec fn write_error(self, id: StreamId) -> Option<StreamError> {
        if !self.has_send(id) {
            Some(StreamError::UnknownStream)
        } else {
            self.slot(id).send.write_error()
        }
    }

    /// How many of `len` offered bytes a write on `id` accepts.
    pub open spec fn accepts(self, id: StreamId, len: nat) -> nat {
        self.slot(id).send.accepts(len, self.conn_send.remaining())
    }

    /// The table after `bytes` were accepted on `id`.
    pub open spec fn after_write(self, id: StreamId, bytes: Seq<u8>) -> TableModel {
        TableModel {
            conn_send: self.conn_send.consume(bytes.len()),
            ..self.with_slot(
                id,
                SlotModel { send: self.slot(id).send.after_write(bytes), ..self.slot(id) },
            )
        }
    }

    /// The failure of a finish on `id`, if it fails.
    pub open spec fn finish_error(self, id: StreamId) -> Option<StreamError> {
        if !self.has_send(id) {
            Some(StreamError::UnknownStream)
        } else {
            self.slot(id).send.finish_error()
        }
    }

    /// The table with the sending half of `id` replaced.
    pub open spec fn with_send(self, id: StreamId, send: SendModel) -> TableModel {
        self.with_slot(id, SlotModel { send, ..self.slot(id) })
    }

    /// The table with the receiving half of `id` replaced.
    pub open spec fn with_recv(self, id: StreamId, recv: RecvModel) -> TableModel {
        self.with_slot(id, SlotModel { recv, ..self.slot(id) })
    }

    /// The credit of the connection after the reader took `n` bytes out.
    pub open spec fn released(self, n: nat) -> CreditModel {
        if self.conn_recv.read + n <= self.conn_recv.window.consumed {
            self.conn_recv.release(n)
        } else {
            self.conn_recv
        }
    }

    /// The table after a read of at most `max` bytes on `id`.
    pub open spec fn after_read(self, id: StreamId, max: nat) -> TableModel {
        let recv = self.slot(id).recv;
        TableModel {
            conn_recv: self.released((recv.after_read(max).credit.read - recv.credit.read) as nat),
            ..self.with_recv(id, recv.after_read(max))
        }
    }
}

/// The table of streams of one connection.
pub struct StreamTable {
    side: Side,
    slots: Vec<Slot>,
    opened: PerDir,
    seen: PerDir,
    accepted: PerDir,
    closed: PerDir,
    peer_max: PerDir,
    local_max: PerDir,
    announced_max: PerDir,
    local: StreamLimits,
    peer_stream_credit: u64,
    conn_recv: ReceiveCredit,
    conn_send: FlowControlWindow,
    divisor: u64,
}

impl View for StreamTable {
    type V = TableModel;

    closed spec fn view(&self) -> TableModel {
        TableModel {
            side: self.side,
            slots: Seq::new(self.slots@.len(), |i: int| self.slots@[i]@),
            opened: self.opened,
            seen: self.seen,
            accepted: self.accepted,
            closed: self.closed,
            peer_max: self.peer_max,
            local_max: self.local_max,
            announced_max: self.announced_max,
            local: self.local,
            peer_stream_credit: self.peer_stream_credit,
            conn_recv: self.conn_recv@,
            conn_send: self.conn_send@,
            divisor: self.divisor,
        }
    }
}

impl StreamTable {
    pub closed spec fn wf(&self) -> bool {
        &&& self@.wf()
        &&& forall|i: int| 0 <= i < self.slots@.len() ==> (#[trigger] self.slots@[i]).wf()
    }

    /// Validity of the table implies validity of its model.
    pub proof fn lemma_wf_model(&self)
        requires
            self.wf(),
        ensures
            self@.wf(),
    {
    }

    /// The table of a fresh connection of `side`, which allows the peer
    /// `local` and has heard nothing of what the peer allows.
    pub open spec fn new_model(side: Side, local: StreamLimits, divisor: u64) -> TableModel {
        TableModel {
            side,
            slots: Seq::empty(),
            opened: PerDir { bi: 0, uni: 0 },
            seen: PerDir { bi: 0, uni: 0 },
            accepted: PerDir { bi: 0, uni: 0 },
            closed: PerDir { bi: 0, uni: 0 },
            peer_max: PerDir { bi: 0, uni: 0 },
            local_max: PerDir {
                bi: capped_streams(local.concurrent.bi),
                uni: capped_streams(local.concurrent.uni),
            },
            announced_max: PerDir {
                bi: capped_streams(local.concurrent.bi),
                uni: capped_streams(local.concurrent.uni),
            },
            local,
            peer_stream_credit: 0,
            conn_recv: ReceiveCredit::new_model(local.connection_window, divisor),
            conn_send: FlowControlWindow::new_model(0),
            divisor,
        }
    }

    pub fn new(side: Side, local: StreamLimits, divisor: u64) -> (t: StreamTable)
        ensures
            t.wf(),
            t@ == Self::new_model(side, local, divisor),
    {
        let max = PerDir {
            bi: cap_streams(local.concurrent.bi),
            uni: cap_streams(local.concurrent.uni),
        };
        let t = StreamTable {
            side,
            slots: Vec::new(),
            opened: PerDir { bi: 0, uni: 0 },
            seen: PerDir { bi: 0, uni: 0 },
            accepted: PerDir { bi: 0, uni: 0 },
            closed: PerDir { bi: 0, uni: 0 },
            peer_max: PerDir { bi: 0, uni: 0 },
            local_max: max,
            announced_max: max,
            local,
            peer_stream_credit: 0,
            conn_recv: ReceiveCredit::new(local.connection_window, divisor),
            conn_send: FlowControlWindow::new(0),
            divisor,
        };
        assert(t@.slots =~= Seq::<SlotModel>::empty());
        t
    }

    pub fn side(&self) -> (s: Side)
        ensures
            s == self@.side,
    {
        self.side
    }

    /// The credit of the connection that was last announced to the peer.
    pub fn connection_granted(&self) -> (g: u64)
        ensures
            g == self@.conn_recv.window.granted,
    {
        self.conn_recv.granted()
    }

    /// The credit of the stream `id` that was last announced to the peer,
    /// if the stream is open.
    pub fn stream_granted(&self, id: StreamId) -> (g: Option<u64>)
        requires
            self.wf(),
        ensures
            g is Some <==> self@.is_open(id),
            g matches Some(v) ==> v == self@.slot(id).recv.credit.window.granted,
    {
        if self.is_open(id) {
            Some(self.slots[id.0 as usize].recv.granted())
        } else {
            None
        }
    }

    /// The number of streams that the peer may open in all, as it was last
    /// announced.
    pub fn announced_streams(&self, dir: Dir) -> (n: u64)
        ensures
            n == self@.announced_max.spec_of(dir),
    {
        self.announced_max.of(dir)
    }

    /// The state of the two halves of the stream `id`, if it is open.
    pub fn states(&self, id: StreamId) -> (r: Option<(SendState, RecvState)>)
        requires
            self.wf(),
        ensures
            r is Some <==> self@.is_open(id),
            r matches Some(s) ==> s.0 == self@.slot(id).send.state && s.1 == self@.slot(
                id,
            ).recv.state,
    {
        if self.is_open(id) {
            Some((self.slots[id.0 as usize].send.state(), self.slots[id.0 as usize].recv.state()))
        } else {
            None
        }
    }

    /// Whether the stream `id` has been opened.
    pub fn is_open(&self, id: StreamId) -> (b: bool)
        requires
            self.wf(),
        ensures
            b == self@.is_open(id),
            b ==> id.0 < self@.slots.len(),
    {
        let count: u64 = if id.initiator() == self.side {
            self.opened.of(id.dir())
        } else {
            self.seen.of(id.dir())
        };
        id.index() < count
    }

    fn has_send(&self, id: StreamId) -> (b: bool)
        requires
            self.wf(),
        ensures
            b == self@.has_send(id),
            b ==> id.0 < self.slots@.len(),
    {
        self.is_open(id) && (id.dir() == Dir::Bi || id.initiator() == self.side)
    }

    fn has_recv(&self, id: StreamId) -> (b: bool)
        requires
            self.wf(),
        ensures
            b == self@.has_recv(id),
            b ==> id.0 < self.slots@.len(),
    {
        self.is_open(id) && (id.dir() == Dir::Bi || id.initiator() != self.side)
    }

    /// Puts `slot` at the place `at`, adding vacant entries as needed.
    fn place(&mut self, at: usize, slot: Slot)
        requires
            at < usize::MAX,
            forall|i: int| 0 <= i < old(self).slots@.len() ==> (#[trigger] old(self).slots@[i]).wf(),
            slot.wf(),
        ensures
            final(self)@ == (TableModel { slots: old(self)@.placed(at as nat, slot@), ..old(self)@ }),
            forall|i: int| 0 <= i < final(self).slots@.len() ==> (#[trigger] final(self).slots@[i]).wf(),
    {
        let ghost pre = self@;
        while self.slots.len() <= at
            invariant
                self.slots@.len() >= old(self).slots@.len(),
                self.slots@.len() <= at + 1 || self.slots@.len() == old(self).slots@.len(),
                at < usize::MAX,
                forall|i: int| 0 <= i < self.slots@.len() ==> (#[trigger] self.slots@[i]).wf(),
                forall|i: int|
                    0 <= i < old(self).slots@.len() ==> #[trigger] self.slots@[i] == old(self).slots@[i],
                forall|i: int|
                    old(self).slots@.len() <= i < self.slots@.len() ==> (#[trigger] self.slots@[i])@
                        == SlotModel::vacant(),
                self.side == old(self).side,
                self.opened == old(self).opened,
                self.seen == old(self).seen,
                self.accepted == old(self).accepted,
                self.closed == old(self).closed,
                self.peer_max == old(self).peer_max,
                self.local_max == old(self).local_max,
                self.announced_max == old(self).announced_max,
                self.local == old(self).local,
                self.peer_stream_credit == old(self).peer_stream_credit,
                self.conn_recv == old(self).conn_recv,
                self.conn_send == old(self).conn_send,
                self.divisor == old(self).divisor,
            decreases at + 1 - self.slots@.len(),
        {
            self.slots.push(Slot::vacant());
        }
        self.slots.set(at, slot);
        assert(self@.slots =~= pre.placed(at as nat, slot@));
    }

    /// Opens a stream of direction `dir`, when the peer allows a further
    /// one. The new identifier is the next of its class.
    pub fn open(&mut self, dir: Dir) -> (r: Opened)
        requires
            old(self).wf(),
        ensures
            old(self)@.open_yields(dir, r, final(self)@),
            final(self).wf(),
            old(self)@.precedes(final(self)@),
            match r {
                Opened::Blocked => !old(self)@.can_open(dir) && final(self)@ == old(self)@,
                Opened::Stream(id) => old(self)@.can_open(dir) && id == old(self)@.next_id(dir)
                    && id.spec_initiator() == old(self)@.side && id.spec_dir() == dir
                    && id.spec_index() == old(self)@.opened.spec_of(dir) && id.spec_index() < old(self)@.peer_max.spec_of(dir) && final(self)@ == old(self)@.after_open(dir),
            },
    {
        let index: u64 = self.opened.of(dir);
        if index >= self.peer_max.of(dir) {
            return Opened::Blocked;
        }
        let id = StreamId::new(self.side, dir, index);
        let slot = Slot::opened(self.peer_stream_credit, self.local.stream_window, self.divisor);
        let ghost pre = self@;
        self.place(id.0 as usize, slot);
        self.opened.set(dir, index + 1);
        proof {
            let post = self@;
            assert forall|i: int| 0 <= i < post.slots.len() implies ((#[trigger] post.slots[i]).open
                <==> post.is_open(StreamId(i as u64))) by {
                let other = StreamId(i as u64);
                crate::stream_id::lemma_encode_parts(other);
                crate::stream_id::lemma_encode_parts(id);
                if i != id.0 {
                    assert(post.is_open(other) <==> pre.is_open(other));
                    if i < pre.slots.len() {
                        assert(pre.slots[i].open <==> pre.is_open(other));
                    } else {
                        assert(post.slots[i] == SlotModel::vacant());
                    }
                }
            }
            assert forall|other: StreamId| #[trigger] post.is_open(other) implies other.0
                < post.slots.len() by {
                crate::stream_id::lemma_encode_parts(other);
                crate::stream_id::lemma_encode_parts(id);
                if other != id {
                    assert(pre.is_open(other));
                }
            }
        }
        Opened::Stream(id)
    }
}

impl TableModel {
    /// Whether the stream `id`, opened by the peer, has come to its end and
    /// has not been counted yet.
    pub open spec fn ends(self, id: StreamId) -> bool {
        &&& self.is_open(id)
        &&& id.spec_initiator() != self.side
        &&& !self.slot(id).counted
        &&& self.slot(id).recv_over()
        &&& id.spec_dir() == Dir::Bi ==> self.slot(id).send_over()
        &&& self.closed.spec_of(id.spec_dir()) < self.seen.spec_of(id.spec_dir())
    }

    /// How many streams of direction `dir` the peer may open in all once
    /// `closed` of them have ended: as many again as may be open at a time.
    pub open spec fn raised_max(self, dir: Dir, closed: u64) -> u64 {
        let want = closed + self.local.concurrent.spec_of(dir);
        let capped = if want <= stream_cap() {
            want as u64
        } else {
            stream_cap()
        };
        if capped > self.local_max.spec_of(dir) {
            capped
        } else {
            self.local_max.spec_of(dir)
        }
    }

    /// The table after the end of `id` was counted, if it is to be counted.
    pub open spec fn settled(self, id: StreamId) -> TableModel {
        if self.ends(id) {
            let dir = id.spec_dir();
            let closed = (self.closed.spec_of(dir) + 1) as u64;
            TableModel {
                slots: self.slots.update(id.0 as int, SlotModel { counted: true, ..self.slot(id) }),
                closed: self.closed.with(dir, closed),
                local_max: self.local_max.with(dir, self.raised_max(dir, closed)),
                ..self
            }
        } else {
            self
        }
    }

    /// The table after an attempt to read the rest of `id`.
    pub open spec fn after_read_to_end(self, id: StreamId, limit: nat) -> TableModel {
        let recv = self.slot(id).recv;
        TableModel {
            conn_recv: self.released(
                (recv.after_read_to_end(limit).credit.read - recv.credit.read) as nat,
            ),
            ..self.with_recv(id, recv.after_read_to_end(limit))
        }
    }
}

/// Replacing the entry of an open stream by another valid one keeps the
/// table valid.
pub proof fn lemma_with_slot_wf(t: TableModel, id: StreamId, slot: SlotModel)
    requires
        t.wf(),
        id.0 < t.slots.len(),
        slot.wf(),
        slot.open == t.slot(id).open,
    ensures
        t.with_slot(id, slot).wf(),
{
    let post = t.with_slot(id, slot);
    assert forall|i: int| 0 <= i < post.slots.len() implies ((#[trigger] post.slots[i]).open
        <==> post.is_open(StreamId(i as u64))) by {
        assert(t.slots[i].open <==> t.is_open(StreamId(i as u64)));
    }
    assert forall|other: StreamId| #[trigger] post.is_open(other) implies other.0
        < post.slots.len() by {
        assert(t.is_open(other));
    }
}

/// A table with the same entries and the same counts as a valid one is
/// valid when its two scopes of credit are.
pub proof fn lemma_wf_transfer(a: TableModel, b: TableModel)
    requires
        a.wf(),
        b.conn_recv.wf(),
        b.conn_send.wf(),
        b == (TableModel { conn_recv: b.conn_recv, conn_send: b.conn_send, ..a }),
    ensures
        b.wf(),
{
    assert forall|i: int| 0 <= i < b.slots.len() implies ((#[trigger] b.slots[i]).open
        <==> b.is_open(StreamId(i as u64))) by {
        assert(a.slots[i].open <==> a.is_open(StreamId(i as u64)));
    }
    assert forall|other: StreamId| #[trigger] b.is_open(other) implies other.0 < b.slots.len() by {
        assert(a.is_open(other));
    }
}

impl StreamTable {
    /// Counts the end of `id` when it has come, and allows the peer a
    /// further stream in its place.
    fn settle(&mut self, id: StreamId)
        requires
            old(self).wf(),
        ensures
            final(self).wf(),
            final(self)@ == old(self)@.settled(id),
            old(self)@.precedes(final(self)@),
    {
        if !self.is_open(id) || id.initiator() == self.side {
            return ;
        }
        let i: usize = id.0 as usize;
        let dir = id.dir();
        if self.slots[i].counted {
            return ;
        }
        let recv_over: bool = match self.slots[i].recv.state() {
            RecvState::DataRead => true,
            RecvState::ResetRead => true,
            _ => false,
        };
        let send_over: bool = match self.slots[i].send.state() {
            SendState::DataRecvd => true,
            SendState::ResetRecvd => true,
            _ => false,
        };
        let closed: u64 = self.closed.of(dir);
        if !recv_over || (dir == Dir::Bi && !send_over) || closed >= self.seen.of(dir) {
            return ;
        }
        let ghost pre = self@;
        self.slots[i].counted = true;
        self.closed.set(dir, closed + 1);
        let concurrent: u64 = self.local.concurrent.of(dir);
        let cap: u64 = cap_streams(u64::MAX);
        let want: u64 = if concurrent <= cap - (closed + 1) {
            closed + 1 + concurrent
        } else {
            cap
        };
        if want > self.local_max.of(dir) {
            self.local_max.set(dir, want);
        }
        proof {
            assert(self@.slots =~= pre.settled(id).slots);
            assert(self@ == pre.settled(id));
            let mid = pre.with_slot(id, SlotModel { counted: true, ..pre.slot(id) });
            lemma_with_slot_wf(pre, id, SlotModel { counted: true, ..pre.slot(id) });
            assert(mid.wf());
            let post = self@;
            assert forall|j: int| 0 <= j < post.slots.len() implies ((#[trigger] post.slots[j]).open
                <==> post.is_open(StreamId(j as u64))) by {
                assert(mid.slots[j].open <==> mid.is_open(StreamId(j as u64)));
            }
            assert forall|other: StreamId| #[trigger] post.is_open(other) implies other.0
                < post.slots.len() by {
                assert(mid.is_open(other));
            }
        }
    }

    /// Hands the application the next stream that the peer opened, in the
    /// order of the identifiers; each stream is handed out once.
    pub fn accept(&mut self, dir: Dir) -> (r: Option<StreamId>)
        requires
            old(self).wf(),
        ensures
            old(self)@.accept_yields(dir, r, final(self)@),
            final(self).wf(),
            old(self)@.precedes(final(self)@),
            match r {
                None => !old(self)@.can_accept(dir) && final(self)@ == old(self)@,
                Some(id) => old(self)@.can_accept(dir) && id == old(self)@.next_accept(dir)
                    && id.spec_initiator() == old(self)@.side.spec_peer() && id.spec_dir() == dir
                    && id.spec_index() == old(self)@.accepted.spec_of(dir) && final(self)@.is_open(
                    id,
                ) && final(self)@ == old(self)@.after_accept(dir),
            },
    {
        let index: u64 = self.accepted.of(dir);
        if index >= self.seen.of(dir) {
            return None;
        }
        let id = StreamId::new(self.side.peer(), dir, index);
        let ghost pre = self@;
        self.accepted.set(dir, index + 1);
        proof {
            let post = self@;
            assert(post.slots =~= pre.slots);
            assert forall|j: int| 0 <= j < post.slots.len() implies ((#[trigger] post.slots[j]).open
                <==> post.is_open(StreamId(j as u64))) by {
                assert(pre.slots[j].open <==> pre.is_open(StreamId(j as u64)));
            }
            assert forall|other: StreamId| #[trigger] post.is_open(other) implies other.0
                < post.slots.len() by {
                assert(pre.is_open(other));
            }
        }
        Some(id)
    }

    /// Accepts bytes from the front of `data` on the stream `id`, as many as
    /// the credit of the stream and of the connection allow.
    pub fn write(&mut self, id: StreamId, data: &[u8]) -> (r: Result<Written, StreamError>)
        requires
            old(self).wf(),
        ensures
            old(self)@.write_yields(id, data@, r, final(self)@),
            final(self).wf(),
            old(self)@.precedes(final(self)@),
            match r {
                Err(e) => old(self)@.write_error(id) == Some(e) && final(self)@ == old(self)@,
                Ok(Written::Blocked) => old(self)@.write_error(id) is None && data@.len() > 0
                    && old(self)@.accepts(id, data@.len()) == 0 && final(self)@ == old(self)@,
                Ok(Written::Accepted(n)) => old(self)@.write_error(id) is None && n == old(self)@.accepts(id, data@.len()) && (n > 0 || data@.len() == 0) && final(self)@ == old(self)@.after_write(id, data@.subrange(0, n as int)),
            },
    {
        if !self.has_send(id) {
            return Err(StreamError::UnknownStream);
        }
        let i: usize = id.0 as usize;
        let budget: u64 = self.conn_send.remaining();
        let ghost pre = self@;
        let r = self.slots[i].send.write(data, budget);
        match r {
            Ok(Written::Accepted(n)) => {
                let used = self.conn_send.consume(n as u64);
                assert(used is Ok);
                proof {
                    let bytes = data@.subrange(0, n as int);
                    let slot = SlotModel { send: pre.slot(id).send.after_write(bytes), ..pre.slot(id) };
                    assert(self@.slots =~= pre.after_write(id, bytes).slots);
                    self.slots@[i as int].send.lemma_wf_model();
                    self.slots@[i as int].recv.lemma_wf_model();
                    lemma_with_slot_wf(pre, id, slot);
                    lemma_wf_transfer(pre.with_slot(id, slot), self@);
                }
            },
            _ => {
                assert(self@.slots =~= pre.slots);
            },
        }
        r
    }

    /// Shows that the table is valid after the sending half of `id`
    /// changed.
    proof fn lemma_send_changed(&self, pre: TableModel, id: StreamId)
        requires
            pre.wf(),
            pre.is_open(id),
            self@ == pre.with_send(id, self@.slot(id).send),
            forall|i: int| 0 <= i < self.slots@.len() ==> (#[trigger] self.slots@[i]).wf(),
        ensures
            self.wf(),
    {
        let i = id.0 as int;
        assert(self@.slots.len() == pre.slots.len());
        assert(self@.slots[i] == self.slots@[i]@);
        self.slots@[i].send.lemma_wf_model();
        self.slots@[i].recv.lemma_wf_model();
        lemma_with_slot_wf(pre, id, self@.slot(id));
    }

    /// Shows that the table is valid after the receiving half of `id`
    /// changed.
    proof fn lemma_recv_changed(&self, pre: TableModel, id: StreamId)
        requires
            pre.wf(),
            pre.is_open(id),
            self@.slots == pre.with_recv(id, self@.slot(id).recv).slots,
            (TableModel { conn_recv: pre.conn_recv, ..self@ }) == pre.with_recv(
                id,
                self@.slot(id).recv,
            ),
            self@.conn_recv.wf(),
            forall|i: int| 0 <= i < self.slots@.len() ==> (#[trigger] self.slots@[i]).wf(),
        ensures
            self.wf(),
    {
        let i = id.0 as int;
        assert(self@.slots.len() == pre.slots.len());
        assert(self@.slots[i] == self.slots@[i]@);
        self.slots@[i].send.lemma_wf_model();
        self.slots@[i].recv.lemma_wf_model();
        let mid = pre.with_recv(id, self@.slot(id).recv);
        lemma_with_slot_wf(pre, id, self@.slot(id));
        assert(mid.wf());
        let post = self@;
        assert forall|j: int| 0 <= j < post.slots.len() implies ((#[trigger] post.slots[j]).open
            <==> post.is_open(StreamId(j as u64))) by {
            assert(mid.slots[j].open <==> mid.is_open(StreamId(j as u64)));
        }
        assert forall|other: StreamId| #[trigger] post.is_open(other) implies other.0
            < post.slots.len() by {
            assert(mid.is_open(other));
        }
    }

    /// Ends the stream `id` after what was written on it.
    pub fn finish(&mut self, id: StreamId) -> (r: Result<(), StreamError>)
        requires
            old(self).wf(),
        ensures
            old(self)@.finish_yields(id, r, final(self)@),
            final(self).wf(),
            old(self)@.precedes(final(self)@),
            match r {
                Err(e) => old(self)@.finish_error(id) == Some(e) && final(self)@ == old(self)@,
                Ok(()) => old(self)@.finish_error(id) is None && final(self)@ == old(self)@.with_send(id, old(self)@.slot(id).send.after_finish()),
            },
    {
        if !self.has_send(id) {
            return Err(StreamError::UnknownStream);
        }
        let i: usize = id.0 as usize;
        let ghost pre = self@;
        let r = self.slots[i].send.finish();
        proof {
            if r is Ok {
                assert(self@.slots =~= pre.with_send(id, pre.slot(id).send.after_finish()).slots);
                self.lemma_send_changed(pre, id);
            } else {
                assert(self@.slots =~= pre.slots);
            }
        }
        r
    }

    /// Abandons the sending half of the stream `id` with `code`.
    pub fn reset(&mut self, id: StreamId, code: u64) -> (r: Result<(), StreamError>)
        requires
            old(self).wf(),
        ensures
            old(self)@.reset_yields(id, code, r, final(self)@),
            final(self).wf(),
            old(self)@.precedes(final(self)@),
            r is Ok <==> old(self)@.has_send(id) && old(self)@.slot(id).send.resettable(),
            r is Ok ==> final(self)@ == old(self)@.with_send(
                id,
                old(self)@.slot(id).send.after_reset(code, false),
            ),
            r is Err ==> r == Err::<(), StreamError>(StreamError::UnknownStream) && final(self)@
                == old(self)@,
    {
        if !self.has_send(id) {
            return Err(StreamError::UnknownStream);
        }
        let i: usize = id.0 as usize;
        let ghost pre = self@;
        let r = self.slots[i].send.reset(code);
        proof {
            if r is Ok {
                assert(self@.slots =~= pre.with_send(
                    id,
                    pre.slot(id).send.after_reset(code, false),
                ).slots);
                self.lemma_send_changed(pre, id);
            } else {
                assert(self@.slots =~= pre.slots);
            }
        }
        r
    }

    /// Hands the reader the next bytes of the stream `id`, at most `max`.
    pub fn read(&mut self, id: StreamId, max: usize) -> (r: Result<ReadOutcome, StreamError>)
        requires
            old(self).wf(),
        ensures
            old(self)@.read_yields(id, max as nat, r, final(self)@),
            final(self).wf(),
            old(self)@.precedes(final(self)@),
            match r {
                Err(e) => e == StreamError::UnknownStream && !old(self)@.has_recv(id) && final(self)@ == old(self)@,
                Ok(out) => old(self)@.has_recv(id) && old(self)@.slot(id).recv.read_yields(
                    max as nat,
                    out,
                ) && final(self)@ == old(self)@.after_read(id, max as nat).settled(id),
            },
    {
        if !self.has_recv(id) {
            return Err(StreamError::UnknownStream);
        }
        let i: usize = id.0 as usize;
        let ghost pre = self@;
        let before: u64 = self.slots[i].recv.released();
        let out = self.slots[i].recv.read(max);
        let after: u64 = self.slots[i].recv.released();
        let n: u64 = if after > before { after - before } else { 0 };
        let done = self.conn_recv.release_checked(n);
        proof {
            crate::runs::lemma_run_content(pre.slot(id).recv.have, 0);
            assert(pre.slots[id.0 as int].wf());
            assert(self@.slots =~= pre.after_read(id, max as nat).slots);
            assert(self@ == pre.after_read(id, max as nat));
            self.lemma_recv_changed(pre, id);
        }
        self.settle(id);
        Ok(out)
    }

    /// Hands the reader the rest of the stream `id`, once all of it is
    /// there, unless that is more than `limit` bytes.
    pub fn read_to_end(&mut self, id: StreamId, limit: usize) -> (r: Result<ReadToEnd, StreamError>)
        requires
            old(self).wf(),
        ensures
            old(self)@.read_to_end_yields(id, limit as nat, r, final(self)@),
            final(self).wf(),
            old(self)@.precedes(final(self)@),
            match r {
                Err(e) => e == StreamError::UnknownStream && !old(self)@.has_recv(id) && final(self)@ == old(self)@,
                Ok(out) => old(self)@.has_recv(id) && old(self)@.slot(id).recv.read_to_end_yields(
                    limit as nat,
                    out,
                ) && final(self)@ == old(self)@.after_read_to_end(id, limit as nat).settled(id),
            },
    {
        if !self.has_recv(id) {
            return Err(StreamError::UnknownStream);
        }
        let i: usize = id.0 as usize;
        let ghost pre = self@;
        let before: u64 = self.slots[i].recv.released();
        let out = self.slots[i].recv.read_to_end(limit);
        let after: u64 = self.slots[i].recv.released();
        let n: u64 = if after > before { after - before } else { 0 };
        let done = self.conn_recv.release_checked(n);
        proof {
            crate::runs::lemma_run_content(pre.slot(id).recv.have, 0);
            assert(pre.slots[id.0 as int].wf());
            assert(self@.slots =~= pre.after_read_to_end(id, limit as nat).slots);
            assert(self@ == pre.after_read_to_end(id, limit as nat));
            self.lemma_recv_changed(pre, id);
        }
        self.settle(id);
        Ok(out)
    }
}

impl TableModel {
    /// The table after the peer opened its next stream of direction `dir`.
    pub open spec fn open_remote(self, dir: Dir) -> TableModel {
        TableModel {
            slots: self.placed(
                StreamId::encode(self.side.spec_peer(), dir, self.seen.spec_of(dir) as nat),
                SlotModel::opened(self.peer_stream_credit, self.local.stream_window, self.divisor),
            ),
            seen: self.seen.with(dir, (self.seen.spec_of(dir) + 1) as u64),
            ..self
        }
    }

    /// The table after the peer opened its next `n` streams of direction
    /// `dir`.
    pub open spec fn open_remote_n(self, dir: Dir, n: nat) -> TableModel
        decreases n,
    {
        if n == 0 {
            self
        } else {
            self.open_remote_n(dir, (n - 1) as nat).open_remote(dir)
        }
    }

    /// How many streams of the peer a frame for `id` opens: a frame for a
    /// stream opens every stream of its class up to it.
    pub open spec fn missing(self, id: StreamId) -> nat {
        if id.spec_initiator() != self.side && id.spec_index() >= self.seen.spec_of(id.spec_dir()) {
            (id.spec_index() + 1 - self.seen.spec_of(id.spec_dir())) as nat
        } else {
            0
        }
    }

    /// Why a frame of the peer for the stream `id` cannot be taken, if it
    /// cannot; `for_send` tells whether the frame concerns the half on which
    /// this side sends.
    pub open spec fn admit_error(self, id: StreamId, for_send: bool) -> Option<TransportErrorCode> {
        if (for_send && !sends_on(self.side, id)) || (!for_send && !receives_on(self.side, id)) {
            Some(TransportErrorCode::StreamState)
        } else if id.spec_initiator() == self.side {
            if self.is_open(id) {
                None
            } else {
                Some(TransportErrorCode::StreamState)
            }
        } else if id.spec_index() >= self.local_max.spec_of(id.spec_dir()) {
            Some(TransportErrorCode::StreamLimit)
        } else {
            None
        }
    }

    /// The table after the streams that a frame for `id` opens were opened.
    pub open spec fn admitted(self, id: StreamId) -> TableModel {
        self.open_remote_n(id.spec_dir(), self.missing(id))
    }

    /// The breach that remains once the stream itself has examined a frame:
    /// its own finding, or the credit of the connection exceeded.
    pub open spec fn recv_check(self, found: Option<FrameError>, growth: nat) -> Option<
        TransportErrorCode,
    > {
        match found {
            Some(FrameError::FlowControl) => Some(TransportErrorCode::FlowControl),
            Some(FrameError::FinalSize) => Some(TransportErrorCode::FinalSize),
            None => if self.conn_recv.window.admits(growth) {
                None
            } else {
                Some(TransportErrorCode::FlowControl)
            },
        }
    }

    /// The breach that a frame of stream data commits, if any.
    pub open spec fn stream_frame_error(self, id: StreamId, offset: nat, len: nat, fin: bool) -> Option<
        TransportErrorCode,
    > {
        match self.admit_error(id, false) {
            Some(e) => Some(e),
            None => {
                let recv = self.admitted(id).slot(id).recv;
                self.recv_check(recv.frame_error(offset, len, fin), recv.growth(offset, len))
            },
        }
    }

    /// The table after a frame of stream data that commits no breach.
    pub open spec fn after_stream_frame(self, id: StreamId, offset: nat, data: Seq<u8>, fin: bool) -> TableModel {
        let t = self.admitted(id);
        let recv = t.slot(id).recv;
        TableModel {
            conn_recv: t.conn_recv.receive(recv.growth(offset, data.len())),
            ..t.with_recv(id, recv.on_frame(offset, data, fin))
        }
    }

    /// The breach that the peer's notice of an abandoned stream commits.
    pub open spec fn reset_stream_error(self, id: StreamId, final_size: nat) -> Option<
        TransportErrorCode,
    > {
        match self.admit_error(id, false) {
            Some(e) => Some(e),
            None => {
                let recv = self.admitted(id).slot(id).recv;
                self.recv_check(
                    recv.reset_error(final_size),
                    if recv.state == RecvState::DataRead {
                        0
                    } else {
                        recv.growth(0, final_size)
                    },
                )
            },
        }
    }

    /// The table after the peer's notice of an abandoned stream.
    pub open spec fn after_reset_stream(self, id: StreamId, code: u64, final_size: nat) -> TableModel {
        let t = self.admitted(id);
        let recv = t.slot(id).recv;
        TableModel {
            conn_recv: t.conn_recv.receive(
                if recv.state == RecvState::DataRead {
                    0
                } else {
                    recv.growth(0, final_size)
                },
            ),
            ..t.with_recv(id, recv.on_reset(code, final_size))
        }
    }

    /// The table after the peer asked that `id` no longer be written.
    pub open spec fn after_stop_sending(self, id: StreamId, code: u64) -> TableModel {
        let t = self.admitted(id);
        t.with_send(
            id,
            if t.slot(id).send.resettable() {
                t.slot(id).send.after_reset(code, true)
            } else {
                t.slot(id).send
            },
        )
    }

    /// The table after the peer announced the credit `limit` for `id`.
    pub open spec fn after_max_stream_data(self, id: StreamId, limit: u64) -> TableModel {
        let t = self.admitted(id);
        t.with_send(
            id,
            SendModel { credit: t.slot(id).send.credit.raise(limit as nat), ..t.slot(id).send },
        )
    }

    /// The table after a frame for `id` was refused: the streams that the
    /// frame opens were opened if the frame could be taken to its stream.
    pub open spec fn refused(self, id: StreamId) -> TableModel {
        if self.admit_error(id, false) is Some {
            self
        } else {
            self.admitted(id)
        }
    }

    /// The table after the peer's notice of an abandoned stream was
    /// refused: where the stream took the notice and only the credit of the
    /// connection was exceeded, the stream keeps it.
    pub open spec fn refused_reset(self, id: StreamId, code: u64, final_size: nat) -> TableModel {
        if self.admit_error(id, false) is Some {
            self
        } else {
            let t = self.admitted(id);
            if t.slot(id).recv.reset_error(final_size) is Some {
                t
            } else {
                t.with_recv(id, t.slot(id).recv.on_reset(code, final_size))
            }
        }
    }

    /// The number of streams that the peer allows after it announced
    /// `limit` for the direction `dir`: the number never goes down.
    pub open spec fn raised_peer_max(self, dir: Dir, limit: u64) -> PerDir {
        if capped_streams(limit) > self.peer_max.spec_of(dir) {
            self.peer_max.with(dir, capped_streams(limit))
        } else {
            self.peer_max
        }
    }
}

/// Opening streams of the peer keeps the table valid and lets nothing
/// shrink.
pub proof fn lemma_open_remote_wf(t: TableModel, dir: Dir)
    requires
        t.wf(),
        t.seen.spec_of(dir) < t.local_max.spec_of(dir),
    ensures
        t.open_remote(dir).wf(),
        t.precedes(t.open_remote(dir)),
        t.open_remote(dir).local_max == t.local_max,
        t.open_remote(dir).side == t.side,
{
    let post = t.open_remote(dir);
    let at = StreamId::encode(t.side.spec_peer(), dir, t.seen.spec_of(dir) as nat);
    let id = StreamId(at as u64);
    crate::stream_id::lemma_encode_parts(id);
    assert forall|i: int| 0 <= i < post.slots.len() implies ((#[trigger] post.slots[i]).open
        <==> post.is_open(StreamId(i as u64))) by {
        let other = StreamId(i as u64);
        crate::stream_id::lemma_encode_parts(other);
        if i != id.0 {
            assert(post.is_open(other) <==> t.is_open(other));
            if i < t.slots.len() {
                assert(t.slots[i].open <==> t.is_open(other));
            } else {
                assert(post.slots[i] == SlotModel::vacant());
            }
        }
    }
    assert forall|other: StreamId| #[trigger] post.is_open(other) implies other.0
        < post.slots.len() by {
        crate::stream_id::lemma_encode_parts(other);
        if other != id {
            assert(t.is_open(other));
        }
    }
    assert forall|i: int| 0 <= i < post.slots.len() implies (#[trigger] post.slots[i]).wf() by {
        if i != id.0 && i < t.slots.len() {
            assert(t.slots[i].wf());
        }
    }
}

impl StreamTable {
    /// Opens the peer's next stream of direction `dir`.
    fn open_remote(&mut self, dir: Dir)
        requires
            old(self).wf(),
            old(self)@.seen.spec_of(dir) < old(self)@.local_max.spec_of(dir),
        ensures
            final(self).wf(),
            final(self)@ == old(self)@.open_remote(dir),
    {
        let index: u64 = self.seen.of(dir);
        let id = StreamId::new(self.side.peer(), dir, index);
        let slot = Slot::opened(self.peer_stream_credit, self.local.stream_window, self.divisor);
        proof {
            lemma_open_remote_wf(self@, dir);
        }
        self.place(id.0 as usize, slot);
        self.seen.set(dir, index + 1);
    }

    /// Opens the streams that a frame of the peer for `id` opens, unless
    /// the frame cannot be taken.
    fn take_in(&mut self, id: StreamId, for_send: bool) -> (r: Result<(), TransportErrorCode>)
        requires
            old(self).wf(),
        ensures
            final(self).wf(),
            old(self)@.precedes(final(self)@),
            match r {
                Err(e) => old(self)@.admit_error(id, for_send) == Some(e) && final(self)@ == old(self)@,
                Ok(()) => old(self)@.admit_error(id, for_send) is None && final(self)@ == old(self)@.admitted(id) && final(self)@.is_open(id) && final(self)@.conn_recv == old(self)@.conn_recv,
            },
    {
        let dir = id.dir();
        let local: bool = id.initiator() == self.side;
        let sends: bool = dir == Dir::Bi || local;
        let receives: bool = dir == Dir::Bi || !local;
        if (for_send && !sends) || (!for_send && !receives) {
            return Err(TransportErrorCode::StreamState);
        }
        if local {
            if self.is_open(id) {
                return Ok(());
            }
            return Err(TransportErrorCode::StreamState);
        }
        if id.index() >= self.local_max.of(dir) {
            return Err(TransportErrorCode::StreamLimit);
        }
        let ghost pre = self@;
        let target: u64 = id.index() + 1;
        let ghost start = self.seen.of(dir);
        while self.seen.of(dir) < target
            invariant
                self.wf(),
                pre.wf(),
                pre.precedes(self@),
                start == pre.seen.spec_of(dir),
                start <= self@.seen.spec_of(dir),
                self@.seen.spec_of(dir) <= target || start >= target,
                start >= target ==> self@.seen.spec_of(dir) == start,
                target <= self@.local_max.spec_of(dir),
                self@.local_max == pre.local_max,
                self@.conn_recv == pre.conn_recv,
                self@.side == pre.side,
                self@ == pre.open_remote_n(dir, (self@.seen.spec_of(dir) - start) as nat),
            decreases target - self@.seen.spec_of(dir),
        {
            proof {
                lemma_open_remote_wf(self@, dir);
            }
            self.open_remote(dir);
        }
        Ok(())
    }

    fn breach(found: FrameError) -> (code: TransportErrorCode)
        ensures
            code == (match found {
                FrameError::FlowControl => TransportErrorCode::FlowControl,
                FrameError::FinalSize => TransportErrorCode::FinalSize,
            }),
    {
        match found {
            FrameError::FlowControl => TransportErrorCode::FlowControl,
            FrameError::FinalSize => TransportErrorCode::FinalSize,
        }
    }

    /// Takes in a frame of stream data of the peer. A frame that breaks the
    /// protocol is refused: the breach is fatal to the connection.
    pub fn on_stream_frame(&mut self, id: StreamId, offset: u64, data: &[u8], fin: bool) -> (r: Result<
        (),
        TransportErrorCode,
    >)
        requires
            old(self).wf(),
        ensures
            final(self).wf(),
            old(self)@.precedes(final(self)@),
            match r {
                Err(e) => old(self)@.stream_frame_error(id, offset as nat, data@.len(), fin)
                    == Some(e) && final(self)@ == old(self)@.refused(id),
                Ok(()) => old(self)@.stream_frame_error(id, offset as nat, data@.len(), fin)
                    is None && final(self)@ == old(self)@.after_stream_frame(
                    id,
                    offset as nat,
                    data@,
                    fin,
                ),
            },
    {
        match self.take_in(id, false) {
            Err(e) => {
                return Err(e);
            },
            Ok(()) => {},
        }
        let i: usize = id.0 as usize;
        let ghost mid = self@;
        let growth: u64 = match self.slots[i].recv.examine(offset, data.len(), fin) {
            Err(e) => {
                return Err(Self::breach(e));
            },
            Ok(g) => g,
        };
        match self.conn_recv.receive(growth) {
            Err(_) => {
                proof {
                    assert(self@.slots =~= mid.slots);
                }
                return Err(TransportErrorCode::FlowControl);
            },
            Ok(()) => {},
        }
        let taken = self.slots[i].recv.on_frame(offset, data, fin);
        proof {
            assert(self@.slots =~= mid.with_recv(
                id,
                mid.slot(id).recv.on_frame(offset as nat, data@, fin),
            ).slots);
            self.lemma_recv_changed(mid, id);
        }
        Ok(())
    }

    /// Takes in the peer's notice that it abandoned a stream.
    pub fn on_reset_stream(&mut self, id: StreamId, code: u64, final_size: u64) -> (r: Result<
        (),
        TransportErrorCode,
    >)
        requires
            old(self).wf(),
        ensures
            final(self).wf(),
            old(self)@.precedes(final(self)@),
            match r {
                Err(e) => old(self)@.reset_stream_error(id, final_size as nat) == Some(e) && final(self)@ == old(self)@.refused_reset(id, code, final_size as nat),
                Ok(()) => old(self)@.reset_stream_error(id, final_size as nat) is None && final(self)@ == old(self)@.after_reset_stream(id, code, final_size as nat),
            },
    {
        match self.take_in(id, false) {
            Err(e) => {
                return Err(e);
            },
            Ok(()) => {},
        }
        let i: usize = id.0 as usize;
        let ghost mid = self@;
        let growth: u64 = match self.slots[i].recv.on_reset(code, final_size) {
            Err(e) => {
                proof {
                    assert(self@.slots =~= mid.slots);
                }
                return Err(Self::breach(e));
            },
            Ok(g) => g,
        };
        proof {
            assert(self@.slots =~= mid.with_recv(
                id,
                mid.slot(id).recv.on_reset(code, final_size as nat),
            ).slots);
            self.lemma_recv_changed(mid, id);
        }
        match self.conn_recv.receive(growth) {
            Err(_) => {
                proof {
                    lemma_wf_transfer(mid.with_recv(
                        id,
                        mid.slot(id).recv.on_reset(code, final_size as nat),
                    ), self@);
                }
                return Err(TransportErrorCode::FlowControl);
            },
            Ok(()) => {},
        }
        proof {
            lemma_wf_transfer(
                mid.with_recv(id, mid.slot(id).recv.on_reset(code, final_size as nat)),
                self@,
            );
        }
        Ok(())
    }

    /// Takes in the peer's request that a stream no longer be written.
    pub fn on_stop_sending(&mut self, id: StreamId, code: u64) -> (r: Result<(), TransportErrorCode>)
        requires
            old(self).wf(),
        ensures
            r is Ok ==> final(self)@ == old(self)@.after_stop_sending(id, code),
            final(self).wf(),
            old(self)@.precedes(final(self)@),
            match r {
                Err(e) => old(self)@.admit_error(id, true) == Some(e) && final(self)@ == old(self)@,
                Ok(()) => old(self)@.admit_error(id, true) is None && final(self)@ == old(self)@.admitted(id).with_send(
                    id,
                    if old(self)@.admitted(id).slot(id).send.resettable() {
                        old(self)@.admitted(id).slot(id).send.after_reset(code, true)
                    } else {
                        old(self)@.admitted(id).slot(id).send
                    },
                ),
            },
    {
        match self.take_in(id, true) {
            Err(e) => {
                return Err(e);
            },
            Ok(()) => {},
        }
        let i: usize = id.0 as usize;
        let ghost mid = self@;
        self.slots[i].send.on_stop_sending(code);
        proof {
            assert(self@.slots =~= mid.with_send(id, self@.slot(id).send).slots);
            self.lemma_send_changed(mid, id);
        }
        Ok(())
    }

    /// Takes in new credit of the peer for one stream.
    pub fn on_max_stream_data(&mut self, id: StreamId, limit: u64) -> (r: Result<
        (),
        TransportErrorCode,
    >)
        requires
            old(self).wf(),
        ensures
            r is Ok ==> final(self)@ == old(self)@.after_max_stream_data(id, limit),
            final(self).wf(),
            old(self)@.precedes(final(self)@),
            match r {
                Err(e) => old(self)@.admit_error(id, true) == Some(e) && final(self)@ == old(self)@,
                Ok(()) => old(self)@.admit_error(id, true) is None && final(self)@ == old(self)@.admitted(id).with_send(
                    id,
                    SendModel {
                        credit: old(self)@.admitted(id).slot(id).send.credit.raise(limit as nat),
                        ..old(self)@.admitted(id).slot(id).send
                    },
                ),
            },
    {
        match self.take_in(id, true) {
            Err(e) => {
                return Err(e);
            },
            Ok(()) => {},
        }
        let i: usize = id.0 as usize;
        let ghost mid = self@;
        let grew = self.slots[i].send.on_max_stream_data(limit);
        proof {
            assert(self@.slots =~= mid.with_send(id, self@.slot(id).send).slots);
            self.lemma_send_changed(mid, id);
        }
        Ok(())
    }

    /// Takes in new credit of the peer for the connection. The credit never
    /// shrinks.
    pub fn on_max_data(&mut self, limit: u64)
        requires
            old(self).wf(),
        ensures
            final(self).wf(),
            old(self)@.precedes(final(self)@),
            final(self)@ == (TableModel {
                conn_send: old(self)@.conn_send.raise(limit as nat),
                ..old(self)@
            }),
    {
        let ghost pre = self@;
        let grew = self.conn_send.raise(limit);
        proof {
            assert(self@.slots =~= pre.slots);
            lemma_wf_transfer(pre, self@);
        }
    }

    /// Takes in a new number of streams that the peer allows in all. The
    /// number never shrinks.
    pub fn on_max_streams(&mut self, dir: Dir, limit: u64)
        requires
            old(self).wf(),
        ensures
            final(self).wf(),
            old(self)@.precedes(final(self)@),
            final(self)@ == (TableModel {
                peer_max: old(self)@.raised_peer_max(dir, limit),
                ..old(self)@
            }),
    {
        let ghost pre = self@;
        let capped: u64 = cap_streams(limit);
        if capped > self.peer_max.of(dir) {
            self.peer_max.set(dir, capped);
        }
        proof {
            let post = self@;
            assert(post.slots =~= pre.slots);
            assert forall|j: int| 0 <= j < post.slots.len() implies ((#[trigger] post.slots[j]).open
                <==> post.is_open(StreamId(j as u64))) by {
                assert(pre.slots[j].open <==> pre.is_open(StreamId(j as u64)));
            }
            assert forall|other: StreamId| #[trigger] post.is_open(other) implies other.0
                < post.slots.len() by {
                assert(pre.is_open(other));
            }
        }
    }

    /// Takes in what became of a frame of stream data that was sent:
    /// acknowledged, or declared lost.
    pub fn on_stream_fate(&mut self, id: StreamId, offset: u64, len: u64, fin: bool, acked: bool)
        requires
            old(self).wf(),
        ensures
            final(self)@ == old(self)@.after_stream_fate(id, offset as nat, len as nat, fin, acked),
            final(self).wf(),
            old(self)@.precedes(final(self)@),
            final(self)@ == (if old(self)@.has_send(id) {
                old(self)@.with_send(
                    id,
                    if acked {
                        old(self)@.slot(id).send.after_ack(offset as nat, len as nat, fin)
                    } else {
                        old(self)@.slot(id).send.after_loss(offset as nat, len as nat, fin)
                    },
                ).settled(id)
            } else {
                old(self)@
            }),
    {
        if !self.has_send(id) {
            return ;
        }
        let i: usize = id.0 as usize;
        let ghost pre = self@;
        if acked {
            self.slots[i].send.on_ack(offset, len, fin);
        } else {
            self.slots[i].send.on_loss(offset, len, fin);
        }
        proof {
            assert(self@.slots =~= pre.with_send(id, self@.slot(id).send).slots);
            self.lemma_send_changed(pre, id);
        }
        self.settle(id);
    }

    /// Takes in what became of the notice that a stream was abandoned.
    pub fn on_reset_fate(&mut self, id: StreamId, acked: bool)
        requires
            old(self).wf(),
        ensures
            final(self)@ == old(self)@.after_reset_fate(id, acked),
            final(self).wf(),
            old(self)@.precedes(final(self)@),
            final(self)@ == (if old(self)@.has_send(id) {
                old(self)@.with_send(
                    id,
                    old(self)@.slot(id).send.after_reset_fate(acked),
                ).settled(id)
            } else {
                old(self)@
            }),
    {
        if !self.has_send(id) {
            return ;
        }
        let i: usize = id.0 as usize;
        let ghost pre = self@;
        self.slots[i].send.on_reset_fate(acked);
        proof {
            assert(self@.slots =~= pre.with_send(id, self@.slot(id).send).slots);
            self.lemma_send_changed(pre, id);
        }
        self.settle(id);
    }
}

impl TableModel {
    /// Whether the stream at the place `j` has data to transmit.
    pub open spec fn can_transmit(self, j: int, max: nat) -> bool {
        self.slots[j].open && self.slots[j].send.next_frame(max) is Some
    }

    /// Whether new credit is to be announced for the stream at the place `j`.
    pub open spec fn update_due(self, j: int) -> bool {
        let r = self.slots[j].recv;
        self.slots[j].open && !r.is_reset() && r.final_size is None && r.credit.update_due()
    }

    /// Whether the peer is to be told that the stream at the place `j` was
    /// abandoned.
    pub open spec fn reset_due(self, j: int) -> bool {
        self.slots[j].open && self.slots[j].send.reset_due()
    }

    /// Whether nothing but stream data waits to be sent.
    pub open spec fn control_idle(self) -> bool {
        &&& !self.conn_recv.update_due()
        &&& self.local_max == self.announced_max
        &&& forall|j: int| 0 <= j < self.slots.len() ==> !self.update_due(j) && !self.reset_due(j)
    }

    /// Whether `frame` is the control frame that is to be sent next, and
    /// `after` the table once it has been handed out. The credit of the
    /// connection comes first, the numbers of streams next, the streams in
    /// the order of their places last.
    pub open spec fn control_next(self, frame: Frame, after: TableModel) -> bool {
        match frame {
            Frame::MaxData(limit) => {
                &&& self.conn_recv.update_due()
                &&& after == (TableModel { conn_recv: self.conn_recv.grant(), ..self })
                &&& limit == after.conn_recv.window.granted
                &&& limit > self.conn_recv.window.granted
            },
            Frame::MaxStreams { dir, limit } => {
                &&& !self.conn_recv.update_due()
                &&& limit == self.local_max.spec_of(dir)
                &&& limit > self.announced_max.spec_of(dir)
                &&& dir == Dir::Uni ==> self.local_max.bi == self.announced_max.bi
                &&& after == (TableModel {
                    announced_max: self.announced_max.with(dir, limit),
                    ..self
                })
            },
            Frame::MaxStreamData { id, limit } => {
                &&& !self.conn_recv.update_due()
                &&& self.local_max == self.announced_max
                &&& id.0 < self.slots.len()
                &&& self.update_due(id.0 as int)
                &&& forall|j: int| 0 <= j < id.0 ==> !self.update_due(j) && !self.reset_due(j)
                &&& after == self.with_recv(
                    id,
                    RecvModel { credit: self.slot(id).recv.credit.grant(), ..self.slot(id).recv },
                )
                &&& limit == after.slot(id).recv.credit.window.granted
                &&& limit > self.slot(id).recv.credit.window.granted
            },
            Frame::ResetStream { id, code, final_size } => {
                &&& !self.conn_recv.update_due()
                &&& self.local_max == self.announced_max
                &&& id.0 < self.slots.len()
                &&& !self.update_due(id.0 as int)
                &&& self.reset_due(id.0 as int)
                &&& forall|j: int| 0 <= j < id.0 ==> !self.update_due(j) && !self.reset_due(j)
                &&& after == self.with_send(
                    id,
                    SendModel { reset: Fate::InFlight, ..self.slot(id).send },
                )
                &&& code == self.slot(id).send.reset_code
                &&& final_size == self.slot(id).send.data.len()
            },
            _ => false,
        }
    }

    /// The entries after every open stream took note of `credit` from the
    /// peer.
    pub open spec fn credited(self, credit: u64, upto: int) -> Seq<SlotModel> {
        Seq::new(
            self.slots.len(),
            |j: int|
                if j < upto && self.slots[j].open {
                    SlotModel {
                        send: SendModel {
                            credit: self.slots[j].send.credit.raise(credit as nat),
                            ..self.slots[j].send
                        },
                        ..self.slots[j]
                    }
                } else {
                    self.slots[j]
                },
        )
    }

    /// The table after the limits that the peer sets became known: how
    /// many streams it allows, and how much credit it gives the connection
    /// and each stream. Nothing that was allowed before is taken back.
    pub open spec fn after_peer_limits(self, streams: PerDir, connection: u64, stream: u64) -> TableModel {
        TableModel {
            peer_max: (TableModel {
                peer_max: self.raised_peer_max(Dir::Bi, streams.bi),
                ..self
            }).raised_peer_max(Dir::Uni, streams.uni),
            conn_send: self.conn_send.raise(connection as nat),
            peer_stream_credit: stream,
            slots: self.credited(stream, self.slots.len() as int),
            ..self
        }
    }
}

/// A table that differs from a valid one in nothing that the counts and the
/// validity of the entries depend on is valid.
pub proof fn lemma_wf_same_counts(a: TableModel, b: TableModel)
    requires
        a.wf(),
        b.conn_recv.wf(),
        b.conn_send.wf(),
        b.slots.len() == a.slots.len(),
        forall|j: int| 0 <= j < b.slots.len() ==> (#[trigger] b.slots[j]).wf() && b.slots[j].open
            == a.slots[j].open,
        b.side == a.side,
        b.opened == a.opened,
        b.seen == a.seen,
        b.accepted == a.accepted,
        b.closed == a.closed,
        b.peer_max.at_least(a.peer_max),
        b.peer_max.bi <= stream_cap(),
        b.peer_max.uni <= stream_cap(),
        b.local_max == a.local_max,
        b.local == a.local,
        a.announced_max.at_least(b.announced_max) || b.local_max.at_least(b.announced_max),
    ensures
        b.wf(),
{
    assert forall|i: int| 0 <= i < b.slots.len() implies ((#[trigger] b.slots[i]).open
        <==> b.is_open(StreamId(i as u64))) by {
        assert(a.slots[i].open <==> a.is_open(StreamId(i as u64)));
    }
    assert forall|other: StreamId| #[trigger] b.is_open(other) implies other.0 < b.slots.len() by {
        assert(a.is_open(other));
    }
}

impl StreamTable {
    /// Hands out the next frame of stream data, of at most `max` bytes, from
    /// the first stream, in the order of the places, that has any to send.
    pub fn poll_stream(&mut self, max: usize) -> (r: Option<(StreamId, StreamData)>)
        requires
            old(self).wf(),
        ensures
            final(self).wf(),
            old(self)@.precedes(final(self)@),
            match r {
                None => final(self)@ == old(self)@ && forall|j: int|
                    0 <= j < old(self)@.slots.len() ==> !old(self)@.can_transmit(j, max as nat),
                Some((id, f)) => id.0 < old(self)@.slots.len() && old(self)@.slot(id).open && old(self)@.slot(id).send.next_frame(max as nat) == Some(f@) && (forall|j: int|
                    0 <= j < id.0 ==> !old(self)@.can_transmit(j, max as nat)) && final(self)@
                    == old(self)@.with_send(
                    id,
                    old(self)@.slot(id).send.after_transmit(max as nat),
                ),
            },
    {
        let ghost pre = self@;
        let n: usize = self.slots.len();
        let mut i: usize = 0;
        while i < n
            invariant
                i <= n,
                n == self.slots@.len(),
                self.wf(),
                self@ == pre,
                pre == old(self)@,
                pre.wf(),
                forall|j: int| 0 <= j < i ==> !pre.can_transmit(j, max as nat),
            decreases n - i,
        {
            if self.slots[i].open {
                let id = StreamId(i as u64);
                match self.slots[i].send.poll_transmit(max) {
                    Some(f) => {
                        proof {
                            assert(pre.slots[i as int].open <==> pre.is_open(id));
                            assert(self@.slots =~= pre.with_send(
                                id,
                                pre.slot(id).send.after_transmit(max as nat),
                            ).slots);
                            self.lemma_send_changed(pre, id);
                        }
                        return Some((id, f));
                    },
                    None => {
                        assert(self@.slots =~= pre.slots);
                    },
                }
            }
            i = i + 1;
        }
        None
    }

    /// Hands out the next control frame that the table has to send: new
    /// credit, a new number of streams, or the notice of an abandoned
    /// stream.
    pub fn poll_control(&mut self) -> (r: Option<Frame>)
        requires
            old(self).wf(),
        ensures
            final(self).wf(),
            old(self)@.precedes(final(self)@),
            match r {
                None => final(self)@ == old(self)@ && old(self)@.control_idle(),
                Some(frame) => old(self)@.control_next(frame, final(self)@),
            },
    {
        let ghost pre = self@;
        match self.conn_recv.take_update() {
            Some(limit) => {
                proof {
                    assert(self@.slots =~= pre.slots);
                    crate::flow::lemma_grant_monotone(pre.conn_recv);
                    lemma_wf_transfer(pre, self@);
                }
                return Some(Frame::MaxData(limit));
            },
            None => {},
        }
        assert(self@.slots =~= pre.slots);
        if self.local_max.bi > self.announced_max.bi {
            self.announced_max.bi = self.local_max.bi;
            proof {
                assert(self@.slots =~= pre.slots);
                lemma_wf_same_counts(pre, self@);
            }
            return Some(Frame::MaxStreams { dir: Dir::Bi, limit: self.local_max.bi });
        }
        if self.local_max.uni > self.announced_max.uni {
            self.announced_max.uni = self.local_max.uni;
            proof {
                assert(self@.slots =~= pre.slots);
                lemma_wf_same_counts(pre, self@);
            }
            return Some(Frame::MaxStreams { dir: Dir::Uni, limit: self.local_max.uni });
        }
        let n: usize = self.slots.len();
        let mut i: usize = 0;
        while i < n
            invariant
                i <= n,
                n == self.slots@.len(),
                self.wf(),
                self@ == pre,
                pre == old(self)@,
                pre.wf(),
                !pre.conn_recv.update_due(),
                pre.local_max == pre.announced_max,
                forall|j: int| 0 <= j < i ==> !pre.update_due(j) && !pre.reset_due(j),
            decreases n - i,
        {
            if self.slots[i].open {
                let id = StreamId(i as u64);
                proof {
                    assert(pre.slots[i as int].open <==> pre.is_open(id));
                    assert(pre.slots[i as int].wf());
                }
                match self.slots[i].recv.take_update() {
                    Some(limit) => {
                        proof {
                            assert(self@.slots =~= pre.with_recv(id, self@.slot(id).recv).slots);
                            self.lemma_recv_changed(pre, id);
                        }
                        return Some(Frame::MaxStreamData { id, limit });
                    },
                    None => {},
                }
                assert(self@.slots =~= pre.slots);
                match self.slots[i].send.poll_reset() {
                    Some((code, final_size)) => {
                        proof {
                            assert(self@.slots =~= pre.with_send(id, self@.slot(id).send).slots);
                            self.lemma_send_changed(pre, id);
                        }
                        return Some(Frame::ResetStream { id, code, final_size });
                    },
                    None => {},
                }
                assert(self@.slots =~= pre.slots);
            }
            i = i + 1;
        }
        None
    }

    /// Takes note of the limits that the peer sets. Nothing that was
    /// allowed before is taken back.
    pub fn set_peer_limits(&mut self, streams: PerDir, connection: u64, stream: u64)
        requires
            old(self).wf(),
        ensures
            final(self).wf(),
            old(self)@.precedes(final(self)@),
            final(self)@ == old(self)@.after_peer_limits(streams, connection, stream),
    {
        let ghost pre = self@;
        let bi: u64 = cap_streams(streams.bi);
        if bi > self.peer_max.bi {
            self.peer_max.bi = bi;
        }
        let uni: u64 = cap_streams(streams.uni);
        if uni > self.peer_max.uni {
            self.peer_max.uni = uni;
        }
        let grew = self.conn_send.raise(connection);
        self.peer_stream_credit = stream;
        let n: usize = self.slots.len();
        let mut i: usize = 0;
        assert(self@.slots =~= pre.credited(stream, 0));
        while i < n
            invariant
                i <= n,
                n == self.slots@.len(),
                n == pre.slots.len(),
                pre.wf(),
                forall|j: int| 0 <= j < n ==> (#[trigger] self.slots@[j]).wf(),
                self@ == (TableModel {
                    slots: pre.credited(stream, i as int),
                    ..pre.after_peer_limits(streams, connection, stream)
                }),
            decreases n - i,
        {
            let ghost before = self@;
            if self.slots[i].open {
                let grew = self.slots[i].send.on_max_stream_data(stream);
            }
            i = i + 1;
            proof {
                assert forall|j: int| 0 <= j < n implies self@.slots[j] == pre.credited(
                    stream,
                    i as int,
                )[j] by {
                    assert(before.slots[j] == pre.credited(stream, i - 1)[j]);
                    if j != i - 1 {
                        assert(self@.slots[j] == before.slots[j]);
                    }
                }
                assert(self@.slots =~= pre.credited(stream, i as int));
            }
        }
        proof {
            let post = self@;
            assert forall|j: int| 0 <= j < post.slots.len() implies (#[trigger] post.slots[j]).wf()
                && post.slots[j].open == pre.slots[j].open by {
                assert(post.slots[j] == self.slots@[j]@);
                self.slots@[j].send.lemma_wf_model();
                self.slots@[j].recv.lemma_wf_model();
            }
            lemma_wf_same_counts(pre, post);
        }
    }
}

impl TableModel {
    /// The table after it was learned what became of a frame of stream data
    /// that was sent.
    pub open spec fn after_stream_fate(self, id: StreamId, offset: nat, len: nat, fin: bool, acked: bool) -> TableModel {
        if self.has_send(id) {
            self.with_send(
                id,
                if acked {
                    self.slot(id).send.after_ack(offset, len, fin)
                } else {
                    self.slot(id).send.after_loss(offset, len, fin)
                },
            ).settled(id)
        } else {
            self
        }
    }

    /// The table after it was learned what became of the notice that a
    /// stream was abandoned.
    pub open spec fn after_reset_fate(self, id: StreamId, acked: bool) -> TableModel {
        if self.has_send(id) {
            self.with_send(id, self.slot(id).send.after_reset_fate(acked)).settled(id)
        } else {
            self
        }
    }

    /// Whether `r` and `after` are what an attempt to open a stream of
    /// direction `dir` gives.
    pub open spec fn open_yields(self, dir: Dir, r: Opened, after: TableModel) -> bool {
        match r {
            Opened::Blocked => !self.can_open(dir) && after == self,
            Opened::Stream(id) => self.can_open(dir) && id == self.next_id(dir) && id.spec_index()
                < self.peer_max.spec_of(dir) && after == self.after_open(dir),
        }
    }

    /// Whether `r` and `after` are what an attempt to accept a stream of
    /// direction `dir` gives.
    pub open spec fn accept_yields(self, dir: Dir, r: Option<StreamId>, after: TableModel) -> bool {
        match r {
            None => !self.can_accept(dir) && after == self,
            Some(id) => self.can_accept(dir) && id == self.next_accept(dir) && after
                == self.after_accept(dir),
        }
    }

    /// Whether `r` and `after` are what a write of `data` on `id` gives.
    pub open spec fn write_yields(
        self,
        id: StreamId,
        data: Seq<u8>,
        r: Result<Written, StreamError>,
        after: TableModel,
    ) -> bool {
        match r {
            Err(e) => self.write_error(id) == Some(e) && after == self,
            Ok(Written::Blocked) => self.write_error(id) is None && data.len() > 0 && self.accepts(
                id,
                data.len(),
            ) == 0 && after == self,
            Ok(Written::Accepted(n)) => self.write_error(id) is None && n == self.accepts(
                id,
                data.len(),
            ) && (n > 0 || data.len() == 0) && after == self.after_write(
                id,
                data.subrange(0, n as int),
            ),
        }
    }

    /// Whether `r` and `after` are what a finish on `id` gives.
    pub open spec fn finish_yields(self, id: StreamId, r: Result<(), StreamError>, after: TableModel) -> bool {
        match r {
            Err(e) => self.finish_error(id) == Some(e) && after == self,
            Ok(()) => self.finish_error(id) is None && after == self.with_send(
                id,
                self.slot(id).send.after_finish(),
            ),
        }
    }

    /// Whether `r` and `after` are what a reset of `id` with `code` gives.
    pub open spec fn reset_yields(
        self,
        id: StreamId,
        code: u64,
        r: Result<(), StreamError>,
        after: TableModel,
    ) -> bool {
        match r {
            Err(e) => e == StreamError::UnknownStream && !(self.has_send(id) && self.slot(
                id,
            ).send.resettable()) && after == self,
            Ok(()) => self.has_send(id) && self.slot(id).send.resettable() && after
                == self.with_send(id, self.slot(id).send.after_reset(code, false)),
        }
    }

    /// Whether `r` and `after` are what a read of at most `max` bytes on
    /// `id` gives.
    pub open spec fn read_yields(
        self,
        id: StreamId,
        max: nat,
        r: Result<ReadOutcome, StreamError>,
        after: TableModel,
    ) -> bool {
        match r {
            Err(e) => e == StreamError::UnknownStream && !self.has_recv(id) && after == self,
            Ok(out) => self.has_recv(id) && self.slot(id).recv.read_yields(max, out) && after
                == self.after_read(id, max).settled(id),
        }
    }

    /// Whether `r` and `after` are what an attempt to read the rest of `id`
    /// gives.
    pub open spec fn read_to_end_yields(
        self,
        id: StreamId,
        limit: nat,
        r: Result<ReadToEnd, StreamError>,
        after: TableModel,
    ) -> bool {
        match r {
            Err(e) => e == StreamError::UnknownStream && !self.has_recv(id) && after == self,
            Ok(out) => self.has_recv(id) && self.slot(id).recv.read_to_end_yields(limit, out)
                && after == self.after_read_to_end(id, limit).settled(id),
        }
    }
}

/// Whether the tables are the states of one table in the order of time:
/// each is valid, and from each to the next nothing that only ever grows
/// has shrunk. Every operation of a table takes it to such a next state.
pub open spec fn history(tables: Seq<TableModel>) -> bool {
    &&& forall|k: int| 0 <= k < tables.len() ==> (#[trigger] tables[k]).wf()
    &&& forall|k: int|
        0 <= k < tables.len() - 1 ==> (#[trigger] tables[k]).precedes(tables[k + 1])
}

/// In a history every earlier state precedes every later one.
pub proof fn lemma_history_precedes(tables: Seq<TableModel>, a: int, b: int)
    requires
        history(tables),
        0 <= a <= b < tables.len(),
    ensures
        tables[a].precedes(tables[b]),
    decreases b - a,
{
    if a < b {
        lemma_history_precedes(tables, a, b - 1);
        assert(tables[b - 1].precedes(tables[b]));
    }
}

/// Over the whole life of a table, whatever happens to it in whatever
/// order: of two streams of one direction that this side opens, the one
/// that is opened later has the larger identifier of the same class, so
/// that no identifier is used twice, and each lies under the number of
/// streams that the peer allowed at the time of its opening.
pub proof fn lemma_ids_increase_in_history(tables: Seq<TableModel>, i: int, j: int, dir: Dir)
    requires
        history(tables),
        0 <= i < j < tables.len(),
        tables[i].can_open(dir),
        tables[i + 1] == tables[i].after_open(dir),
        tables[j].can_open(dir),
    ensures
        tables[i].next_id(dir).same_class(tables[j].next_id(dir)),
        tables[i].next_id(dir).0 < tables[j].next_id(dir).0,
        tables[i].next_id(dir).spec_index() < tables[i].peer_max.spec_of(dir),
        tables[j].next_id(dir).spec_index() < tables[j].peer_max.spec_of(dir),
{
    lemma_history_precedes(tables, i + 1, j);
    lemma_ids_increase(tables[i], tables[j], dir);
}

/// No more streams of the peer are open at a time than this side allows:
/// of the streams that the peer has opened, all but so many have ended.
pub proof fn lemma_concurrency_bound(t: TableModel, dir: Dir)
    requires
        t.wf(),
    ensures
        t.seen.spec_of(dir) <= t.closed.spec_of(dir) + t.local.concurrent.spec_of(dir),
{
}

/// The next opening waits for the end of an earlier stream. Where the side
/// that opens knows no higher limit than the other side has set, it has
/// opened no more streams than have ended there and may be open at a time;
/// and when it has opened that many, the next opening is held back until
/// the other side has counted the end of a stream and raised the limit.
pub proof fn lemma_opening_waits(opener: TableModel, other: TableModel, dir: Dir)
    requires
        opener.wf(),
        other.wf(),
        opener.peer_max.spec_of(dir) <= other.local_max.spec_of(dir),
    ensures
        opener.opened.spec_of(dir) <= other.closed.spec_of(dir) + other.local.concurrent.spec_of(
            dir,
        ),
        opener.opened.spec_of(dir) == other.closed.spec_of(dir) + other.local.concurrent.spec_of(
            dir,
        ) ==> !opener.can_open(dir),
{
}

/// The identifiers of one class follow the order of their positions, and
/// each gives its three parts back.
pub proof fn lemma_encode_order(side: Side, dir: Dir, a: nat, b: nat)
    requires
        a < b,
        b <= MAX_STREAM_INDEX,
    ensures
        StreamId::encode(side, dir, a) < StreamId::encode(side, dir, b),
        StreamId::encode(side, dir, b) <= crate::stream_id::MAX_VARINT,
        StreamId(StreamId::encode(side, dir, a) as u64).spec_initiator() == side,
        StreamId(StreamId::encode(side, dir, a) as u64).spec_dir() == dir,
        StreamId(StreamId::encode(side, dir, a) as u64).spec_index() == a,
        StreamId(StreamId::encode(side, dir, b) as u64).spec_initiator() == side,
        StreamId(StreamId::encode(side, dir, b) as u64).spec_dir() == dir,
        StreamId(StreamId::encode(side, dir, b) as u64).spec_index() == b,
{
}

/// Identifiers are allocated in strictly increasing order within their
/// class, and each lies under the number of streams that the peer allowed
/// when it was allocated: whatever happens to the table between two
/// openings, the later stream has the larger identifier.
pub proof fn lemma_ids_increase(first: TableModel, second: TableModel, dir: Dir)
    requires
        first.wf(),
        second.wf(),
        first.can_open(dir),
        first.after_open(dir).precedes(second),
        second.can_open(dir),
    ensures
        first.next_id(dir).same_class(second.next_id(dir)),
        first.next_id(dir).0 < second.next_id(dir).0,
        first.next_id(dir).spec_index() < first.peer_max.spec_of(dir),
        second.next_id(dir).spec_index() < second.peer_max.spec_of(dir),
{
    let a = first.opened.spec_of(dir) as nat;
    let b = second.opened.spec_of(dir) as nat;
    assert(first.after_open(dir).opened.spec_of(dir) == a + 1);
    assert(a < b);
    assert(b < second.peer_max.spec_of(dir));
    assert(second.peer_max.spec_of(dir) <= stream_cap());
    assert(second.side == first.side);
    lemma_encode_order(first.side, dir, a, b);
}

/// The streams of the peer are handed to the application in strictly
/// increasing order, each of them once.
pub proof fn lemma_accepts_increase(first: TableModel, second: TableModel, dir: Dir)
    requires
        first.wf(),
        second.wf(),
        first.can_accept(dir),
        first.after_accept(dir).precedes(second),
        second.can_accept(dir),
    ensures
        first.next_accept(dir).same_class(second.next_accept(dir)),
        first.next_accept(dir).0 < second.next_accept(dir).0,
{
    let a = first.accepted.spec_of(dir) as nat;
    let b = second.accepted.spec_of(dir) as nat;
    assert(first.after_accept(dir).accepted.spec_of(dir) == a + 1);
    assert(a < b);
    assert(b < second.seen.spec_of(dir));
    assert(second.seen.spec_of(dir) <= second.local_max.spec_of(dir));
    assert(second.local_max.spec_of(dir) <= stream_cap());
    assert(second.side == first.side);
    lemma_encode_order(first.side.spec_peer(), dir, a, b);
}

} // verus!
