//! The ledger of packets that were sent: which of them the peer has
//! acknowledged, which are to be counted as lost, and how long to wait
//! before probing.

use vstd::prelude::*;
use crate::frame::AckRange;
use crate::send::Fate;
use crate::stream_id::{Dir, StreamId};

verus! {

/// The keys under which a packet travels.
#[derive(Clone, Copy, Debug, PartialEq, Eq, Structural)]
pub enum Level {
    Initial,
    /// Early data, under keys of an earlier session.
    ZeroRtt,
    Handshake,
    OneRtt,
}

/// What a packet carried, as far as its fate matters to the sender.
#[derive(Clone, Copy, Debug, PartialEq, Eq, Structural)]
pub enum SentFrame {
    Stream { id: StreamId, offset: u64, len: u64, fin: bool },
    ResetStream { id: StreamId },
    Crypto { level: Level, offset: u64, len: u64 },
    MaxData,
    MaxStreamData { id: StreamId },
    MaxStreams { dir: Dir },
    HandshakeDone,
    Ping,
}

/// One packet of the ledger as a mathematical value.
pub struct PacketModel {
    /// When the packet left, in microseconds.
    pub time_sent: u64,
    /// Its size in bytes.
    pub size: u64,
    /// Whether the peer owes an acknowledgment for it.
    pub ack_eliciting: bool,
    pub level: Level,
    pub fate: Fate,
    pub frames: Seq<SentFrame>,
}

/// One packet of the ledger.
pub struct SentPacket {
    time_sent: u64,
    size: u64,
    ack_eliciting: bool,
    level: Level,
    fate: Fate,
    frames: Vec<SentFrame>,
}

impl View for SentPacket {
    type V = PacketModel;

    closed spec fn view(&self) -> PacketModel {
        PacketModel {
            time_sent: self.time_sent,
            size: self.size,
            ack_eliciting: self.ack_eliciting,
            level: self.level,
            fate: self.fate,
            frames: self.frames@,
        }
    }
}

/// What the ledger tells of one packet.
#[derive(Clone, Copy, Debug, PartialEq, Eq, Structural)]
pub struct PacketInfo {
    pub time_sent: u64,
    pub size: u64,
    pub ack_eliciting: bool,
    pub level: Level,
    pub fate: Fate,
    /// How many frames of the packet the ledger keeps.
    pub frames: usize,
}

/// Whether one of the runs holds `number`.
pub open spec fn in_ranges(ranges: Seq<AckRange>, number: u64) -> bool {
    exists|k: int| 0 <= k < ranges.len() && (#[trigger] ranges[k]).spec_contains(number)
}

/// Whether no run reaches beyond `bound`.
pub open spec fn ranges_below(ranges: Seq<AckRange>, bound: nat) -> bool {
    forall|k: int| 0 <= k < ranges.len() ==> (#[trigger] ranges[k]).last < bound
}

/// The largest number that the runs hold, if they hold any.
pub open spec fn is_top(ranges: Seq<AckRange>, top: Option<u64>) -> bool {
    match top {
        None => forall|n: u64| !in_ranges(ranges, n),
        Some(t) => in_ranges(ranges, t) && forall|n: u64| in_ranges(ranges, n) ==> n <= t,
    }
}

/// The largest number that the runs hold, as a value.
pub open spec fn top(ranges: Seq<AckRange>) -> Option<u64> {
    choose|t: Option<u64>| is_top(ranges, t)
}

/// The runs have one largest number at most.
pub proof fn lemma_top_unique(ranges: Seq<AckRange>, t: Option<u64>)
    requires
        is_top(ranges, t),
    ensures
        top(ranges) == t,
{
    let c = top(ranges);
    assert(is_top(ranges, c));
    match (c, t) {
        (Some(x), Some(y)) => {
            assert(in_ranges(ranges, x));
            assert(in_ranges(ranges, y));
        },
        (Some(x), None) => {
            assert(in_ranges(ranges, x));
        },
        (None, Some(y)) => {
            assert(in_ranges(ranges, y));
        },
        (None, None) => {},
    }
}

/// The marked positions below `upto`, in ascending order.
pub open spec fn picked(flags: Seq<bool>, upto: nat) -> Seq<u64>
    decreases upto,
{
    if upto == 0 {
        Seq::empty()
    } else {
        let before = picked(flags, (upto - 1) as nat);
        if flags[upto - 1] {
            before.push((upto - 1) as u64)
        } else {
            before
        }
    }
}

/// What `picked` holds: exactly the marked positions, each once, in
/// ascending order.
pub proof fn lemma_picked(flags: Seq<bool>, upto: nat)
    requires
        upto <= flags.len(),
        upto <= u64::MAX,
    ensures
        forall|n: u64| picked(flags, upto).contains(n) <==> (n < upto && flags[n as int]),
        forall|a: int, b: int|
            0 <= a < b < picked(flags, upto).len() ==> picked(flags, upto)[a] < picked(
                flags,
                upto,
            )[b],
        forall|a: int| 0 <= a < picked(flags, upto).len() ==> picked(flags, upto)[a] < upto,
    decreases upto,
{
    if upto > 0 {
        let before = picked(flags, (upto - 1) as nat);
        lemma_picked(flags, (upto - 1) as nat);
        let now = picked(flags, upto);
        if flags[upto - 1] {
            assert(now == before.push((upto - 1) as u64));
            assert forall|n: u64| now.contains(n) <==> (n < upto && flags[n as int]) by {
                if now.contains(n) {
                    let k = choose|k: int| 0 <= k < now.len() && now[k] == n;
                    if k < before.len() {
                        assert(before.contains(n));
                    }
                }
                if n < upto && flags[n as int] {
                    if n == upto - 1 {
                        assert(now[now.len() - 1] == n);
                    } else {
                        assert(before.contains(n));
                        let k = choose|k: int| 0 <= k < before.len() && before[k] == n;
                        assert(now[k] == n);
                    }
                }
            }
        }
    } else {
        assert forall|n: u64| picked(flags, upto).contains(n) <==> (n < upto && flags[n as int]) by {
            if picked(flags, upto).contains(n) {
                let k = choose|k: int| 0 <= k < picked(flags, upto).len() && picked(flags, upto)[k]
                    == n;
            }
        }
    }
}

/// Nothing is picked where nothing is marked.
pub proof fn lemma_picked_none(flags: Seq<bool>, upto: nat)
    requires
        upto <= flags.len(),
        forall|i: int| 0 <= i < upto ==> !flags[i],
    ensures
        picked(flags, upto) == Seq::<u64>::empty(),
    decreases upto,
{
    if upto > 0 {
        lemma_picked_none(flags, (upto - 1) as nat);
    }
}

/// The ledger as a mathematical value.
pub struct LedgerModel {
    /// The packets, each at the place of its number.
    pub packets: Seq<PacketModel>,
    /// The largest number that the peer has acknowledged.
    pub largest_acked: Option<u64>,
    /// A packet counts as lost once this many later ones are acknowledged.
    pub packet_threshold: u64,
}

impl LedgerModel {
    pub open spec fn wf(self) -> bool {
        &&& self.packets.len() <= u64::MAX
        &&& self.largest_acked matches Some(l) ==> l < self.packets.len()
        &&& self.packet_threshold >= 1
    }

    /// The ledger after a packet was recorded.
    pub open spec fn after_record(self, packet: PacketModel) -> LedgerModel {
        LedgerModel { packets: self.packets.push(packet), ..self }
    }

    /// For each packet, whether the runs acknowledge it for the first time.
    pub open spec fn ack_flags(self, ranges: Seq<AckRange>) -> Seq<bool> {
        Seq::new(
            self.packets.len(),
            |i: int| self.packets[i].fate == Fate::InFlight && in_ranges(ranges, i as u64),
        )
    }

    /// The packets after those of `flags` met the fate `fate`.
    pub open spec fn with_fate(self, flags: Seq<bool>, fate: Fate) -> Seq<PacketModel> {
        Seq::new(
            self.packets.len(),
            |i: int|
                if flags[i] {
                    PacketModel { fate, ..self.packets[i] }
                } else {
                    self.packets[i]
                },
        )
    }

    /// The largest acknowledged number after `top` was acknowledged.
    pub open spec fn raised_largest(self, top: Option<u64>) -> Option<u64> {
        match (self.largest_acked, top) {
            (Some(l), Some(t)) => Some(if t > l {
                t
            } else {
                l
            }),
            (Some(l), None) => Some(l),
            (None, t) => t,
        }
    }

    /// The ledger after the peer acknowledged the runs `ranges`.
    pub open spec fn after_ack(self, ranges: Seq<AckRange>) -> LedgerModel {
        LedgerModel {
            packets: self.with_fate(self.ack_flags(ranges), Fate::Acked),
            largest_acked: self.raised_largest(top(ranges)),
            ..self
        }
    }

    /// Whether the peer still owes an acknowledgment for any packet.
    pub open spec fn any_awaited(self) -> bool {
        exists|i: int| 0 <= i < self.packets.len() && self.awaited(i)
    }

    /// Whether the packet `i` counts as lost at `now`: it is in flight, a
    /// later packet is acknowledged, and either enough later packets are, or
    /// the packet is older than `delay`.
    pub open spec fn is_lost(self, i: int, now: u64, delay: u64) -> bool {
        &&& self.packets[i].fate == Fate::InFlight
        &&& self.largest_acked matches Some(l)
        &&& i < l
        &&& (l - i >= self.packet_threshold || self.packets[i].time_sent + delay <= now)
    }

    pub open spec fn loss_flags(self, now: u64, delay: u64) -> Seq<bool> {
        Seq::new(self.packets.len(), |i: int| self.is_lost(i, now, delay))
    }

    /// The ledger after the packets that count as lost were found.
    pub open spec fn after_detect(self, now: u64, delay: u64) -> LedgerModel {
        LedgerModel { packets: self.with_fate(self.loss_flags(now, delay), Fate::Lost), ..self }
    }

    /// For each packet, whether it is in flight under the keys of `level`.
    pub open spec fn level_flags(self, level: Level) -> Seq<bool> {
        Seq::new(
            self.packets.len(),
            |i: int| self.packets[i].fate == Fate::InFlight && self.packets[i].level == level,
        )
    }

    /// The ledger after all that was in flight under the keys of `level`
    /// was given up.
    pub open spec fn after_lose_level(self, level: Level) -> LedgerModel {
        LedgerModel { packets: self.with_fate(self.level_flags(level), Fate::Lost), ..self }
    }

    /// Whether the packet `i` is one that the peer still owes an
    /// acknowledgment for.
    pub open spec fn awaited(self, i: int) -> bool {
        self.packets[i].fate == Fate::InFlight && self.packets[i].ack_eliciting
    }

    /// Whether `r` is the oldest packet that the peer still owes an
    /// acknowledgment for.
    pub open spec fn is_oldest_awaited(self, r: Option<u64>) -> bool {
        match r {
            None => forall|i: int| 0 <= i < self.packets.len() ==> !self.awaited(i),
            Some(n) => n < self.packets.len() && self.awaited(n as int) && forall|i: int|
                0 <= i < n ==> !self.awaited(i),
        }
    }

    /// The oldest packet that the peer still owes an acknowledgment for, as
    /// a value.
    pub open spec fn oldest_awaited(self) -> Option<u64> {
        choose|r: Option<u64>| self.is_oldest_awaited(r)
    }

    /// Whether `floor` is the number of the oldest packet in flight, or the
    /// number of packets when none is in flight: no packet below it is in
    /// flight, and the packet at it is.
    pub open spec fn settled_at(self, floor: nat) -> bool {
        &&& floor <= self.packets.len()
        &&& forall|i: int| 0 <= i < floor ==> (#[trigger] self.packets[i]).fate != Fate::InFlight
        &&& floor < self.packets.len() ==> self.packets[floor as int].fate == Fate::InFlight
    }

    /// The ledger after the packet `number` was given up.
    pub open spec fn after_give_up(self, number: u64) -> LedgerModel {
        if number < self.packets.len() && self.packets[number as int].fate == Fate::InFlight {
            LedgerModel {
                packets: self.packets.update(
                    number as int,
                    PacketModel { fate: Fate::Lost, ..self.packets[number as int] },
                ),
                ..self
            }
        } else {
            self
        }
    }
}

/// There is one oldest packet at most that the peer owes an acknowledgment
/// for.
pub proof fn lemma_oldest_unique(l: LedgerModel, r: Option<u64>)
    requires
        l.is_oldest_awaited(r),
    ensures
        l.oldest_awaited() == r,
        r is Some <==> l.any_awaited(),
{
    let c = l.oldest_awaited();
    assert(l.is_oldest_awaited(c));
    match (c, r) {
        (Some(x), Some(y)) => {
            if x < y {
                assert(!l.awaited(x as int));
            }
            if y < x {
                assert(!l.awaited(y as int));
            }
        },
        (Some(x), None) => {
            assert(!l.awaited(x as int));
        },
        (None, Some(y)) => {
            assert(!l.awaited(y as int));
        },
        (None, None) => {},
    }
    if r is Some {
        assert(l.awaited(r->0 as int));
    }
}

/// The ledger of the packets that a connection has sent.
pub struct Ledger {
    sent: Vec<SentPacket>,
    /// No packet below this number is in flight.
    floor: usize,
    largest_acked: Option<u64>,
    packet_threshold: u64,
}

impl View for Ledger {
    type V = LedgerModel;

    closed spec fn view(&self) -> LedgerModel {
        LedgerModel {
            packets: Seq::new(self.sent@.len(), |i: int| self.sent@[i]@),
            largest_acked: self.largest_acked,
            packet_threshold: self.packet_threshold,
        }
    }
}

/// Finds whether one of the runs holds `number`.
fn holds(ranges: &Vec<AckRange>, number: u64) -> (b: bool)
    ensures
        b == in_ranges(ranges@, number),
{
    let mut k: usize = 0;
    while k < ranges.len()
        invariant
            k <= ranges@.len(),
            forall|j: int| 0 <= j < k ==> !(#[trigger] ranges@[j]).spec_contains(number),
        decreases ranges@.len() - k,
    {
        if ranges[k].contains(number) {
            return true;
        }
        k = k + 1;
    }
    false
}

/// Finds the largest number that well-formed runs hold.
fn top_of(ranges: &Vec<AckRange>) -> (top: Option<u64>)
    ensures
        is_top(ranges@, top),
{
    let mut top: Option<u64> = None;
    let mut k: usize = 0;
    while k < ranges.len()
        invariant
            k <= ranges@.len(),
            is_top(ranges@.take(k as int), top),
        decreases ranges@.len() - k,
    {
        let r: AckRange = ranges[k];
        let ghost before = ranges@.take(k as int);
        let ghost after = ranges@.take(k + 1);
        let ghost old_top = top;
        if r.first <= r.last {
            top = match top {
                Some(t) => Some(if r.last > t { r.last } else { t }),
                None => Some(r.last),
            };
        }
        k = k + 1;
        proof {
            assert(after[k - 1] == r);
            assert forall|n: u64| in_ranges(after, n) implies in_ranges(before, n)
                || r.spec_contains(n) by {
                let j = choose|j: int| 0 <= j < after.len() && (#[trigger] after[j]).spec_contains(n);
                if j < k - 1 {
                    assert(before[j].spec_contains(n));
                }
            }
            assert forall|n: u64| in_ranges(before, n) implies in_ranges(after, n) by {
                let j = choose|j: int| 0 <= j < before.len() && (#[trigger] before[j]).spec_contains(
                    n,
                );
                assert(after[j].spec_contains(n));
            }
            if r.first <= r.last {
                assert(after[k - 1].spec_contains(r.last));
                assert(in_ranges(after, r.last));
            }
            match top {
                Some(t) => {
                    assert(in_ranges(after, t));
                },
                None => {},
            }
        }
    }
    assert(ranges@.take(k as int) =~= ranges@);
    top
}

impl Ledger {
    pub closed spec fn wf(&self) -> bool {
        &&& self@.wf()
        &&& self.floor <= self.sent@.len()
        &&& forall|i: int| 0 <= i < self.floor ==> (#[trigger] self.sent@[i]).fate != Fate::InFlight
    }

    /// Validity of the ledger implies validity of its model.
    pub proof fn lemma_wf_model(&self)
        requires
            self.wf(),
        ensures
            self@.wf(),
    {
    }

    /// An empty ledger. A threshold of zero counts as one.
    pub fn new(packet_threshold: u64) -> (l: Ledger)
        ensures
            l.wf(),
            l@ == (LedgerModel {
                packets: Seq::empty(),
                largest_acked: None,
                packet_threshold: if packet_threshold == 0 {
                    1
                } else {
                    packet_threshold
                },
            }),
    {
        let l = Ledger {
            sent: Vec::new(),
            floor: 0,
            largest_acked: None,
            packet_threshold: if packet_threshold == 0 { 1 } else { packet_threshold },
        };
        assert(l@.packets =~= Seq::<PacketModel>::empty());
        l
    }

    /// The number that the next packet gets.
    pub fn next_number(&self) -> (n: u64)
        requires
            self.wf(),
        ensures
            n == self@.packets.len(),
    {
        self.sent.len() as u64
    }

    pub fn largest_acked(&self) -> (l: Option<u64>)
        ensures
            l == self@.largest_acked,
    {
        self.largest_acked
    }

    /// Records a packet that leaves at `now`, and returns its number: the
    /// numbers are handed out in order, from zero.
    pub fn record(
        &mut self,
        now: u64,
        size: u64,
        ack_eliciting: bool,
        level: Level,
        frames: Vec<SentFrame>,
    ) -> (number: u64)
        requires
            old(self).wf(),
            old(self)@.packets.len() < u64::MAX,
        ensures
            final(self).wf(),
            number == old(self)@.packets.len(),
            final(self)@ == old(self)@.after_record(
                PacketModel {
                    time_sent: now,
                    size,
                    ack_eliciting,
                    level,
                    fate: Fate::InFlight,
                    frames: frames@,
                },
            ),
    {
        let ghost pre = self@;
        let number: u64 = self.sent.len() as u64;
        let packet = SentPacket {
            time_sent: now,
            size,
            ack_eliciting,
            level,
            fate: Fate::InFlight,
            frames,
        };
        self.sent.push(packet);
        assert(self@.packets =~= pre.packets.push(packet@));
        number
    }

    /// What the ledger holds of the packet `number`.
    pub fn info(&self, number: u64) -> (r: Option<PacketInfo>)
        requires
            self.wf(),
        ensures
            r is Some <==> number < self@.packets.len(),
            r matches Some(p) ==> {
                let m = self@.packets[number as int];
                &&& p.time_sent == m.time_sent
                &&& p.size == m.size
                &&& p.ack_eliciting == m.ack_eliciting
                &&& p.level == m.level
                &&& p.fate == m.fate
                &&& p.frames == m.frames.len()
            },
    {
        if number >= self.sent.len() as u64 {
            return None;
        }
        let p = &self.sent[number as usize];
        Some(
            PacketInfo {
                time_sent: p.time_sent,
                size: p.size,
                ack_eliciting: p.ack_eliciting,
                level: p.level,
                fate: p.fate,
                frames: p.frames.len(),
            },
        )
    }

    /// The frame at the place `k` of the packet `number`.
    pub fn frame(&self, number: u64, k: usize) -> (r: Option<SentFrame>)
        requires
            self.wf(),
        ensures
            r is Some <==> number < self@.packets.len() && k < self@.packets[number as int].frames.len(),
            r matches Some(f) ==> f == self@.packets[number as int].frames[k as int],
    {
        if number >= self.sent.len() as u64 {
            return None;
        }
        let p = &self.sent[number as usize];
        if k >= p.frames.len() {
            return None;
        }
        Some(p.frames[k])
    }

    /// Marks the packets of `flags` from the floor on with `fate`, and
    /// returns their numbers.
    fn mark(&mut self, Ghost(flags): Ghost<Seq<bool>>, ranges: &Vec<AckRange>, level: Level, now: u64, delay: u64, mode: u8) -> (out: Vec<u64>)
        requires
            old(self).wf(),
            mode <= 2,
            flags == (if mode == 0 {
                old(self)@.ack_flags(ranges@)
            } else if mode == 1 {
                old(self)@.loss_flags(now, delay)
            } else {
                old(self)@.level_flags(level)
            }),
        ensures
            final(self).wf(),
            out@ == picked(flags, old(self)@.packets.len()),
            final(self)@ == (LedgerModel {
                packets: old(self)@.with_fate(
                    flags,
                    if mode == 0 {
                        Fate::Acked
                    } else {
                        Fate::Lost
                    },
                ),
                ..old(self)@
            }),
    {
        let ghost pre = self@;
        let fate: Fate = if mode == 0 { Fate::Acked } else { Fate::Lost };
        let n: usize = self.sent.len();
        let mut out: Vec<u64> = Vec::new();
        let mut i: usize = self.floor;
        proof {
            assert forall|j: int| 0 <= j < self.floor implies !flags[j] by {
                assert(self.sent@[j].fate != Fate::InFlight);
                assert(pre.packets[j] == self.sent@[j]@);
            }
            lemma_picked_none(flags, self.floor as nat);
        }
        while i < n
            invariant
                self.floor <= i <= n,
                n == self.sent@.len(),
                n == pre.packets.len(),
                n <= u64::MAX,
                flags.len() == n,
                pre.wf(),
                mode <= 2,
                fate == (if mode == 0 {
                    Fate::Acked
                } else {
                    Fate::Lost
                }),
                flags == (if mode == 0 {
                    pre.ack_flags(ranges@)
                } else if mode == 1 {
                    pre.loss_flags(now, delay)
                } else {
                    pre.level_flags(level)
                }),
                self.largest_acked == pre.largest_acked,
                self.packet_threshold == pre.packet_threshold,
                self.floor == old(self).floor,
                forall|j: int| 0 <= j < self.floor ==> (#[trigger] self.sent@[j]).fate != Fate::InFlight,
                out@ == picked(flags, i as nat),
                forall|j: int|
                    0 <= j < n ==> (#[trigger] self.sent@[j])@ == (if j < i && flags[j] {
                        PacketModel { fate, ..pre.packets[j] }
                    } else {
                        pre.packets[j]
                    }),
            decreases n - i,
        {
            let p = &self.sent[i];
            let in_flight: bool = match p.fate {
                Fate::InFlight => true,
                _ => false,
            };
            let hit: bool = in_flight && if mode == 0 {
                holds(ranges, i as u64)
            } else if mode == 1 {
                match self.largest_acked {
                    Some(l) => (i as u64) < l && (l - i as u64 >= self.packet_threshold || (delay
                        <= now && p.time_sent <= now - delay)),
                    None => false,
                }
            } else {
                p.level == level
            };
            assert(hit == flags[i as int]);
            if hit {
                self.sent[i].fate = fate;
                out.push(i as u64);
            }
            i = i + 1;
        }
        proof {
            assert(self@.packets =~= pre.with_fate(flags, fate));
        }
        out
    }

    /// Moves the floor up over the packets that are no longer in flight, to
    /// the oldest packet that is: the next search begins there. The packets
    /// themselves stay as they are.
    fn settle(&mut self)
        requires
            old(self).wf(),
        ensures
            final(self).wf(),
            final(self)@ == old(self)@,
            final(self).floor >= old(self).floor,
            final(self)@.settled_at(final(self).floor as nat),
    {
        let ghost pre = self@;
        let n: usize = self.sent.len();
        let mut f: usize = self.floor;
        while f < n && !self.sent[f].fate.is_in_flight()
            invariant
                f <= n,
                n == self.sent@.len(),
                forall|i: int| 0 <= i < f ==> (#[trigger] self.sent@[i]).fate != Fate::InFlight,
            decreases n - f,
        {
            f = f + 1;
        }
        self.floor = f;
        assert(self@.packets =~= pre.packets);
        assert forall|i: int| 0 <= i < f implies (#[trigger] self@.packets[i]).fate
            != Fate::InFlight by {
            assert(self.sent@[i].fate != Fate::InFlight);
        }
    }

    /// Takes in an acknowledgment of the peer. The result holds the numbers
    /// of the packets that it acknowledges for the first time, in ascending
    /// order; an acknowledgment of a packet that was never sent is refused.
    pub fn on_ack(&mut self, ranges: &Vec<AckRange>) -> (r: Option<Vec<u64>>)
        requires
            old(self).wf(),
        ensures
            final(self).wf(),
            r is Some <==> forall|n: u64| in_ranges(ranges@, n) ==> n < old(self)@.packets.len(),
            r is None ==> final(self)@ == old(self)@,
            r matches Some(acked) ==> final(self)@ == old(self)@.after_ack(ranges@) && acked@
                == picked(old(self)@.ack_flags(ranges@), old(self)@.packets.len()),
    {
        let top: Option<u64> = top_of(ranges);
        proof {
            lemma_top_unique(ranges@, top);
        }
        match top {
            Some(t) => {
                if t >= self.sent.len() as u64 {
                    return None;
                }
            },
            None => {},
        }
        let ghost pre = self@;
        let ghost flags = pre.ack_flags(ranges@);
        let acked = self.mark(Ghost(flags), ranges, Level::Initial, 0, 0, 0);
        self.largest_acked = match (self.largest_acked, top) {
            (Some(l), Some(t)) => Some(if t > l { t } else { l }),
            (Some(l), None) => Some(l),
            (None, t) => t,
        };
        assert(self@.packets =~= pre.with_fate(flags, Fate::Acked));
        self.settle();
        assert(self@ == pre.after_ack(ranges@));
        Some(acked)
    }

    /// Finds the packets that count as lost at `now`, when a packet older
    /// than `delay` counts as lost, and returns their numbers in ascending
    /// order.
    pub fn detect_lost(&mut self, now: u64, delay: u64) -> (lost: Vec<u64>)
        requires
            old(self).wf(),
        ensures
            final(self).wf(),
            final(self)@ == old(self)@.after_detect(now, delay),
            lost@ == picked(old(self)@.loss_flags(now, delay), old(self)@.packets.len()),
    {
        let ghost flags = self@.loss_flags(now, delay);
        let ranges: Vec<AckRange> = Vec::new();
        let lost = self.mark(Ghost(flags), &ranges, Level::Initial, now, delay, 1);
        self.settle();
        lost
    }

    /// Gives up all that is in flight under the keys of `level`, and
    /// returns the numbers of these packets in ascending order.
    pub fn lose_level(&mut self, level: Level) -> (lost: Vec<u64>)
        requires
            old(self).wf(),
        ensures
            final(self).wf(),
            final(self)@ == old(self)@.after_lose_level(level),
            lost@ == picked(old(self)@.level_flags(level), old(self)@.packets.len()),
    {
        let ghost flags = self@.level_flags(level);
        let ranges: Vec<AckRange> = Vec::new();
        let lost = self.mark(Ghost(flags), &ranges, level, 0, 0, 2);
        self.settle();
        lost
    }

    /// The oldest packet that the peer still owes an acknowledgment for.
    pub fn oldest_awaited(&self) -> (r: Option<u64>)
        requires
            self.wf(),
        ensures
            self@.is_oldest_awaited(r),
            r == self@.oldest_awaited(),
            r is Some <==> self@.any_awaited(),
    {
        let n: usize = self.sent.len();
        let mut i: usize = self.floor;
        proof {
            assert forall|j: int| 0 <= j < self.floor implies !self@.awaited(j) by {
                assert(self.sent@[j].fate != Fate::InFlight);
            }
        }
        while i < n
            invariant
                self.floor <= i <= n,
                n == self.sent@.len(),
                n <= u64::MAX,
                forall|j: int| 0 <= j < i ==> !self@.awaited(j),
            decreases n - i,
        {
            let p = &self.sent[i];
            if p.fate.is_in_flight() && p.ack_eliciting {
                assert(self@.awaited(i as int));
                proof {
                    lemma_oldest_unique(self@, Some(i as u64));
                }
                return Some(i as u64);
            }
            assert(!self@.awaited(i as int));
            i = i + 1;
        }
        proof {
            lemma_oldest_unique(self@, None);
        }
        None
    }

    /// Gives up the packet `number`, so that what it carried is sent again.
    pub fn give_up(&mut self, number: u64) -> (done: bool)
        requires
            old(self).wf(),
        ensures
            final(self).wf(),
            final(self)@ == old(self)@.after_give_up(number),
            done <==> final(self)@ != old(self)@,
    {
        if number >= self.sent.len() as u64 {
            return false;
        }
        let i: usize = number as usize;
        if !self.sent[i].fate.is_in_flight() {
            return false;
        }
        let ghost pre = self@;
        self.sent[i].fate = Fate::Lost;
        assert(self@.packets =~= pre.after_give_up(number).packets);
        assert(self@.packets[i as int] != pre.packets[i as int]);
        true
    }
}

/// How long to wait for an acknowledgment before probing: the wait doubles
/// with every probe that goes unanswered, up to a limit.
#[derive(Clone, Copy, Debug, PartialEq, Eq, Structural)]
pub struct Backoff {
    /// By how much the wait is multiplied now.
    pub factor: u64,
    /// The largest factor.
    pub cap: u64,
}

impl Backoff {
    pub open spec fn wf(self) -> bool {
        1 <= self.factor <= self.cap
    }

    /// No probe has gone unanswered. A limit of zero counts as one.
    pub open spec fn initial(cap: u64) -> Backoff {
        Backoff {
            factor: 1,
            cap: if cap == 0 {
                1
            } else {
                cap
            },
        }
    }

    pub fn new(cap: u64) -> (b: Backoff)
        ensures
            b == Self::initial(cap),
            b.wf(),
    {
        Backoff { factor: 1, cap: if cap == 0 { 1 } else { cap } }
    }

    /// The factor after a probe went unanswered: twice as much, up to the
    /// limit.
    pub open spec fn after_probe(self) -> Backoff {
        Backoff {
            factor: if 2 * self.factor <= self.cap {
                (2 * self.factor) as u64
            } else {
                self.cap
            },
            ..self
        }
    }

    pub fn on_probe(&mut self)
        requires
            old(self).wf(),
        ensures
            final(self).wf(),
            *final(self) == old(self).after_probe(),
    {
        self.factor = if self.factor <= self.cap / 2 { 2 * self.factor } else { self.cap };
    }

    /// The peer has answered: the wait is the plain one again.
    pub fn reset(&mut self)
        requires
            old(self).wf(),
        ensures
            final(self).wf(),
            *final(self) == (Backoff { factor: 1, ..*old(self) }),
    {
        self.factor = 1;
    }

    /// The wait for a plain wait of `base`, cut down to what a clock can
    /// hold.
    pub open spec fn spec_wait(&self, base: u64) -> u64 {
        if base * self.factor <= u64::MAX {
            (base * self.factor) as u64
        } else {
            u64::MAX
        }
    }

    #[verifier::when_used_as_spec(spec_wait)]
    pub fn wait(&self, base: u64) -> (w: u64)
        requires
            self.wf(),
        ensures
            w == self.spec_wait(base),
    {
        match base.checked_mul(self.factor) {
            Some(w) => w,
            None => u64::MAX,
        }
    }
}

} // verus!
