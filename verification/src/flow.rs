//! Flow control: byte budgets at connection scope and at the scope of each
//! stream, for the receiving and for the sending direction.

use vstd::prelude::*;
use crate::stream_id::MAX_VARINT;

verus! {

/// Largest credit that is ever granted: what the protocol can express and
/// what this machine can address.
pub open spec fn credit_limit() -> nat {
    if (usize::MAX as nat) < (MAX_VARINT as nat) {
        usize::MAX as nat
    } else {
        MAX_VARINT as nat
    }
}

/// The executable form of [`credit_limit`].
pub fn credit_cap() -> (c: u64)
    ensures
        c == credit_limit(),
{
    let m: u64 = usize::MAX as u64;
    if m < MAX_VARINT {
        m
    } else {
        MAX_VARINT
    }
}

/// The pair a scope keeps: how much has been used and how much was allowed.
pub struct WindowModel {
    pub consumed: nat,
    pub granted: nat,
}

impl WindowModel {
    /// Used bytes never exceed the allowance.
    pub open spec fn wf(self) -> bool {
        self.consumed <= self.granted <= credit_limit()
    }

    pub open spec fn remaining(self) -> nat {
        (self.granted - self.consumed) as nat
    }

    /// Whether `n` more bytes fit the allowance.
    pub open spec fn admits(self, n: nat) -> bool {
        self.consumed + n <= self.granted
    }

    /// The scope after `n` admitted bytes.
    pub open spec fn consume(self, n: nat) -> WindowModel {
        WindowModel { consumed: self.consumed + n, granted: self.granted }
    }

    /// The scope after the allowance was announced as `limit`: an
    /// announcement below the present allowance changes nothing.
    pub open spec fn raise(self, limit: nat) -> WindowModel {
        WindowModel {
            consumed: self.consumed,
            granted: if limit > self.granted && limit <= credit_limit() {
                limit
            } else {
                self.granted
            },
        }
    }
}

/// The allowance was exceeded: the bytes were not admitted.
#[derive(Clone, Copy, Debug, PartialEq, Eq, Structural)]
pub struct Exceeded;

/// One scope of flow control, seen from either direction.
#[derive(Clone, Copy, Debug)]
pub struct FlowControlWindow {
    consumed: u64,
    granted: u64,
}

impl View for FlowControlWindow {
    type V = WindowModel;

    closed spec fn view(&self) -> WindowModel {
        WindowModel { consumed: self.consumed as nat, granted: self.granted as nat }
    }
}

impl FlowControlWindow {
    pub open spec fn wf(&self) -> bool {
        self@.wf()
    }

    /// A scope with nothing used and `granted` allowed; an allowance beyond
    /// the limit is cut down to it.
    pub open spec fn new_model(granted: u64) -> WindowModel {
        WindowModel {
            consumed: 0,
            granted: if granted as nat <= credit_limit() {
                granted as nat
            } else {
                credit_limit()
            },
        }
    }

    /// A fresh scope with `granted` allowed.
    pub fn new(granted: u64) -> (w: FlowControlWindow)
        ensures
            w.wf(),
            w@ == Self::new_model(granted),
    {
        let cap: u64 = credit_cap();
        FlowControlWindow { consumed: 0, granted: if granted <= cap { granted } else { cap } }
    }

    pub fn consumed(&self) -> (c: u64)
        ensures
            c == self@.consumed,
    {
        self.consumed
    }

    pub fn granted(&self) -> (g: u64)
        ensures
            g == self@.granted,
    {
        self.granted
    }

    /// Bytes that may still be used.
    pub fn remaining(&self) -> (r: u64)
        requires
            self.wf(),
        ensures
            r == self@.remaining(),
    {
        self.granted - self.consumed
    }

    /// Uses `n` bytes of the allowance, or refuses and leaves the scope as it
    /// was when they do not fit.
    pub fn consume(&mut self, n: u64) -> (r: Result<(), Exceeded>)
        requires
            old(self).wf(),
        ensures
            final(self).wf(),
            r is Ok <==> old(self)@.admits(n as nat),
            r is Ok ==> final(self)@ == old(self)@.consume(n as nat),
            r is Err ==> final(self)@ == old(self)@,
    {
        if n > self.granted - self.consumed {
            Err(Exceeded)
        } else {
            self.consumed = self.consumed + n;
            Ok(())
        }
    }

    /// Takes note of an announced allowance. The allowance never shrinks;
    /// the result tells whether it grew.
    pub fn raise(&mut self, limit: u64) -> (grew: bool)
        requires
            old(self).wf(),
        ensures
            final(self).wf(),
            final(self)@ == old(self)@.raise(limit as nat),
            grew <==> final(self)@.granted > old(self)@.granted,
            final(self)@.granted >= old(self)@.granted,
    {
        if limit > self.granted && limit <= credit_cap() {
            self.granted = limit;
            true
        } else {
            false
        }
    }
}

/// What a receiver keeps for one scope: the window it promised, how much of
/// it the peer has used, and how much the application has taken out.
pub struct CreditModel {
    pub window: WindowModel,
    /// Bytes handed to the application.
    pub read: nat,
    /// The size of the window that is kept open ahead of the reader.
    pub size: nat,
    /// An update is due once less than `size / divisor` is left.
    pub divisor: nat,
}

impl CreditModel {
    pub open spec fn wf(self) -> bool {
        &&& self.window.wf()
        &&& self.read <= self.window.consumed
        &&& self.divisor >= 1
        &&& self.size <= credit_limit()
    }

    /// The allowance that keeps a full window open ahead of the reader.
    pub open spec fn target(self) -> nat {
        if self.read + self.size <= credit_limit() {
            self.read + self.size
        } else {
            credit_limit()
        }
    }

    /// Below this much remaining credit an update is due.
    pub open spec fn threshold(self) -> nat {
        self.size / self.divisor
    }

    /// Whether a window update is to be sent now: there is more to grant,
    /// and what is left is under the threshold or nothing is left at all.
    pub open spec fn update_due(self) -> bool {
        &&& self.target() > self.window.granted
        &&& (self.window.remaining() < self.threshold() || self.window.remaining() == 0)
    }

    pub open spec fn receive(self, n: nat) -> CreditModel {
        CreditModel { window: self.window.consume(n), ..self }
    }

    pub open spec fn release(self, n: nat) -> CreditModel {
        CreditModel { read: self.read + n, ..self }
    }

    pub open spec fn grant(self) -> CreditModel {
        CreditModel { window: self.window.raise(self.target()), ..self }
    }
}

/// Receive-side credit of one scope.
#[derive(Clone, Copy, Debug)]
pub struct ReceiveCredit {
    window: FlowControlWindow,
    read: u64,
    size: u64,
    divisor: u64,
}

impl View for ReceiveCredit {
    type V = CreditModel;

    closed spec fn view(&self) -> CreditModel {
        CreditModel {
            window: self.window@,
            read: self.read as nat,
            size: self.size as nat,
            divisor: self.divisor as nat,
        }
    }
}

impl ReceiveCredit {
    pub open spec fn wf(&self) -> bool {
        self@.wf()
    }

    /// The credit of a fresh scope with a window of `size` bytes, cut down to
    /// the limit; a divisor of zero counts as one.
    pub open spec fn new_model(size: u64, divisor: u64) -> CreditModel {
        let size = if size as nat <= credit_limit() {
            size as nat
        } else {
            credit_limit()
        };
        CreditModel {
            window: WindowModel { consumed: 0, granted: size },
            read: 0,
            size,
            divisor: if divisor == 0 {
                1nat
            } else {
                divisor as nat
            },
        }
    }

    /// Credit for a fresh scope: a window of `size` bytes is granted at once.
    pub fn new(size: u64, divisor: u64) -> (c: ReceiveCredit)
        ensures
            c.wf(),
            c@ == Self::new_model(size, divisor),
    {
        let cap: u64 = credit_cap();
        let size: u64 = if size <= cap { size } else { cap };
        ReceiveCredit {
            window: FlowControlWindow::new(size),
            read: 0,
            size,
            divisor: if divisor == 0 { 1 } else { divisor },
        }
    }

    /// The allowance last announced to the peer.
    pub fn granted(&self) -> (g: u64)
        ensures
            g == self@.window.granted,
    {
        self.window.granted()
    }

    /// Bytes that the application has taken out of the scope.
    pub fn released(&self) -> (n: u64)
        ensures
            n == self@.read,
    {
        self.read
    }

    /// Bytes of the allowance that the peer has used.
    pub fn consumed(&self) -> (g: u64)
        ensures
            g == self@.window.consumed,
    {
        self.window.consumed()
    }

    /// Counts `n` newly received bytes against the window. A peer that sends
    /// beyond what was granted is refused and nothing changes.
    pub fn receive(&mut self, n: u64) -> (r: Result<(), Exceeded>)
        requires
            old(self).wf(),
        ensures
            final(self).wf(),
            r is Ok <==> old(self)@.window.admits(n as nat),
            r is Ok ==> final(self)@ == old(self)@.receive(n as nat),
            r is Err ==> final(self)@ == old(self)@,
    {
        self.window.consume(n)
    }

    /// Notes that the application took `n` received bytes out of the scope.
    pub fn release(&mut self, n: u64)
        requires
            old(self).wf(),
            old(self)@.read + n <= old(self)@.window.consumed,
        ensures
            final(self).wf(),
            final(self)@ == old(self)@.release(n as nat),
    {
        self.read = self.read + n;
    }

    /// Like [`Self::release`], for a count that the caller cannot vouch for:
    /// a count beyond what was received changes nothing.
    pub fn release_checked(&mut self, n: u64) -> (done: bool)
        requires
            old(self).wf(),
        ensures
            final(self).wf(),
            done <==> old(self)@.read + n <= old(self)@.window.consumed,
            final(self)@ == (if done {
                old(self)@.release(n as nat)
            } else {
                old(self)@
            }),
    {
        if n <= self.window.consumed() - self.read {
            self.read = self.read + n;
            true
        } else {
            false
        }
    }

    /// When an update is due, raises the allowance to a full window ahead of
    /// the reader and returns the new value, which is larger than every
    /// value returned before. Otherwise nothing changes.
    pub fn take_update(&mut self) -> (r: Option<u64>)
        requires
            old(self).wf(),
        ensures
            final(self).wf(),
            r is Some <==> old(self)@.update_due(),
            r is Some ==> final(self)@ == old(self)@.grant() && r->0 == final(self)@.window.granted
                && r->0 > old(self)@.window.granted,
            r is None ==> final(self)@ == old(self)@,
    {
        let cap: u64 = credit_cap();
        let target: u64 = if self.size <= cap - self.read {
            self.read + self.size
        } else {
            cap
        };
        let left: u64 = self.window.remaining();
        if target > self.window.granted() && (left < self.size / self.divisor || left == 0) {
            let grew: bool = self.window.raise(target);
            assert(grew);
            Some(target)
        } else {
            None
        }
    }
}

/// The operations that move a scope of flow control.
pub enum WindowOp {
    /// Bytes arrive, or are sent, against the allowance.
    Use(nat),
    /// The allowance is announced anew.
    Announce(nat),
}

/// One step of a scope: a use beyond the allowance is refused and changes
/// nothing.
pub open spec fn window_step(w: WindowModel, op: WindowOp) -> WindowModel {
    match op {
        WindowOp::Use(n) => if w.admits(n) {
            w.consume(n)
        } else {
            w
        },
        WindowOp::Announce(limit) => w.raise(limit),
    }
}

/// The scope after a whole run of operations.
pub open spec fn window_run(w: WindowModel, ops: Seq<WindowOp>) -> WindowModel
    decreases ops.len(),
{
    if ops.len() == 0 {
        w
    } else {
        window_step(window_run(w, ops.drop_last()), ops.last())
    }
}

/// Whatever is done to a scope, in whatever order, the bytes used never
/// exceed the allowance, and the allowance never goes down.
pub proof fn lemma_window_run(w: WindowModel, ops: Seq<WindowOp>)
    requires
        w.wf(),
    ensures
        window_run(w, ops).wf(),
        window_run(w, ops).granted >= w.granted,
        window_run(w, ops).consumed >= w.consumed,
    decreases ops.len(),
{
    if ops.len() > 0 {
        lemma_window_run(w, ops.drop_last());
    }
}

/// The allowances along a run never decrease: a longer run has granted at
/// least what each of its beginnings had.
pub proof fn lemma_grants_monotone(w: WindowModel, ops: Seq<WindowOp>, k: int)
    requires
        w.wf(),
        0 <= k <= ops.len(),
    ensures
        window_run(w, ops.take(k)).granted <= window_run(w, ops).granted,
        window_run(w, ops.take(k)).wf(),
    decreases ops.len() - k,
{
    lemma_window_run(w, ops.take(k));
    if k == ops.len() {
        assert(ops.take(k) =~= ops);
    } else {
        lemma_grants_monotone(w, ops, k + 1);
        assert(ops.take(k + 1).drop_last() =~= ops.take(k));
    }
}

/// A receiver's updates keep the scope valid and only ever raise the
/// allowance, whatever was received and read before.
pub proof fn lemma_grant_monotone(c: CreditModel)
    requires
        c.wf(),
    ensures
        c.grant().wf(),
        c.grant().window.granted >= c.window.granted,
        c.update_due() ==> c.grant().window.granted == c.target() && c.grant().window.granted
            > c.window.granted,
{
}

/// A window never stalls: when the peer has used up what was granted and
/// the reader has taken all of it out, an update is due at once, and it
/// opens a whole window again, however small the window is. So a transfer
/// larger than the window goes on as long as the reader reads.
pub proof fn lemma_no_stall(c: CreditModel)
    requires
        c.wf(),
        c.size > 0,
        c.window.remaining() == 0,
        c.read == c.window.consumed,
        c.read + c.size <= credit_limit(),
    ensures
        c.update_due(),
        c.grant().wf(),
        c.grant().window.remaining() == c.size,
        c.grant().window.granted == c.window.granted + c.size,
{
}

} // verus!
