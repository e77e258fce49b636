//! Congestion control: how much may be in flight at a time. The window
//! grows by what is acknowledged until the first loss, by about one datagram
//! per round trip after it, and is cut down when packets are lost.

use vstd::prelude::*;

verus! {

/// No window grows beyond this.
pub const MAX_WINDOW: u64 = 4611686018427387903;

/// What a congestion controller offers to the connection that it serves.
pub trait Controller: Sized {
    spec fn valid(&self) -> bool;

    /// How many bytes may be in flight.
    spec fn allowance(&self) -> nat;

    /// How many bytes are in flight.
    spec fn outstanding(&self) -> nat;

    /// Asks to put `bytes` in flight. New data is only ever scheduled under
    /// the window: a packet that does not fit is refused.
    fn on_sent(&mut self, bytes: u64) -> (admitted: bool)
        requires
            old(self).valid(),
        ensures
            final(self).valid(),
            admitted <==> old(self).outstanding() + bytes <= old(self).allowance(),
            final(self).allowance() == old(self).allowance(),
            final(self).outstanding() == old(self).outstanding() + (if admitted {
                bytes as nat
            } else {
                0
            }),
    ;

    /// Takes in that `bytes`, sent at `sent`, were acknowledged. The window
    /// does not shrink.
    fn on_ack(&mut self, bytes: u64, sent: u64)
        requires
            old(self).valid(),
        ensures
            final(self).valid(),
            final(self).allowance() >= old(self).allowance(),
            final(self).outstanding() == if old(self).outstanding() >= bytes {
                (old(self).outstanding() - bytes) as nat
            } else {
                0
            },
    ;

    /// Takes in that `bytes`, sent at `sent`, were found lost at `now`. The
    /// window does not grow.
    fn on_loss(&mut self, bytes: u64, sent: u64, now: u64)
        requires
            old(self).valid(),
        ensures
            final(self).valid(),
            final(self).allowance() <= old(self).allowance(),
            final(self).outstanding() == if old(self).outstanding() >= bytes {
                (old(self).outstanding() - bytes) as nat
            } else {
                0
            },
    ;
}

/// The controller that halves its window on loss.
#[derive(Clone, Copy, Debug, PartialEq, Eq, Structural)]
pub struct NewReno {
    /// How many bytes may be in flight.
    pub window: u64,
    /// Above this the window grows slowly.
    pub ssthresh: u64,
    /// How many bytes are in flight.
    pub in_flight: u64,
    /// The size of the largest datagram.
    pub max_datagram: u64,
    /// The window is never cut below this.
    pub min_window: u64,
    /// When the window was last cut down, if it ever was.
    pub recovery_start: Option<u64>,
}

/// A size cut down to the largest window.
pub open spec fn clamp_window(n: int) -> u64 {
    if n <= MAX_WINDOW {
        if n < 0 {
            0
        } else {
            n as u64
        }
    } else {
        MAX_WINDOW
    }
}

impl NewReno {
    pub open spec fn wf(self) -> bool {
        &&& 1 <= self.min_window <= self.window <= MAX_WINDOW
        &&& self.max_datagram <= MAX_WINDOW
        &&& self.in_flight <= MAX_WINDOW
    }

    /// The controller of a fresh connection: a window of `packets`
    /// datagrams, never under two of them, and no threshold yet.
    pub open spec fn initial(max_datagram: u64, packets: u64) -> NewReno {
        let datagram = if clamp_window(max_datagram as int) == 0 {
            1
        } else {
            clamp_window(max_datagram as int)
        };
        let min_window = clamp_window(2 * datagram);
        let wanted = clamp_window(datagram * packets);
        NewReno {
            window: if wanted < min_window {
                min_window
            } else {
                wanted
            },
            ssthresh: MAX_WINDOW,
            in_flight: 0,
            max_datagram: datagram,
            min_window,
            recovery_start: None,
        }
    }

    pub fn new(max_datagram: u64, packets: u64) -> (c: NewReno)
        ensures
            c.wf(),
            c == Self::initial(max_datagram, packets),
    {
        let datagram: u64 = if max_datagram == 0 {
            1
        } else if max_datagram > MAX_WINDOW {
            MAX_WINDOW
        } else {
            max_datagram
        };
        let min_window: u64 = if datagram > MAX_WINDOW / 2 { MAX_WINDOW } else { 2 * datagram };
        let wanted: u64 = if packets == 0 {
            0
        } else if datagram > MAX_WINDOW / packets {
            proof {
                assert(datagram * packets > MAX_WINDOW) by (nonlinear_arith)
                    requires
                        datagram > MAX_WINDOW / packets,
                        packets > 0,
                {
                    assert(datagram >= MAX_WINDOW / packets + 1);
                    assert((MAX_WINDOW / packets + 1) * packets > MAX_WINDOW);
                    assert(datagram * packets >= (MAX_WINDOW / packets + 1) * packets);
                }
            }
            MAX_WINDOW
        } else {
            proof {
                assert(datagram * packets <= MAX_WINDOW) by (nonlinear_arith)
                    requires
                        datagram <= MAX_WINDOW / packets,
                        packets > 0,
                {
                    assert((MAX_WINDOW / packets) * packets <= MAX_WINDOW);
                    assert(datagram * packets <= (MAX_WINDOW / packets) * packets);
                }
            }
            datagram * packets
        };
        NewReno {
            window: if wanted < min_window { min_window } else { wanted },
            ssthresh: MAX_WINDOW,
            in_flight: 0,
            max_datagram: datagram,
            min_window,
            recovery_start: None,
        }
    }

    /// Whether `bytes` more fit under the window.
    pub open spec fn spec_can_send(&self, bytes: u64) -> bool {
        self.in_flight + bytes <= self.window
    }

    #[verifier::when_used_as_spec(spec_can_send)]
    pub fn can_send(&self, bytes: u64) -> (b: bool)
        requires
            self.wf(),
        ensures
            b == self.spec_can_send(bytes),
    {
        self.in_flight <= self.window && bytes <= self.window - self.in_flight
    }

    /// Whether the window still grows by all that is acknowledged.
    pub open spec fn slow_start(self) -> bool {
        self.window < self.ssthresh
    }

    /// Whether a packet sent at `sent` left before the window was last cut:
    /// what becomes of it changes the window no more.
    pub open spec fn in_recovery(self, sent: u64) -> bool {
        self.recovery_start matches Some(start) && sent <= start
    }

    pub open spec fn left_in_flight(self, bytes: u64) -> u64 {
        if self.in_flight >= bytes {
            (self.in_flight - bytes) as u64
        } else {
            0
        }
    }

    /// The controller after `bytes` were put in flight under the window.
    pub open spec fn after_sent(self, bytes: u64) -> NewReno {
        NewReno { in_flight: (self.in_flight + bytes) as u64, ..self }
    }

    /// The controller after a probe of `bytes` was sent: a probe may exceed
    /// the window.
    pub open spec fn after_probe(self, bytes: u64) -> NewReno {
        NewReno { in_flight: clamp_window(self.in_flight + bytes), ..self }
    }

    /// The controller after `bytes`, sent at `sent`, were acknowledged.
    pub open spec fn after_ack(self, bytes: u64, sent: u64) -> NewReno {
        let grown = if self.in_recovery(sent) {
            self.window
        } else if self.slow_start() {
            clamp_window(self.window + bytes)
        } else {
            clamp_window(self.window + (self.max_datagram * bytes) / (self.window as int))
        };
        NewReno { window: grown, in_flight: self.left_in_flight(bytes), ..self }
    }

    /// The controller after `bytes`, sent at `sent`, were found lost at
    /// `now`: the window is halved, once for each round of losses.
    pub open spec fn after_loss(self, bytes: u64, sent: u64, now: u64) -> NewReno {
        if self.in_recovery(sent) {
            NewReno { in_flight: self.left_in_flight(bytes), ..self }
        } else {
            let cut = if self.window / 2 < self.min_window {
                self.min_window
            } else {
                self.window / 2
            };
            NewReno {
                window: cut,
                ssthresh: cut,
                in_flight: self.left_in_flight(bytes),
                recovery_start: Some(now),
                ..self
            }
        }
    }

    /// Takes `bytes` out of what is in flight, without any effect on the
    /// window: the packet is no longer waited for.
    pub fn forget(&mut self, bytes: u64)
        requires
            old(self).wf(),
        ensures
            final(self).wf(),
            *final(self) == (NewReno { in_flight: old(self).left_in_flight(bytes), ..*old(self) }),
    {
        self.in_flight = if self.in_flight >= bytes { self.in_flight - bytes } else { 0 };
    }

    /// Counts a probe of `bytes` as in flight.
    pub fn on_probe(&mut self, bytes: u64)
        requires
            old(self).wf(),
        ensures
            final(self).wf(),
            *final(self) == old(self).after_probe(bytes),
    {
        self.in_flight = if bytes > MAX_WINDOW - self.in_flight {
            MAX_WINDOW
        } else {
            self.in_flight + bytes
        };
    }

    fn in_recovery_at(&self, sent: u64) -> (b: bool)
        ensures
            b == self.in_recovery(sent),
    {
        match self.recovery_start {
            Some(start) => sent <= start,
            None => false,
        }
    }
}

impl Controller for NewReno {
    open spec fn valid(&self) -> bool {
        self.wf()
    }

    open spec fn allowance(&self) -> nat {
        self.window as nat
    }

    open spec fn outstanding(&self) -> nat {
        self.in_flight as nat
    }

    fn on_sent(&mut self, bytes: u64) -> (admitted: bool)
        ensures
            admitted <==> old(self).spec_can_send(bytes),
            *final(self) == (if admitted {
                old(self).after_sent(bytes)
            } else {
                *old(self)
            }),
    {
        if self.in_flight <= self.window && bytes <= self.window - self.in_flight {
            self.in_flight = self.in_flight + bytes;
            true
        } else {
            false
        }
    }

    fn on_ack(&mut self, bytes: u64, sent: u64)
        ensures
            *final(self) == old(self).after_ack(bytes, sent),
    {
        self.in_flight = if self.in_flight >= bytes { self.in_flight - bytes } else { 0 };
        if self.in_recovery_at(sent) {
        } else if self.window < self.ssthresh {
            self.window = if bytes > MAX_WINDOW - self.window {
                MAX_WINDOW
            } else {
                self.window + bytes
            };
        } else {
            assert(self.max_datagram as int * bytes as int <= 0xffff_ffff_ffff_ffff
                * 0xffff_ffff_ffff_ffff) by (nonlinear_arith)
                requires
                    0 <= self.max_datagram <= 0xffff_ffff_ffff_ffff,
                    0 <= bytes <= 0xffff_ffff_ffff_ffff,
            ;
            let product: u128 = (self.max_datagram as u128) * (bytes as u128);
            let step: u128 = product / (self.window as u128);
            self.window = if step > (MAX_WINDOW - self.window) as u128 {
                MAX_WINDOW
            } else {
                self.window + step as u64
            };
        }
    }

    fn on_loss(&mut self, bytes: u64, sent: u64, now: u64)
        ensures
            *final(self) == old(self).after_loss(bytes, sent, now),
    {
        self.in_flight = if self.in_flight >= bytes { self.in_flight - bytes } else { 0 };
        if !self.in_recovery_at(sent) {
            let half: u64 = self.window / 2;
            let cut: u64 = if half < self.min_window { self.min_window } else { half };
            self.window = cut;
            self.ssthresh = cut;
            self.recovery_start = Some(now);
        }
    }
}

/// New data is only ever put in flight under the window: after a packet
/// was admitted, what is in flight does not exceed the window, and a packet
/// that would exceed it is refused. Only after the window was cut down can
/// there be more in flight than the window allows, and then nothing new is
/// admitted.
pub proof fn lemma_sent_under_window(c: NewReno, bytes: u64)
    requires
        c.wf(),
    ensures
        c.spec_can_send(bytes) ==> c.after_sent(bytes).in_flight <= c.window && c.after_sent(
            bytes,
        ).wf(),
        c.in_flight > c.window ==> !c.spec_can_send(bytes),
{
}

/// While no loss has occurred, an acknowledgment makes the window grow by
/// exactly what was acknowledged.
pub proof fn lemma_slow_start_growth(c: NewReno, bytes: u64, sent: u64)
    requires
        c.wf(),
        c.slow_start(),
        !c.in_recovery(sent),
        c.window + bytes <= MAX_WINDOW,
    ensures
        c.after_ack(bytes, sent).window == c.window + bytes,
{
}

/// After the first loss a whole window of acknowledgments makes the window
/// grow by no more than one datagram.
pub proof fn lemma_avoidance_growth(c: NewReno, bytes: u64, sent: u64)
    requires
        c.wf(),
        !c.slow_start(),
        bytes <= c.window,
    ensures
        c.after_ack(bytes, sent).window <= c.window + c.max_datagram,
        c.after_ack(bytes, sent).window >= c.window,
{
    if !c.in_recovery(sent) {
        assert((c.max_datagram * bytes) / (c.window as int) <= c.max_datagram) by (nonlinear_arith)
            requires
                bytes <= c.window,
                c.window >= 1,
                c.max_datagram >= 0,
                bytes >= 0,
        ;
        assert((c.max_datagram * bytes) / (c.window as int) >= 0) by (nonlinear_arith)
            requires
                c.window >= 1,
                c.max_datagram >= 0,
                bytes >= 0,
        ;
    }
}

/// A loss outside a round of losses halves the window, down to its least
/// size at most, and begins a round: further losses of packets that had
/// left before change the window no more.
pub proof fn lemma_loss_cuts_once(c: NewReno, bytes: u64, sent: u64, now: u64, later: u64, other: u64)
    requires
        c.wf(),
        !c.in_recovery(sent),
        other <= now,
        now <= later,
    ensures
        c.after_loss(bytes, sent, now).wf(),
        c.after_loss(bytes, sent, now).window == if c.window / 2 < c.min_window {
            c.min_window
        } else {
            c.window / 2
        },
        c.after_loss(bytes, sent, now).window <= c.window,
        !c.after_loss(bytes, sent, now).slow_start(),
        c.after_loss(bytes, sent, now).after_loss(bytes, other, later).window == c.after_loss(
            bytes,
            sent,
            now,
        ).window,
{
}

} // verus!
