//! The frames that two connections exchange, as typed values.

use vstd::prelude::*;
use crate::stream_id::{Dir, StreamId};

verus! {

/// A run of packet numbers, both ends included.
#[derive(Clone, Copy, Debug, PartialEq, Eq, Structural)]
pub struct AckRange {
    pub first: u64,
    pub last: u64,
}

impl AckRange {
    pub open spec fn spec_contains(self, number: u64) -> bool {
        self.first <= number <= self.last
    }

    /// Whether the run holds `number`.
    #[verifier::when_used_as_spec(spec_contains)]
    pub fn contains(self, number: u64) -> (b: bool)
        ensures
            b == self.spec_contains(number),
    {
        self.first <= number && number <= self.last
    }
}

/// One frame of a packet.
#[derive(Clone, Debug)]
pub enum Frame {
    /// Asks for an acknowledgment and carries nothing.
    Ping,
    /// Acknowledges the packets of `ranges`; `delay` is the time, in
    /// microseconds, by which the acknowledgment was held back.
    Ack { delay: u64, ranges: Vec<AckRange> },
    /// Bytes of the handshake, at their place in the handshake's own stream.
    Crypto { offset: u64, data: Vec<u8> },
    /// Bytes of a stream.
    Stream { id: StreamId, offset: u64, data: Vec<u8>, fin: bool },
    /// The sender abandons a stream.
    ResetStream { id: StreamId, code: u64, final_size: u64 },
    /// The sender asks that a stream no longer be written.
    StopSending { id: StreamId, code: u64 },
    /// New credit for the connection.
    MaxData(u64),
    /// New credit for one stream.
    MaxStreamData { id: StreamId, limit: u64 },
    /// A new number of streams that may be opened in all.
    MaxStreams { dir: Dir, limit: u64 },
    /// The server has completed the handshake.
    HandshakeDone,
    /// The sender closes the connection.
    Close { code: u64, application: bool, reason: Vec<u8> },
}

/// A frame as a mathematical value.
pub enum FrameModel {
    Ping,
    Ack { delay: u64, ranges: Seq<AckRange> },
    Crypto { offset: u64, data: Seq<u8> },
    Stream { id: StreamId, offset: u64, data: Seq<u8>, fin: bool },
    ResetStream { id: StreamId, code: u64, final_size: u64 },
    StopSending { id: StreamId, code: u64 },
    MaxData(u64),
    MaxStreamData { id: StreamId, limit: u64 },
    MaxStreams { dir: Dir, limit: u64 },
    HandshakeDone,
    Close { code: u64, application: bool, reason: Seq<u8> },
}

impl FrameModel {
    /// Whether the receiver owes an acknowledgment for the frame.
    pub open spec fn ack_eliciting(self) -> bool {
        !(self is Ack) && !(self is Close)
    }
}

impl View for Frame {
    type V = FrameModel;

    open spec fn view(&self) -> FrameModel {
        match self {
            Frame::Ping => FrameModel::Ping,
            Frame::Ack { delay, ranges } => FrameModel::Ack { delay: *delay, ranges: ranges@ },
            Frame::Crypto { offset, data } => FrameModel::Crypto { offset: *offset, data: data@ },
            Frame::Stream { id, offset, data, fin } => FrameModel::Stream {
                id: *id,
                offset: *offset,
                data: data@,
                fin: *fin,
            },
            Frame::ResetStream { id, code, final_size } => FrameModel::ResetStream {
                id: *id,
                code: *code,
                final_size: *final_size,
            },
            Frame::StopSending { id, code } => FrameModel::StopSending { id: *id, code: *code },
            Frame::MaxData(limit) => FrameModel::MaxData(*limit),
            Frame::MaxStreamData { id, limit } => FrameModel::MaxStreamData {
                id: *id,
                limit: *limit,
            },
            Frame::MaxStreams { dir, limit } => FrameModel::MaxStreams { dir: *dir, limit: *limit },
            Frame::HandshakeDone => FrameModel::HandshakeDone,
            Frame::Close { code, application, reason } => FrameModel::Close {
                code: *code,
                application: *application,
                reason: reason@,
            },
        }
    }
}

/// Whether the receiver owes an acknowledgment for any of the frames.
pub open spec fn any_eliciting(frames: Seq<FrameModel>) -> bool {
    exists|k: int| 0 <= k < frames.len() && (#[trigger] frames[k]).ack_eliciting()
}

/// The frames of a packet as mathematical values.
pub open spec fn frame_views(frames: Seq<Frame>) -> Seq<FrameModel> {
    Seq::new(frames.len(), |k: int| frames[k]@)
}

/// Finds whether the receiver owes an acknowledgment for any of the frames.
pub fn eliciting(frames: &Vec<Frame>) -> (b: bool)
    ensures
        b == any_eliciting(frame_views(frames@)),
{
    let mut k: usize = 0;
    while k < frames.len()
        invariant
            k <= frames@.len(),
            forall|j: int| 0 <= j < k ==> !(#[trigger] frame_views(frames@)[j]).ack_eliciting(),
        decreases frames@.len() - k,
    {
        if frames[k].ack_eliciting() {
            assert(frame_views(frames@)[k as int].ack_eliciting());
            return true;
        }
        k = k + 1;
    }
    false
}

impl Frame {
    /// Whether the receiver owes an acknowledgment for the frame.
    pub open spec fn spec_ack_eliciting(&self) -> bool {
        self@.ack_eliciting()
    }

    #[verifier::when_used_as_spec(spec_ack_eliciting)]
    pub fn ack_eliciting(&self) -> (b: bool)
        ensures
            b == self.spec_ack_eliciting(),
    {
        match self {
            Frame::Ack { .. } => false,
            Frame::Close { .. } => false,
            _ => true,
        }
    }
}

} // verus!
