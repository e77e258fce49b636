//! Stream identifiers: a 62-bit number that carries the initiating side, the
//! directionality and the position of the stream within its class.

use vstd::prelude::*;

verus! {

/// Largest value a variable-length integer of the protocol can carry.
pub const MAX_VARINT: u64 = 4611686018427387903;

/// Largest position a stream can have within its class.
pub const MAX_STREAM_INDEX: u64 = 1152921504606846975;

/// The role an endpoint plays on a connection.
#[derive(Clone, Copy, Debug, PartialEq, Eq, Structural)]
pub enum Side {
    Client,
    Server,
}

/// Whether a stream carries data both ways or only from its initiator.
#[derive(Clone, Copy, Debug, PartialEq, Eq, Structural)]
pub enum Dir {
    Bi,
    Uni,
}

impl Side {
    pub open spec fn bit(self) -> nat {
        match self {
            Side::Client => 0,
            Side::Server => 1,
        }
    }

    pub open spec fn spec_peer(self) -> Side {
        match self {
            Side::Client => Side::Server,
            Side::Server => Side::Client,
        }
    }

    /// The other side of the connection.
    #[verifier::when_used_as_spec(spec_peer)]
    pub fn peer(self) -> (p: Side)
        ensures
            p == self.spec_peer(),
    {
        match self {
            Side::Client => Side::Server,
            Side::Server => Side::Client,
        }
    }
}

impl Dir {
    pub open spec fn bit(self) -> nat {
        match self {
            Dir::Bi => 0,
            Dir::Uni => 1,
        }
    }
}

/// Identifier of one stream of a connection.
#[derive(Clone, Copy, Debug, PartialEq, Eq, Structural, Hash)]
pub struct StreamId(pub u64);

impl StreamId {
    /// The number that stands for the stream at `index` of the class
    /// `(initiator, dir)`.
    pub open spec fn encode(initiator: Side, dir: Dir, index: nat) -> nat {
        index * 4 + dir.bit() * 2 + initiator.bit()
    }

    pub open spec fn spec_initiator(self) -> Side {
        if self.0 % 2 == 0 {
            Side::Client
        } else {
            Side::Server
        }
    }

    pub open spec fn spec_dir(self) -> Dir {
        if (self.0 / 2) % 2 == 0 {
            Dir::Bi
        } else {
            Dir::Uni
        }
    }

    pub open spec fn spec_index(self) -> u64 {
        self.0 / 4
    }

    /// Two identifiers belong to one class when initiator and direction agree.
    pub open spec fn same_class(self, other: StreamId) -> bool {
        self.spec_initiator() == other.spec_initiator() && self.spec_dir() == other.spec_dir()
    }

    /// Builds the identifier of the stream at `index` of a class.
    pub fn new(initiator: Side, dir: Dir, index: u64) -> (id: StreamId)
        requires
            index <= MAX_STREAM_INDEX,
        ensures
            id.0 == Self::encode(initiator, dir, index as nat),
            id.0 <= MAX_VARINT,
            id.spec_initiator() == initiator,
            id.spec_dir() == dir,
            id.spec_index() == index,
    {
        let side_bit: u64 = match initiator {
            Side::Client => 0,
            Side::Server => 1,
        };
        let dir_bit: u64 = match dir {
            Dir::Bi => 0,
            Dir::Uni => 2,
        };
        StreamId(index * 4 + dir_bit + side_bit)
    }

    /// The side that opened the stream.
    #[verifier::when_used_as_spec(spec_initiator)]
    pub fn initiator(self) -> (s: Side)
        ensures
            s == self.spec_initiator(),
    {
        if self.0 % 2 == 0 {
            Side::Client
        } else {
            Side::Server
        }
    }

    /// Whether the stream is bidirectional or unidirectional.
    #[verifier::when_used_as_spec(spec_dir)]
    pub fn dir(self) -> (d: Dir)
        ensures
            d == self.spec_dir(),
    {
        if (self.0 / 2) % 2 == 0 {
            Dir::Bi
        } else {
            Dir::Uni
        }
    }

    /// The position of the stream within its class, counted from zero.
    #[verifier::when_used_as_spec(spec_index)]
    pub fn index(self) -> (i: u64)
        ensures
            i == self.spec_index(),
    {
        self.0 / 4
    }
}

/// Every identifier is the encoding of its own three parts.
pub proof fn lemma_encode_parts(id: StreamId)
    ensures
        id.0 == StreamId::encode(id.spec_initiator(), id.spec_dir(), id.spec_index() as nat),
{
}

/// Within one class the order of identifiers is the order of their positions:
/// a later allocation always has the larger identifier.
pub proof fn lemma_class_order(a: StreamId, b: StreamId)
    requires
        a.same_class(b),
    ensures
        a.0 < b.0 <==> a.spec_index() < b.spec_index(),
        a.0 == b.0 <==> a.spec_index() == b.spec_index(),
{
}

} // verus!
