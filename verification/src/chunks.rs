//! Reading and writing streams by chunks: the bytes of a stream are cut
//! into buffers of the `bytes` crate and put together from them again, each
//! byte copied at its place.

use vstd::prelude::*;
use bytes::Bytes;
use crate::connection::Connection;
use crate::error::StreamError;
use crate::recv::{copy_range, ReadOutcome};
use crate::send::Written;
use crate::stream_id::StreamId;

verus! {

/// The chunk of the `bytes` crate, `bytes::Bytes`: a buffer of bytes that is
/// shared by counting references. Nothing of its inside is known here.
#[verifier::external_type_specification]
#[verifier::external_body]
pub struct ExBytes(Bytes);

/// The bytes that a chunk holds, in order.
pub uninterp spec fn bytes_contents(b: Bytes) -> Seq<u8>;

/// Calls `Bytes::new`, which gives a chunk that holds no bytes.
#[verifier::external_body]
fn chunk_new() -> (b: Bytes)
    ensures
        bytes_contents(b) == Seq::<u8>::empty(),
{
    Bytes::new()
}

/// Calls `Bytes::from` on a vector, which gives a chunk that holds the
/// bytes of the vector in their order.
#[verifier::external_body]
fn chunk_from(v: Vec<u8>) -> (b: Bytes)
    ensures
        bytes_contents(b) == v@,
{
    Bytes::from(v)
}

/// Calls `Bytes::len`, the number of bytes that the chunk holds.
#[verifier::external_body]
fn chunk_len(b: &Bytes) -> (n: usize)
    ensures
        n == bytes_contents(*b).len(),
{
    b.len()
}

/// Reads the chunk as a slice, through the `Deref` of `Bytes`, and copies
/// the slice with `to_vec`: the copy holds the bytes of the chunk in their
/// order.
#[verifier::external_body]
fn chunk_bytes(b: &Bytes) -> (v: Vec<u8>)
    ensures
        v@ == bytes_contents(*b),
{
    b.to_vec()
}

/// How many bytes a chunk of a read holds at most.
pub const CHUNK_SIZE: usize = 1024;

/// The bytes of the first `n` chunks, one chunk after the other.
pub open spec fn concat(chunks: Seq<Bytes>, n: nat) -> Seq<u8>
    decreases n,
{
    if n == 0 {
        Seq::empty()
    } else {
        concat(chunks, (n - 1) as nat) + bytes_contents(chunks[n - 1])
    }
}

/// The bytes of the first `n` chunks depend on these chunks alone.
pub proof fn lemma_concat_same(a: Seq<Bytes>, b: Seq<Bytes>, n: nat)
    requires
        n <= a.len(),
        n <= b.len(),
        forall|i: int| 0 <= i < n ==> a[i] == b[i],
    ensures
        concat(a, n) == concat(b, n),
    decreases n,
{
    if n > 0 {
        lemma_concat_same(a, b, (n - 1) as nat);
    }
}

/// How many chunks `len` bytes fill.
pub open spec fn chunks_for(len: nat) -> nat {
    (len + CHUNK_SIZE - 1) as nat / CHUNK_SIZE as nat
}

/// `n` chunks that hold no bytes.
pub fn empty_chunks(n: usize) -> (bufs: Vec<Bytes>)
    ensures
        bufs@.len() == n,
        forall|i: int| 0 <= i < n ==> bytes_contents(#[trigger] bufs@[i]) == Seq::<u8>::empty(),
{
    let mut bufs: Vec<Bytes> = Vec::new();
    let mut i: usize = 0;
    while i < n
        invariant
            i <= n,
            bufs@.len() == i,
            forall|j: int| 0 <= j < i ==> bytes_contents(#[trigger] bufs@[j]) == Seq::<u8>::empty(),
        decreases n - i,
    {
        bufs.push(chunk_new());
        i = i + 1;
    }
    bufs
}

/// Cuts `data` into chunks of `CHUNK_SIZE` bytes, the last one shorter if
/// need be, and puts them into the first places of `bufs`. The result is
/// the number of chunks that were filled.
pub fn fill_chunks(data: &Vec<u8>, bufs: &mut Vec<Bytes>) -> (n: usize)
    requires
        data@.len() <= old(bufs)@.len() * CHUNK_SIZE,
    ensures
        final(bufs)@.len() == old(bufs)@.len(),
        n == chunks_for(data@.len()),
        n <= final(bufs)@.len(),
        concat(final(bufs)@, n as nat) == data@,
        forall|i: int| n <= i < final(bufs)@.len() ==> final(bufs)@[i] == old(bufs)@[i],
        forall|i: int|
            0 <= i < n ==> 0 < bytes_contents(#[trigger] final(bufs)@[i]).len() <= CHUNK_SIZE,
{
    let len: usize = data.len();
    let mut n: usize = 0;
    let mut at: usize = 0;
    while at < len
        invariant
            at <= len,
            len == data@.len(),
            len <= bufs@.len() * CHUNK_SIZE,
            bufs@.len() == old(bufs)@.len(),
            at == n * CHUNK_SIZE || at == len,
            at < len ==> at == n * CHUNK_SIZE,
            n == chunks_for(at as nat),
            n <= bufs@.len(),
            concat(bufs@, n as nat) == data@.subrange(0, at as int),
            forall|i: int| n <= i < bufs@.len() ==> bufs@[i] == old(bufs)@[i],
            forall|i: int| 0 <= i < n ==> 0 < bytes_contents(#[trigger] bufs@[i]).len() <= CHUNK_SIZE,
        decreases len - at,
    {
        let end: usize = if len - at > CHUNK_SIZE { at + CHUNK_SIZE } else { len };
        let piece: Vec<u8> = copy_range(data, at, end);
        let chunk: Bytes = chunk_from(piece);
        assert(n < bufs@.len()) by (nonlinear_arith)
            requires
                at == n * CHUNK_SIZE,
                at < len,
                len <= bufs@.len() * CHUNK_SIZE,
        ;
        let ghost before = bufs@;
        bufs.set(n, chunk);
        proof {
            lemma_concat_same(before, bufs@, n as nat);
            assert(concat(bufs@, (n + 1) as nat) =~= data@.subrange(0, end as int));
            assert((n + 1) * CHUNK_SIZE == n * CHUNK_SIZE + CHUNK_SIZE) by (nonlinear_arith);
        }
        n = n + 1;
        at = end;
    }
    assert(data@.subrange(0, at as int) =~= data@);
    n
}

/// Puts the bytes of the first `n` chunks into one vector.
pub fn flatten(bufs: &Vec<Bytes>, n: usize) -> (out: Vec<u8>)
    requires
        n <= bufs@.len(),
    ensures
        out@ == concat(bufs@, n as nat),
{
    let mut out: Vec<u8> = Vec::new();
    let mut i: usize = 0;
    while i < n
        invariant
            i <= n <= bufs@.len(),
            out@ == concat(bufs@, i as nat),
        decreases n - i,
    {
        let piece: Vec<u8> = chunk_bytes(&bufs[i]);
        let ghost before = out@;
        let mut k: usize = 0;
        while k < piece.len()
            invariant
                k <= piece@.len(),
                out@ == before + piece@.subrange(0, k as int),
            decreases piece@.len() - k,
        {
            out.push(piece[k]);
            k = k + 1;
            assert(out@ =~= before + piece@.subrange(0, k as int));
        }
        assert(piece@.subrange(0, k as int) =~= piece@);
        i = i + 1;
    }
    out
}

/// How many bytes the first `n` chunks hold, unless that is more than a
/// counter can hold.
pub fn total_len(bufs: &Vec<Bytes>, n: usize) -> (len: Option<usize>)
    requires
        n <= bufs@.len(),
    ensures
        match len {
            Some(l) => l == concat(bufs@, n as nat).len(),
            None => concat(bufs@, n as nat).len() > usize::MAX,
        },
{
    let mut len: usize = 0;
    let mut i: usize = 0;
    while i < n
        invariant
            i <= n <= bufs@.len(),
            len == concat(bufs@, i as nat).len(),
        decreases n - i,
    {
        let more: usize = chunk_len(&bufs[i]);
        if more > usize::MAX - len {
            proof {
                lemma_concat_grows(bufs@, (i + 1) as nat, n as nat);
            }
            return None;
        }
        len = len + more;
        i = i + 1;
    }
    Some(len)
}

/// The bytes of more chunks are no fewer.
pub proof fn lemma_concat_grows(chunks: Seq<Bytes>, a: nat, b: nat)
    requires
        a <= b,
    ensures
        concat(chunks, a).len() <= concat(chunks, b).len(),
    decreases b - a,
{
    if a < b {
        lemma_concat_grows(chunks, a, (b - 1) as nat);
    }
}

/// What a read by chunks finds.
#[derive(Clone, Copy, Debug, PartialEq, Eq, Structural)]
pub enum ChunksRead {
    /// This many chunks, from the first on, hold the next bytes of the
    /// stream.
    Filled(usize),
    /// Nothing can be read now: the reader waits.
    Blocked,
    /// The stream has ended and all of it was read.
    Finished,
    /// The peer abandoned the stream with this code.
    Reset(u64),
}

/// Whether `r` with the chunks `bufs` says what the read `found` says.
pub open spec fn chunks_say(found: Result<ReadOutcome, StreamError>, r: Result<ChunksRead, StreamError>, before: Seq<Bytes>, bufs: Seq<Bytes>) -> bool {
    match found {
        Err(e) => r == Err::<ChunksRead, StreamError>(e) && bufs == before,
        Ok(ReadOutcome::Blocked) => r == Ok::<ChunksRead, StreamError>(ChunksRead::Blocked) && bufs
            == before,
        Ok(ReadOutcome::Finished) => r == Ok::<ChunksRead, StreamError>(ChunksRead::Finished)
            && bufs == before,
        Ok(ReadOutcome::Reset(code)) => r == Ok::<ChunksRead, StreamError>(ChunksRead::Reset(code))
            && bufs == before,
        Ok(ReadOutcome::Data(v)) => {
            &&& r matches Ok(ChunksRead::Filled(n))
            &&& n == chunks_for(v@.len())
            &&& n <= bufs.len()
            &&& bufs.len() == before.len()
            &&& concat(bufs, n as nat) == v@
            &&& forall|i: int| n <= i < bufs.len() ==> bufs[i] == before[i]
        },
    }
}

/// How many bytes a read into `chunks` chunks asks for.
pub open spec fn chunk_room(chunks: nat) -> nat {
    if chunks * CHUNK_SIZE <= usize::MAX {
        (chunks * CHUNK_SIZE) as nat
    } else {
        usize::MAX as nat
    }
}

/// Reads the next bytes of the stream `id` into the chunks of `bufs`, as
/// one read of as many bytes as the chunks have room for does, and cuts
/// them into chunks.
pub fn read_chunks(conn: &mut Connection, id: StreamId, bufs: &mut Vec<Bytes>) -> (r: Result<
    ChunksRead,
    StreamError,
>)
    requires
        old(conn).wf(),
    ensures
        final(conn).wf(),
        exists|found: Result<ReadOutcome, StreamError>|
            chunks_say(found, r, old(bufs)@, final(bufs)@) && Connection::reads(
                *old(conn),
                id,
                chunk_room(old(bufs)@.len()),
                found,
                *final(conn),
            ),
{
    let room: usize = match bufs.len().checked_mul(CHUNK_SIZE) {
        Some(m) => m,
        None => usize::MAX,
    };
    let found = conn.read(id, room);
    let ghost witness = found;
    match found {
        Err(e) => {
            assert(chunks_say(witness, Err(e), old(bufs)@, bufs@));
            Err(e)
        },
        Ok(ReadOutcome::Blocked) => {
            assert(chunks_say(witness, Ok(ChunksRead::Blocked), old(bufs)@, bufs@));
            Ok(ChunksRead::Blocked)
        },
        Ok(ReadOutcome::Finished) => {
            assert(chunks_say(witness, Ok(ChunksRead::Finished), old(bufs)@, bufs@));
            Ok(ChunksRead::Finished)
        },
        Ok(ReadOutcome::Reset(code)) => {
            assert(chunks_say(witness, Ok(ChunksRead::Reset(code)), old(bufs)@, bufs@));
            Ok(ChunksRead::Reset(code))
        },
        Ok(ReadOutcome::Data(v)) => {
            proof {
                Connection::lemma_read_bounds(*old(conn), id, room as nat, witness, *conn);
                assert(v@.len() <= room);
                assert(v@.len() <= bufs@.len() * CHUNK_SIZE);
            }
            let n: usize = fill_chunks(&v, bufs);
            assert(chunks_say(witness, Ok(ChunksRead::Filled(n)), old(bufs)@, bufs@));
            Ok(ChunksRead::Filled(n))
        },
    }
}

/// The bytes of the first `n` chunks but for the first `skip` of them; a
/// `skip` beyond the bytes leaves none.
pub open spec fn unwritten(chunks: Seq<Bytes>, n: nat, skip: nat) -> Seq<u8> {
    let all = concat(chunks, n);
    if skip <= all.len() {
        all.subrange(skip as int, all.len() as int)
    } else {
        Seq::empty()
    }
}

/// Writes the bytes of the first `n` chunks of `bufs` on the stream `id`,
/// but for the first `skip` of them, which were written before: as one
/// write of these bytes does.
pub fn write_chunks(conn: &mut Connection, id: StreamId, bufs: &Vec<Bytes>, n: usize, skip: usize) -> (r: Result<
    Written,
    StreamError,
>)
    requires
        old(conn).wf(),
        n <= bufs@.len(),
    ensures
        final(conn).wf(),
        concat(bufs@, n as nat).len() <= usize::MAX,
        Connection::writes(*old(conn), id, unwritten(bufs@, n as nat, skip as nat), r, *final(conn)),
{
    let flat: Vec<u8> = flatten(bufs, n);
    let from: usize = if skip <= flat.len() { skip } else { flat.len() };
    let rest: &[u8] = vstd::slice::slice_subrange(flat.as_slice(), from, flat.len());
    assert(rest@ =~= unwritten(bufs@, n as nat, skip as nat));
    conn.write(id, rest)
}

} // verus!
