use bytes::Bytes;
use quic_engine::chunks::{
    empty_chunks, fill_chunks, flatten, read_chunks, total_len, write_chunks, ChunksRead,
    CHUNK_SIZE,
};
use quic_engine::config::{ConfigError, TransportConfig, MIN_DATAGRAM};
use quic_engine::connection::{Connection, PeerLimits};
use quic_engine::echo::{
    gen_data, same_bytes, Echo, EchoArgs, EchoFailure, EchoPhase, Progress, SEED,
};
use quic_engine::send::SendState;
use quic_engine::endpoint::Address;
use quic_engine::error::StreamError;
use quic_engine::frame::Frame;
use quic_engine::recovery::Level;
use quic_engine::send::Written;
use quic_engine::stream_id::{Dir, Side, StreamId, MAX_VARINT};
use quic_engine::streams::PerDir;

#[test]
fn the_usual_configuration_is_valid() {
    let c = TransportConfig::default();
    assert_eq!(c.check(), None);
    assert_eq!(c.max_idle_timeout, Some(10_000_000));
    assert_eq!(c.close_resends, 3);
    assert_eq!(c.packet_threshold, 3);
    let l = c.limits();
    assert_eq!(l.concurrent, PerDir { bi: 100, uni: 100 });
    assert_eq!((l.connection_window, l.stream_window), (1_250_000, 1_250_000));
}

#[test]
fn values_beyond_the_protocol_are_refused() {
    let mut c = TransportConfig::default();
    c.receive_window = MAX_VARINT;
    assert_eq!(c.check(), None);
    c.receive_window = MAX_VARINT + 1;
    assert_eq!(c.check(), Some(ConfigError::OutOfRange));
    let mut c = TransportConfig::default();
    c.stream_receive_window = u64::MAX;
    assert_eq!(c.check(), Some(ConfigError::OutOfRange));
    let mut c = TransportConfig::default();
    c.max_concurrent_uni_streams = MAX_VARINT + 1;
    assert_eq!(c.check(), Some(ConfigError::OutOfRange));
    let mut c = TransportConfig::default();
    c.max_idle_timeout = Some(MAX_VARINT + 1);
    assert_eq!(c.check(), Some(ConfigError::OutOfRange));
    c.max_idle_timeout = None;
    assert_eq!(c.check(), None);
    c.max_datagram_size = MIN_DATAGRAM - 1;
    assert_eq!(c.check(), Some(ConfigError::DatagramTooSmall));
    c.max_datagram_size = MIN_DATAGRAM;
    assert_eq!(c.check(), None);
}

fn args(receive_window: Option<u64>, stream_receive_window: Option<u64>) -> EchoArgs {
    let addr = Address { v6: false, ip: 1, port: 1, multicast: false };
    EchoArgs {
        client_addr: addr,
        server_addr: addr,
        nr_streams: 1,
        stream_size: 10,
        receive_window,
        stream_receive_window,
    }
}

#[test]
fn the_exchange_allows_one_stream_at_a_time() {
    let c = args(Some(37), None).transport().unwrap();
    assert_eq!(c.receive_window, 37);
    assert_eq!(c.stream_receive_window, TransportConfig::default().stream_receive_window);
    assert_eq!((c.max_concurrent_bidi_streams, c.max_concurrent_uni_streams), (1, 1));
    let c = args(None, Some(100 * 1024 * 1024)).transport().unwrap();
    assert_eq!(c.stream_receive_window, 104_857_600);
    assert_eq!(
        args(Some(u64::MAX), None).transport(),
        Err(ConfigError::OutOfRange)
    );
    assert_eq!(
        args(None, Some(MAX_VARINT + 1)).transport(),
        Err(ConfigError::OutOfRange)
    );
}

#[test]
fn seeded_data_is_determined_by_size_and_seed() {
    assert_eq!(SEED, 0x12345678);
    let a = gen_data(1024, SEED);
    let b = gen_data(1024, SEED);
    assert_eq!(a.len(), 1024);
    assert_eq!(a, b);
    // The buffer does not come back as it went in.
    assert!(a.iter().any(|&x| x != 0));
    assert_ne!(a, gen_data(1024, SEED + 1));
    assert_eq!(gen_data(0, SEED), Vec::<u8>::new());
    assert_eq!(gen_data(25 * 1024 + 11, SEED).len(), 25611);
}

#[test]
fn bytes_are_compared_one_by_one() {
    assert!(same_bytes(b"", b""));
    assert!(same_bytes(b"abc", b"abc"));
    assert!(!same_bytes(b"abc", b"abd"));
    assert!(!same_bytes(b"abc", b"ab"));
    assert!(!same_bytes(b"", b"a"));
}

#[test]
fn chunks_hold_the_bytes_in_order() {
    let mut bufs = empty_chunks(4);
    assert_eq!(bufs.len(), 4);
    assert!(bufs.iter().all(|b| b.is_empty()));
    assert_eq!(total_len(&bufs, 4), Some(0));
    let data: Vec<u8> = (0..2500u32).map(|i| (i % 251) as u8).collect();
    assert_eq!(fill_chunks(&data, &mut bufs), 3);
    assert_eq!(bufs[0].len(), CHUNK_SIZE);
    assert_eq!(bufs[1].len(), CHUNK_SIZE);
    assert_eq!(bufs[2].len(), 2500 - 2 * CHUNK_SIZE);
    assert!(bufs[3].is_empty());
    assert_eq!(&bufs[1][..], &data[CHUNK_SIZE..2 * CHUNK_SIZE]);
    assert_eq!(flatten(&bufs, 3), data);
    assert_eq!(flatten(&bufs, 1), &data[..CHUNK_SIZE]);
    assert_eq!(flatten(&bufs, 0), Vec::<u8>::new());
    assert_eq!(total_len(&bufs, 3), Some(2500));
    assert_eq!(total_len(&bufs, 2), Some(2 * CHUNK_SIZE));
    assert_eq!(fill_chunks(&vec![], &mut bufs), 0);
    assert_eq!(fill_chunks(&vec![9u8; CHUNK_SIZE], &mut bufs), 1);
    assert_eq!(fill_chunks(&vec![9u8; 4 * CHUNK_SIZE], &mut bufs), 4);
    assert_eq!(flatten(&vec![Bytes::from_static(b"ab"), Bytes::from_static(b"cd")], 2), b"abcd");
}

/// A server connection whose handshake is complete, with the stream 0 of
/// the client open.
fn serving() -> Connection {
    let mut c = Connection::new(Side::Server, TransportConfig::default(), 0, None);
    c.on_keys(Level::Handshake);
    c.on_keys(Level::OneRtt);
    c.on_connected(PeerLimits {
        streams: PerDir { bi: 10, uni: 10 },
        connection_window: 100_000,
        stream_window: 8,
    });
    c
}

fn feed(c: &mut Connection, offset: u64, data: &[u8], fin: bool) {
    c.on_frame(1, Level::OneRtt, &Frame::Stream { id: StreamId(0), offset, data: data.to_vec(), fin });
    assert_eq!(c.error(), None);
}

#[test]
fn reading_and_writing_by_chunks() {
    let mut c = serving();
    let mut bufs = empty_chunks(2);
    assert_eq!(read_chunks(&mut c, StreamId(0), &mut bufs), Err(StreamError::UnknownStream));
    let data: Vec<u8> = (0..3000u32).map(|i| (i % 7) as u8).collect();
    feed(&mut c, 0, &data, false);
    assert_eq!(c.accept(Dir::Bi), Some(StreamId(0)));
    // Two chunks have room for 2048 bytes.
    assert_eq!(read_chunks(&mut c, StreamId(0), &mut bufs), Ok(ChunksRead::Filled(2)));
    assert_eq!(flatten(&bufs, 2), &data[..2048]);
    assert_eq!(read_chunks(&mut c, StreamId(0), &mut bufs), Ok(ChunksRead::Filled(1)));
    assert_eq!(flatten(&bufs, 1), &data[2048..]);
    assert_eq!(read_chunks(&mut c, StreamId(0), &mut bufs), Ok(ChunksRead::Blocked));
    feed(&mut c, 3000, b"", true);
    assert_eq!(read_chunks(&mut c, StreamId(0), &mut bufs), Ok(ChunksRead::Finished));

    // The peer gave eight bytes of credit for the stream.
    let out = vec![Bytes::from_static(b"hello "), Bytes::from_static(b"world")];
    assert_eq!(write_chunks(&mut c, StreamId(0), &out, 2, 0), Ok(Written::Accepted(8)));
    assert_eq!(write_chunks(&mut c, StreamId(0), &out, 2, 8), Ok(Written::Blocked));
    c.on_frame(2, Level::OneRtt, &Frame::MaxStreamData { id: StreamId(0), limit: 100 });
    assert_eq!(write_chunks(&mut c, StreamId(0), &out, 2, 8), Ok(Written::Accepted(3)));
    assert_eq!(write_chunks(&mut c, StreamId(0), &out, 2, 11), Ok(Written::Accepted(0)));
    assert_eq!(write_chunks(&mut c, StreamId(0), &out, 2, 99), Ok(Written::Accepted(0)));
    let mut sent = Vec::new();
    while let Some(p) = c.poll_transmit(3) {
        for f in p.frames {
            if let Frame::Stream { id, data, .. } = f {
                assert_eq!(id, StreamId(0));
                sent.extend_from_slice(&data);
            }
        }
    }
    assert_eq!(sent, b"hello world");
}

#[test]
fn a_reset_ends_a_read_by_chunks() {
    let mut c = serving();
    feed(&mut c, 0, b"abc", false);
    c.on_frame(1, Level::OneRtt, &Frame::ResetStream { id: StreamId(0), code: 3, final_size: 3 });
    let mut bufs = empty_chunks(2);
    assert_eq!(read_chunks(&mut c, StreamId(0), &mut bufs), Ok(ChunksRead::Reset(3)));
}

#[test]
fn the_echo_writes_back_what_it_reads() {
    let mut c = serving();
    c.on_frame(1, Level::OneRtt, &Frame::MaxStreamData { id: StreamId(0), limit: 4 });
    feed(&mut c, 0, b"abcdef", false);
    let mut echo = Echo::new(StreamId(0));
    assert_eq!(echo.phase(), EchoPhase::Reading);
    assert_eq!(echo.step(&mut c), Progress::Again);
    assert_eq!(echo.phase(), EchoPhase::Writing);
    // The credit of the peer allows eight bytes.
    assert_eq!(echo.step(&mut c), Progress::Again);
    assert_eq!(echo.phase(), EchoPhase::Reading);
    assert_eq!(echo.step(&mut c), Progress::Wait);
    feed(&mut c, 6, b"ghijkl", false);
    assert_eq!(echo.step(&mut c), Progress::Again);
    assert_eq!(echo.step(&mut c), Progress::Again);
    assert_eq!(echo.phase(), EchoPhase::Writing);
    assert_eq!(echo.step(&mut c), Progress::Wait);
    c.on_frame(2, Level::OneRtt, &Frame::MaxStreamData { id: StreamId(0), limit: 100 });
    assert_eq!(echo.step(&mut c), Progress::Again);
    assert_eq!(echo.phase(), EchoPhase::Reading);
    feed(&mut c, 12, b"", true);
    assert_eq!(echo.step(&mut c), Progress::Again);
    assert_eq!(echo.phase(), EchoPhase::Finishing);
    assert_eq!(echo.step(&mut c), Progress::Done);
    assert_eq!(echo.phase(), EchoPhase::Done);
    assert_eq!(echo.step(&mut c), Progress::Done);

    let mut sent = Vec::new();
    let mut ended = false;
    while let Some(p) = c.poll_transmit(3) {
        for f in p.frames {
            if let Frame::Stream { data, fin, .. } = f {
                sent.extend_from_slice(&data);
                ended |= fin;
            }
        }
    }
    assert_eq!(sent, b"abcdefghijkl");
    assert!(ended);
}

#[test]
fn the_echo_fails_when_the_stream_is_abandoned() {
    let mut c = serving();
    feed(&mut c, 0, b"abc", false);
    c.on_frame(1, Level::OneRtt, &Frame::ResetStream { id: StreamId(0), code: 3, final_size: 3 });
    let mut echo = Echo::new(StreamId(0));
    assert_eq!(echo.failure(), None);
    assert_eq!(echo.step(&mut c), Progress::Done);
    assert_eq!(echo.phase(), EchoPhase::Failed);
    assert_eq!(echo.failure(), Some(EchoFailure::Reset(3)));
    // Nothing was written and the stream was not finished.
    assert_eq!(c.stream_states(StreamId(0)).map(|s| s.0), Some(SendState::Ready));
    assert_eq!(echo.step(&mut c), Progress::Done);
    assert_eq!(echo.failure(), Some(EchoFailure::Reset(3)));
}

#[test]
fn the_echo_fails_when_a_read_fails() {
    let mut c = serving();
    // The stream does not exist.
    let mut echo = Echo::new(StreamId(4));
    assert_eq!(echo.step(&mut c), Progress::Done);
    assert_eq!(echo.phase(), EchoPhase::Failed);
    assert_eq!(echo.failure(), Some(EchoFailure::Read(StreamError::UnknownStream)));
}

#[test]
fn the_echo_fails_when_a_write_fails() {
    let mut c = serving();
    feed(&mut c, 0, b"abc", false);
    let mut echo = Echo::new(StreamId(0));
    assert_eq!(echo.step(&mut c), Progress::Again);
    assert_eq!(echo.phase(), EchoPhase::Writing);
    // The peer asks that the stream no longer be written.
    c.on_frame(2, Level::OneRtt, &Frame::StopSending { id: StreamId(0), code: 9 });
    assert_eq!(echo.step(&mut c), Progress::Done);
    assert_eq!(echo.phase(), EchoPhase::Failed);
    assert_eq!(echo.failure(), Some(EchoFailure::Write(StreamError::Stopped(9))));
    // No read and no finish follow.
    assert_eq!(echo.step(&mut c), Progress::Done);
    assert_eq!(c.stream_states(StreamId(0)).map(|s| s.0), Some(SendState::ResetSent));
}

#[test]
fn the_echo_of_a_stream_that_ended_without_a_byte() {
    let mut c = serving();
    feed(&mut c, 0, b"", true);
    let mut echo = Echo::new(StreamId(0));
    // The read finds the end at once.
    assert_eq!(echo.step(&mut c), Progress::Again);
    assert_eq!(echo.phase(), EchoPhase::Finishing);
    // A write of no bytes opens the stream for the finish.
    assert_eq!(echo.step(&mut c), Progress::Again);
    assert_eq!(c.stream_states(StreamId(0)).map(|s| s.0), Some(SendState::Send));
    assert_eq!(echo.step(&mut c), Progress::Done);
    assert_eq!(echo.phase(), EchoPhase::Done);
    assert_eq!(echo.failure(), None);
    assert_eq!(c.stream_states(StreamId(0)).map(|s| s.0), Some(SendState::DataSent));
    // What leaves is the end of an empty stream.
    let mut ends = 0;
    while let Some(p) = c.poll_transmit(3) {
        for f in p.frames {
            if let Frame::Stream { id, offset, data, fin } = f {
                assert_eq!((id, offset, fin), (StreamId(0), 0, true));
                assert!(data.is_empty());
                ends += 1;
            }
        }
    }
    assert_eq!(ends, 1);
}
