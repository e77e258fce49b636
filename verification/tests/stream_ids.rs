use quic_engine::stream_id::{Dir, Side, StreamId, MAX_STREAM_INDEX, MAX_VARINT};

#[test]
fn the_number_carries_initiator_direction_and_position() {
    assert_eq!(StreamId::new(Side::Client, Dir::Bi, 0), StreamId(0));
    assert_eq!(StreamId::new(Side::Server, Dir::Bi, 0), StreamId(1));
    assert_eq!(StreamId::new(Side::Client, Dir::Uni, 0), StreamId(2));
    assert_eq!(StreamId::new(Side::Server, Dir::Uni, 0), StreamId(3));
    assert_eq!(StreamId::new(Side::Server, Dir::Uni, 5), StreamId(23));
    assert_eq!(StreamId::new(Side::Client, Dir::Bi, 7), StreamId(28));
}

#[test]
fn the_parts_come_back() {
    for &side in &[Side::Client, Side::Server] {
        for &dir in &[Dir::Bi, Dir::Uni] {
            for &index in &[0u64, 1, 2, 1000, MAX_STREAM_INDEX] {
                let id = StreamId::new(side, dir, index);
                assert_eq!(id.initiator(), side);
                assert_eq!(id.dir(), dir);
                assert_eq!(id.index(), index);
                assert!(id.0 <= MAX_VARINT);
            }
        }
    }
}

#[test]
fn the_largest_position_gives_the_largest_number() {
    assert_eq!(StreamId::new(Side::Server, Dir::Uni, MAX_STREAM_INDEX).0, MAX_VARINT);
}

#[test]
fn within_a_class_the_numbers_follow_the_positions() {
    let mut last = None;
    for index in 0..50 {
        let id = StreamId::new(Side::Client, Dir::Uni, index);
        if let Some(before) = last {
            assert!(id.0 > before);
        }
        last = Some(id.0);
    }
}

#[test]
fn each_side_has_a_peer() {
    assert_eq!(Side::Client.peer(), Side::Server);
    assert_eq!(Side::Server.peer(), Side::Client);
}
