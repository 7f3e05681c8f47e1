use volley::codec::{DecodeError, Packet, PlayerEvent};

fn round_trip(p: Packet) {
    let expect = p.clone();
    let bytes = p.parse();
    let n = bytes.len();
    let (decoded, used) = Packet::read_from(&bytes).expect("frame must decode");
    assert_eq!(decoded, expect);
    assert_eq!(used, n);
}

#[test]
fn round_trip_game_info() {
    round_trip(Packet::GameInfo { width: 600, height: 600, pids: vec![1, 2, 0xFFFF_FFFF_FFFF_FFFF] });
    round_trip(Packet::GameInfo { width: 0, height: 0, pids: vec![] });
}

#[test]
fn round_trip_player_frames() {
    round_trip(Packet::PlayerJoin(42));
    round_trip(Packet::PlayerDestroy(42));
    round_trip(Packet::PlayerEvent { pid: 7, event: PlayerEvent::Fire });
    round_trip(Packet::PlayerEvent { pid: 7, event: PlayerEvent::Exit });
    round_trip(Packet::PlayerPos { pid: 7, x: 123, y: 456 });
}

#[test]
fn round_trip_projectile_frames() {
    round_trip(Packet::BulletCreate { id: 99, x: 300, y: 598 });
    round_trip(Packet::BulletDestroy(99));
    round_trip(Packet::EnemyCreate { id: 99, x: 300, y: 0 });
    round_trip(Packet::EnemyDestroy(99));
}

#[test]
fn round_trip_terminal_and_score_frames() {
    round_trip(Packet::GameWon);
    round_trip(Packet::GameLost);
    round_trip(Packet::BulletHit);
    round_trip(Packet::EnemyHit);
}

#[test]
fn encode_player_pos_exact_bytes() {
    let bytes = Packet::PlayerPos { pid: 0x4142434445464748, x: 0x01020304, y: 5 }.parse();
    assert_eq!(
        bytes,
        vec![
            0x05, 0x41, 0x42, 0x43, 0x44, 0x45, 0x46, 0x47, 0x48, 0x01, 0x02, 0x03, 0x04, 0x00,
            0x00, 0x00, 0x05,
        ]
    );
}

#[test]
fn encode_game_info_exact_bytes() {
    let bytes = Packet::GameInfo { width: 600, height: 600, pids: vec![1] }.parse();
    assert_eq!(
        bytes,
        vec![
            0x01, 0x00, 0x00, 0x02, 0x58, 0x00, 0x00, 0x02, 0x58, 0x01, 0x00, 0x00, 0x00, 0x00,
            0x00, 0x00, 0x00, 0x01,
        ]
    );
}

#[test]
fn decode_needs_more_data() {
    assert_eq!(Packet::read_from(&vec![]), Err(DecodeError::NeedMoreData));
    assert_eq!(Packet::read_from(&vec![0x02, 0x00]), Err(DecodeError::NeedMoreData));
    assert_eq!(
        Packet::read_from(&vec![0x05, 0, 0, 0, 0, 0, 0, 0, 0, 0, 0, 0, 0]),
        Err(DecodeError::NeedMoreData)
    );
    // A session-start frame whose roster is one entry short.
    let mut info = Packet::GameInfo { width: 1, height: 1, pids: vec![3, 4] }.parse();
    info.pop();
    assert_eq!(Packet::read_from(&info), Err(DecodeError::NeedMoreData));
}

#[test]
fn decode_rejects_unknown_tag() {
    assert_eq!(Packet::read_from(&vec![0x00]), Err(DecodeError::InvalidTag));
    assert_eq!(Packet::read_from(&vec![0xFF, 1, 2, 3]), Err(DecodeError::InvalidTag));
}

#[test]
fn decode_rejects_unknown_event_code() {
    let mut frame = Packet::PlayerEvent { pid: 7, event: PlayerEvent::Exit }.parse();
    let last = frame.len() - 1;
    frame[last] = 9;
    assert_eq!(Packet::read_from(&frame), Err(DecodeError::InvalidTag));
}

#[test]
fn decode_leaves_trailing_bytes() {
    let mut bytes = Packet::BulletDestroy(5).parse();
    bytes.push(0xAA);
    let (decoded, used) = Packet::read_from(&bytes).unwrap();
    assert_eq!(decoded, Packet::BulletDestroy(5));
    assert_eq!(used, 9);
}

#[test]
fn player_event_codes() {
    assert_eq!(PlayerEvent::Fire.parse(), 0);
    assert_eq!(PlayerEvent::Exit.parse(), 1);
    assert_eq!(PlayerEvent::get(0), Ok(PlayerEvent::Fire));
    assert_eq!(PlayerEvent::get(1), Ok(PlayerEvent::Exit));
    assert_eq!(PlayerEvent::get(2), Err(DecodeError::InvalidTag));
}
