use session_server::clock::{decode_frame_now, now_timestamp};
use session_server::game::CommandType;
use session_server::wire::{
    decode_frame, decode_sync_frame, get_context_from, get_operation_from, is_exit_frame,
};

#[test]
fn login_frame_decodes() {
    let now = 1_700_000_000i64;
    let buf = b"1700000000;L1;alice;2;player";
    let cmd = decode_frame(buf, now).expect("fresh login frame must decode");
    assert_eq!(cmd.timestamp, 1_700_000_000);
    assert!(cmd.command == CommandType::LoginCommand);
    assert_eq!(cmd.context.player_id, "alice");
    assert_eq!(cmd.context.skin, 2);
    assert_eq!(cmd.context.player_type, "player");
    assert_eq!(cmd.context.direction, 0);
}

#[test]
fn move_frame_decodes() {
    let now = 1_700_000_000i64;
    let buf = b"1700000000;M0;bob;1";
    let cmd = decode_frame(buf, now).expect("fresh move frame must decode");
    assert!(cmd.command == CommandType::MoveCommand);
    assert_eq!(cmd.context.player_id, "bob");
    assert_eq!(cmd.context.direction, 1);
}

#[test]
fn direction_four_becomes_stop() {
    let now = 1_700_000_000i64;
    let cmd = decode_frame(b"1700000000;M0;bob;4", now).unwrap();
    assert!(cmd.command == CommandType::StopCommand);
    assert_eq!(cmd.context.direction, 4);
}

#[test]
fn stale_frame_is_dropped() {
    // Exactly 100 seconds old sits on the boundary and is dropped.
    let now = 1_700_000_100i64;
    assert!(decode_frame(b"1700000000;M0;bob;1", now).is_none());
    // 99 seconds old still passes.
    assert!(decode_frame(b"1700000001;M0;bob;1", now).is_some());
}

#[test]
fn future_timestamps_are_accepted() {
    let now = 1_700_000_000i64;
    assert!(decode_frame(b"1900000000;M0;bob;1", now).is_some());
}

#[test]
fn unknown_op_is_ignored() {
    let now = 1_700_000_000i64;
    assert!(decode_frame(b"1700000000;X9;bob;1", now).is_none());
    assert!(decode_frame(b"1700000000;P0;whatever", now).is_none());
    assert!(decode_frame(b"1700000000;E0;", now).is_none());
}

#[test]
fn malformed_frames_are_dropped() {
    let now = 1_700_000_000i64;
    // no separator at all
    assert!(decode_frame(b"1700000000", now).is_none());
    // unparsable timestamp
    assert!(decode_frame(b"abc;M0;bob;1", now).is_none());
    assert!(decode_frame(b";M0;bob;1", now).is_none());
    // timestamp too large for a signed 64-bit value
    assert!(decode_frame(b"99999999999999999999;M0;bob;1", now).is_none());
    // non-numeric direction
    assert!(decode_frame(b"1700000000;M0;bob;x", now).is_none());
    // direction out of range
    assert!(decode_frame(b"1700000000;M0;bob;5", now).is_none());
    // missing fields
    assert!(decode_frame(b"1700000000;M0;bob", now).is_none());
    assert!(decode_frame(b"1700000000;L1;alice;2", now).is_none());
    // non-numeric skin
    assert!(decode_frame(b"1700000000;L1;alice;red;player", now).is_none());
    // skin out of byte range
    assert!(decode_frame(b"1700000000;L1;alice;256;player", now).is_none());
    // a byte outside printable ASCII
    assert!(decode_frame(b"1700000000;M0;b\xffb;1", now).is_none());
    // empty datagram
    assert!(decode_frame(b"", now).is_none());
}

#[test]
fn login_extra_fields_are_ignored() {
    let now = 1_700_000_000i64;
    let cmd = decode_frame(b"1700000000;L1;alice;2;player;extra", now).unwrap();
    assert_eq!(cmd.context.player_id, "alice");
    assert_eq!(cmd.context.player_type, "player");
}

#[test]
fn sync_frame_decodes() {
    let buf = b"1700000000;S0;carol;{\"x\":17,\"y\":-4}";
    let (id, pos) = decode_sync_frame(buf).expect("well-formed sync frame must decode");
    assert_eq!(id, "carol");
    assert_eq!(pos.x, 17);
    assert_eq!(pos.y, -4);
}

#[test]
fn sync_frame_malformed_json_is_dropped() {
    assert!(decode_sync_frame(b"1700000000;S0;carol;{\"x\":17}").is_none());
    assert!(decode_sync_frame(b"1700000000;S0;carol;notjson").is_none());
    assert!(decode_sync_frame(b"1700000000;S0;carol").is_none());
    assert!(decode_sync_frame(b"").is_none());
}

#[test]
fn exit_frame_is_recognized() {
    let now = 1_700_000_000i64;
    assert!(is_exit_frame(b"1700000000;E0;", now));
    // the codec itself never turns it into a command
    assert!(decode_frame(b"1700000000;E0;", now).is_none());
    // a stale or malformed control frame is ignored like any other
    assert!(!is_exit_frame(b"1699999900;E0;", now));
    assert!(!is_exit_frame(b"1700000000;M0;", now));
    assert!(!is_exit_frame(b"E0;", now));
    assert!(!is_exit_frame(b"", now));
}

#[test]
fn decoding_against_the_live_clock() {
    // a frame stamped with the clock itself is always fresh
    let frame = format!("{};M0;bob;1", now_timestamp());
    let cmd = decode_frame_now(frame.as_bytes()).expect("a just-stamped frame is fresh");
    assert_eq!(cmd.context.player_id, "bob");
    // one second past the epoch went stale long ago
    assert!(decode_frame_now(b"1;M0;bob;1").is_none());
}

#[test]
fn operation_token_is_read_from_the_head() {
    assert_eq!(get_operation_from(b"E0;"), Some((b'E', b'0', b';')));
    assert_eq!(get_operation_from(b"L1;alice"), Some((b'L', b'1', b';')));
    assert_eq!(get_operation_from(b"ab"), None);
    let ctx = get_context_from(b"L1;alice").unwrap();
    assert_eq!(ctx, b"alice");
    assert!(get_context_from(b"ab").is_none());
}
