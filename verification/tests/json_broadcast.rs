use session_server::broadcast::{broadcast_messages, broadcast_payload, filter_out};
use session_server::game::{Player, Point};
use session_server::json::{encode_player, encode_players, parse_player, parse_point_chars};
use session_server::registry::{send_addr_for, Ipv4, NetAddr, SessionRegistry};
use session_server::text::str_chars;

fn sample_player(id: &str, x: i32, y: i32) -> Player {
    Player::new(
        id.to_string(),
        id.to_string(),
        2,
        true,
        Point::new(0, 0),
        Point::new(x, y),
        1,
        0,
        1_700_000_000,
    )
}

fn assert_players_equal(a: &Player, b: &Player) {
    assert_eq!(a.id, b.id);
    assert_eq!(a.char_name, b.char_name);
    assert_eq!(a.skin, b.skin);
    assert_eq!(a.logged_in, b.logged_in);
    assert_eq!(a.pos, b.pos);
    assert_eq!(a.velocity, b.velocity);
    assert_eq!(a.team, b.team);
    assert_eq!(a.world_pos, b.world_pos);
    assert_eq!(a.last_update, b.last_update);
}

#[test]
fn player_json_exact_text() {
    let p = sample_player("alice", 5, -10);
    assert_eq!(
        encode_player(&p),
        "{\"id\":\"alice\",\"char_name\":\"alice\",\"skin\":2,\"logged_in\":true,\
         \"pos\":{\"x\":5,\"y\":-10},\"velocity\":1,\"team\":0,\
         \"world_pos\":{\"x\":0,\"y\":0},\"last_update\":1700000000}"
    );
}

#[test]
fn player_json_round_trip() {
    let p = sample_player("alice", 5, -10);
    let text = encode_player(&p);
    let q = parse_player(&text).expect("own encoding must parse");
    assert_players_equal(&p, &q);
}

#[test]
fn player_json_round_trip_extremes() {
    let mut p = sample_player("", i32::MAX, i32::MIN);
    p.last_update = i64::MIN;
    p.skin = 255;
    p.velocity = 4;
    p.team = 255;
    p.logged_in = false;
    let q = parse_player(&encode_player(&p)).expect("extreme values must survive");
    assert_players_equal(&p, &q);
}

#[test]
fn player_json_reads_back_with_serde() {
    let p = sample_player("alice", 5, -10);
    let v: serde_json::Value = serde_json::from_str(&encode_player(&p)).expect("valid JSON");
    assert_eq!(v["id"], serde_json::Value::String("alice".to_string()));
    assert_eq!(v["skin"].as_u64(), Some(2));
    assert_eq!(v["logged_in"].as_bool(), Some(true));
    assert_eq!(v["pos"]["x"].as_i64(), Some(5));
    assert_eq!(v["pos"]["y"].as_i64(), Some(-10));
    assert_eq!(v["last_update"].as_i64(), Some(1_700_000_000));
}

#[test]
fn player_json_rejects_malformed_text() {
    assert!(parse_player("").is_none());
    assert!(parse_player("{}").is_none());
    assert!(parse_player("not json").is_none());
    let p = sample_player("alice", 1, 2);
    let good = encode_player(&p);
    // trailing garbage is refused, as a full-record read must be
    assert!(parse_player(&format!("{}x", good)).is_none());
    // a truncated record is refused
    assert!(parse_player(&good[..good.len() - 1]).is_none());
}

#[test]
fn point_json_parses() {
    let v = str_chars("{\"x\":-2147483648,\"y\":2147483647}");
    let p = parse_point_chars(&v).unwrap();
    assert_eq!(p.x, i32::MIN);
    assert_eq!(p.y, i32::MAX);
    assert!(parse_point_chars(&str_chars("{\"x\":1,\"y\":2}junk")).is_none());
    assert!(parse_point_chars(&str_chars("{\"x\":1}")).is_none());
    // a value outside 32 bits is refused
    assert!(parse_point_chars(&str_chars("{\"x\":2147483648,\"y\":0}")).is_none());
}

#[test]
fn empty_snapshot_encodes_as_empty_map() {
    let ps: Vec<Player> = Vec::new();
    assert_eq!(encode_players(&ps), "{}");
    assert_eq!(broadcast_payload(&ps, &"anyone".to_string()), "P0;{}");
}

#[test]
fn broadcast_payload_excludes_the_recipient() {
    let ps = vec![
        sample_player("a", 1, 1),
        sample_player("b", 2, 2),
        sample_player("c", 3, 3),
    ];
    let payload = broadcast_payload(&ps, &"b".to_string());
    assert!(payload.starts_with("P0;"));
    let v: serde_json::Value = serde_json::from_str(&payload[3..]).expect("valid JSON map");
    let map = v.as_object().expect("a JSON object");
    assert!(map.contains_key("a"));
    assert!(!map.contains_key("b"));
    assert!(map.contains_key("c"));
    assert_eq!(map["c"]["pos"]["x"].as_i64(), Some(3));
}

#[test]
fn filter_out_drops_only_the_named_record() {
    let ps = vec![sample_player("a", 1, 1), sample_player("b", 2, 2)];
    let kept = filter_out(&ps, &"a".to_string());
    assert_eq!(kept.len(), 1);
    assert_eq!(kept[0].id, "b");
    let all = filter_out(&ps, &"nobody".to_string());
    assert_eq!(all.len(), 2);
}

#[test]
fn registry_upserts_by_player_id() {
    let mut reg = SessionRegistry::new();
    let addr1 = NetAddr { ip: Ipv4 { a: 127, b: 0, c: 0, d: 1 }, port: 5000 };
    let addr2 = NetAddr { ip: Ipv4 { a: 10, b: 0, c: 0, d: 9 }, port: 6000 };
    reg.register("a".to_string(), addr1);
    reg.register("b".to_string(), addr1);
    reg.register("a".to_string(), addr2);
    let entries = reg.snapshot();
    assert_eq!(entries.len(), 2);
    assert_eq!(entries[0].player_id, "a");
    assert_eq!(entries[0].addr, addr2);
    assert_eq!(entries[1].player_id, "b");
    assert_eq!(entries[1].addr, addr1);
}

#[test]
fn send_address_is_one_port_up() {
    let a = NetAddr { ip: Ipv4 { a: 127, b: 0, c: 0, d: 1 }, port: 8877 };
    assert_eq!(send_addr_for(&a), Some(NetAddr { ip: a.ip, port: 8878 }));
    let top = NetAddr { ip: a.ip, port: 65535 };
    assert_eq!(send_addr_for(&top), None);
}

#[test]
fn broadcast_messages_address_every_session() {
    let ps = vec![sample_player("a", 1, 1), sample_player("b", 2, 2)];
    let mut reg = SessionRegistry::new();
    let addr_a = NetAddr { ip: Ipv4 { a: 127, b: 0, c: 0, d: 1 }, port: 7001 };
    let addr_b = NetAddr { ip: Ipv4 { a: 127, b: 0, c: 0, d: 1 }, port: 7002 };
    reg.register("a".to_string(), addr_a);
    reg.register("b".to_string(), addr_b);
    let msgs = broadcast_messages(&ps, &reg);
    assert_eq!(msgs.len(), 2);
    assert_eq!(msgs[0].0, addr_a);
    assert!(!msgs[0].1.contains("\"a\":"));
    assert!(msgs[0].1.contains("\"b\":"));
    assert_eq!(msgs[1].0, addr_b);
    assert!(!msgs[1].1.contains("\"b\":"));
    assert!(msgs[1].1.contains("\"a\":"));
}
