use session_server::game::{CommandContext, CommandType, GameCommand, Player, Point};
use session_server::processor::GameCommandProcessor;
use session_server::store::PlayerStore;
use session_server::wire::decode_frame;

fn login_cmd(id: &str, ptype: &str) -> GameCommand {
    GameCommand {
        timestamp: 0,
        command: CommandType::LoginCommand,
        context: CommandContext {
            player_id: id.to_string(),
            direction: 0,
            player_type: ptype.to_string(),
            skin: 3,
        },
    }
}

fn move_cmd(id: &str, direction: u8) -> GameCommand {
    GameCommand {
        timestamp: 0,
        command: if direction == 4 {
            CommandType::StopCommand
        } else {
            CommandType::MoveCommand
        },
        context: CommandContext {
            player_id: id.to_string(),
            direction,
            player_type: String::new(),
            skin: 0,
        },
    }
}

#[test]
fn login_creates_player_at_origin() {
    let mut store = PlayerStore::new();
    GameCommandProcessor::process(&mut store, &login_cmd("alice", "player"), 42);
    let p = store.get(&"alice".to_string()).expect("record must exist after login");
    assert_eq!(p.id, "alice");
    assert_eq!(p.char_name, "alice");
    assert_eq!(p.pos, Point { x: 0, y: 0 });
    assert_eq!(p.world_pos, Point { x: 0, y: 0 });
    assert!(p.logged_in);
    assert_eq!(p.team, 0);
    assert_eq!(p.velocity, 0);
    assert_eq!(p.skin, 3);
    assert_eq!(p.last_update, 42);
}

#[test]
fn observer_login_is_not_tracked() {
    let mut store = PlayerStore::new();
    GameCommandProcessor::process(&mut store, &login_cmd("watcher", "observer"), 42);
    assert!(store.get(&"watcher".to_string()).is_none());
}

#[test]
fn relogin_overwrites_the_record() {
    let mut store = PlayerStore::new();
    GameCommandProcessor::process(&mut store, &login_cmd("alice", "player"), 1);
    GameCommandProcessor::process(&mut store, &move_cmd("alice", 1), 2);
    GameCommandProcessor::process(&mut store, &login_cmd("alice", "player"), 3);
    let p = store.get(&"alice".to_string()).unwrap();
    assert_eq!(p.pos, Point { x: 0, y: 0 });
    assert_eq!(p.last_update, 3);
}

#[test]
fn each_direction_steps_five_units() {
    // direction 0: y -= 5; 1: x += 5; 2: y += 5; 3: x -= 5; velocity echoes it
    let expected = [(0i32, -5i32), (5, 0), (0, 5), (-5, 0)];
    for d in 0u8..4 {
        let mut store = PlayerStore::new();
        GameCommandProcessor::process(&mut store, &login_cmd("p", "player"), 1);
        GameCommandProcessor::process(&mut store, &move_cmd("p", d), 2);
        let p = store.get(&"p".to_string()).unwrap();
        assert_eq!(p.pos.x, expected[d as usize].0);
        assert_eq!(p.pos.y, expected[d as usize].1);
        assert_eq!(p.velocity, d);
        assert_eq!(p.last_update, 2);
        assert_eq!(store.last_updated(), 2);
    }
}

#[test]
fn move_for_unknown_player_is_a_no_op() {
    let mut store = PlayerStore::new();
    GameCommandProcessor::process(&mut store, &move_cmd("ghost", 1), 2);
    assert!(store.get(&"ghost".to_string()).is_none());
    assert_eq!(store.last_updated(), 0);
}

#[test]
fn standing_move_reapplies_every_tick() {
    let mut store = PlayerStore::new();
    let mut proc = GameCommandProcessor::new();
    proc.tick(&mut store, &vec![login_cmd("p1", "player")], 10);
    proc.tick(&mut store, &vec![move_cmd("p1", 1)], 11);
    // the move tick applies the intent once
    assert_eq!(store.get(&"p1".to_string()).unwrap().pos.x, 5);
    // three quiet ticks keep the motion going: x grows by 5 each
    for n in 2..5i64 {
        proc.tick(&mut store, &vec![], 10 + n);
        assert_eq!(store.get(&"p1".to_string()).unwrap().pos.x, (5 * n) as i32);
    }
}

#[test]
fn stop_clears_the_standing_intent() {
    let mut store = PlayerStore::new();
    let mut proc = GameCommandProcessor::new();
    proc.tick(&mut store, &vec![login_cmd("p1", "player")], 10);
    proc.tick(&mut store, &vec![move_cmd("p1", 1)], 11);
    proc.tick(&mut store, &vec![], 12);
    assert_eq!(store.get(&"p1".to_string()).unwrap().pos.x, 10);
    // the stop tick applies no further motion
    proc.tick(&mut store, &vec![move_cmd("p1", 4)], 13);
    assert_eq!(store.get(&"p1".to_string()).unwrap().pos.x, 10);
    // and later quiet ticks change nothing
    proc.tick(&mut store, &vec![], 14);
    proc.tick(&mut store, &vec![], 15);
    assert_eq!(store.get(&"p1".to_string()).unwrap().pos.x, 10);
}

#[test]
fn a_new_move_replaces_the_standing_intent() {
    let mut store = PlayerStore::new();
    let mut proc = GameCommandProcessor::new();
    proc.tick(&mut store, &vec![login_cmd("p1", "player")], 10);
    proc.tick(&mut store, &vec![move_cmd("p1", 1)], 11);
    proc.tick(&mut store, &vec![move_cmd("p1", 2)], 12);
    let after = {
        let p = store.get(&"p1".to_string()).unwrap();
        (p.pos.x, p.pos.y)
    };
    // one step right from the first tick, then one step down: no double move
    assert_eq!(after, (5, 5));
    proc.tick(&mut store, &vec![], 13);
    let p = store.get(&"p1".to_string()).unwrap();
    assert_eq!((p.pos.x, p.pos.y), (5, 10));
}

#[test]
fn one_shots_drain_before_the_table_reapplies() {
    // a login arriving while a move intent stands: the login resets the
    // position first, the standing move then acts on the fresh record
    let mut store = PlayerStore::new();
    let mut proc = GameCommandProcessor::new();
    proc.tick(&mut store, &vec![login_cmd("p1", "player")], 10);
    proc.tick(&mut store, &vec![move_cmd("p1", 1)], 11);
    proc.tick(&mut store, &vec![], 12);
    assert_eq!(store.get(&"p1".to_string()).unwrap().pos.x, 10);
    proc.tick(&mut store, &vec![login_cmd("p1", "player")], 13);
    // reset to origin, then the still-standing move stepped once
    assert_eq!(store.get(&"p1".to_string()).unwrap().pos.x, 5);
}

#[test]
fn update_pos_overwrites_position_only() {
    let mut store = PlayerStore::new();
    GameCommandProcessor::process(&mut store, &login_cmd("p1", "player"), 10);
    GameCommandProcessor::process(&mut store, &move_cmd("p1", 1), 11);
    let moved = GameCommandProcessor::update_pos(
        &mut store,
        &"p1".to_string(),
        Point { x: 70, y: -3 },
    );
    assert!(moved);
    let p = store.get(&"p1".to_string()).unwrap();
    assert_eq!(p.pos, Point { x: 70, y: -3 });
    // neither the stamp nor the velocity moves on a sync overwrite
    assert_eq!(p.last_update, 11);
    assert_eq!(p.velocity, 1);
    // unknown ids are left alone
    assert!(!GameCommandProcessor::update_pos(
        &mut store,
        &"ghost".to_string(),
        Point { x: 1, y: 1 }
    ));
}

#[test]
fn end_to_end_scenario() {
    // client A logs in, starts moving right, then stops
    let now = 1_700_000_000i64;
    let mut store = PlayerStore::new();
    let mut proc = GameCommandProcessor::new();

    let login = decode_frame(b"1700000000;L1;A;0;player", now).unwrap();
    proc.tick(&mut store, &vec![login], now);
    {
        let a = store.get(&"A".to_string()).unwrap();
        assert_eq!(a.pos, Point { x: 0, y: 0 });
        assert!(a.logged_in);
    }

    let mv = decode_frame(b"1700000000;M0;A;1", now).unwrap();
    proc.tick(&mut store, &vec![mv], now + 1);
    assert_eq!(store.get(&"A".to_string()).unwrap().pos, Point { x: 5, y: 0 });

    let stop = decode_frame(b"1700000000;M0;A;4", now).unwrap();
    proc.tick(&mut store, &vec![stop], now + 2);
    assert_eq!(store.get(&"A".to_string()).unwrap().pos, Point { x: 5, y: 0 });
    proc.tick(&mut store, &vec![], now + 3);
    assert_eq!(store.get(&"A".to_string()).unwrap().pos, Point { x: 5, y: 0 });
}

#[test]
fn tick_against_the_live_clock() {
    let mut store = PlayerStore::new();
    let mut proc = GameCommandProcessor::new();
    proc.tick_now(&mut store, &vec![login_cmd("p", "player")]);
    let p = store.get(&"p".to_string()).expect("login applied under the live clock");
    assert_eq!(p.pos, Point { x: 0, y: 0 });
    // the mutation stamp is whatever the clock read; a real clock is past the epoch
    assert!(p.last_update > 0);
}

#[test]
fn snapshot_returns_every_record() {
    let mut store = PlayerStore::new();
    GameCommandProcessor::process(&mut store, &login_cmd("a", "player"), 1);
    GameCommandProcessor::process(&mut store, &login_cmd("b", "player"), 2);
    let snap = GameCommandProcessor::get_current_game_state(&store);
    assert_eq!(snap.len(), 2);
    let ids: Vec<String> = snap.iter().map(|p| p.id.clone()).collect();
    assert!(ids.contains(&"a".to_string()));
    assert!(ids.contains(&"b".to_string()));
}

#[test]
fn player_state_line_format() {
    let p = Player::new(
        "blub_id".to_string(),
        "Primal".to_string(),
        2,
        true,
        Point::new(0, 0),
        Point::new(7, -9),
        1,
        0,
        123,
    );
    assert_eq!(p.to_move_str(), "P0;blub_id;Primal;2;7;-9;1;0;0;0;123");
}
