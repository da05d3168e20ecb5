//! What holds of the pipeline as a whole: laws over the specification
//! functions that the components' contracts are stated in.

use vstd::prelude::*;

use crate::game::{CommandType, GameCommandV, Point};
use crate::processor::{
    spec_move, spec_process_one, spec_reapply, spec_tick, WorldV,
};

verus! {

/// A login whose `playerType` is "player" leaves the store with a record
/// for that id: at the origin, team zero, logged in, stamped with the tick
/// clock.
pub proof fn lemma_login_creates_player(w: WorldV, c: GameCommandV, now: i64)
    requires
        c.command is LoginCommand,
        c.context.player_type == "player"@,
    ensures
        ({
            let w2 = spec_process_one(w, c, now);
            &&& w2.players.contains_key(c.context.player_id)
            &&& w2.players[c.context.player_id].pos == (Point { x: 0, y: 0 })
            &&& w2.players[c.context.player_id].logged_in
            &&& w2.players[c.context.player_id].team == 0
            &&& w2.players[c.context.player_id].last_update == now
        }),
{
}

/// One applied move changes the position by exactly five units along the
/// axis the direction names — `0`: y down, `1`: x up, `2`: y up, `3`: x
/// down — and echoes the direction as the velocity.
pub proof fn lemma_move_step(w: WorldV, id: Seq<char>, d: u8, now: i64)
    requires
        w.players.contains_key(id),
        d <= 3,
        i32::MIN + 5 <= w.players[id].pos.x <= i32::MAX - 5,
        i32::MIN + 5 <= w.players[id].pos.y <= i32::MAX - 5,
    ensures
        ({
            let p = w.players[id].pos;
            let w2 = spec_move(w, id, d, now);
            let q = w2.players[id];
            &&& w2.players.contains_key(id)
            &&& q.velocity == d
            &&& q.last_update == now
            &&& (d == 0 ==> q.pos.x == p.x && q.pos.y == p.y - 5)
            &&& (d == 1 ==> q.pos.x == p.x + 5 && q.pos.y == p.y)
            &&& (d == 2 ==> q.pos.x == p.x && q.pos.y == p.y + 5)
            &&& (d == 3 ==> q.pos.x == p.x - 5 && q.pos.y == p.y)
        }),
{
}

/// Worlds reached by ticks on which no command arrives: the standing table
/// alone drives them.
pub open spec fn spec_run_quiet_ticks(
    w: WorldV,
    t: Seq<GameCommandV>,
    n: nat,
    now: i64,
) -> WorldV
    decreases n,
{
    if n == 0 {
        w
    } else {
        spec_run_quiet_ticks(spec_tick(w, t, Seq::empty(), now).0, t, (n - 1) as nat, now)
    }
}

/// A quiet tick leaves the standing table as it is.
pub proof fn lemma_quiet_tick_keeps_table(w: WorldV, t: Seq<GameCommandV>, now: i64)
    ensures
        spec_tick(w, t, Seq::empty(), now).1 == t,
{
}

/// One standing move intent in direction 1, and no further commands: after
/// `n` ticks the player's x has grown by exactly `5 * n`, and y has not
/// moved.
pub proof fn lemma_standing_move_advances(w: WorldV, c: GameCommandV, n: nat, now: i64)
    requires
        w.players.contains_key(c.context.player_id),
        c.context.direction == 1,
        w.players[c.context.player_id].pos.x + 5 * n <= i32::MAX,
    ensures
        ({
            let wn = spec_run_quiet_ticks(w, seq![c], n, now);
            &&& wn.players.contains_key(c.context.player_id)
            &&& wn.players[c.context.player_id].pos.x == w.players[c.context.player_id].pos.x + 5
                * n
            &&& wn.players[c.context.player_id].pos.y == w.players[c.context.player_id].pos.y
        }),
    decreases n,
{
    let id = c.context.player_id;
    let t = seq![c];
    if n > 0 {
        let w1 = spec_tick(w, t, Seq::empty(), now).0;
        assert(w1 == spec_reapply(w, t, now));
        assert(t.skip(1) =~= Seq::<GameCommandV>::empty());
        assert(t[0] == c);
        let wm = spec_move(w, id, 1, now);
        assert(spec_reapply(w, t, now) == spec_reapply(wm, t.skip(1), now));
        assert(spec_reapply(wm, Seq::<GameCommandV>::empty(), now) == wm);
        assert(w1 == spec_move(w, id, 1, now));
        assert(w.players[id].pos.x + 5 <= i32::MAX);
        assert(w1.players[id].pos.x == w.players[id].pos.x + 5);
        assert(w1.players[id].pos.y == w.players[id].pos.y);
        lemma_standing_move_advances(w1, c, (n - 1) as nat, now);
        assert(spec_run_quiet_ticks(w, t, n, now) == spec_run_quiet_ticks(
            w1,
            t,
            (n - 1) as nat,
            now,
        ));
    }
}

/// With no standing intent left, any number of quiet ticks leaves the
/// world exactly as it stands.
pub proof fn lemma_empty_table_is_still(w: WorldV, n: nat, now: i64)
    ensures
        spec_run_quiet_ticks(w, Seq::empty(), n, now) == w,
    decreases n,
{
    if n > 0 {
        assert(spec_tick(w, Seq::empty(), Seq::empty(), now).0 == w);
        lemma_empty_table_is_still(w, (n - 1) as nat, now);
    }
}

/// A stop for the player clears the standing intent in its own tick, and
/// from then on quiet ticks leave the world exactly as it stands.
pub proof fn lemma_stop_halts_motion(
    w: WorldV,
    c: GameCommandV,
    stop: GameCommandV,
    now: i64,
    later: i64,
)
    requires
        stop.command is StopCommand,
        stop.context.player_id == c.context.player_id,
    ensures
        ({
            let (w1, t1) = spec_tick(w, seq![c], seq![stop], now);
            &&& t1 == Seq::<GameCommandV>::empty()
            &&& w1 == w
            &&& spec_tick(w1, t1, Seq::empty(), later).0 == w1
        }),
{
    let t = seq![c];
    let cmds = seq![stop];
    assert(cmds[0] == stop);
    assert(t[0] == c);
    assert(cmds.skip(1) =~= Seq::<GameCommandV>::empty());
    assert(crate::processor::intent_index(t, stop.context.player_id) == Some(0int));
    assert(t.remove(0) =~= Seq::<GameCommandV>::empty());
    let (w2, t2) = crate::processor::spec_dispatch(w, t, stop, now);
    assert(w2 == w);
    assert(t2 == Seq::<GameCommandV>::empty());
    assert(crate::processor::spec_dispatch_all(w, t, cmds, now)
        == crate::processor::spec_dispatch_all(w2, t2, cmds.skip(1), now));
    assert(crate::processor::spec_dispatch_all(w2, t2, Seq::<GameCommandV>::empty(), now) == (
    w2,
    t2,
    ));
    let (w3, t3) = crate::processor::spec_dispatch_all(w, t, cmds, now);
    assert(w3 == w && t3 == t2);
    assert(spec_reapply(w3, t3, now) == w3);
}

} // verus!
