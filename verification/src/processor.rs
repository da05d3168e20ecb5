//! The Command Processor: one-shot commands are applied exactly once; a
//! `Move` becomes a standing intent, reapplied on every tick until a `Stop`
//! for the same player arrives.

use vstd::prelude::*;

use crate::game::{CommandType, GameCommand, GameCommandV, Player, PlayerV, Point};
use crate::store::PlayerStore;

verus! {

/// The store together with its side timestamp: everything a tick mutates.
pub ghost struct WorldV {
    pub players: Map<Seq<char>, PlayerV>,
    pub updated: i64,
}

pub open spec fn world_of(store: PlayerStore) -> WorldV {
    WorldV { players: store@, updated: store.spec_last_updated() }
}

/// One move step: five units along the axis the direction code names;
/// other codes leave the position alone.
pub open spec fn spec_step_pos(pos: Point, d: u8) -> Point {
    if d == 0 {
        Point { x: pos.x, y: pos.y.wrapping_sub(5) }
    } else if d == 1 {
        Point { x: pos.x.wrapping_add(5), y: pos.y }
    } else if d == 2 {
        Point { x: pos.x, y: pos.y.wrapping_add(5) }
    } else if d == 3 {
        Point { x: pos.x.wrapping_sub(5), y: pos.y }
    } else {
        pos
    }
}

/// The record a fresh login writes: origin position, team zero, logged in.
pub open spec fn spec_new_player(c: GameCommandV, now: i64) -> PlayerV {
    PlayerV {
        id: c.context.player_id,
        char_name: c.context.player_id,
        skin: c.context.skin,
        logged_in: true,
        pos: Point { x: 0, y: 0 },
        velocity: 0,
        team: 0,
        world_pos: Point { x: 0, y: 0 },
        last_update: now,
    }
}

/// A move applied to one record: stepped position, direction echoed as
/// velocity, mutation stamped.
pub open spec fn spec_moved_player(p: PlayerV, d: u8, now: i64) -> PlayerV {
    PlayerV { pos: spec_step_pos(p.pos, d), velocity: d, last_update: now, ..p }
}

/// A login creates or overwrites the record only for `playerType` "player";
/// an observer is acknowledged and not tracked.
pub open spec fn spec_login(w: WorldV, c: GameCommandV, now: i64) -> WorldV {
    if c.context.player_type == "player"@ {
        WorldV { players: w.players.insert(c.context.player_id, spec_new_player(c, now)), ..w }
    } else {
        w
    }
}

/// A move mutates the named record and the side timestamp; an unknown id is
/// a no-op.
pub open spec fn spec_move(w: WorldV, id: Seq<char>, d: u8, now: i64) -> WorldV {
    if w.players.contains_key(id) {
        WorldV {
            players: w.players.insert(id, spec_moved_player(w.players[id], d, now)),
            updated: now,
        }
    } else {
        w
    }
}

/// What applying one decoded command to the world does.
pub open spec fn spec_process_one(w: WorldV, c: GameCommandV, now: i64) -> WorldV {
    match c.command {
        CommandType::LoginCommand => spec_login(w, c, now),
        CommandType::MoveCommand => spec_move(w, c.context.player_id, c.context.direction, now),
        CommandType::StopCommand => w,
    }
}

/// First intent held for `id`, if any.
pub open spec fn intent_index(t: Seq<GameCommandV>, id: Seq<char>) -> Option<int>
    decreases t.len(),
{
    if t.len() == 0 {
        None
    } else if t[0].context.player_id == id {
        Some(0)
    } else {
        match intent_index(t.skip(1), id) {
            Some(k) => Some(k + 1),
            None => None,
        }
    }
}

/// A new standing intent replaces the one held for the same player, else
/// joins the table.
pub open spec fn spec_table_insert(t: Seq<GameCommandV>, c: GameCommandV) -> Seq<GameCommandV> {
    match intent_index(t, c.context.player_id) {
        Some(i) => t.update(i, c),
        None => t.push(c),
    }
}

/// A stop clears the standing intent for its player.
pub open spec fn spec_table_remove(t: Seq<GameCommandV>, id: Seq<char>) -> Seq<GameCommandV> {
    match intent_index(t, id) {
        Some(i) => t.remove(i),
        None => t,
    }
}

/// Routing of one freshly received command: a move only updates the table;
/// a stop cancels the player's intent; a login is applied at once and
/// leaves a standing intent in place, which then acts on the freshly reset
/// record.
pub open spec fn spec_dispatch(w: WorldV, t: Seq<GameCommandV>, c: GameCommandV, now: i64) -> (
    WorldV,
    Seq<GameCommandV>,
) {
    match c.command {
        CommandType::MoveCommand => (w, spec_table_insert(t, c)),
        CommandType::StopCommand => (w, spec_table_remove(t, c.context.player_id)),
        CommandType::LoginCommand => (spec_process_one(w, c, now), t),
    }
}

pub open spec fn spec_dispatch_all(
    w: WorldV,
    t: Seq<GameCommandV>,
    cmds: Seq<GameCommandV>,
    now: i64,
) -> (WorldV, Seq<GameCommandV>)
    decreases cmds.len(),
{
    if cmds.len() == 0 {
        (w, t)
    } else {
        let (w2, t2) = spec_dispatch(w, t, cmds[0], now);
        spec_dispatch_all(w2, t2, cmds.skip(1), now)
    }
}

/// Reapplication of every standing intent, in table order.
pub open spec fn spec_reapply(w: WorldV, t: Seq<GameCommandV>, now: i64) -> WorldV
    decreases t.len(),
{
    if t.len() == 0 {
        w
    } else {
        spec_reapply(
            spec_move(w, t[0].context.player_id, t[0].context.direction, now),
            t.skip(1),
            now,
        )
    }
}

/// One full processing tick: drain the queued commands in arrival order,
/// one-shots first in effect, then reapply the standing-move table.
pub open spec fn spec_tick(
    w: WorldV,
    t: Seq<GameCommandV>,
    cmds: Seq<GameCommandV>,
    now: i64,
) -> (WorldV, Seq<GameCommandV>) {
    let (w2, t2) = spec_dispatch_all(w, t, cmds, now);
    (spec_reapply(w2, t2, now), t2)
}

pub open spec fn cmds_view(v: Seq<GameCommand>) -> Seq<GameCommandV> {
    v.map_values(|c: GameCommand| c@)
}

proof fn lemma_intent_index_at(t: Seq<GameCommandV>, id: Seq<char>, k: int)
    requires
        0 <= k < t.len(),
        t[k].context.player_id == id,
        forall|i: int| 0 <= i < k ==> (#[trigger] t[i]).context.player_id != id,
    ensures
        intent_index(t, id) == Some(k),
    decreases k,
{
    if k > 0 {
        assert forall|i: int| 0 <= i < k - 1 implies (#[trigger] t.skip(1)[i]).context.player_id
            != id by {
            assert(t.skip(1)[i] == t[i + 1]);
        }
        assert(t.skip(1)[k - 1] == t[k]);
        lemma_intent_index_at(t.skip(1), id, k - 1);
    }
}

proof fn lemma_intent_index_none(t: Seq<GameCommandV>, id: Seq<char>)
    requires
        forall|i: int| 0 <= i < t.len() ==> (#[trigger] t[i]).context.player_id != id,
    ensures
        intent_index(t, id) == None::<int>,
    decreases t.len(),
{
    if t.len() > 0 {
        assert forall|i: int|
            0 <= i < t.skip(1).len() implies (#[trigger] t.skip(1)[i]).context.player_id != id by {
            assert(t.skip(1)[i] == t[i + 1]);
        }
        lemma_intent_index_none(t.skip(1), id);
    }
}

/// Holds the standing-move table; the player state itself lives in the
/// [`PlayerStore`] it is handed.
pub struct GameCommandProcessor {
    move_commands: Vec<GameCommand>,
}

impl GameCommandProcessor {
    /// The standing intents in table order.
    pub closed spec fn intents(&self) -> Seq<GameCommandV> {
        cmds_view(self.move_commands@)
    }

    pub fn new() -> (r: Self)
        ensures
            r.intents() == Seq::<GameCommandV>::empty(),
    {
        let r = GameCommandProcessor { move_commands: Vec::new() };
        proof {
            assert(r.intents() =~= Seq::<GameCommandV>::empty());
        }
        r
    }

    /// Apply one command to the store: login and move take effect at once,
    /// stop mutates nothing.
    pub fn process(store: &mut PlayerStore, game_command: &GameCommand, now: i64)
        requires
            old(store).wf(),
        ensures
            final(store).wf(),
            world_of(*final(store)) == spec_process_one(world_of(*old(store)), game_command@, now),
    {
        match game_command.command {
            CommandType::LoginCommand => {
                Self::login(store, game_command, now);
            },
            CommandType::MoveCommand => {
                Self::apply_move(
                    store,
                    &game_command.context.player_id,
                    game_command.context.direction,
                    now,
                );
            },
            CommandType::StopCommand => {},
        }
    }

    fn login(store: &mut PlayerStore, game_command: &GameCommand, now: i64)
        requires
            old(store).wf(),
        ensures
            final(store).wf(),
            world_of(*final(store)) == spec_login(world_of(*old(store)), game_command@, now),
    {
        if game_command.context.player_type == "player".to_owned() {
            let p = Player::new(
                game_command.context.player_id.clone(),
                game_command.context.player_id.clone(),
                game_command.context.skin,
                true,
                Point::new(0, 0),
                Point::new(0, 0),
                0,
                0,
                now,
            );
            store.set(p);
        }
    }

    fn apply_move(store: &mut PlayerStore, player_id: &String, direction: u8, now: i64)
        requires
            old(store).wf(),
        ensures
            final(store).wf(),
            world_of(*final(store)) == spec_move(
                world_of(*old(store)),
                player_id@,
                direction,
                now,
            ),
    {
        proof {
            crate::store::lemma_store_keys(store);
        }
        let found = match store.get(player_id) {
            Some(player) => {
                let mut q = player.duplicate();
                let pos = q.pos;
                q.pos = if direction == 0 {
                    Point { x: pos.x, y: pos.y.wrapping_sub(5) }
                } else if direction == 1 {
                    Point { x: pos.x.wrapping_add(5), y: pos.y }
                } else if direction == 2 {
                    Point { x: pos.x, y: pos.y.wrapping_add(5) }
                } else if direction == 3 {
                    Point { x: pos.x.wrapping_sub(5), y: pos.y }
                } else {
                    pos
                };
                q.velocity = direction;
                q.last_update = now;
                assert(q@ == spec_moved_player(old(store)@[player_id@], direction, now));
                Some(q)
            },
            None => None,
        };
        match found {
            Some(q) => {
                proof {
                    assert(q.id@ == player_id@);
                }
                store.set(q);
                store.set_last_updated(now);
            },
            None => {},
        }
    }

    /// Store or replace the standing intent for the command's player.
    fn insert_intent(&mut self, c: GameCommand)
        ensures
            final(self).intents() == spec_table_insert(old(self).intents(), c@),
    {
        let ghost t = self.intents();
        let n = self.move_commands.len();
        let mut i: usize = 0;
        while i < n
            invariant
                i <= n,
                n == self.move_commands@.len(),
                self.intents() == t,
                *self == *old(self),
                forall|j: int| 0 <= j < i ==> (#[trigger] t[j]).context.player_id != c.context.player_id@,
            decreases n - i,
        {
            if self.move_commands[i].context.player_id == c.context.player_id {
                proof {
                    assert(t[i as int].context.player_id == c.context.player_id@);
                    lemma_intent_index_at(t, c.context.player_id@, i as int);
                }
                self.move_commands[i] = c;
                proof {
                    assert(self.intents() =~= t.update(i as int, c@));
                }
                return ;
            }
            i = i + 1;
        }
        proof {
            lemma_intent_index_none(t, c.context.player_id@);
        }
        self.move_commands.push(c);
        proof {
            assert(self.intents() =~= t.push(c@));
        }
    }

    /// Drop the standing intent for `id`, if one is held.
    fn remove_intent(&mut self, id: &String)
        ensures
            final(self).intents() == spec_table_remove(old(self).intents(), id@),
    {
        let ghost t = self.intents();
        let n = self.move_commands.len();
        let mut i: usize = 0;
        while i < n
            invariant
                i <= n,
                n == self.move_commands@.len(),
                self.intents() == t,
                *self == *old(self),
                forall|j: int| 0 <= j < i ==> (#[trigger] t[j]).context.player_id != id@,
            decreases n - i,
        {
            if self.move_commands[i].context.player_id == *id {
                proof {
                    assert(t[i as int].context.player_id == id@);
                    lemma_intent_index_at(t, id@, i as int);
                }
                self.move_commands.remove(i);
                proof {
                    assert(self.intents() =~= t.remove(i as int));
                }
                return ;
            }
            i = i + 1;
        }
        proof {
            lemma_intent_index_none(t, id@);
        }
    }

    /// Direct position overwrite, as the sync sub-channel asks for it.
    pub fn update_pos(store: &mut PlayerStore, player_id: &String, pos: Point) -> (r: bool)
        requires
            old(store).wf(),
        ensures
            final(store).wf(),
            r == old(store)@.contains_key(player_id@),
            r ==> final(store)@ == old(store)@.insert(
                player_id@,
                PlayerV { pos, ..old(store)@[player_id@] },
            ),
            !r ==> final(store)@ == old(store)@,
            final(store).spec_last_updated() == old(store).spec_last_updated(),
    {
        store.update_pos(player_id, pos)
    }

    /// Full-snapshot read of the store, every record in storage order.
    pub fn get_current_game_state(store: &PlayerStore) -> (r: Vec<Player>)
        ensures
            r@.map_values(|p: Player| p@) == store.records(),
    {
        store.snapshot()
    }

    /// One processing tick over the commands that arrived since the last
    /// one: route each in arrival order, then reapply every standing intent.
    pub fn tick(&mut self, store: &mut PlayerStore, incoming: &Vec<GameCommand>, now: i64)
        requires
            old(store).wf(),
        ensures
            final(store).wf(),
            (world_of(*final(store)), final(self).intents()) == spec_tick(
                world_of(*old(store)),
                old(self).intents(),
                cmds_view(incoming@),
                now,
            ),
    {
        let ghost w0 = world_of(*old(store));
        let ghost t0 = old(self).intents();
        let ghost cs = cmds_view(incoming@);
        proof {
            assert(cs.skip(0) =~= cs);
        }
        let n = incoming.len();
        let mut i: usize = 0;
        while i < n
            invariant
                i <= n,
                n == incoming@.len(),
                cs == cmds_view(incoming@),
                store.wf(),
                spec_dispatch_all(w0, t0, cs, now) == spec_dispatch_all(
                    world_of(*store),
                    self.intents(),
                    cs.skip(i as int),
                    now,
                ),
            decreases n - i,
        {
            let ghost w_at = world_of(*store);
            let ghost t_at = self.intents();
            let cmd = &incoming[i];
            assert(cs[i as int] == cmd@);
            match cmd.command {
                CommandType::MoveCommand => {
                    self.insert_intent(cmd.duplicate());
                },
                CommandType::StopCommand => {
                    self.remove_intent(&cmd.context.player_id);
                },
                CommandType::LoginCommand => {
                    Self::process(store, cmd, now);
                },
            }
            proof {
                assert((world_of(*store), self.intents()) == spec_dispatch(
                    w_at,
                    t_at,
                    cs[i as int],
                    now,
                ));
                assert(cs.skip(i as int)[0] == cs[i as int]);
                assert(cs.skip(i as int).skip(1) =~= cs.skip(i + 1));
            }
            i = i + 1;
        }
        proof {
            assert(cs.skip(n as int) =~= Seq::<GameCommandV>::empty());
        }
        let ghost w2 = world_of(*store);
        let ghost t2 = self.intents();
        proof {
            assert(t2.skip(0) =~= t2);
        }
        let m = self.move_commands.len();
        let mut j: usize = 0;
        while j < m
            invariant
                j <= m,
                m == self.move_commands@.len(),
                store.wf(),
                self.intents() == t2,
                spec_reapply(w2, t2, now) == spec_reapply(
                    world_of(*store),
                    t2.skip(j as int),
                    now,
                ),
            decreases m - j,
        {
            let ghost w_at = world_of(*store);
            let cmd = &self.move_commands[j];
            assert(t2[j as int] == cmd@);
            Self::apply_move(store, &cmd.context.player_id, cmd.context.direction, now);
            proof {
                assert(t2.skip(j as int)[0] == t2[j as int]);
                assert(t2.skip(j as int).skip(1) =~= t2.skip(j + 1));
            }
            j = j + 1;
        }
        proof {
            assert(t2.skip(m as int) =~= Seq::<GameCommandV>::empty());
        }
    }

    /// A tick against the clock as it stands now: the same transition,
    /// under whatever timestamp the clock gave.
    pub fn tick_now(&mut self, store: &mut PlayerStore, incoming: &Vec<GameCommand>)
        requires
            old(store).wf(),
        ensures
            final(store).wf(),
            exists|now: i64|
                (world_of(*final(store)), final(self).intents()) == spec_tick(
                    world_of(*old(store)),
                    old(self).intents(),
                    cmds_view(incoming@),
                    now,
                ),
    {
        let now = crate::clock::now_timestamp();
        self.tick(store, incoming, now);
    }
}

} // verus!
