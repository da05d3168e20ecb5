//! Core data model: world coordinates, player records and decoded commands.

use vstd::prelude::*;

use crate::text::{push_i64_chars, push_u64_digits, spec_digits, spec_int_chars};

verus! {

/// The `;`-joined state line a record can be sent as: op token, identity,
/// position and motion, ending in the mutation timestamp.
pub open spec fn spec_move_str(p: PlayerV) -> Seq<char> {
    "P0;"@ + p.id + ";"@ + p.char_name + ";"@ + spec_digits(p.skin as nat) + ";"@
        + spec_int_chars(p.pos.x as int) + ";"@ + spec_int_chars(p.pos.y as int) + ";"@
        + spec_digits(p.velocity as nat) + ";"@ + spec_digits(p.team as nat) + ";"@
        + spec_int_chars(p.world_pos.x as int) + ";"@ + spec_int_chars(p.world_pos.y as int)
        + ";"@ + spec_int_chars(p.last_update as int)
}

/// Integer world coordinates.
#[derive(Clone, Copy, PartialEq, Eq, Structural, Debug)]
pub struct Point {
    pub x: i32,
    pub y: i32,
}

impl Point {
    pub fn new(x: i32, y: i32) -> (r: Self)
        ensures
            r.x == x,
            r.y == y,
    {
        Self { x, y }
    }
}

/// Mathematical image of a [`Player`]: strings as character sequences.
pub ghost struct PlayerV {
    pub id: Seq<char>,
    pub char_name: Seq<char>,
    pub skin: u8,
    pub logged_in: bool,
    pub pos: Point,
    pub velocity: u8,
    pub team: u8,
    pub world_pos: Point,
    pub last_update: i64,
}

/// Identity and simulation state for one connected participant.
pub struct Player {
    pub id: String,
    pub char_name: String,
    pub skin: u8,
    pub logged_in: bool,
    pub pos: Point,
    pub velocity: u8,
    pub team: u8,
    pub world_pos: Point,
    pub last_update: i64,
}

impl View for Player {
    type V = PlayerV;

    open spec fn view(&self) -> PlayerV {
        PlayerV {
            id: self.id@,
            char_name: self.char_name@,
            skin: self.skin,
            logged_in: self.logged_in,
            pos: self.pos,
            velocity: self.velocity,
            team: self.team,
            world_pos: self.world_pos,
            last_update: self.last_update,
        }
    }
}

impl Player {
    pub fn new(
        id: String,
        char_name: String,
        skin: u8,
        logged_in: bool,
        world_pos: Point,
        pos: Point,
        velocity: u8,
        team: u8,
        last_update: i64,
    ) -> (r: Self)
        ensures
            r@ == (PlayerV {
                id: id@,
                char_name: char_name@,
                skin,
                logged_in,
                pos,
                velocity,
                team,
                world_pos,
                last_update,
            }),
    {
        Self { id, char_name, skin, logged_in, pos, velocity, team, world_pos, last_update }
    }

    /// The record as one `;`-joined state line.
    #[verifier::rlimit(60)]
    pub fn to_move_str(&self) -> (r: String)
        ensures
            r@ == spec_move_str(self@),
    {
        let mut r = String::new();
        r.append("P0;");
        r.append(self.id.as_str());
        r.append(";");
        r.append(self.char_name.as_str());
        r.append(";");
        push_u64_digits(&mut r, self.skin as u64);
        r.append(";");
        push_i64_chars(&mut r, self.pos.x as i64);
        r.append(";");
        push_i64_chars(&mut r, self.pos.y as i64);
        r.append(";");
        push_u64_digits(&mut r, self.velocity as u64);
        r.append(";");
        push_u64_digits(&mut r, self.team as u64);
        r.append(";");
        push_i64_chars(&mut r, self.world_pos.x as i64);
        r.append(";");
        push_i64_chars(&mut r, self.world_pos.y as i64);
        r.append(";");
        push_i64_chars(&mut r, self.last_update);
        proof {
            assert(r@ =~= spec_move_str(self@));
        }
        r
    }

    /// A field-for-field copy; the derived `Clone` would say nothing of its
    /// result, so the copy is spelled out.
    pub fn duplicate(&self) -> (r: Self)
        ensures
            r@ == self@,
    {
        Self {
            id: self.id.clone(),
            char_name: self.char_name.clone(),
            skin: self.skin,
            logged_in: self.logged_in,
            pos: self.pos,
            velocity: self.velocity,
            team: self.team,
            world_pos: self.world_pos,
            last_update: self.last_update,
        }
    }
}

/// The three client intents the codec can produce.
#[derive(Clone, Copy, PartialEq, Eq, Structural, Debug)]
pub enum CommandType {
    LoginCommand,
    MoveCommand,
    StopCommand,
}

/// Mathematical image of a [`CommandContext`].
pub ghost struct CommandContextV {
    pub player_id: Seq<char>,
    pub direction: u8,
    pub player_type: Seq<char>,
    pub skin: u8,
}

/// Fields of a decoded command; unused fields carry zero values.
pub struct CommandContext {
    pub player_id: String,
    pub direction: u8,
    pub player_type: String,
    pub skin: u8,
}

impl View for CommandContext {
    type V = CommandContextV;

    open spec fn view(&self) -> CommandContextV {
        CommandContextV {
            player_id: self.player_id@,
            direction: self.direction,
            player_type: self.player_type@,
            skin: self.skin,
        }
    }
}

/// Mathematical image of a [`GameCommand`].
pub ghost struct GameCommandV {
    pub timestamp: i64,
    pub command: CommandType,
    pub context: CommandContextV,
}

/// A decoded, timestamped client intent.
pub struct GameCommand {
    pub timestamp: i64,
    pub command: CommandType,
    pub context: CommandContext,
}

impl View for GameCommand {
    type V = GameCommandV;

    open spec fn view(&self) -> GameCommandV {
        GameCommandV { timestamp: self.timestamp, command: self.command, context: self.context@ }
    }
}

impl GameCommand {
    /// A field-for-field copy, like [`Player::duplicate`].
    pub fn duplicate(&self) -> (r: Self)
        ensures
            r@ == self@,
    {
        Self {
            timestamp: self.timestamp,
            command: self.command,
            context: CommandContext {
                player_id: self.context.player_id.clone(),
                direction: self.context.direction,
                player_type: self.context.player_type.clone(),
                skin: self.context.skin,
            },
        }
    }
}

} // verus!
