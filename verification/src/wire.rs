//! The Wire Codec: a raw datagram either becomes a timestamped, typed
//! command, or nothing at all — stale, non-ASCII or malformed frames are
//! dropped without a reply.
//!
//! Frame shape: `<timestamp-digits>;<3-byte op><';'-joined fields>`. A
//! `M0;` direction of 4 is reclassified as a stop at decode time. The sync
//! sub-channel frame is `<ignored>;<op>;<playerId>;<jsonPoint>`; as in the
//! intake path, the op field there is carried but not examined.

use vstd::prelude::*;

use crate::game::{CommandContext, CommandContextV, CommandType, GameCommand, GameCommandV, Point};
use crate::json::{parse_point_chars, spec_parse_point};
use crate::text::{
    all_printable, chars_of_ascii, find_char_from, frame_chars, match_lit, parse_field_u64,
    spec_find, spec_parse_field_u64, spec_split, split_ranges, string_from_chars, sub_chars,
};

verus! {

/// How many seconds old a frame's timestamp may be before it is dropped.
pub open spec fn freshness_window() -> int {
    100
}

/// The leading ASCII decimal of the frame, when there is one before the
/// first `;` and it fits a signed 64-bit value.
pub open spec fn spec_frame_timestamp(s: Seq<char>) -> Option<i64> {
    match spec_find(s, ';') {
        None => None,
        Some(k) => match spec_parse_field_u64(s.take(k)) {
            Some(u) => if u <= i64::MAX as u64 {
                Some(u as i64)
            } else {
                None
            },
            None => None,
        },
    }
}

pub open spec fn spec_frame_timestamp_of(bytes: Seq<u8>) -> Option<i64> {
    if all_printable(bytes) {
        spec_frame_timestamp(chars_of_ascii(bytes))
    } else {
        None
    }
}

/// A login frame's fields: `playerId;skin;playerType`, extras ignored.
pub open spec fn spec_decode_login(ts: i64, ctx: Seq<char>) -> Option<GameCommandV> {
    let fields = spec_split(ctx, ';');
    if fields.len() < 3 {
        None
    } else {
        match spec_parse_field_u64(fields[1]) {
            Some(sk) => if sk <= 255 {
                Some(
                    GameCommandV {
                        timestamp: ts,
                        command: CommandType::LoginCommand,
                        context: CommandContextV {
                            player_id: fields[0],
                            direction: 0,
                            player_type: fields[2],
                            skin: sk as u8,
                        },
                    },
                )
            } else {
                None
            },
            None => None,
        }
    }
}

/// A move frame's fields: `playerId;direction`, direction 0 to 3 moves and
/// 4 stops; anything else is malformed.
pub open spec fn spec_decode_move(ts: i64, ctx: Seq<char>) -> Option<GameCommandV> {
    let fields = spec_split(ctx, ';');
    if fields.len() < 2 {
        None
    } else {
        match spec_parse_field_u64(fields[1]) {
            Some(d) => if d <= 4 {
                Some(
                    GameCommandV {
                        timestamp: ts,
                        command: if d == 4 {
                            CommandType::StopCommand
                        } else {
                            CommandType::MoveCommand
                        },
                        context: CommandContextV {
                            player_id: fields[0],
                            direction: d as u8,
                            player_type: Seq::empty(),
                            skin: 0,
                        },
                    },
                )
            } else {
                None
            },
            None => None,
        }
    }
}

/// Dispatch on the three-byte operation token; unknown tokens produce
/// nothing.
pub open spec fn spec_decode_op(ts: i64, rest: Seq<char>) -> Option<GameCommandV> {
    if rest.len() < 3 {
        None
    } else {
        let op = rest.take(3);
        let ctx = rest.skip(3);
        if op == "L1;"@ {
            spec_decode_login(ts, ctx)
        } else if op == "M0;"@ {
            spec_decode_move(ts, ctx)
        } else {
            None
        }
    }
}

pub open spec fn spec_decode_chars(s: Seq<char>, now: i64) -> Option<GameCommandV> {
    match spec_find(s, ';') {
        None => None,
        Some(k) => match spec_parse_field_u64(s.take(k)) {
            Some(u) => if u > i64::MAX as u64 {
                None
            } else {
                let ts = u as i64;
                if ts <= now - freshness_window() {
                    None
                } else {
                    spec_decode_op(ts, s.skip(k + 1))
                }
            },
            None => None,
        },
    }
}

/// What the codec makes of a raw datagram: the whole decode policy in one
/// function.
pub open spec fn spec_decode(bytes: Seq<u8>, now: i64) -> Option<GameCommandV> {
    if all_printable(bytes) {
        spec_decode_chars(chars_of_ascii(bytes), now)
    } else {
        None
    }
}

/// A frame whose timestamp sits at or beyond the freshness window yields no
/// command, whatever else it carries.
pub proof fn lemma_stale_frame_rejected(bytes: Seq<u8>, now: i64, ts: i64)
    requires
        spec_frame_timestamp_of(bytes) == Some(ts),
        ts <= now - freshness_window(),
    ensures
        spec_decode(bytes, now) is None,
{
}

/// Every decoded command respects the direction-code discipline: a move
/// carries a code of 0 to 3, a stop carries 4, and a login carries 0.
pub proof fn lemma_decoded_direction(bytes: Seq<u8>, now: i64)
    ensures
        match spec_decode(bytes, now) {
            Some(c) => match c.command {
                CommandType::MoveCommand => c.context.direction <= 3,
                CommandType::StopCommand => c.context.direction == 4,
                CommandType::LoginCommand => c.context.direction == 0,
            },
            None => true,
        },
{
}

/// Decode one datagram of the primary channel against the receiver's
/// clock `now`.
pub fn decode_frame(buf: &[u8], now: i64) -> (r: Option<GameCommand>)
    ensures
        match r {
            Some(c) => spec_decode(buf@, now) == Some(c@),
            None => spec_decode(buf@, now) is None,
        },
{
    let v = match frame_chars(buf) {
        Some(v) => v,
        None => {
            return None;
        },
    };
    let vs = v.as_slice();
    let ghost s = chars_of_ascii(buf@);
    proof {
        assert(s.skip(0) =~= s);
    }
    let n = vs.len();
    let k = match find_char_from(vs, 0, ';') {
        Some(k) => k,
        None => {
            return None;
        },
    };
    proof {
        assert(vs@.subrange(0, k as int) =~= s.take(k as int));
    }
    let ts_u = match parse_field_u64(vs, 0, k) {
        Some(u) => u,
        None => {
            return None;
        },
    };
    if ts_u > 0x7fffffffffffffffu64 {
        return None;
    }
    let ts = ts_u as i64;
    if (ts as i128) <= (now as i128) - 100 {
        return None;
    }
    let ghost rest = s.skip(k + 1);
    proof {
        assert(vs@ == s);
        assert(spec_find(s, ';') == Some(k as int));
        assert(spec_parse_field_u64(s.take(k as int)) == Some(ts_u));
        assert(!(ts <= now - freshness_window()));
        assert(rest.len() == s.len() - k - 1);
        assert(spec_decode(buf@, now) == spec_decode_op(ts, rest));
    }
    if n - (k + 1) < 3 {
        return None;
    }
    let op_at = k + 1;
    let ctx_at = k + 4;
    proof {
        reveal_strlit("L1;");
        reveal_strlit("M0;");
        assert("L1;"@.len() == 3);
        assert("M0;"@.len() == 3);
        assert(rest.take(3) =~= vs@.subrange(op_at as int, op_at + 3));
        assert(rest.skip(3) =~= vs@.skip(ctx_at as int));
    }
    if match_lit(vs, op_at, "L1;") {
        let ranges = split_ranges(vs, ctx_at, ';');
        proof {
            assert(spec_decode_op(ts, rest) == spec_decode_login(ts, rest.skip(3)));
        }
        if ranges.len() < 3 {
            return None;
        }
        let id = string_from_chars(vs, ranges[0].0, ranges[0].1);
        let sk = match parse_field_u64(vs, ranges[1].0, ranges[1].1) {
            Some(u) => u,
            None => {
                return None;
            },
        };
        if sk > 255 {
            return None;
        }
        let ptype = string_from_chars(vs, ranges[2].0, ranges[2].1);
        Some(
            GameCommand {
                timestamp: ts,
                command: CommandType::LoginCommand,
                context: CommandContext {
                    player_id: id,
                    direction: 0,
                    player_type: ptype,
                    skin: sk as u8,
                },
            },
        )
    } else if match_lit(vs, op_at, "M0;") {
        let ranges = split_ranges(vs, ctx_at, ';');
        if ranges.len() < 2 {
            return None;
        }
        let id = string_from_chars(vs, ranges[0].0, ranges[0].1);
        let d = match parse_field_u64(vs, ranges[1].0, ranges[1].1) {
            Some(u) => u,
            None => {
                return None;
            },
        };
        if d > 4 {
            return None;
        }
        let command = if d == 4 {
            CommandType::StopCommand
        } else {
            CommandType::MoveCommand
        };
        Some(
            GameCommand {
                timestamp: ts,
                command,
                context: CommandContext {
                    player_id: id,
                    direction: d as u8,
                    player_type: String::new(),
                    skin: 0,
                },
            },
        )
    } else {
        None
    }
}

/// Is this frame the control message that stops the process at once? The
/// same framing discipline applies: a printable frame, a parseable
/// timestamp inside the freshness window, and the `E0;` token.
pub open spec fn spec_is_exit_frame(bytes: Seq<u8>, now: i64) -> bool {
    if !all_printable(bytes) {
        false
    } else {
        let s = chars_of_ascii(bytes);
        match spec_find(s, ';') {
            None => false,
            Some(k) => match spec_parse_field_u64(s.take(k)) {
                Some(u) => u <= i64::MAX as u64 && (u as i64) > now - freshness_window()
                    && s.skip(k + 1).len() >= 3 && s.skip(k + 1).take(3) == "E0;"@,
                None => false,
            },
        }
    }
}

/// Recognize the immediate-termination control frame.
pub fn is_exit_frame(buf: &[u8], now: i64) -> (r: bool)
    ensures
        r == spec_is_exit_frame(buf@, now),
{
    let v = match frame_chars(buf) {
        Some(v) => v,
        None => {
            return false;
        },
    };
    let vs = v.as_slice();
    let ghost s = chars_of_ascii(buf@);
    proof {
        assert(s.skip(0) =~= s);
    }
    let n = vs.len();
    let k = match find_char_from(vs, 0, ';') {
        Some(k) => k,
        None => {
            return false;
        },
    };
    proof {
        assert(vs@.subrange(0, k as int) =~= s.take(k as int));
    }
    let ts_u = match parse_field_u64(vs, 0, k) {
        Some(u) => u,
        None => {
            return false;
        },
    };
    if ts_u > 0x7fffffffffffffffu64 {
        return false;
    }
    let ts = ts_u as i64;
    if (ts as i128) <= (now as i128) - 100 {
        return false;
    }
    let ghost rest = s.skip(k + 1);
    proof {
        assert(rest.len() == s.len() - k - 1);
    }
    if n - (k + 1) < 3 {
        return false;
    }
    proof {
        reveal_strlit("E0;");
        assert("E0;"@.len() == 3);
        assert(rest.take(3) =~= vs@.subrange(k + 1, k + 4));
    }
    match_lit(vs, k + 1, "E0;")
}

/// What the sync sub-channel makes of a datagram: the player named by the
/// third field and the point its fourth field spells.
pub open spec fn spec_decode_sync(bytes: Seq<u8>) -> Option<(Seq<char>, Point)> {
    if !all_printable(bytes) {
        None
    } else {
        let s = chars_of_ascii(bytes);
        let fields = spec_split(s, ';');
        if fields.len() < 4 {
            None
        } else {
            match spec_parse_point(fields[3]) {
                Some(p) => Some((fields[2], p)),
                None => None,
            }
        }
    }
}

/// Decode one datagram of the position-report sub-channel.
pub fn decode_sync_frame(buf: &[u8]) -> (r: Option<(String, Point)>)
    ensures
        match r {
            Some(p) => spec_decode_sync(buf@) == Some((p.0@, p.1)),
            None => spec_decode_sync(buf@) is None,
        },
{
    let v = match frame_chars(buf) {
        Some(v) => v,
        None => {
            return None;
        },
    };
    let vs = v.as_slice();
    let ghost s = chars_of_ascii(buf@);
    proof {
        assert(s.skip(0) =~= s);
    }
    let ranges = split_ranges(vs, 0, ';');
    if ranges.len() < 4 {
        return None;
    }
    let id = string_from_chars(vs, ranges[2].0, ranges[2].1);
    let field = sub_chars(vs, ranges[3].0, ranges[3].1);
    match parse_point_chars(field.as_slice()) {
        Some(p) => Some((id, p)),
        None => None,
    }
}

/// The three-byte operation token at the head of a buffer.
pub open spec fn spec_operation_of(bytes: Seq<u8>) -> Option<(u8, u8, u8)> {
    if bytes.len() >= 3 {
        Some((bytes[0], bytes[1], bytes[2]))
    } else {
        None
    }
}

pub fn get_operation_from(buffer: &[u8]) -> (r: Option<(u8, u8, u8)>)
    ensures
        r == spec_operation_of(buffer@),
{
    if buffer.len() >= 3 {
        Some((buffer[0], buffer[1], buffer[2]))
    } else {
        None
    }
}

/// Everything after the three-byte operation token.
pub fn get_context_from(buffer: &[u8]) -> (r: Option<&[u8]>)
    ensures
        match r {
            Some(c) => buffer@.len() >= 3 && c@ == buffer@.skip(3),
            None => buffer@.len() < 3,
        },
{
    if buffer.len() >= 3 {
        let c = vstd::slice::slice_subrange(buffer, 3, buffer.len());
        proof {
            assert(c@ =~= buffer@.skip(3));
        }
        Some(c)
    } else {
        None
    }
}

} // verus!
