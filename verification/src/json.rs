//! The JSON shape of a player record: the persistence format of the Player
//! Store and the payload format of the broadcaster. Encoder and parser are
//! both here, with the round trip proved.

use vstd::prelude::*;

use crate::game::{Player, PlayerV, Point};
use crate::text::{
    find_char_from, is_digit_char, lemma_scan_of_digits, lemma_scan_of_int, lemma_spec_find_at,
    match_lit, push_i64_chars, push_u64_digits, scan_i64, scan_u64, spec_digits, spec_find,
    spec_int_chars, spec_scan_i64, spec_scan_u64, str_chars, string_from_chars,
};

verus! {

/// A string that can stand between quotes as it is: no quote, no backslash.
pub open spec fn json_plain(s: Seq<char>) -> bool {
    forall|i: int| 0 <= i < s.len() ==> s[i] != '"' && s[i] != '\\'
}

/// Both strings of a record are plain, so the record survives the round
/// trip through its JSON form.
pub open spec fn player_json_safe(p: PlayerV) -> bool {
    json_plain(p.id) && json_plain(p.char_name)
}

pub open spec fn spec_bool_json(b: bool) -> Seq<char> {
    if b {
        "true"@
    } else {
        "false"@
    }
}

pub open spec fn spec_point_json(p: Point) -> Seq<char> {
    "{\"x\":"@ + (spec_int_chars(p.x as int) + (",\"y\":"@ + (spec_int_chars(p.y as int)
        + "}"@)))
}

/// The JSON text of one record, fields in declaration order, no spaces.
pub open spec fn spec_player_json(p: PlayerV) -> Seq<char> {
    "{\"id\":\""@ + (p.id + ("\",\"char_name\":\""@ + (p.char_name + ("\",\"skin\":"@
        + (spec_digits(p.skin as nat) + (",\"logged_in\":"@ + (spec_bool_json(p.logged_in)
        + (",\"pos\":"@ + (spec_point_json(p.pos) + (",\"velocity\":"@ + (spec_digits(
        p.velocity as nat,
    ) + (",\"team\":"@ + (spec_digits(p.team as nat) + (",\"world_pos\":"@ + (spec_point_json(
        p.world_pos,
    ) + (",\"last_update\":"@ + (spec_int_chars(p.last_update as int) + "}"@)))))))))))))))))
}

/// One `"id":{record}` member of the broadcast map.
pub open spec fn spec_entry_json(p: PlayerV) -> Seq<char> {
    seq!['"'] + p.id + "\":"@ + spec_player_json(p)
}

/// The members of the broadcast map, in snapshot order, comma-separated.
pub open spec fn spec_entries_json(ps: Seq<PlayerV>) -> Seq<char>
    decreases ps.len(),
{
    if ps.len() == 0 {
        Seq::empty()
    } else if ps.len() == 1 {
        spec_entry_json(ps[0])
    } else {
        spec_entries_json(ps.drop_last()) + seq![','] + spec_entry_json(ps.last())
    }
}

/// The whole map `{"id":{record},...}`.
pub open spec fn spec_players_json(ps: Seq<PlayerV>) -> Seq<char> {
    seq!['{'] + spec_entries_json(ps) + seq!['}']
}

/// Append the JSON text of a point.
pub fn encode_point_into(r: &mut String, p: Point)
    ensures
        final(r)@ == old(r)@ + spec_point_json(p),
{
    r.append("{\"x\":");
    push_i64_chars(r, p.x as i64);
    r.append(",\"y\":");
    push_i64_chars(r, p.y as i64);
    r.append("}");
    proof {
        assert(final(r)@ =~= old(r)@ + spec_point_json(p));
    }
}

/// The JSON text of one player record.
#[verifier::rlimit(60)]
pub fn encode_player(p: &Player) -> (r: String)
    ensures
        r@ == spec_player_json(p@),
{
    let mut r = String::new();
    r.append("{\"id\":\"");
    r.append(p.id.as_str());
    r.append("\",\"char_name\":\"");
    r.append(p.char_name.as_str());
    r.append("\",\"skin\":");
    push_u64_digits(&mut r, p.skin as u64);
    r.append(",\"logged_in\":");
    if p.logged_in {
        r.append("true");
    } else {
        r.append("false");
    }
    r.append(",\"pos\":");
    encode_point_into(&mut r, p.pos);
    r.append(",\"velocity\":");
    push_u64_digits(&mut r, p.velocity as u64);
    r.append(",\"team\":");
    push_u64_digits(&mut r, p.team as u64);
    r.append(",\"world_pos\":");
    encode_point_into(&mut r, p.world_pos);
    r.append(",\"last_update\":");
    push_i64_chars(&mut r, p.last_update);
    r.append("}");
    proof {
        assert(r@ =~= spec_player_json(p@));
    }
    r
}

/// The JSON text of a whole snapshot, keyed by player id.
pub fn encode_players(ps: &Vec<Player>) -> (r: String)
    ensures
        r@ == spec_players_json(ps@.map_values(|p: Player| p@)),
{
    let ghost views = ps@.map_values(|p: Player| p@);
    let mut r = String::new();
    r.append("{");
    proof {
        reveal_strlit("{");
        assert(views.take(0) =~= Seq::<PlayerV>::empty());
        assert(r@ =~= seq!['{'] + spec_entries_json(views.take(0)));
    }
    let n = ps.len();
    let mut i: usize = 0;
    while i < n
        invariant
            i <= n,
            n == ps@.len(),
            views == ps@.map_values(|p: Player| p@),
            r@ == seq!['{'] + spec_entries_json(views.take(i as int)),
        decreases n - i,
    {
        if i > 0 {
            r.append(",");
        }
        r.append("\"");
        r.append(ps[i].id.as_str());
        r.append("\":");
        let one = encode_player(&ps[i]);
        r.append(one.as_str());
        proof {
            reveal_strlit(",");
            reveal_strlit("\"");
            assert(views.take(i + 1).drop_last() =~= views.take(i as int));
            assert(views.take(i + 1).last() == views[i as int]);
            assert(spec_entry_json(views[i as int]) =~= seq!['"'] + ps@[i as int].id@ + "\":"@
                + spec_player_json(views[i as int]));
            assert(r@ =~= seq!['{'] + spec_entries_json(views.take(i + 1)));
        }
        i = i + 1;
    }
    r.append("}");
    proof {
        reveal_strlit("}");
        assert(views.take(n as int) =~= views);
        assert(r@ =~= spec_players_json(views));
    }
    r
}

// --- parsing, one combinator per shape ---

/// Consume an exact literal; the rest follows it.
pub open spec fn ps_lit(s: Seq<char>, lit: Seq<char>) -> Option<Seq<char>> {
    if lit.len() <= s.len() && s.take(lit.len() as int) == lit {
        Some(s.skip(lit.len() as int))
    } else {
        None
    }
}

/// Consume a quoted string's content up to and including the closing quote;
/// the opening quote belongs to the literal before it.
pub open spec fn ps_string(s: Seq<char>) -> Option<(Seq<char>, Seq<char>)> {
    match spec_find(s, '"') {
        Some(k) => Some((s.take(k), s.skip(k + 1))),
        None => None,
    }
}

pub open spec fn ps_u8(s: Seq<char>) -> Option<(u8, Seq<char>)> {
    match spec_scan_u64(s) {
        Some((n, k)) => if n <= 255 {
            Some((n as u8, s.skip(k)))
        } else {
            None
        },
        None => None,
    }
}

pub open spec fn ps_i64(s: Seq<char>) -> Option<(i64, Seq<char>)> {
    match spec_scan_i64(s) {
        Some((n, k)) => Some((n, s.skip(k))),
        None => None,
    }
}

pub open spec fn ps_i32(s: Seq<char>) -> Option<(i32, Seq<char>)> {
    match spec_scan_i64(s) {
        Some((n, k)) => if i32::MIN <= n <= i32::MAX {
            Some((n as i32, s.skip(k)))
        } else {
            None
        },
        None => None,
    }
}

pub open spec fn ps_bool(s: Seq<char>) -> Option<(bool, Seq<char>)> {
    match ps_lit(s, "true"@) {
        Some(r) => Some((true, r)),
        None => match ps_lit(s, "false"@) {
            Some(r) => Some((false, r)),
            None => None,
        },
    }
}

pub open spec fn ps_point(s: Seq<char>) -> Option<(Point, Seq<char>)> {
    match ps_lit(s, "{\"x\":"@) {
        Some(s1) => match ps_i32(s1) {
            Some((x, s2)) => match ps_lit(s2, ",\"y\":"@) {
                Some(s3) => match ps_i32(s3) {
                    Some((y, s4)) => match ps_lit(s4, "}"@) {
                        Some(s5) => Some((Point { x, y }, s5)),
                        None => None,
                    },
                    None => None,
                },
                None => None,
            },
            None => None,
        },
        None => None,
    }
}

/// A whole point text, nothing trailing.
pub open spec fn spec_parse_point(s: Seq<char>) -> Option<Point> {
    match ps_point(s) {
        Some((p, rest)) => if rest.len() == 0 {
            Some(p)
        } else {
            None
        },
        None => None,
    }
}

/// A whole record text, fields in declaration order, nothing trailing.
pub open spec fn spec_parse_player(s: Seq<char>) -> Option<PlayerV> {
    match ps_lit(s, "{\"id\":\""@) {
        None => None,
        Some(s1) => match ps_string(s1) {
            None => None,
            Some((id, s2)) => match ps_lit(s2, ",\"char_name\":\""@) {
                None => None,
                Some(s3) => match ps_string(s3) {
                    None => None,
                    Some((char_name, s4)) => match ps_lit(s4, ",\"skin\":"@) {
                        None => None,
                        Some(s5) => match ps_u8(s5) {
                            None => None,
                            Some((skin, s6)) => match ps_lit(s6, ",\"logged_in\":"@) {
                                None => None,
                                Some(s7) => match ps_bool(s7) {
                                    None => None,
                                    Some((logged_in, s8)) => match ps_lit(s8, ",\"pos\":"@) {
                                        None => None,
                                        Some(s9) => match ps_point(s9) {
                                            None => None,
                                            Some((pos, s10)) => spec_parse_player_tail(
                                                s10,
                                                id,
                                                char_name,
                                                skin,
                                                logged_in,
                                                pos,
                                            ),
                                        },
                                    },
                                },
                            },
                        },
                    },
                },
            },
        },
    }
}

/// The second half of [`spec_parse_player`], from `velocity` on.
pub open spec fn spec_parse_player_tail(
    s: Seq<char>,
    id: Seq<char>,
    char_name: Seq<char>,
    skin: u8,
    logged_in: bool,
    pos: Point,
) -> Option<PlayerV> {
    match ps_lit(s, ",\"velocity\":"@) {
        None => None,
        Some(s1) => match ps_u8(s1) {
            None => None,
            Some((velocity, s2)) => match ps_lit(s2, ",\"team\":"@) {
                None => None,
                Some(s3) => match ps_u8(s3) {
                    None => None,
                    Some((team, s4)) => match ps_lit(s4, ",\"world_pos\":"@) {
                        None => None,
                        Some(s5) => match ps_point(s5) {
                            None => None,
                            Some((world_pos, s6)) => match ps_lit(s6, ",\"last_update\":"@) {
                                None => None,
                                Some(s7) => match ps_i64(s7) {
                                    None => None,
                                    Some((last_update, s8)) => match ps_lit(s8, "}"@) {
                                        None => None,
                                        Some(s9) => if s9.len() == 0 {
                                            Some(
                                                PlayerV {
                                                    id,
                                                    char_name,
                                                    skin,
                                                    logged_in,
                                                    pos,
                                                    velocity,
                                                    team,
                                                    world_pos,
                                                    last_update,
                                                },
                                            )
                                        } else {
                                            None
                                        },
                                    },
                                },
                            },
                        },
                    },
                },
            },
        },
    }
}

// --- executable parsers ---

fn pe_lit(v: &[char], at: usize, lit: &str) -> (r: Option<usize>)
    requires
        at <= v@.len(),
    ensures
        match r {
            Some(j) => at <= j <= v@.len() && ps_lit(v@.skip(at as int), lit@) == Some(
                v@.skip(j as int),
            ),
            None => ps_lit(v@.skip(at as int), lit@) is None,
        },
{
    let ghost s = v@.skip(at as int);
    let n = v.len();
    let m = lit.unicode_len();
    if match_lit(v, at, lit) {
        proof {
            assert(s.take(lit@.len() as int) =~= v@.subrange(at as int, at + lit@.len()));
            assert(s.skip(lit@.len() as int) =~= v@.skip(at + lit@.len()));
        }
        Some(at + m)
    } else {
        proof {
            if lit@.len() <= s.len() {
                assert(s.take(lit@.len() as int) =~= v@.subrange(at as int, at + lit@.len()));
            }
        }
        None
    }
}

fn pe_string(v: &[char], at: usize) -> (r: Option<(String, usize)>)
    requires
        at <= v@.len(),
    ensures
        match r {
            Some(p) => at <= p.1 <= v@.len() && ps_string(v@.skip(at as int)) == Some(
                (p.0@, v@.skip(p.1 as int)),
            ),
            None => ps_string(v@.skip(at as int)) is None,
        },
{
    let ghost s = v@.skip(at as int);
    let n = v.len();
    match find_char_from(v, at, '"') {
        Some(k) => {
            let content = string_from_chars(v, at, k);
            proof {
                assert(s.take(k - at as int) =~= v@.subrange(at as int, k as int));
                assert(s.skip(k - at as int + 1) =~= v@.skip(k + 1));
            }
            Some((content, k + 1))
        },
        None => None,
    }
}

fn pe_u8(v: &[char], at: usize) -> (r: Option<(u8, usize)>)
    requires
        at <= v@.len(),
    ensures
        match r {
            Some(p) => at <= p.1 <= v@.len() && ps_u8(v@.skip(at as int)) == Some(
                (p.0, v@.skip(p.1 as int)),
            ),
            None => ps_u8(v@.skip(at as int)) is None,
        },
{
    match scan_u64(v, at) {
        Some((n, j)) => {
            if n <= 255 {
                proof {
                    assert(v@.skip(at as int).skip(j - at as int) =~= v@.skip(j as int));
                }
                Some((n as u8, j))
            } else {
                None
            }
        },
        None => None,
    }
}

fn pe_i64(v: &[char], at: usize) -> (r: Option<(i64, usize)>)
    requires
        at <= v@.len(),
    ensures
        match r {
            Some(p) => at <= p.1 <= v@.len() && ps_i64(v@.skip(at as int)) == Some(
                (p.0, v@.skip(p.1 as int)),
            ),
            None => ps_i64(v@.skip(at as int)) is None,
        },
{
    match scan_i64(v, at) {
        Some((n, j)) => {
            proof {
                assert(v@.skip(at as int).skip(j - at as int) =~= v@.skip(j as int));
            }
            Some((n, j))
        },
        None => None,
    }
}

fn pe_i32(v: &[char], at: usize) -> (r: Option<(i32, usize)>)
    requires
        at <= v@.len(),
    ensures
        match r {
            Some(p) => at <= p.1 <= v@.len() && ps_i32(v@.skip(at as int)) == Some(
                (p.0, v@.skip(p.1 as int)),
            ),
            None => ps_i32(v@.skip(at as int)) is None,
        },
{
    match scan_i64(v, at) {
        Some((n, j)) => {
            if n >= -2147483648i64 && n <= 2147483647i64 {
                proof {
                    assert(v@.skip(at as int).skip(j - at as int) =~= v@.skip(j as int));
                }
                Some((n as i32, j))
            } else {
                None
            }
        },
        None => None,
    }
}

fn pe_bool(v: &[char], at: usize) -> (r: Option<(bool, usize)>)
    requires
        at <= v@.len(),
    ensures
        match r {
            Some(p) => at <= p.1 <= v@.len() && ps_bool(v@.skip(at as int)) == Some(
                (p.0, v@.skip(p.1 as int)),
            ),
            None => ps_bool(v@.skip(at as int)) is None,
        },
{
    match pe_lit(v, at, "true") {
        Some(j) => Some((true, j)),
        None => match pe_lit(v, at, "false") {
            Some(j) => Some((false, j)),
            None => None,
        },
    }
}

fn pe_point(v: &[char], at: usize) -> (r: Option<(Point, usize)>)
    requires
        at <= v@.len(),
    ensures
        match r {
            Some(p) => at <= p.1 <= v@.len() && ps_point(v@.skip(at as int)) == Some(
                (p.0, v@.skip(p.1 as int)),
            ),
            None => ps_point(v@.skip(at as int)) is None,
        },
{
    let j1 = match pe_lit(v, at, "{\"x\":") {
        Some(j) => j,
        None => {
            return None;
        },
    };
    let (x, j2) = match pe_i32(v, j1) {
        Some(p) => p,
        None => {
            return None;
        },
    };
    let j3 = match pe_lit(v, j2, ",\"y\":") {
        Some(j) => j,
        None => {
            return None;
        },
    };
    let (y, j4) = match pe_i32(v, j3) {
        Some(p) => p,
        None => {
            return None;
        },
    };
    let j5 = match pe_lit(v, j4, "}") {
        Some(j) => j,
        None => {
            return None;
        },
    };
    Some((Point { x, y }, j5))
}

/// Parse a whole point text, as the sync sub-channel carries it.
pub fn parse_point_chars(v: &[char]) -> (r: Option<Point>)
    ensures
        r == spec_parse_point(v@),
{
    proof {
        assert(v@.skip(0) =~= v@);
    }
    match pe_point(v, 0) {
        Some((p, j)) => {
            if j == v.len() {
                proof {
                    assert(v@.skip(j as int).len() == 0);
                }
                Some(p)
            } else {
                proof {
                    assert(v@.skip(j as int).len() > 0);
                }
                None
            }
        },
        None => None,
    }
}

/// Parse a whole record text back into a record.
pub fn parse_player(s: &str) -> (r: Option<Player>)
    ensures
        match r {
            Some(p) => spec_parse_player(s@) == Some(p@),
            None => spec_parse_player(s@) is None,
        },
{
    let cs = str_chars(s);
    let v = cs.as_slice();
    proof {
        assert(v@.skip(0) =~= v@);
    }
    let j1 = match pe_lit(v, 0, "{\"id\":\"") {
        Some(j) => j,
        None => {
            return None;
        },
    };
    let (id, j2) = match pe_string(v, j1) {
        Some(p) => p,
        None => {
            return None;
        },
    };
    let j3 = match pe_lit(v, j2, ",\"char_name\":\"") {
        Some(j) => j,
        None => {
            return None;
        },
    };
    let (char_name, j4) = match pe_string(v, j3) {
        Some(p) => p,
        None => {
            return None;
        },
    };
    let j5 = match pe_lit(v, j4, ",\"skin\":") {
        Some(j) => j,
        None => {
            return None;
        },
    };
    let (skin, j6) = match pe_u8(v, j5) {
        Some(p) => p,
        None => {
            return None;
        },
    };
    let j7 = match pe_lit(v, j6, ",\"logged_in\":") {
        Some(j) => j,
        None => {
            return None;
        },
    };
    let (logged_in, j8) = match pe_bool(v, j7) {
        Some(p) => p,
        None => {
            return None;
        },
    };
    let j9 = match pe_lit(v, j8, ",\"pos\":") {
        Some(j) => j,
        None => {
            return None;
        },
    };
    let (pos, j10) = match pe_point(v, j9) {
        Some(p) => p,
        None => {
            return None;
        },
    };
    let j11 = match pe_lit(v, j10, ",\"velocity\":") {
        Some(j) => j,
        None => {
            return None;
        },
    };
    let (velocity, j12) = match pe_u8(v, j11) {
        Some(p) => p,
        None => {
            return None;
        },
    };
    let j13 = match pe_lit(v, j12, ",\"team\":") {
        Some(j) => j,
        None => {
            return None;
        },
    };
    let (team, j14) = match pe_u8(v, j13) {
        Some(p) => p,
        None => {
            return None;
        },
    };
    let j15 = match pe_lit(v, j14, ",\"world_pos\":") {
        Some(j) => j,
        None => {
            return None;
        },
    };
    let (world_pos, j16) = match pe_point(v, j15) {
        Some(p) => p,
        None => {
            return None;
        },
    };
    let j17 = match pe_lit(v, j16, ",\"last_update\":") {
        Some(j) => j,
        None => {
            return None;
        },
    };
    let (last_update, j18) = match pe_i64(v, j17) {
        Some(p) => p,
        None => {
            return None;
        },
    };
    let j19 = match pe_lit(v, j18, "}") {
        Some(j) => j,
        None => {
            return None;
        },
    };
    if j19 != cs.len() {
        proof {
            assert(v@.skip(j19 as int).len() > 0);
        }
        return None;
    }
    proof {
        assert(v@.skip(j19 as int).len() == 0);
    }
    Some(
        Player {
            id,
            char_name,
            skin,
            logged_in,
            pos,
            velocity,
            team,
            world_pos,
            last_update,
        },
    )
}

// --- the round trip, combinator by combinator ---

proof fn lemma_ps_lit_of(lit: Seq<char>, rest: Seq<char>)
    ensures
        ps_lit(lit + rest, lit) == Some(rest),
{
    assert((lit + rest).take(lit.len() as int) =~= lit);
    assert((lit + rest).skip(lit.len() as int) =~= rest);
}

proof fn lemma_ps_string_of(content: Seq<char>, rest: Seq<char>)
    requires
        json_plain(content),
    ensures
        ps_string(content + seq!['"'] + rest) == Some((content, rest)),
{
    let s = content + seq!['"'] + rest;
    assert forall|i: int| 0 <= i < content.len() implies s[i] != '"' by {
        assert(s[i] == content[i]);
    }
    assert(s[content.len() as int] == '"');
    lemma_spec_find_at(s, '"', content.len() as int);
    assert(s.take(content.len() as int) =~= content);
    assert(s.skip(content.len() as int + 1) =~= rest);
}

proof fn lemma_ps_u8_of(n: u8, rest: Seq<char>)
    requires
        rest.len() == 0 || !is_digit_char(rest[0]),
    ensures
        ps_u8(spec_digits(n as nat) + rest) == Some((n, rest)),
{
    lemma_scan_of_digits(n as nat, rest);
    let ds = spec_digits(n as nat);
    assert((ds + rest).skip(ds.len() as int) =~= rest);
}

proof fn lemma_ps_i64_of(n: i64, rest: Seq<char>)
    requires
        rest.len() == 0 || !is_digit_char(rest[0]),
    ensures
        ps_i64(spec_int_chars(n as int) + rest) == Some((n, rest)),
{
    lemma_scan_of_int(n as int, rest);
    let ds = spec_int_chars(n as int);
    assert((ds + rest).skip(ds.len() as int) =~= rest);
}

proof fn lemma_ps_i32_of(x: i32, rest: Seq<char>)
    requires
        rest.len() == 0 || !is_digit_char(rest[0]),
    ensures
        ps_i32(spec_int_chars(x as int) + rest) == Some((x, rest)),
{
    lemma_scan_of_int(x as int, rest);
    let ds = spec_int_chars(x as int);
    assert((ds + rest).skip(ds.len() as int) =~= rest);
}

proof fn lemma_ps_bool_of(b: bool, rest: Seq<char>)
    ensures
        ps_bool(spec_bool_json(b) + rest) == Some((b, rest)),
{
    reveal_strlit("true");
    reveal_strlit("false");
    if b {
        lemma_ps_lit_of("true"@, rest);
    } else {
        let s = "false"@ + rest;
        if "true"@.len() <= s.len() && s.take("true"@.len() as int) == "true"@ {
            assert(s.take("true"@.len() as int)[0] == 'f');
            assert(false);
        }
        lemma_ps_lit_of("false"@, rest);
    }
}

proof fn lemma_ps_point_of(p: Point, rest: Seq<char>)
    ensures
        ps_point(spec_point_json(p) + rest) == Some((p, rest)),
{
    reveal_strlit(",\"y\":");
    reveal_strlit("}");
    let s = spec_point_json(p) + rest;
    let r4 = "}"@ + rest;
    let r3 = spec_int_chars(p.y as int) + r4;
    let r2 = ",\"y\":"@ + r3;
    let r1 = spec_int_chars(p.x as int) + r2;
    assert(s =~= "{\"x\":"@ + r1);
    lemma_ps_lit_of("{\"x\":"@, r1);
    assert(r2[0] == ',');
    assert(!is_digit_char(','));
    lemma_ps_i32_of(p.x, r2);
    lemma_ps_lit_of(",\"y\":"@, r3);
    assert(r4[0] == '}');
    assert(!is_digit_char('}'));
    lemma_ps_i32_of(p.y, r4);
    lemma_ps_lit_of("}"@, rest);
}

/// Parsing the text the encoder wrote yields the same point.
pub proof fn lemma_point_json_roundtrip(p: Point)
    ensures
        spec_parse_point(spec_point_json(p)) == Some(p),
{
    lemma_ps_point_of(p, Seq::empty());
    assert(spec_point_json(p) + Seq::<char>::empty() =~= spec_point_json(p));
}

/// Encoding a record and decoding the text reproduces the record, all
/// fields included, whenever its strings are quote-free.
pub proof fn lemma_player_json_roundtrip(p: PlayerV)
    requires
        player_json_safe(p),
    ensures
        spec_parse_player(spec_player_json(p)) == Some(p),
{
    reveal_strlit("\",\"char_name\":\"");
    reveal_strlit(",\"char_name\":\"");
    reveal_strlit("\",\"skin\":");
    reveal_strlit(",\"skin\":");
    reveal_strlit(",\"logged_in\":");
    reveal_strlit(",\"pos\":");
    reveal_strlit(",\"velocity\":");
    reveal_strlit(",\"team\":");
    reveal_strlit(",\"world_pos\":");
    reveal_strlit(",\"last_update\":");
    reveal_strlit("}");
    let js = spec_player_json(p);
    let x18 = "}"@;
    let x17 = spec_int_chars(p.last_update as int) + x18;
    let x16 = ",\"last_update\":"@ + x17;
    let x15 = spec_point_json(p.world_pos) + x16;
    let x14 = ",\"world_pos\":"@ + x15;
    let x13 = spec_digits(p.team as nat) + x14;
    let x12 = ",\"team\":"@ + x13;
    let x11 = spec_digits(p.velocity as nat) + x12;
    let x10 = ",\"velocity\":"@ + x11;
    let x9 = spec_point_json(p.pos) + x10;
    let x8 = ",\"pos\":"@ + x9;
    let x7 = spec_bool_json(p.logged_in) + x8;
    let x6 = ",\"logged_in\":"@ + x7;
    let x5 = spec_digits(p.skin as nat) + x6;
    let x4 = ",\"skin\":"@ + x5;
    let x3 = p.char_name + seq!['"'] + x4;
    let x2 = ",\"char_name\":\""@ + x3;
    let x1 = p.id + seq!['"'] + x2;
    assert(js =~= "{\"id\":\""@ + x1);
    lemma_ps_lit_of("{\"id\":\""@, x1);
    lemma_ps_string_of(p.id, x2);
    assert(p.id + seq!['"'] + x2 =~= x1);
    lemma_ps_lit_of(",\"char_name\":\""@, x3);
    lemma_ps_string_of(p.char_name, x4);
    lemma_ps_lit_of(",\"skin\":"@, x5);
    assert(x6[0] == ',');
    assert(!is_digit_char(','));
    lemma_ps_u8_of(p.skin, x6);
    lemma_ps_lit_of(",\"logged_in\":"@, x7);
    lemma_ps_bool_of(p.logged_in, x8);
    lemma_ps_lit_of(",\"pos\":"@, x9);
    lemma_ps_point_of(p.pos, x10);
    lemma_ps_lit_of(",\"velocity\":"@, x11);
    assert(x12[0] == ',');
    lemma_ps_u8_of(p.velocity, x12);
    lemma_ps_lit_of(",\"team\":"@, x13);
    assert(x14[0] == ',');
    lemma_ps_u8_of(p.team, x14);
    lemma_ps_lit_of(",\"world_pos\":"@, x15);
    lemma_ps_point_of(p.world_pos, x16);
    lemma_ps_lit_of(",\"last_update\":"@, x17);
    assert(x18[0] == '}');
    assert(!is_digit_char('}'));
    lemma_ps_i64_of(p.last_update, x18);
    lemma_ps_lit_of("}"@, Seq::empty());
    assert(x18 =~= "}"@ + Seq::<char>::empty());
}

} // verus!
