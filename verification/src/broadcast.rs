//! The Broadcaster: a per-recipient copy of the full snapshot, with the
//! recipient's own record removed, framed as `P0;<json-map>`.

use vstd::prelude::*;

use crate::game::{Player, PlayerV};
use crate::json::{encode_players, spec_players_json};
use crate::registry::{NetAddr, SessionEntry, SessionRegistry};
use crate::store::{lemma_players_map_index, players_map, unique_ids};

verus! {

/// The snapshot without the records of the named player.
pub open spec fn spec_filter_out(ps: Seq<PlayerV>, id: Seq<char>) -> Seq<PlayerV>
    decreases ps.len(),
{
    if ps.len() == 0 {
        Seq::empty()
    } else {
        let head = spec_filter_out(ps.drop_last(), id);
        if ps.last().id == id {
            head
        } else {
            head.push(ps.last())
        }
    }
}

/// What one recipient is sent: the op token and the filtered map.
pub open spec fn spec_broadcast_payload(ps: Seq<PlayerV>, id: Seq<char>) -> Seq<char> {
    "P0;"@ + spec_players_json(spec_filter_out(ps, id))
}

/// The id a payload is addressed to is not among the keys of the map it
/// carries: every key is the id of a surviving record, and no surviving
/// record carries the recipient's id.
pub proof fn lemma_broadcast_excludes_recipient(ps: Seq<PlayerV>, id: Seq<char>)
    ensures
        forall|j: int| 0 <= j < spec_filter_out(ps, id).len() ==> (#[trigger] spec_filter_out(
            ps,
            id,
        )[j]).id != id,
    decreases ps.len(),
{
    if ps.len() > 0 {
        lemma_broadcast_excludes_recipient(ps.drop_last(), id);
        let head = spec_filter_out(ps.drop_last(), id);
        let filtered = spec_filter_out(ps, id);
        assert forall|j: int| 0 <= j < filtered.len() implies (#[trigger] filtered[j]).id
            != id by {
            if j < head.len() {
                assert(filtered[j] == head[j]);
            } else {
                assert(filtered[j] == ps.last());
            }
        }
    }
}

/// Some record of `s` carries the id `k`.
pub open spec fn has_id(s: Seq<PlayerV>, k: Seq<char>) -> bool {
    exists|i: int| 0 <= i < s.len() && (#[trigger] s[i]).id == k
}

proof fn lemma_filter_out_unique(ps: Seq<PlayerV>, id: Seq<char>)
    requires
        unique_ids(ps),
    ensures
        unique_ids(spec_filter_out(ps, id)),
        forall|k: Seq<char>| has_id(spec_filter_out(ps, id), k) ==> has_id(ps, k),
    decreases ps.len(),
{
    if ps.len() > 0 {
        let d = ps.drop_last();
        assert forall|i: int, j: int| 0 <= i < j < d.len() implies (#[trigger] d[i]).id
            != (#[trigger] d[j]).id by {
            assert(d[i] == ps[i] && d[j] == ps[j]);
        }
        lemma_filter_out_unique(d, id);
        let head = spec_filter_out(d, id);
        let filtered = spec_filter_out(ps, id);
        assert forall|k: Seq<char>| has_id(filtered, k) implies has_id(ps, k) by {
            let i = choose|i: int| 0 <= i < filtered.len() && (#[trigger] filtered[i]).id == k;
            if i < head.len() {
                assert(filtered[i] == head[i]);
                assert(head[i].id == k);
                assert(has_id(spec_filter_out(d, id), k));
                assert(has_id(d, k));
                let j = choose|j: int| 0 <= j < d.len() && (#[trigger] d[j]).id == k;
                assert(ps[j] == d[j]);
                assert(ps[j].id == k);
            } else {
                assert(filtered[i] == ps.last());
                assert(ps[ps.len() - 1].id == k);
            }
        }
        if ps.last().id != id {
            assert forall|i: int, j: int|
                0 <= i < j < filtered.len() implies (#[trigger] filtered[i]).id
                != (#[trigger] filtered[j]).id by {
                if j < head.len() {
                    assert(filtered[i] == head[i] && filtered[j] == head[j]);
                } else {
                    assert(filtered[i] == head[i] && filtered[j] == ps.last());
                    if head[i].id == ps.last().id {
                        assert(has_id(spec_filter_out(d, id), ps.last().id));
                        assert(has_id(d, ps.last().id));
                        let m = choose|m: int|
                            0 <= m < d.len() && (#[trigger] d[m]).id == ps.last().id;
                        assert(ps[m] == d[m]);
                        assert(ps[m].id == ps[ps.len() - 1].id);
                        assert(false);
                    }
                }
            }
        }
    }
}

/// The map the payload's JSON text denotes has no key equal to the
/// recipient's id.
pub proof fn lemma_broadcast_map_excludes_recipient(ps: Seq<PlayerV>, id: Seq<char>)
    requires
        unique_ids(ps),
    ensures
        !players_map(spec_filter_out(ps, id)).contains_key(id),
{
    lemma_filter_out_unique(ps, id);
    lemma_broadcast_excludes_recipient(ps, id);
    let filtered = spec_filter_out(ps, id);
    if players_map(filtered).contains_key(id) {
        lemma_players_map_index(filtered);
        let i = choose|i: int| 0 <= i < filtered.len() && (#[trigger] filtered[i]).id == id;
        assert(false);
    }
}

/// Copy the snapshot, leaving out the recipient's own record.
pub fn filter_out(ps: &Vec<Player>, id: &String) -> (r: Vec<Player>)
    ensures
        r@.map_values(|p: Player| p@) == spec_filter_out(ps@.map_values(|p: Player| p@), id@),
{
    let ghost views = ps@.map_values(|p: Player| p@);
    let n = ps.len();
    let mut r: Vec<Player> = Vec::new();
    proof {
        assert(views.take(0) =~= Seq::<PlayerV>::empty());
        assert(r@.map_values(|p: Player| p@) =~= spec_filter_out(views.take(0), id@));
    }
    let mut i: usize = 0;
    while i < n
        invariant
            i <= n,
            n == ps@.len(),
            views == ps@.map_values(|p: Player| p@),
            r@.map_values(|p: Player| p@) == spec_filter_out(views.take(i as int), id@),
        decreases n - i,
    {
        proof {
            assert(views.take(i + 1).drop_last() =~= views.take(i as int));
            assert(views.take(i + 1).last() == views[i as int]);
        }
        if !(ps[i].id == *id) {
            r.push(ps[i].duplicate());
            proof {
                assert(r@.map_values(|p: Player| p@) =~= spec_filter_out(
                    views.take(i as int),
                    id@,
                ).push(views[i as int]));
            }
        }
        i = i + 1;
    }
    proof {
        assert(views.take(n as int) =~= views);
    }
    r
}

/// The datagram text for one recipient.
pub fn broadcast_payload(ps: &Vec<Player>, recipient: &String) -> (r: String)
    ensures
        r@ == spec_broadcast_payload(ps@.map_values(|p: Player| p@), recipient@),
{
    let filtered = filter_out(ps, recipient);
    let body = encode_players(&filtered);
    let mut r = String::new();
    r.append("P0;");
    r.append(body.as_str());
    proof {
        assert(r@ =~= spec_broadcast_payload(ps@.map_values(|p: Player| p@), recipient@));
    }
    r
}

/// One tick's outbound traffic: for every registered session, its address
/// and its own filtered copy of the snapshot.
pub fn broadcast_messages(ps: &Vec<Player>, registry: &SessionRegistry) -> (r: Vec<
    (NetAddr, String),
>)
    ensures
        r@.len() == registry.entries().len(),
        forall|i: int|
            0 <= i < r@.len() ==> (#[trigger] r@[i]).0 == registry.entries()[i].addr
                && r@[i].1@ == spec_broadcast_payload(
                ps@.map_values(|p: Player| p@),
                registry.entries()[i].player_id,
            ),
{
    let entries = registry.snapshot();
    let n = entries.len();
    let mut r: Vec<(NetAddr, String)> = Vec::new();
    let mut i: usize = 0;
    while i < n
        invariant
            i <= n,
            n == entries@.len(),
            entries@.map_values(|e: SessionEntry| e@) == registry.entries(),
            r@.len() == i,
            forall|j: int|
                0 <= j < i ==> (#[trigger] r@[j]).0 == registry.entries()[j].addr
                    && r@[j].1@ == spec_broadcast_payload(
                    ps@.map_values(|p: Player| p@),
                    registry.entries()[j].player_id,
                ),
        decreases n - i,
    {
        let payload = broadcast_payload(ps, &entries[i].player_id);
        r.push((entries[i].addr, payload));
        i = i + 1;
    }
    r
}

} // verus!
