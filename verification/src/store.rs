//! The authoritative Player Store: one record per player id, plus the
//! timestamp of the most recent move mutation. Backed here by a vector with
//! unique ids; its contract speaks of the map from id to record.

use vstd::prelude::*;

use crate::game::{Player, PlayerV, Point};

verus! {

/// Ids are pairwise distinct.
pub open spec fn unique_ids(s: Seq<PlayerV>) -> bool {
    forall|i: int, j: int| 0 <= i < j < s.len() ==> (#[trigger] s[i]).id != (#[trigger] s[j]).id
}

/// The mapping a sequence of records denotes; a later record for the same id
/// would win, and under [`unique_ids`] there is only ever one.
pub open spec fn players_map(s: Seq<PlayerV>) -> Map<Seq<char>, PlayerV>
    decreases s.len(),
{
    if s.len() == 0 {
        Map::empty()
    } else {
        players_map(s.drop_last()).insert(s.last().id, s.last())
    }
}

pub proof fn lemma_players_map_index(s: Seq<PlayerV>)
    requires
        unique_ids(s),
    ensures
        forall|i: int| 0 <= i < s.len() ==> players_map(s).contains_key((#[trigger] s[i]).id)
            && players_map(s)[s[i].id] == s[i],
        forall|k: Seq<char>| players_map(s).contains_key(k) ==> exists|i: int|
            0 <= i < s.len() && (#[trigger] s[i]).id == k,
    decreases s.len(),
{
    if s.len() > 0 {
        let d = s.drop_last();
        assert forall|i: int, j: int| 0 <= i < j < d.len() implies (#[trigger] d[i]).id
            != (#[trigger] d[j]).id by {
            assert(d[i] == s[i] && d[j] == s[j]);
        }
        lemma_players_map_index(d);
        assert forall|i: int| 0 <= i < s.len() implies players_map(s).contains_key(
            (#[trigger] s[i]).id,
        ) && players_map(s)[s[i].id] == s[i] by {
            if i < s.len() - 1 {
                assert(d[i] == s[i]);
                assert(s[i].id != s.last().id);
            }
        }
        assert forall|k: Seq<char>| players_map(s).contains_key(k) implies exists|i: int|
            0 <= i < s.len() && (#[trigger] s[i]).id == k by {
            if k == s.last().id {
                assert(s[s.len() - 1].id == k);
            } else {
                assert(players_map(d).contains_key(k));
                let i = choose|i: int| 0 <= i < d.len() && (#[trigger] d[i]).id == k;
                assert(d[i] == s[i]);
                assert(s[i].id == k);
            }
        }
    }
}

/// Replacing the record at the index that already carries `p.id` is an
/// insert on the denoted map.
proof fn lemma_players_map_update(s: Seq<PlayerV>, i: int, p: PlayerV)
    requires
        unique_ids(s),
        0 <= i < s.len(),
        s[i].id == p.id,
    ensures
        players_map(s.update(i, p)) == players_map(s).insert(p.id, p),
    decreases s.len(),
{
    let s2 = s.update(i, p);
    let d = s.drop_last();
    assert forall|a: int, b: int| 0 <= a < b < d.len() implies (#[trigger] d[a]).id
        != (#[trigger] d[b]).id by {
        assert(d[a] == s[a] && d[b] == s[b]);
    }
    if i == s.len() - 1 {
        assert(s2.drop_last() =~= d);
        assert(s2.last() == p);
        assert(players_map(s2) == players_map(d).insert(p.id, p));
        assert(players_map(s).insert(p.id, p) == players_map(d).insert(s.last().id, s.last()).insert(
            p.id,
            p,
        ));
        assert(players_map(d).insert(s.last().id, s.last()).insert(p.id, p) =~= players_map(
            d,
        ).insert(p.id, p));
    } else {
        assert(d[i] == s[i]);
        lemma_players_map_update(d, i, p);
        assert(s2.drop_last() =~= d.update(i, p));
        assert(s2.last() == s.last());
        assert(players_map(s2) == players_map(d).insert(p.id, p).insert(s.last().id, s.last()));
        assert(s.last().id != p.id);
        assert(players_map(d).insert(p.id, p).insert(s.last().id, s.last()) =~= players_map(
            d,
        ).insert(s.last().id, s.last()).insert(p.id, p));
    }
}

/// Every record in a well-formed store sits under its own id.
pub proof fn lemma_store_keys(s: &PlayerStore)
    requires
        s.wf(),
    ensures
        forall|k: Seq<char>| s@.contains_key(k) ==> (#[trigger] s@[k]).id == k,
{
    lemma_players_map_index(s.records());
    assert forall|k: Seq<char>| s@.contains_key(k) implies (#[trigger] s@[k]).id == k by {
        let i = choose|i: int|
            0 <= i < s.records().len() && (#[trigger] s.records()[i]).id == k;
        assert(s@[s.records()[i].id] == s.records()[i]);
    }
}

/// The store of record: player state by id, and when a move last changed it.
pub struct PlayerStore {
    players: Vec<Player>,
    last_updated: i64,
}

impl View for PlayerStore {
    type V = Map<Seq<char>, PlayerV>;

    open spec fn view(&self) -> Map<Seq<char>, PlayerV> {
        players_map(self.records())
    }
}

impl PlayerStore {
    /// The records in their storage (insertion) order.
    pub closed spec fn records(&self) -> Seq<PlayerV> {
        self.players@.map_values(|p: Player| p@)
    }

    pub open spec fn wf(&self) -> bool {
        unique_ids(self.records())
    }

    pub closed spec fn spec_last_updated(&self) -> i64 {
        self.last_updated
    }

    pub fn new() -> (r: Self)
        ensures
            r.wf(),
            r@ == Map::<Seq<char>, PlayerV>::empty(),
            r.records() == Seq::<PlayerV>::empty(),
            r.spec_last_updated() == 0,
    {
        let r = PlayerStore { players: Vec::new(), last_updated: 0 };
        proof {
            assert(r.records() =~= Seq::<PlayerV>::empty());
        }
        r
    }

    /// Index of the record for `id`, scanning in storage order.
    fn index_of(&self, id: &String) -> (r: Option<usize>)
        requires
            self.wf(),
        ensures
            match r {
                Some(i) => i < self.records().len() && self.records()[i as int].id == id@,
                None => !self@.contains_key(id@),
            },
    {
        proof {
            lemma_players_map_index(self.records());
        }
        let n = self.players.len();
        let mut i: usize = 0;
        while i < n
            invariant
                i <= n,
                n == self.players@.len(),
                forall|j: int| 0 <= j < i ==> (#[trigger] self.records()[j]).id != id@,
            decreases n - i,
        {
            if self.players[i].id == *id {
                assert(self.records()[i as int].id == id@);
                return Some(i);
            }
            i = i + 1;
        }
        proof {
            if self@.contains_key(id@) {
                let j = choose|j: int|
                    0 <= j < self.records().len() && (#[trigger] self.records()[j]).id == id@;
                assert(false);
            }
        }
        None
    }

    /// Field read: the record for `id`, if the store holds one.
    pub fn get(&self, id: &String) -> (r: Option<&Player>)
        requires
            self.wf(),
        ensures
            match r {
                Some(p) => self@.contains_key(id@) && p@ == self@[id@],
                None => !self@.contains_key(id@),
            },
    {
        proof {
            lemma_players_map_index(self.records());
        }
        match self.index_of(id) {
            Some(i) => Some(&self.players[i]),
            None => None,
        }
    }

    /// Field write: create or overwrite the record under `p.id`.
    pub fn set(&mut self, p: Player)
        requires
            old(self).wf(),
        ensures
            final(self).wf(),
            final(self)@ == old(self)@.insert(p.id@, p@),
            final(self).spec_last_updated() == old(self).spec_last_updated(),
    {
        let ghost s = self.records();
        proof {
            lemma_players_map_index(s);
        }
        let ghost pv = p@;
        match self.index_of(&p.id) {
            Some(i) => {
                proof {
                    lemma_players_map_update(s, i as int, pv);
                }
                self.players[i] = p;
                proof {
                    assert(self.records() =~= s.update(i as int, pv));
                    assert forall|a: int, b: int|
                        0 <= a < b < self.records().len() implies (#[trigger] self.records()[a]).id
                        != (#[trigger] self.records()[b]).id by {
                        assert(self.records()[a] == s.update(i as int, pv)[a]);
                        assert(self.records()[b] == s.update(i as int, pv)[b]);
                    }
                }
            },
            None => {
                self.players.push(p);
                proof {
                    assert(self.records() =~= s.push(pv));
                    assert(self.records().drop_last() =~= s);
                    if !unique_ids(self.records()) {
                        let (a, b) = choose|a: int, b: int|
                            0 <= a < b < self.records().len() && (#[trigger] self.records()[a]).id
                                == (#[trigger] self.records()[b]).id;
                        assert(b == s.len() || s[b].id == self.records()[b].id);
                        assert(false);
                    }
                }
            },
        }
    }

    /// Direct position overwrite for the sync sub-channel: neither
    /// `last_update` nor `velocity` moves; an unknown id is left alone.
    pub fn update_pos(&mut self, id: &String, pos: Point) -> (r: bool)
        requires
            old(self).wf(),
        ensures
            final(self).wf(),
            r == old(self)@.contains_key(id@),
            r ==> final(self)@ == old(self)@.insert(
                id@,
                PlayerV { pos, ..old(self)@[id@] },
            ),
            !r ==> final(self)@ == old(self)@,
            final(self).spec_last_updated() == old(self).spec_last_updated(),
    {
        let ghost s = self.records();
        proof {
            lemma_players_map_index(s);
        }
        match self.index_of(id) {
            Some(i) => {
                let mut q = self.players[i].duplicate();
                q.pos = pos;
                let ghost qv = q@;
                proof {
                    lemma_players_map_update(s, i as int, qv);
                }
                self.players[i] = q;
                proof {
                    assert(self.records() =~= s.update(i as int, qv));
                    assert forall|a: int, b: int|
                        0 <= a < b < self.records().len() implies (#[trigger] self.records()[a]).id
                        != (#[trigger] self.records()[b]).id by {
                        assert(self.records()[a] == s.update(i as int, qv)[a]);
                        assert(self.records()[b] == s.update(i as int, qv)[b]);
                    }
                    assert(qv == PlayerV { pos, ..old(self)@[id@] });
                }
                true
            },
            None => false,
        }
    }

    /// The timestamp of the most recent move mutation.
    pub fn last_updated(&self) -> (r: i64)
        ensures
            r == self.spec_last_updated(),
    {
        self.last_updated
    }

    pub fn set_last_updated(&mut self, t: i64)
        requires
            old(self).wf(),
        ensures
            final(self).wf(),
            final(self)@ == old(self)@,
            final(self).records() == old(self).records(),
            final(self).spec_last_updated() == t,
    {
        self.last_updated = t;
    }

    /// Full-snapshot read: every record, in storage order.
    pub fn snapshot(&self) -> (r: Vec<Player>)
        ensures
            r@.map_values(|p: Player| p@) == self.records(),
    {
        let n = self.players.len();
        let mut r: Vec<Player> = Vec::new();
        let mut i: usize = 0;
        while i < n
            invariant
                i <= n,
                n == self.players@.len(),
                r@.len() == i,
                forall|j: int| 0 <= j < i ==> (#[trigger] r@[j])@ == self.records()[j],
            decreases n - i,
        {
            r.push(self.players[i].duplicate());
            i = i + 1;
        }
        proof {
            assert(r@.map_values(|p: Player| p@) =~= self.records());
        }
        r
    }

    /// Borrowed view of the records, for callers that only read.
    pub fn players_ref(&self) -> (r: &Vec<Player>)
        ensures
            r@.map_values(|p: Player| p@) == self.records(),
    {
        &self.players
    }
}

} // verus!
