//! The Session Registry: for each player id, the network address that
//! should receive broadcasts. Entries are upserted on every inbound command
//! and never removed.

use vstd::prelude::*;

verus! {

/// Four dotted-quad octets.
#[derive(Clone, Copy, PartialEq, Eq, Structural, Debug)]
pub struct Ipv4 {
    pub a: u8,
    pub b: u8,
    pub c: u8,
    pub d: u8,
}

/// Where a datagram can be sent.
#[derive(Clone, Copy, PartialEq, Eq, Structural, Debug)]
pub struct NetAddr {
    pub ip: Ipv4,
    pub port: u16,
}

/// The outbound address paired with a receive address: one port up, so the
/// two directions of the channel do not contend for one port.
pub fn send_addr_for(a: &NetAddr) -> (r: Option<NetAddr>)
    ensures
        a.port < 0xffff ==> r == Some(NetAddr { ip: a.ip, port: (a.port + 1) as u16 }),
        a.port == 0xffff ==> r is None,
{
    if a.port < 0xffff {
        Some(NetAddr { ip: a.ip, port: a.port + 1 })
    } else {
        None
    }
}

/// Mathematical image of a [`SessionEntry`].
pub ghost struct SessionEntryV {
    pub player_id: Seq<char>,
    pub addr: NetAddr,
}

/// One registered recipient.
pub struct SessionEntry {
    pub player_id: String,
    pub addr: NetAddr,
}

impl View for SessionEntry {
    type V = SessionEntryV;

    open spec fn view(&self) -> SessionEntryV {
        SessionEntryV { player_id: self.player_id@, addr: self.addr }
    }
}

/// First entry held for `id`, if any.
pub open spec fn entry_index(s: Seq<SessionEntryV>, id: Seq<char>) -> Option<int>
    decreases s.len(),
{
    if s.len() == 0 {
        None
    } else if s[0].player_id == id {
        Some(0)
    } else {
        match entry_index(s.skip(1), id) {
            Some(k) => Some(k + 1),
            None => None,
        }
    }
}

/// Idempotent upsert: a fresh id joins at the end, a known id only has its
/// address refreshed.
pub open spec fn spec_register(s: Seq<SessionEntryV>, e: SessionEntryV) -> Seq<SessionEntryV> {
    match entry_index(s, e.player_id) {
        Some(i) => s.update(i, e),
        None => s.push(e),
    }
}

/// Registration only refreshes or adds: no session entry is ever lost.
pub proof fn lemma_register_keeps_entries(s: Seq<SessionEntryV>, e: SessionEntryV)
    ensures
        spec_register(s, e).len() >= s.len(),
        forall|i: int|
            0 <= i < s.len() ==> exists|j: int|
                0 <= j < spec_register(s, e).len() && (#[trigger] spec_register(s, e)[j]).player_id
                    == (#[trigger] s[i]).player_id,
{
    let r = spec_register(s, e);
    match entry_index(s, e.player_id) {
        Some(k) => {
            lemma_entry_index_props(s, e.player_id);
            assert forall|i: int| 0 <= i < s.len() implies exists|j: int|
                0 <= j < r.len() && (#[trigger] r[j]).player_id == (#[trigger] s[i]).player_id by {
                if i == k {
                    assert(r[i].player_id == e.player_id);
                    assert(s[i].player_id == e.player_id);
                } else {
                    assert(r[i].player_id == s[i].player_id);
                }
            }
        },
        None => {
            assert forall|i: int| 0 <= i < s.len() implies exists|j: int|
                0 <= j < r.len() && (#[trigger] r[j]).player_id == (#[trigger] s[i]).player_id by {
                assert(r[i].player_id == s[i].player_id);
            }
        },
    }
}

proof fn lemma_entry_index_props(s: Seq<SessionEntryV>, id: Seq<char>)
    ensures
        match entry_index(s, id) {
            Some(k) => 0 <= k < s.len() && s[k].player_id == id,
            None => true,
        },
    decreases s.len(),
{
    if s.len() > 0 && s[0].player_id != id {
        lemma_entry_index_props(s.skip(1), id);
        match entry_index(s.skip(1), id) {
            Some(k) => {
                assert(s.skip(1)[k] == s[k + 1]);
            },
            None => {},
        }
    }
}

proof fn lemma_entry_index_at(s: Seq<SessionEntryV>, id: Seq<char>, k: int)
    requires
        0 <= k < s.len(),
        s[k].player_id == id,
        forall|i: int| 0 <= i < k ==> (#[trigger] s[i]).player_id != id,
    ensures
        entry_index(s, id) == Some(k),
    decreases k,
{
    if k > 0 {
        assert forall|i: int| 0 <= i < k - 1 implies (#[trigger] s.skip(1)[i]).player_id != id by {
            assert(s.skip(1)[i] == s[i + 1]);
        }
        assert(s.skip(1)[k - 1] == s[k]);
        lemma_entry_index_at(s.skip(1), id, k - 1);
    }
}

proof fn lemma_entry_index_none(s: Seq<SessionEntryV>, id: Seq<char>)
    requires
        forall|i: int| 0 <= i < s.len() ==> (#[trigger] s[i]).player_id != id,
    ensures
        entry_index(s, id) == None::<int>,
    decreases s.len(),
{
    if s.len() > 0 {
        assert forall|i: int|
            0 <= i < s.skip(1).len() implies (#[trigger] s.skip(1)[i]).player_id != id by {
            assert(s.skip(1)[i] == s[i + 1]);
        }
        lemma_entry_index_none(s.skip(1), id);
    }
}

/// The registry itself: entries in registration order, one per id.
pub struct SessionRegistry {
    entries: Vec<SessionEntry>,
}

impl SessionRegistry {
    pub closed spec fn entries(&self) -> Seq<SessionEntryV> {
        self.entries@.map_values(|e: SessionEntry| e@)
    }

    pub open spec fn wf(&self) -> bool {
        forall|i: int, j: int|
            0 <= i < j < self.entries().len() ==> (#[trigger] self.entries()[i]).player_id
                != (#[trigger] self.entries()[j]).player_id
    }

    pub fn new() -> (r: Self)
        ensures
            r.wf(),
            r.entries() == Seq::<SessionEntryV>::empty(),
    {
        let r = SessionRegistry { entries: Vec::new() };
        proof {
            assert(r.entries() =~= Seq::<SessionEntryV>::empty());
        }
        r
    }

    /// Upsert the broadcast address for a player.
    pub fn register(&mut self, player_id: String, addr: NetAddr)
        requires
            old(self).wf(),
        ensures
            final(self).wf(),
            final(self).entries() == spec_register(
                old(self).entries(),
                SessionEntryV { player_id: player_id@, addr },
            ),
    {
        let ghost t = self.entries();
        let ghost ev = SessionEntryV { player_id: player_id@, addr };
        let n = self.entries.len();
        let mut i: usize = 0;
        while i < n
            invariant
                i <= n,
                n == self.entries@.len(),
                self.entries() == t,
                *self == *old(self),
                old(self).wf(),
                ev == (SessionEntryV { player_id: player_id@, addr }),
                forall|j: int| 0 <= j < i ==> (#[trigger] t[j]).player_id != player_id@,
            decreases n - i,
        {
            if self.entries[i].player_id == player_id {
                proof {
                    assert(t[i as int].player_id == player_id@);
                    lemma_entry_index_at(t, player_id@, i as int);
                }
                self.entries[i] = SessionEntry { player_id, addr };
                proof {
                    assert(self.entries() =~= t.update(i as int, ev));
                    assert forall|a: int, b: int|
                        0 <= a < b < self.entries().len() implies (
                        #[trigger] self.entries()[a]).player_id != (
                        #[trigger] self.entries()[b]).player_id by {
                        assert(self.entries()[a] == t.update(i as int, ev)[a]);
                        assert(self.entries()[b] == t.update(i as int, ev)[b]);
                    }
                }
                return ;
            }
            i = i + 1;
        }
        proof {
            lemma_entry_index_none(t, player_id@);
        }
        self.entries.push(SessionEntry { player_id, addr });
        proof {
            assert(self.entries() =~= t.push(ev));
            assert(self.entries().drop_last() =~= t);
            if !self.wf() {
                let (a, b) = choose|a: int, b: int|
                    0 <= a < b < self.entries().len() && (#[trigger] self.entries()[a]).player_id
                        == (#[trigger] self.entries()[b]).player_id;
                assert(b == t.len() || t[b].player_id == self.entries()[b].player_id);
                assert(false);
            }
        }
    }

    /// Every `(playerId, address)` pair, in registration order.
    pub fn snapshot(&self) -> (r: &Vec<SessionEntry>)
        ensures
            r@.map_values(|e: SessionEntry| e@) == self.entries(),
    {
        &self.entries
    }
}

} // verus!
