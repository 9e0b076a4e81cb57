//! A store keyed by ordered account pairs — the mailbox's directed edges —
//! kept as an association list with unique keys and read in specifications
//! as a `Map` from the pair of character sequences to the payload.

use vstd::prelude::*;

verus! {

/// One stored slot: the directed edge `(from, to)` and its payload.
pub struct PairEntry {
    pub from: String,
    pub to: String,
    pub payload: String,
}

/// The map that an association list of slots denotes.
pub open spec fn pair_assoc_map(s: Seq<PairEntry>) -> Map<(Seq<char>, Seq<char>), Seq<char>>
    decreases s.len(),
{
    if s.len() == 0 {
        Map::empty()
    } else {
        pair_assoc_map(s.drop_last()).insert((s.last().from@, s.last().to@), s.last().payload@)
    }
}

/// No two slots share a directed edge.
pub open spec fn unique_pairs(s: Seq<PairEntry>) -> bool {
    forall|i: int, j: int|
        0 <= i < j < s.len() ==> (s[i].from@, s[i].to@) != (s[j].from@, s[j].to@)
}

/// An edge is in the denoted map exactly when some slot holds it.
pub proof fn lemma_pair_map_contains(s: Seq<PairEntry>, k: (Seq<char>, Seq<char>))
    ensures
        pair_assoc_map(s).contains_key(k) <==> (exists|i: int|
            0 <= i < s.len() && (s[i].from@, s[i].to@) == k),
    decreases s.len(),
{
    if s.len() > 0 {
        lemma_pair_map_contains(s.drop_last(), k);
        if (s.last().from@, s.last().to@) == k {
            assert((s[s.len() - 1].from@, s[s.len() - 1].to@) == k);
        } else if pair_assoc_map(s).contains_key(k) {
            let i = choose|i: int|
                0 <= i < s.drop_last().len() && (s.drop_last()[i].from@, s.drop_last()[i].to@)
                    == k;
            assert((s[i].from@, s[i].to@) == k);
        } else if exists|i: int| 0 <= i < s.len() && (s[i].from@, s[i].to@) == k {
            let i = choose|i: int| 0 <= i < s.len() && (s[i].from@, s[i].to@) == k;
            assert((s.drop_last()[i].from@, s.drop_last()[i].to@) == k);
        }
    }
}

/// Under unique edges, each slot's edge maps to that slot's payload.
pub proof fn lemma_pair_map_index(s: Seq<PairEntry>, i: int)
    requires
        unique_pairs(s),
        0 <= i < s.len(),
    ensures
        pair_assoc_map(s).contains_key((s[i].from@, s[i].to@)),
        pair_assoc_map(s)[(s[i].from@, s[i].to@)] == s[i].payload@,
    decreases s.len(),
{
    if i < s.len() - 1 {
        assert(s.drop_last()[i] == s[i]);
        lemma_pair_map_index(s.drop_last(), i);
        assert((s[i].from@, s[i].to@) != (s.last().from@, s.last().to@));
    }
}

/// Removing the slot at `i` removes exactly that edge from the denoted map.
pub proof fn lemma_pair_map_remove(s: Seq<PairEntry>, i: int)
    requires
        unique_pairs(s),
        0 <= i < s.len(),
    ensures
        pair_assoc_map(s.remove(i)) == pair_assoc_map(s).remove((s[i].from@, s[i].to@)),
    decreases s.len(),
{
    lemma_pair_map_contains(s, (s[i].from@, s[i].to@));
    if i == s.len() - 1 {
        assert(s.remove(i) =~= s.drop_last());
        lemma_pair_map_contains(s.drop_last(), (s[i].from@, s[i].to@));
        assert(!pair_assoc_map(s.drop_last()).contains_key((s[i].from@, s[i].to@)));
        assert(pair_assoc_map(s.drop_last()) =~= pair_assoc_map(s).remove((s[i].from@, s[i].to@)));
    } else {
        assert(s.remove(i).drop_last() =~= s.drop_last().remove(i));
        assert(s.remove(i).last() == s.last());
        lemma_pair_map_remove(s.drop_last(), i);
        assert(s.drop_last()[i] == s[i]);
        assert((s[i].from@, s[i].to@) != (s.last().from@, s.last().to@));
        assert(pair_assoc_map(s.remove(i)) =~= pair_assoc_map(s).remove((s[i].from@, s[i].to@)));
    }
}

/// A mailbox store: one payload slot per directed edge.
pub struct PairMap {
    pub entries: Vec<PairEntry>,
}

impl View for PairMap {
    type V = Map<(Seq<char>, Seq<char>), Seq<char>>;

    open spec fn view(&self) -> Map<(Seq<char>, Seq<char>), Seq<char>> {
        pair_assoc_map(self.entries@)
    }
}

impl PairMap {
    /// Well-formed: one slot per directed edge.
    pub open spec fn inv(&self) -> bool {
        unique_pairs(self.entries@)
    }

    /// An empty store.
    pub fn new() -> (r: Self)
        ensures
            r.inv(),
            r@ == Map::<(Seq<char>, Seq<char>), Seq<char>>::empty(),
    {
        PairMap { entries: Vec::new() }
    }

    /// The payload stored on the edge `(from, to)`, if any.
    pub fn get<'a>(&'a self, from: &String, to: &String) -> (r: Option<&'a String>)
        requires
            self.inv(),
        ensures
            match r {
                Some(p) => self@.contains_key((from@, to@)) && p@ == self@[(from@, to@)],
                None => !self@.contains_key((from@, to@)),
            },
    {
        let n = self.entries.len();
        let mut i: usize = 0;
        while i < n
            invariant
                self.inv(),
                n == self.entries@.len(),
                i <= n,
                forall|j: int|
                    0 <= j < i ==> (self.entries@[j].from@, self.entries@[j].to@) != (from@, to@),
            decreases n - i,
        {
            if self.entries[i].from == *from && self.entries[i].to == *to {
                proof {
                    lemma_pair_map_index(self.entries@, i as int);
                }
                return Some(&self.entries[i].payload);
            }
            i = i + 1;
        }
        proof {
            lemma_pair_map_contains(self.entries@, (from@, to@));
        }
        None
    }

    /// Drops the payload stored on the edge `(from, to)`, if any.
    pub fn remove(&mut self, from: &String, to: &String)
        requires
            old(self).inv(),
        ensures
            final(self).inv(),
            final(self)@ == old(self)@.remove((from@, to@)),
    {
        let n = self.entries.len();
        let mut i: usize = 0;
        while i < n
            invariant
                self.inv(),
                self.entries@ == old(self).entries@,
                n == self.entries@.len(),
                i <= n,
                forall|j: int|
                    0 <= j < i ==> (self.entries@[j].from@, self.entries@[j].to@) != (from@, to@),
            decreases n - i,
        {
            if self.entries[i].from == *from && self.entries[i].to == *to {
                proof {
                    lemma_pair_map_remove(self.entries@, i as int);
                }
                self.entries.remove(i);
                return;
            }
            i = i + 1;
        }
        proof {
            lemma_pair_map_contains(self.entries@, (from@, to@));
            assert(old(self)@ =~= old(self)@.remove((from@, to@)));
        }
    }

    /// Stores `payload` on the edge `(from, to)`, replacing any prior payload.
    pub fn insert(&mut self, from: String, to: String, payload: String)
        requires
            old(self).inv(),
        ensures
            final(self).inv(),
            final(self)@ == old(self)@.insert((from@, to@), payload@),
    {
        let ghost kv = (from@, to@);
        let ghost vv = payload@;
        self.remove(&from, &to);
        proof {
            lemma_pair_map_contains(self.entries@, kv);
        }
        let ghost pre = self.entries@;
        self.entries.push(PairEntry { from, to, payload });
        proof {
            assert(self.entries@.drop_last() =~= pre);
            assert forall|i: int, j: int|
                0 <= i < j < self.entries@.len() implies (
            self.entries@[i].from@,
            self.entries@[i].to@,
            ) != (self.entries@[j].from@, self.entries@[j].to@) by {
                if j == self.entries@.len() - 1 {
                    assert((pre[i].from@, pre[i].to@) != kv);
                }
            }
            assert(self@ =~= old(self)@.insert(kv, vv));
        }
    }
}

} // verus!
