//! A map from process names to copyable records, kept as an
//! insertion-ordered entry list with unique keys.  It backs the alert and
//! heartbeat state stores and the per-process interval table.

use vstd::prelude::*;
use vstd::pervasive::VecAdditionalExecFns;

use crate::strutil::str_eq;

verus! {

/// A name appears in the entry list at most once.
pub open spec fn nm_unique_keys<V>(s: Seq<(String, V)>) -> bool {
    forall|i: int, j: int| 0 <= i < j < s.len() ==> s[i].0@ != s[j].0@
}

/// The mapping an entry list holds, later entries overriding earlier.
pub open spec fn nm_entries_map<V>(s: Seq<(String, V)>) -> Map<Seq<char>, V>
    decreases s.len(),
{
    if s.len() == 0 {
        Map::<Seq<char>, V>::empty()
    } else {
        nm_entries_map(s.drop_last()).insert(s.last().0@, s.last().1)
    }
}

/// With unique keys, the entry list and its map carry the same pairs.
pub proof fn lemma_nm_entries_map<V>(s: Seq<(String, V)>)
    requires
        nm_unique_keys(s),
    ensures
        forall|k: Seq<char>|
            nm_entries_map(s).contains_key(k) <==> exists|i: int|
                0 <= i < s.len() && #[trigger] s[i].0@ == k,
        forall|i: int|
            0 <= i < s.len() ==> nm_entries_map(s).contains_key(#[trigger] s[i].0@)
                && nm_entries_map(s)[s[i].0@] == s[i].1,
    decreases s.len(),
{
    if s.len() > 0 {
        lemma_nm_entries_map(s.drop_last());
        assert forall|k: Seq<char>| nm_entries_map(s).contains_key(k) implies exists|i: int|
            0 <= i < s.len() && #[trigger] s[i].0@ == k by {
            if k == s.last().0@ {
                assert(s[s.len() - 1].0@ == k);
            } else {
                assert(nm_entries_map(s) == nm_entries_map(s.drop_last()).insert(
                    s.last().0@,
                    s.last().1,
                ));
                assert(nm_entries_map(s.drop_last()).contains_key(k));
                let i = choose|i: int|
                    0 <= i < s.drop_last().len() && #[trigger] s.drop_last()[i].0@ == k;
                assert(s.drop_last()[i] == s[i]);
                assert(s[i].0@ == k);
            }
        }
        assert forall|i: int| 0 <= i < s.len() implies nm_entries_map(s).contains_key(
            #[trigger] s[i].0@,
        ) && nm_entries_map(s)[s[i].0@] == s[i].1 by {
            if i < s.len() - 1 {
                assert(s.drop_last()[i] == s[i]);
                assert(s[i].0@ != s.last().0@);
            }
        }
    }
}

proof fn lemma_nm_remove_unique<V>(s: Seq<(String, V)>, i: int)
    requires
        nm_unique_keys(s),
        0 <= i < s.len(),
    ensures
        nm_unique_keys(s.remove(i)),
        forall|j: int| 0 <= j < s.remove(i).len() ==> #[trigger] s.remove(i)[j].0@ != s[i].0@,
{
    let t = s.remove(i);
    assert forall|p: int, q: int| 0 <= p < q < t.len() implies t[p].0@ != t[q].0@ by {
        let sp: int = if p < i { p } else { p + 1 };
        let sq: int = if q < i { q } else { q + 1 };
        assert(t[p] == s[sp] && t[q] == s[sq]);
    }
    assert forall|j: int| 0 <= j < t.len() implies #[trigger] t[j].0@ != s[i].0@ by {
        let sj: int = if j < i { j } else { j + 1 };
        assert(t[j] == s[sj]);
    }
}

proof fn lemma_nm_push_unique<V>(s: Seq<(String, V)>, e: (String, V))
    requires
        nm_unique_keys(s),
        forall|j: int| 0 <= j < s.len() ==> #[trigger] s[j].0@ != e.0@,
    ensures
        nm_unique_keys(s.push(e)),
{
    let t = s.push(e);
    assert forall|p: int, q: int| 0 <= p < q < t.len() implies t[p].0@ != t[q].0@ by {
        if q < s.len() {
            assert(t[p] == s[p] && t[q] == s[q]);
        } else {
            assert(t[p] == s[p] && t[q] == e);
        }
    }
}

/// Dropping the entry that holds a key and pushing a fresh value for that
/// same key is, as a mapping, one `insert`.
proof fn lemma_nm_insert_shuffle<V>(before: Seq<(String, V)>, i: int, e: (String, V))
    requires
        nm_unique_keys(before),
        0 <= i < before.len(),
        before[i].0@ == e.0@,
    ensures
        nm_entries_map(before.remove(i).push(e)) == nm_entries_map(before).insert(e.0@, e.1),
{
    let mid = before.remove(i);
    lemma_nm_remove_unique(before, i);
    lemma_nm_push_unique(mid, e);
    lemma_nm_entries_map(before);
    lemma_nm_entries_map(mid);
    lemma_nm_entries_map(mid.push(e));
    let lhs = nm_entries_map(mid.push(e));
    let rhs = nm_entries_map(before).insert(e.0@, e.1);
    assert forall|q: Seq<char>| lhs.contains_key(q) implies rhs.contains_key(q) && lhs[q]
        == rhs[q] by {
        let j = choose|j: int| 0 <= j < mid.push(e).len() && #[trigger] mid.push(e)[j].0@ == q;
        if j < mid.len() {
            assert(mid.push(e)[j] == mid[j]);
            let bj: int = if j < i { j } else { j + 1 };
            assert(mid[j] == before[bj]);
            assert(mid[j].0@ != e.0@);
            assert(lhs[q] == mid.push(e)[j].1);
            assert(rhs[q] == before[bj].1);
        } else {
            assert(mid.push(e)[j] == e);
        }
    }
    assert forall|q: Seq<char>| rhs.contains_key(q) implies lhs.contains_key(q) by {
        if q != e.0@ {
            let j = choose|j: int| 0 <= j < before.len() && #[trigger] before[j].0@ == q;
            assert(j != i);
            let mj: int = if j < i { j } else { j - 1 };
            assert(mid[mj] == before[j]);
            assert(mid.push(e)[mj] == mid[mj]);
        } else {
            assert(mid.push(e).last() == e);
        }
    }
    assert(lhs =~= rhs);
}

/// Removing the entry that holds a key is, as a mapping, one `remove`.
proof fn lemma_nm_remove_map<V>(before: Seq<(String, V)>, i: int)
    requires
        nm_unique_keys(before),
        0 <= i < before.len(),
    ensures
        nm_entries_map(before.remove(i)) == nm_entries_map(before).remove(before[i].0@),
{
    let mid = before.remove(i);
    let k = before[i].0@;
    lemma_nm_remove_unique(before, i);
    lemma_nm_entries_map(before);
    lemma_nm_entries_map(mid);
    let lhs = nm_entries_map(mid);
    let rhs = nm_entries_map(before).remove(k);
    assert forall|q: Seq<char>| lhs.contains_key(q) implies rhs.contains_key(q) && lhs[q]
        == rhs[q] by {
        let j = choose|j: int| 0 <= j < mid.len() && #[trigger] mid[j].0@ == q;
        let bj: int = if j < i { j } else { j + 1 };
        assert(mid[j] == before[bj]);
    }
    assert forall|q: Seq<char>| rhs.contains_key(q) implies lhs.contains_key(q) by {
        let j = choose|j: int| 0 <= j < before.len() && #[trigger] before[j].0@ == q;
        assert(j != i);
        let mj: int = if j < i { j } else { j - 1 };
        assert(mid[mj] == before[j]);
    }
    assert(lhs =~= rhs);
}

/// Replacing the value at an index is, as a mapping, one `insert` of the
/// same key.
proof fn lemma_nm_update_map<V>(before: Seq<(String, V)>, i: int, e: (String, V))
    requires
        nm_unique_keys(before),
        0 <= i < before.len(),
        before[i].0@ == e.0@,
    ensures
        nm_unique_keys(before.update(i, e)),
        nm_entries_map(before.update(i, e)) == nm_entries_map(before).insert(e.0@, e.1),
{
    let upd = before.update(i, e);
    assert forall|p: int, q: int| 0 <= p < q < upd.len() implies upd[p].0@ != upd[q].0@ by {
        assert(upd[p].0@ == before[p].0@ && upd[q].0@ == before[q].0@);
    }
    lemma_nm_entries_map(before);
    lemma_nm_entries_map(upd);
    let lhs = nm_entries_map(upd);
    let rhs = nm_entries_map(before).insert(e.0@, e.1);
    assert forall|q: Seq<char>| lhs.contains_key(q) implies rhs.contains_key(q) && lhs[q]
        == rhs[q] by {
        let j = choose|j: int| 0 <= j < upd.len() && #[trigger] upd[j].0@ == q;
        if j != i {
            assert(upd[j] == before[j]);
            assert(before[j].0@ != before[i].0@);
        }
    }
    assert forall|q: Seq<char>| rhs.contains_key(q) implies lhs.contains_key(q) by {
        if q == e.0@ {
            assert(upd[i].0@ == q);
        } else {
            let j = choose|j: int| 0 <= j < before.len() && #[trigger] before[j].0@ == q;
            assert(upd[j].0@ == q);
        }
    }
    assert(lhs =~= rhs);
}

/// A map from names to copyable records.
pub struct NamedMap<V> {
    entries: Vec<(String, V)>,
}

impl<V: Copy> NamedMap<V> {
    /// Key uniqueness: every name holds at most one record.
    pub closed spec fn wf(&self) -> bool {
        nm_unique_keys(self.entries@)
    }

    /// The mapping view.
    pub closed spec fn view(&self) -> Map<Seq<char>, V> {
        nm_entries_map(self.entries@)
    }

    /// The entries in insertion order.
    pub closed spec fn entries_view(&self) -> Seq<(Seq<char>, V)> {
        self.entries@.map_values(|e: (String, V)| (e.0@, e.1))
    }

    /// The entry list and the mapping agree pointwise.
    pub proof fn lemma_contents(&self)
        requires
            self.wf(),
        ensures
            forall|i: int|
                0 <= i < self.entries_view().len() ==> self@.contains_key(
                    #[trigger] self.entries_view()[i].0,
                ) && self@[self.entries_view()[i].0] == self.entries_view()[i].1,
            forall|k: Seq<char>|
                self@.contains_key(k) ==> exists|i: int|
                    0 <= i < self.entries_view().len() && #[trigger] self.entries_view()[i].0 == k,
            forall|i: int, j: int|
                0 <= i < j < self.entries_view().len() ==> self.entries_view()[i].0
                    != self.entries_view()[j].0,
    {
        lemma_nm_entries_map(self.entries@);
        assert forall|k: Seq<char>| self@.contains_key(k) implies exists|i: int|
            0 <= i < self.entries_view().len() && #[trigger] self.entries_view()[i].0 == k by {
            let i = choose|i: int| 0 <= i < self.entries@.len() && #[trigger] self.entries@[i].0@ == k;
            assert(self.entries_view()[i].0 == k);
        }
    }

    pub fn new() -> (r: NamedMap<V>)
        ensures
            r.wf(),
            r@ == Map::<Seq<char>, V>::empty(),
            r.entries_view() == Seq::<(Seq<char>, V)>::empty(),
    {
        let r = NamedMap { entries: Vec::new() };
        proof {
            assert(r.entries_view() =~= Seq::<(Seq<char>, V)>::empty());
        }
        r
    }

    /// Number of entries.
    pub fn len(&self) -> (r: usize)
        ensures
            r == self.entries_view().len(),
    {
        self.entries.len()
    }

    pub fn is_empty(&self) -> (r: bool)
        ensures
            r == (self.entries_view().len() == 0),
    {
        self.entries.len() == 0
    }

    /// Index of the entry holding `key`.
    fn position_of(&self, key: &str) -> (r: Option<usize>)
        ensures
            match r {
                Some(i) => i < self.entries@.len() && self.entries@[i as int].0@ == key@,
                None => forall|i: int|
                    0 <= i < self.entries@.len() ==> #[trigger] self.entries@[i].0@ != key@,
            },
    {
        let n: usize = self.entries.len();
        let mut i: usize = 0;
        while i < n
            invariant
                n == self.entries@.len(),
                0 <= i <= n,
                forall|k: int| 0 <= k < i ==> #[trigger] self.entries@[k].0@ != key@,
            decreases n - i,
        {
            let e = &self.entries[i];
            if str_eq(e.0.as_str(), key) {
                return Some(i);
            }
            i = i + 1;
        }
        None
    }

    /// The record stored under `key`, when one is.
    pub fn get(&self, key: &str) -> (r: Option<V>)
        requires
            self.wf(),
        ensures
            match r {
                Some(v) => self@.contains_key(key@) && v == self@[key@],
                None => !self@.contains_key(key@),
            },
    {
        proof {
            lemma_nm_entries_map(self.entries@);
        }
        match self.position_of(key) {
            Some(i) => {
                let e = &self.entries[i];
                Some(e.1)
            },
            None => None,
        }
    }

    /// Whether `key` names an entry.
    pub fn contains_key(&self, key: &str) -> (r: bool)
        requires
            self.wf(),
        ensures
            r == self@.contains_key(key@),
    {
        match self.get(key) {
            Some(_) => true,
            None => false,
        }
    }

    /// Stores `value` under `key`, replacing any earlier record.
    pub fn upsert(&mut self, key: String, value: V)
        requires
            old(self).wf(),
        ensures
            final(self).wf(),
            final(self)@ == old(self)@.insert(key@, value),
            final(self)@.contains_key(key@),
    {
        let pos = self.position_of(key.as_str());
        match pos {
            Some(i) => {
                let ghost before = self.entries@;
                self.entries.remove(i);
                proof {
                    lemma_nm_remove_unique(before, i as int);
                }
                let ghost mid = self.entries@;
                self.entries.push((key, value));
                proof {
                    let e = self.entries@.last();
                    assert(self.entries@ =~= mid.push(e));
                    lemma_nm_push_unique(mid, e);
                    lemma_nm_insert_shuffle(before, i as int, e);
                }
            },
            None => {
                let ghost mid = self.entries@;
                self.entries.push((key, value));
                proof {
                    let e = self.entries@.last();
                    assert(self.entries@ =~= mid.push(e));
                    assert(self.entries@.drop_last() =~= mid);
                    lemma_nm_push_unique(mid, e);
                }
            },
        }
    }

    /// Drops the record stored under `key`, if any.
    pub fn remove(&mut self, key: &str)
        requires
            old(self).wf(),
        ensures
            final(self).wf(),
            final(self)@ == old(self)@.remove(key@),
    {
        let pos = self.position_of(key);
        match pos {
            Some(i) => {
                let ghost before = self.entries@;
                self.entries.remove(i);
                proof {
                    lemma_nm_remove_unique(before, i as int);
                    lemma_nm_remove_map(before, i as int);
                }
            },
            None => {
                proof {
                    lemma_nm_entries_map(self.entries@);
                    assert(!self@.contains_key(key@));
                    assert(self@ =~= self@.remove(key@));
                }
            },
        }
    }

    /// The name of the entry at position `i`.
    pub fn key_at(&self, i: usize) -> (r: &String)
        requires
            i < self.entries_view().len(),
        ensures
            r@ == self.entries_view()[i as int].0,
    {
        let e = &self.entries[i];
        &e.0
    }

    /// The record of the entry at position `i`.
    pub fn val_at(&self, i: usize) -> (r: V)
        requires
            i < self.entries_view().len(),
        ensures
            r == self.entries_view()[i as int].1,
    {
        let e = &self.entries[i];
        e.1
    }

    /// Replaces the record at position `i`, keeping its name.
    pub fn set_val_at(&mut self, i: usize, value: V)
        requires
            old(self).wf(),
            i < old(self).entries_view().len(),
        ensures
            final(self).wf(),
            final(self).entries_view() == old(self).entries_view().update(
                i as int,
                (old(self).entries_view()[i as int].0, value),
            ),
            final(self)@ == old(self)@.insert(old(self).entries_view()[i as int].0, value),
    {
        let ghost before = self.entries@;
        let key_copy = {
            let e = &self.entries[i];
            e.0.clone()
        };
        self.entries.set(i, (key_copy, value));
        proof {
            let e = self.entries@[i as int];
            assert(e.0@ == before[i as int].0@);
            lemma_nm_update_map(before, i as int, e);
            assert(self.entries@ =~= before.update(i as int, e));
            assert(self.entries_view() =~= old(self).entries_view().update(
                i as int,
                (old(self).entries_view()[i as int].0, value),
            ));
        }
    }
}

} // verus!
