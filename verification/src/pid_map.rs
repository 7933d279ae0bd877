//! A small map keyed by raw PID values, backed by an association list.
//!
//! A transport stream carries a handful of distinct PIDs, so a vector of
//! entries with unique keys is enough; its mathematical value is a
//! `Map<u16, V>`.

use vstd::prelude::*;

verus! {

/// The mathematical value of an entry list: later entries win, though a
/// well-formed list never repeats a key.
pub open spec fn entries_map<V>(s: Seq<(u16, V)>) -> Map<u16, V>
    decreases s.len(),
{
    if s.len() == 0 {
        Map::empty()
    } else {
        entries_map(s.drop_last()).insert(s.last().0, s.last().1)
    }
}

/// A map from PID to `V`, holding each PID at most once.
#[derive(Debug)]
pub struct PidMap<V> {
    entries: Vec<(u16, V)>,
}

impl<V> View for PidMap<V> {
    type V = Map<u16, V>;

    closed spec fn view(&self) -> Map<u16, V> {
        entries_map(self.entries@)
    }
}

/// A key is in the map of an entry list exactly when some entry holds it.
proof fn lemma_entries_map_dom<V>(s: Seq<(u16, V)>, k: u16)
    ensures
        entries_map(s).contains_key(k) <==> exists|i: int| 0 <= i < s.len() && s[i].0 == k,
    decreases s.len(),
{
    if s.len() > 0 {
        lemma_entries_map_dom(s.drop_last(), k);
        if s.last().0 != k {
            assert(forall|i: int|
                0 <= i < s.len() - 1 ==> s[i] == #[trigger] s.drop_last()[i]);
            if exists|i: int| 0 <= i < s.len() && s[i].0 == k {
                let i = choose|i: int| 0 <= i < s.len() && s[i].0 == k;
                assert(s.drop_last()[i].0 == k);
            }
        }
    }
}

/// In a list with no repeated keys, the map takes each key to the value
/// beside it.
proof fn lemma_entries_map_at<V>(s: Seq<(u16, V)>, i: int)
    requires
        forall|a: int, b: int| 0 <= a < b < s.len() ==> (#[trigger] s[a]).0 != (#[trigger] s[b]).0,
        0 <= i < s.len(),
    ensures
        entries_map(s).contains_key(s[i].0),
        entries_map(s)[s[i].0] == s[i].1,
    decreases s.len(),
{
    lemma_entries_map_dom(s, s[i].0);
    if i < s.len() - 1 {
        assert(forall|a: int, b: int|
            0 <= a < b < s.drop_last().len() ==> (#[trigger] s.drop_last()[a]).0
                != (#[trigger] s.drop_last()[b]).0);
        lemma_entries_map_at(s.drop_last(), i);
        assert(s.last().0 != s[i].0);
    }
}

/// Removing the entry at `i` removes exactly its key from the map, when no
/// key repeats.
proof fn lemma_entries_map_remove<V>(s: Seq<(u16, V)>, i: int)
    requires
        forall|a: int, b: int| 0 <= a < b < s.len() ==> (#[trigger] s[a]).0 != (#[trigger] s[b]).0,
        0 <= i < s.len(),
    ensures
        entries_map(s.remove(i)) == entries_map(s).remove(s[i].0),
    decreases s.len(),
{
    lemma_entries_map_at(s, i);
    if i == s.len() - 1 {
        lemma_entries_map_dom(s.drop_last(), s[i].0);
        assert(s.remove(i) =~= s.drop_last());
        assert(!entries_map(s.drop_last()).contains_key(s[i].0)) by {
            if entries_map(s.drop_last()).contains_key(s[i].0) {
                let j = choose|j: int|
                    0 <= j < s.drop_last().len() && s.drop_last()[j].0 == s[i].0;
                assert(s[j].0 == s[i].0);
            }
        }
        assert(entries_map(s.drop_last()) =~= entries_map(s).remove(s[i].0));
    } else {
        let t = s.remove(i);
        assert(t.drop_last() =~= s.drop_last().remove(i));
        assert(t.last() == s.last());
        assert(forall|a: int, b: int|
            0 <= a < b < s.drop_last().len() ==> (#[trigger] s.drop_last()[a]).0
                != (#[trigger] s.drop_last()[b]).0);
        lemma_entries_map_remove(s.drop_last(), i);
        assert(entries_map(t) == entries_map(s.drop_last()).remove(s[i].0).insert(
            s.last().0,
            s.last().1,
        ));
        assert(s.last().0 != s[i].0);
        assert(entries_map(s.drop_last()).remove(s[i].0).insert(s.last().0, s.last().1)
            =~= entries_map(s).remove(s[i].0));
    }
}

impl<V> PidMap<V> {
    /// No key occurs twice among the entries.
    pub closed spec fn wf(self) -> bool {
        forall|a: int, b: int|
            0 <= a < b < self.entries@.len() ==> (#[trigger] self.entries@[a]).0
                != (#[trigger] self.entries@[b]).0
    }

    /// Makes an empty map.
    pub fn new() -> (r: Self)
        ensures
            r.wf(),
            r@ == Map::<u16, V>::empty(),
    {
        PidMap { entries: Vec::new() }
    }

    /// The number of PIDs held.
    pub fn len(&self) -> (r: usize)
        requires
            self.wf(),
        ensures
            r == self@.dom().len(),
            self@.dom().finite(),
    {
        proof {
            self.lemma_dom_len();
        }
        self.entries.len()
    }

    /// The domain of a well-formed map has one element per entry.
    proof fn lemma_dom_len(&self)
        requires
            self.wf(),
        ensures
            self@.dom().finite(),
            self@.dom().len() == self.entries@.len(),
        decreases self.entries@.len(),
    {
        lemma_dom_len_rec(self.entries@);
    }

    /// Whether nothing is held.
    pub fn is_empty(&self) -> (r: bool)
        requires
            self.wf(),
        ensures
            r <==> self@ == Map::<u16, V>::empty(),
    {
        proof {
            self.lemma_dom_len();
            if self.entries@.len() == 0 {
                assert(self@ =~= Map::<u16, V>::empty());
            } else {
                lemma_entries_map_at(self.entries@, 0);
            }
        }
        self.entries.len() == 0
    }

    /// Looks a PID up.
    pub fn get(&self, pid: u16) -> (r: Option<&V>)
        requires
            self.wf(),
        ensures
            match r {
                Some(v) => self@.contains_key(pid) && *v == self@[pid],
                None => !self@.contains_key(pid),
            },
    {
        proof {
            lemma_entries_map_dom(self.entries@, pid);
        }
        let n = self.entries.len();
        for i in 0..n
            invariant
                n == self.entries@.len(),
                self.wf(),
                forall|j: int| 0 <= j < i ==> (#[trigger] self.entries@[j]).0 != pid,
        {
            if self.entries[i].0 == pid {
                proof {
                    lemma_entries_map_at(self.entries@, i as int);
                }
                return Some(&self.entries[i].1);
            }
        }
        None
    }

    /// Removes a PID, returning what it held.
    pub fn remove(&mut self, pid: u16) -> (r: Option<V>)
        requires
            old(self).wf(),
        ensures
            final(self).wf(),
            match r {
                Some(v) => old(self)@.contains_key(pid) && v == old(self)@[pid] && final(self)@
                    == old(self)@.remove(pid),
                None => !old(self)@.contains_key(pid) && final(self)@ == old(self)@,
            },
    {
        proof {
            lemma_entries_map_dom(self.entries@, pid);
        }
        let n = self.entries.len();
        for i in 0..n
            invariant
                *self == *old(self),
                n == self.entries@.len(),
                self.wf(),
                forall|j: int| 0 <= j < i ==> (#[trigger] self.entries@[j]).0 != pid,
        {
            if self.entries[i].0 == pid {
                proof {
                    lemma_entries_map_at(self.entries@, i as int);
                    lemma_entries_map_remove(self.entries@, i as int);
                }
                let ghost s = self.entries@;
                let ghost gi = i as int;
                let (_, v) = self.entries.remove(i);
                proof {
                    assert forall|a: int, b: int|
                        0 <= a < b < self.entries@.len() implies (#[trigger] self.entries@[a]).0
                        != (#[trigger] self.entries@[b]).0 by {
                        assert(self.entries@[a] == if a < gi {
                            s[a]
                        } else {
                            s[a + 1]
                        });
                        assert(self.entries@[b] == if b < gi {
                            s[b]
                        } else {
                            s[b + 1]
                        });
                    }
                }
                return Some(v);
            }
        }
        None
    }

    /// Inserts a PID, returning what it held before.
    pub fn insert(&mut self, pid: u16, value: V) -> (r: Option<V>)
        requires
            old(self).wf(),
        ensures
            final(self).wf(),
            final(self)@ == old(self)@.insert(pid, value),
            match r {
                Some(v) => old(self)@.contains_key(pid) && v == old(self)@[pid],
                None => !old(self)@.contains_key(pid),
            },
    {
        let prior = self.remove(pid);
        let ghost mid = self.entries@;
        self.entries.push((pid, value));
        proof {
            assert(self.entries@.drop_last() =~= mid);
            assert(forall|a: int, b: int|
                0 <= a < b < self.entries@.len() ==> (#[trigger] self.entries@[a]).0
                    != (#[trigger] self.entries@[b]).0) by {
                lemma_entries_map_dom(mid, pid);
            }
            if prior is Some {
                assert(final(self)@ =~= old(self)@.insert(pid, value));
            } else {
                assert(final(self)@ =~= old(self)@.insert(pid, value));
            }
        }
        prior
    }

    /// Removes and returns some entry, if one is held.
    pub fn pop(&mut self) -> (r: Option<(u16, V)>)
        requires
            old(self).wf(),
        ensures
            final(self).wf(),
            match r {
                Some((pid, v)) => old(self)@.contains_key(pid) && v == old(self)@[pid]
                    && final(self)@ == old(self)@.remove(pid),
                None => old(self)@ == Map::<u16, V>::empty() && final(self)@ == old(self)@,
            },
    {
        if self.entries.len() == 0 {
            proof {
                assert(self@ =~= Map::<u16, V>::empty());
            }
            return None;
        }
        proof {
            lemma_entries_map_at(self.entries@, 0);
            lemma_entries_map_remove(self.entries@, 0);
        }
        let ghost s = self.entries@;
        let (pid, v) = self.entries.remove(0);
        proof {
            assert forall|a: int, b: int|
                0 <= a < b < self.entries@.len() implies (#[trigger] self.entries@[a]).0
                != (#[trigger] self.entries@[b]).0 by {
                assert(self.entries@[a] == s[a + 1]);
                assert(self.entries@[b] == s[b + 1]);
            }
        }
        Some((pid, v))
    }
}

/// The domain of the map of a duplicate-free entry list is finite, with
/// one element per entry.
proof fn lemma_dom_len_rec<V>(s: Seq<(u16, V)>)
    requires
        forall|a: int, b: int| 0 <= a < b < s.len() ==> (#[trigger] s[a]).0 != (#[trigger] s[b]).0,
    ensures
        entries_map(s).dom().finite(),
        entries_map(s).dom().len() == s.len(),
    decreases s.len(),
{
    if s.len() > 0 {
        assert(forall|a: int, b: int|
            0 <= a < b < s.drop_last().len() ==> (#[trigger] s.drop_last()[a]).0
                != (#[trigger] s.drop_last()[b]).0);
        lemma_dom_len_rec(s.drop_last());
        lemma_entries_map_dom(s.drop_last(), s.last().0);
        if entries_map(s.drop_last()).contains_key(s.last().0) {
            let j = choose|j: int|
                0 <= j < s.drop_last().len() && s.drop_last()[j].0 == s.last().0;
            assert(s[j].0 == s.last().0);
        }
        assert(entries_map(s).dom() =~= entries_map(s.drop_last()).dom().insert(s.last().0));
    } else {
        assert(entries_map(s).dom() =~= Set::<u16>::empty());
    }
}

} // verus!
