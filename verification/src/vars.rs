//! The variable mapping an environment resolves to: unique string keys,
//! string values, last write wins. Viewed in specifications as a
//! `Map<Seq<char>, Seq<char>>`.

use vstd::prelude::*;

use crate::strutil::str_eq;

verus! {

/// The mathematical mapping a sequence of key/value entries denotes: later
/// entries override earlier ones.
pub open spec fn map_of_entries(es: Seq<(String, String)>) -> Map<Seq<char>, Seq<char>>
    decreases es.len(),
{
    if es.len() == 0 {
        Map::empty()
    } else {
        map_of_entries(es.drop_last()).insert(es.last().0@, es.last().1@)
    }
}

/// A mapping from variable names to values, with unique keys.
#[derive(Debug)]
pub struct VarMap {
    entries: Vec<(String, String)>,
}

/// An absent key is absent from the denoted mapping.
proof fn lemma_map_of_absent(es: Seq<(String, String)>, k: Seq<char>)
    requires
        forall|i: int| 0 <= i < es.len() ==> es[i].0@ != k,
    ensures
        !map_of_entries(es).contains_key(k),
    decreases es.len(),
{
    if es.len() > 0 {
        assert(es.last().0@ != k);
        lemma_map_of_absent(es.drop_last(), k);
    }
}

/// With unique keys, each entry is present in the denoted mapping with its
/// own value.
proof fn lemma_map_of_found(es: Seq<(String, String)>, i: int)
    requires
        forall|p: int, q: int| 0 <= p < q < es.len() ==> es[p].0@ != es[q].0@,
        0 <= i < es.len(),
    ensures
        map_of_entries(es).contains_key(es[i].0@),
        map_of_entries(es)[es[i].0@] == es[i].1@,
    decreases es.len(),
{
    if i == es.len() - 1 {
    } else {
        lemma_map_of_found(es.drop_last(), i);
        assert(es.last().0@ != es[i].0@);
    }
}

/// With unique keys, the denoted mapping has exactly one key per entry.
proof fn lemma_map_of_len(es: Seq<(String, String)>)
    requires
        forall|p: int, q: int| 0 <= p < q < es.len() ==> es[p].0@ != es[q].0@,
    ensures
        map_of_entries(es).dom().finite(),
        map_of_entries(es).dom().len() == es.len(),
    decreases es.len(),
{
    if es.len() > 0 {
        lemma_map_of_len(es.drop_last());
        assert forall|i: int| 0 <= i < es.drop_last().len() implies es.drop_last()[i].0@
            != es.last().0@ by {
            assert(es[i].0@ != es[es.len() - 1].0@);
        }
        lemma_map_of_absent(es.drop_last(), es.last().0@);
    }
}

/// Replacing the value at an existing key denotes an `insert` on the
/// mapping.
proof fn lemma_map_of_update(es: Seq<(String, String)>, i: int, k: String, v: String)
    requires
        forall|p: int, q: int| 0 <= p < q < es.len() ==> es[p].0@ != es[q].0@,
        0 <= i < es.len(),
        es[i].0@ == k@,
    ensures
        map_of_entries(es.update(i, (k, v))) =~= map_of_entries(es).insert(k@, v@),
    decreases es.len(),
{
    let upd = es.update(i, (k, v));
    if i == es.len() - 1 {
        assert(upd.drop_last() =~= es.drop_last());
        assert(upd.last() == (k, v));
    } else {
        assert(upd.drop_last() =~= es.drop_last().update(i, (k, v)));
        assert(upd.last() == es.last());
        lemma_map_of_update(es.drop_last(), i, k, v);
        assert(es.last().0@ != k@);
    }
}

impl VarMap {
    /// Keys are pairwise distinct.
    pub closed spec fn wf(self) -> bool {
        forall|p: int, q: int|
            0 <= p < q < self.entries@.len() ==> self.entries@[p].0@ != self.entries@[q].0@
    }

    /// An empty mapping.
    pub fn new() -> (r: VarMap)
        ensures
            r.wf(),
            r@ == Map::<Seq<char>, Seq<char>>::empty(),
    {
        VarMap { entries: Vec::new() }
    }

    /// Bind `key` to `value`, overriding any earlier binding.
    pub fn insert(&mut self, key: String, value: String)
        requires
            old(self).wf(),
        ensures
            final(self).wf(),
            final(self)@ == old(self)@.insert(key@, value@),
    {
        let n = self.entries.len();
        let mut i: usize = 0;
        while i < n
            invariant
                0 <= i <= n,
                n == self.entries@.len(),
                self.wf(),
                self == old(self),
                forall|k: int| 0 <= k < i ==> self.entries@[k].0@ != key@,
            decreases n - i,
        {
            if str_eq(self.entries[i].0.as_str(), key.as_str()) {
                proof {
                    lemma_map_of_update(self.entries@, i as int, key, value);
                }
                self.entries[i] = (key, value);
                proof {
                    assert forall|p: int, q: int|
                        0 <= p < q < self.entries@.len() implies self.entries@[p].0@
                        != self.entries@[q].0@ by {
                        assert(old(self).entries@[p].0@ != old(self).entries@[q].0@);
                    }
                }
                return ;
            }
            i += 1;
        }
        let ghost before = self.entries@;
        self.entries.push((key, value));
        proof {
            assert(self.entries@.drop_last() =~= before);
            assert forall|p: int, q: int|
                0 <= p < q < self.entries@.len() implies self.entries@[p].0@
                != self.entries@[q].0@ by {
                if q < self.entries@.len() - 1 {
                    assert(before[p].0@ != before[q].0@);
                } else {
                    assert(before[p].0@ != key@);
                }
            }
        }
    }

    /// Look a variable up by name.
    pub fn get<'a>(&'a self, key: &str) -> (r: Option<&'a String>)
        requires
            self.wf(),
        ensures
            match r {
                Some(v) => self@.contains_key(key@) && self@[key@] == v@,
                None => !self@.contains_key(key@),
            },
    {
        let n = self.entries.len();
        let mut i: usize = 0;
        while i < n
            invariant
                0 <= i <= n,
                n == self.entries@.len(),
                self.wf(),
                forall|k: int| 0 <= k < i ==> self.entries@[k].0@ != key@,
            decreases n - i,
        {
            if str_eq(self.entries[i].0.as_str(), key) {
                proof {
                    lemma_map_of_found(self.entries@, i as int);
                }
                return Some(&self.entries[i].1);
            }
            i += 1;
        }
        proof {
            lemma_map_of_absent(self.entries@, key@);
        }
        None
    }

    /// How many variables are bound.
    pub fn len(&self) -> (n: usize)
        requires
            self.wf(),
        ensures
            n == self@.dom().len(),
    {
        proof {
            lemma_map_of_len(self.entries@);
        }
        self.entries.len()
    }

    /// The bindings as a list of pairs, for handing to a process launcher;
    /// each pair is a binding of the mapping, and every bound name appears
    /// exactly once.
    pub fn pairs(&self) -> (r: &Vec<(String, String)>)
        requires
            self.wf(),
        ensures
            r@.len() == self@.dom().len(),
            forall|i: int|
                0 <= i < r@.len() ==> self@.contains_key(#[trigger] r@[i].0@) && self@[r@[i].0@]
                    == r@[i].1@,
    {
        proof {
            lemma_map_of_len(self.entries@);
            assert forall|i: int| 0 <= i < self.entries@.len() implies self@.contains_key(
                #[trigger] self.entries@[i].0@,
            ) && self@[self.entries@[i].0@] == self.entries@[i].1@ by {
                lemma_map_of_found(self.entries@, i);
            }
        }
        &self.entries
    }
}

impl View for VarMap {
    type V = Map<Seq<char>, Seq<char>>;

    closed spec fn view(&self) -> Map<Seq<char>, Seq<char>> {
        map_of_entries(self.entries@)
    }
}

} // verus!
