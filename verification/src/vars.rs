//! Variable bindings: a flat, read-mostly mapping from variable names to
//! string values, supplied by the caller and consulted by the condition
//! evaluator and the renderer.

use crate::strutil::str_eq;
use vstd::prelude::*;

verus! {

/// The mathematical map held by a sequence of key/value entries, where a
/// later entry for the same key wins.
pub open spec fn map_of(entries: Seq<(String, String)>) -> Map<Seq<char>, Seq<char>>
    decreases entries.len(),
{
    if entries.len() == 0 {
        Map::empty()
    } else {
        map_of(entries.drop_last()).insert(entries.last().0@, entries.last().1@)
    }
}

/// Flat string-to-string variable bindings with unique keys.
pub struct VarMap {
    entries: Vec<(String, String)>,
}

impl View for VarMap {
    type V = Map<Seq<char>, Seq<char>>;

    closed spec fn view(&self) -> Map<Seq<char>, Seq<char>> {
        map_of(self.entries@)
    }
}

/// Pairwise-distinct keys.
pub open spec fn wf_entries(entries: Seq<(String, String)>) -> bool {
    forall|i: int, j: int| 0 <= i < j < entries.len() ==> entries[i].0@ != entries[j].0@
}

proof fn lemma_map_of_contains(entries: Seq<(String, String)>, k: Seq<char>)
    ensures
        map_of(entries).contains_key(k) <==> exists|i: int|
            0 <= i < entries.len() && entries[i].0@ == k,
    decreases entries.len(),
{
    if entries.len() > 0 {
        lemma_map_of_contains(entries.drop_last(), k);
        if map_of(entries).contains_key(k) {
            if entries.last().0@ == k {
                assert(entries[entries.len() - 1].0@ == k);
            } else {
                let i = choose|i: int|
                    0 <= i < entries.drop_last().len() && entries.drop_last()[i].0@ == k;
                assert(entries[i].0@ == k);
            }
        }
        if exists|i: int| 0 <= i < entries.len() && entries[i].0@ == k {
            let i = choose|i: int| 0 <= i < entries.len() && entries[i].0@ == k;
            if i < entries.len() - 1 {
                assert(entries.drop_last()[i].0@ == k);
            }
        }
    }
}

proof fn lemma_map_of_get(entries: Seq<(String, String)>, i: int)
    requires
        wf_entries(entries),
        0 <= i < entries.len(),
    ensures
        map_of(entries).contains_key(entries[i].0@),
        map_of(entries)[entries[i].0@] == entries[i].1@,
    decreases entries.len(),
{
    if i == entries.len() - 1 {
        lemma_map_of_contains(entries, entries[i].0@);
    } else {
        assert(wf_entries(entries.drop_last())) by {
            assert(forall|p: int, q: int|
                0 <= p < q < entries.drop_last().len() ==> entries[p].0@ != entries[q].0@);
        }
        lemma_map_of_get(entries.drop_last(), i);
        assert(entries.drop_last()[i] == entries[i]);
        assert(entries[i].0@ != entries.last().0@);
    }
}

/// Pulling one entry out of a well-formed entry list leaves a map the entry
/// re-establishes by insertion.
proof fn lemma_map_of_extract(entries: Seq<(String, String)>, i: int)
    requires
        wf_entries(entries),
        0 <= i < entries.len(),
    ensures
        map_of(entries) =~= map_of(entries.remove(i)).insert(entries[i].0@, entries[i].1@),
    decreases entries.len(),
{
    if i == entries.len() - 1 {
        assert(entries.remove(i) =~= entries.drop_last());
    } else {
        assert(wf_entries(entries.drop_last())) by {
            assert(forall|p: int, q: int|
                0 <= p < q < entries.drop_last().len() ==> entries[p].0@ != entries[q].0@);
        }
        lemma_map_of_extract(entries.drop_last(), i);
        assert(entries.remove(i).drop_last() =~= entries.drop_last().remove(i));
        assert(entries.remove(i).last() == entries.last());
        assert(entries[i].0@ != entries.last().0@);
    }
}

impl VarMap {
    /// Well-formedness: no two entries share a key.
    pub closed spec fn wf(&self) -> bool {
        wf_entries(self.entries@)
    }

    /// An empty variable mapping.
    pub fn new() -> (r: VarMap)
        ensures
            r.wf(),
            r@ == Map::<Seq<char>, Seq<char>>::empty(),
    {
        VarMap { entries: Vec::new() }
    }

    /// Bind `key` to `value`, replacing any previous binding.
    pub fn insert(&mut self, key: String, value: String)
        requires
            old(self).wf(),
        ensures
            final(self).wf(),
            final(self)@ == old(self)@.insert(key@, value@),
    {
        let ghost prev = self.entries@;
        let mut i: usize = 0;
        let n = self.entries.len();
        while i < n
            invariant
                wf_entries(prev),
                prev == old(self).entries@,
                self.entries@ == prev,
                n == prev.len(),
                i <= n,
                forall|j: int| 0 <= j < i ==> prev[j].0@ != key@,
            decreases n - i,
        {
            if str_eq(self.entries[i].0.as_str(), key.as_str()) {
                proof {
                    lemma_map_of_extract(prev, i as int);
                }
                self.entries.remove(i);
                self.entries.push((key, value));
                proof {
                    let removed = prev.remove(i as int);
                    assert(self.entries@.drop_last() =~= removed);
                    assert(self.entries@.last() == (key, value));
                    assert(map_of(self.entries@) =~= map_of(prev).insert(key@, value@));
                    assert(forall|j: int| 0 <= j < removed.len() ==> #[trigger] removed[j].0@
                        != key@) by {
                        assert(forall|j: int|
                            0 <= j < removed.len() ==> exists|p: int|
                                0 <= p < prev.len() && p != i && prev[p] == #[trigger] removed[j]);
                    }
                    assert(forall|p: int, q: int|
                        0 <= p < q < self.entries@.len() ==> self.entries@[p].0@
                            != self.entries@[q].0@);
                }
                return ;
            }
            i = i + 1;
        }
        self.entries.push((key, value));
        proof {
            assert(self.entries@.drop_last() =~= prev);
            assert(forall|p: int, q: int|
                0 <= p < q < self.entries@.len() ==> self.entries@[p].0@ != self.entries@[q].0@);
        }
    }

    /// Look up the value bound to `key`.
    pub fn get<'a>(&'a self, key: &str) -> (r: Option<&'a String>)
        requires
            self.wf(),
        ensures
            match r {
                Some(v) => self@.contains_key(key@) && v@ == self@[key@],
                None => !self@.contains_key(key@),
            },
    {
        let mut i: usize = 0;
        let n = self.entries.len();
        while i < n
            invariant
                self.wf(),
                n == self.entries.len(),
                i <= n,
                forall|j: int| 0 <= j < i ==> self.entries@[j].0@ != key@,
            decreases n - i,
        {
            if str_eq(self.entries[i].0.as_str(), key) {
                proof {
                    lemma_map_of_get(self.entries@, i as int);
                }
                return Some(&self.entries[i].1);
            }
            i = i + 1;
        }
        proof {
            lemma_map_of_contains(self.entries@, key@);
        }
        None
    }

    /// The entries as key/value pairs, for handing to a renderer.
    pub fn pairs(&self) -> (r: &Vec<(String, String)>)
        ensures
            map_of(r@) == self@,
    {
        &self.entries
    }

    /// Whether `key` is bound.
    pub fn contains_key(&self, key: &str) -> (r: bool)
        requires
            self.wf(),
        ensures
            r == self@.contains_key(key@),
    {
        match self.get(key) {
            Some(_) => true,
            None => false,
        }
    }
}

} // verus!
