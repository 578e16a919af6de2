//! Maps from names to texts, kept as ordered lists of distinct names.
use vstd::prelude::*;
use crate::text::{str_equal, copy_string};
use crate::keyed::{keys_distinct, has_key, key_index, seq_to_map, lemma_entry, lemma_absent, lemma_empty, lemma_push, lemma_update};

verus! {

/// The entries after setting `k` to `v`: an entry with key `k` takes the
/// new value in its place, else a new entry comes last.
pub open spec fn set_param(s: Seq<(Seq<char>, Seq<char>)>, k: Seq<char>, v: Seq<char>) -> Seq<(Seq<char>, Seq<char>)> {
    if has_key(s, k) {
        s.update(key_index(s, k), (k, v))
    } else {
        s.push((k, v))
    }
}

/// A map from names to texts; each name occurs once, and entries keep the
/// order in which their names were first set.
#[derive(Debug)]
pub struct TextMap {
    entries: Vec<(String, String)>,
}

impl TextMap {
    /// The entries, in order.
    pub closed spec fn entries(&self) -> Seq<(Seq<char>, Seq<char>)> {
        self.entries@.map_values(|p: (String, String)| (p.0@, p.1@))
    }

    /// The entries as a map from name to text.
    pub open spec fn map(&self) -> Map<Seq<char>, Seq<char>> {
        seq_to_map(self.entries())
    }

    pub open spec fn wf(&self) -> bool {
        keys_distinct(self.entries())
    }

    /// No entries.
    pub fn new() -> (r: TextMap)
        ensures
            r.wf(),
            r.entries() == Seq::<(Seq<char>, Seq<char>)>::empty(),
    {
        let r = TextMap { entries: Vec::new() };
        assert(r.entries() =~= Seq::<(Seq<char>, Seq<char>)>::empty());
        r
    }

    fn find(&self, key: &str) -> (r: Option<usize>)
        requires
            self.wf(),
        ensures
            match r {
                Some(j) => j < self.entries().len() && has_key(self.entries(), key@) && key_index(
                    self.entries(),
                    key@,
                ) == j,
                None => !has_key(self.entries(), key@),
            },
    {
        let ghost s = self.entries();
        let mut j: usize = 0;
        while j < self.entries.len()
            invariant
                j <= self.entries@.len(),
                s == self.entries(),
                s.len() == self.entries@.len(),
                keys_distinct(s),
                forall|k: int| 0 <= k < j ==> #[trigger] s[k].0 != key@,
            decreases self.entries@.len() - j,
        {
            assert(s[j as int].0 == self.entries@[j as int].0@);
            if str_equal(self.entries[j].0.as_str(), key) {
                proof {
                    lemma_entry(s, j as int);
                }
                return Some(j);
            }
            j += 1;
        }
        None
    }

    /// Sets `key` to `value`.
    pub fn insert(&mut self, key: &str, value: &str)
        requires
            old(self).wf(),
        ensures
            final(self).wf(),
            final(self).entries() == set_param(old(self).entries(), key@, value@),
            final(self).map() == old(self).map().insert(key@, value@),
    {
        let ghost s = self.entries();
        match self.find(key) {
            Some(j) => {
                let k = copy_string(&self.entries[j].0);
                self.entries.set(j, (k, String::from_str(value)));
                proof {
                    lemma_update(s, j as int, value@);
                    assert(self.entries() =~= s.update(j as int, (key@, value@)));
                }
            },
            None => {
                self.entries.push((String::from_str(key), String::from_str(value)));
                proof {
                    lemma_absent(s, key@);
                    lemma_push(s, key@, value@);
                    assert(self.entries() =~= s.push((key@, value@)));
                }
            },
        }
    }

    /// The text of `key`.
    pub fn get(&self, key: &str) -> (r: Option<&String>)
        requires
            self.wf(),
        ensures
            match r {
                Some(v) => self.map().dom().contains(key@) && self.map()[key@] == v@,
                None => !self.map().dom().contains(key@),
            },
    {
        match self.find(key) {
            Some(j) => {
                proof {
                    lemma_entry(self.entries(), j as int);
                }
                Some(&self.entries[j].1)
            },
            None => {
                proof {
                    assert forall|i: int| 0 <= i < self.entries().len() implies #[trigger] self.entries()[i].0
                        != key@ by {
                        if self.entries()[i].0 == key@ {
                            assert(has_key(self.entries(), key@));
                        }
                    }
                    lemma_absent(self.entries(), key@);
                }
                None
            },
        }
    }

    /// The name of entry `j`.
    pub fn key_at(&self, j: usize) -> (r: &String)
        requires
            j < self.entries().len(),
        ensures
            r@ == self.entries()[j as int].0,
    {
        &self.entries[j].0
    }

    /// The text of entry `j`.
    pub fn value_at(&self, j: usize) -> (r: &String)
        requires
            j < self.entries().len(),
        ensures
            r@ == self.entries()[j as int].1,
    {
        &self.entries[j].1
    }

    /// Sets every entry of `other`, in its order.
    pub fn merge_from(&mut self, other: &TextMap)
        requires
            old(self).wf(),
            other.wf(),
        ensures
            final(self).wf(),
            final(self).map() == old(self).map().union_prefer_right(other.map()),
    {
        let ghost es = other.entries();
        let mut i: usize = 0;
        proof {
            lemma_empty::<Seq<char>, Seq<char>>();
            assert(es.take(0) =~= Seq::<(Seq<char>, Seq<char>)>::empty());
            assert(old(self).map() =~= old(self).map().union_prefer_right(seq_to_map(es.take(0))));
        }
        while i < other.len()
            invariant
                i <= es.len(),
                es == other.entries(),
                keys_distinct(es),
                self.wf(),
                self.map() == old(self).map().union_prefer_right(seq_to_map(es.take(i as int))),
            decreases es.len() - i,
        {
            let k = other.key_at(i);
            let v = other.value_at(i);
            self.insert(k.as_str(), v.as_str());
            proof {
                let t = es.take(i as int);
                assert(es.take(i + 1) =~= t.push(es[i as int]));
                assert(keys_distinct(t));
                assert(!seq_to_map(t).dom().contains(es[i as int].0)) by {
                    if seq_to_map(t).dom().contains(es[i as int].0) {
                        let j = key_index(t, es[i as int].0);
                        assert(t[j] == es[j]);
                    }
                }
                lemma_push(t, es[i as int].0, es[i as int].1);
                assert(self.map() =~= old(self).map().union_prefer_right(seq_to_map(es.take(i + 1))));
            }
            i += 1;
        }
        assert(es.take(i as int) =~= es);
    }

    /// Number of entries.
    pub fn len(&self) -> (r: usize)
        ensures
            r == self.entries().len(),
    {
        self.entries.len()
    }

    /// No entries.
    pub fn is_empty(&self) -> (r: bool)
        ensures
            r == (self.entries().len() == 0),
    {
        self.entries.len() == 0
    }
}

} // verus!
