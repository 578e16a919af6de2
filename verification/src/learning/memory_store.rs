//! An agent's memories: entries under increasing ids, the short-term and
//! long-term lists, searches by tags and by keyword, consolidation and the
//! expiry of old entries.
use vstd::prelude::*;
use crate::keyed::{keys_distinct, has_key, key_index, seq_to_map, lemma_entry, lemma_absent, lemma_push, lemma_update};
use crate::text::{str_equal, texts, to_lowercase, lowercase_of, contains_text, text_contains};
use crate::textmap::TextMap;
use super::MemoryType;

verus! {

/// A memory. `scores` holds what the store carries along without reading
/// it (such as an importance and an embedding).
pub struct MemoryEntry<S> {
    pub id: u64,
    pub memory_type: MemoryType,
    pub content: String,
    pub access_count: u32,
    pub created_at: u64,
    pub last_accessed: u64,
    /// When the memory expires; `None` for never.
    pub expires_at: Option<u64>,
    pub tags: Vec<String>,
    pub metadata: TextMap,
    pub scores: S,
}

/// The entries as (id, entry) pairs.
pub open spec fn entry_pairs<S>(es: Seq<MemoryEntry<S>>) -> Seq<(u64, MemoryEntry<S>)> {
    es.map_values(|e: MemoryEntry<S>| (e.id, e))
}

/// The entry carries every one of the tags.
pub open spec fn has_all_tags<S>(e: MemoryEntry<S>, tags: Seq<Seq<char>>) -> bool {
    forall|k: int| 0 <= k < tags.len() ==> texts(e.tags@).contains(#[trigger] tags[k])
}

/// The entries, in order, that carry every one of the tags.
pub open spec fn tagged<S>(es: Seq<MemoryEntry<S>>, tags: Seq<Seq<char>>) -> Seq<MemoryEntry<S>>
    decreases es.len(),
{
    if es.len() == 0 {
        Seq::empty()
    } else {
        tagged(es.drop_last(), tags) + (if has_all_tags(es.last(), tags) {
            seq![es.last()]
        } else {
            Seq::<MemoryEntry<S>>::empty()
        })
    }
}

/// The entries, in order, whose lowercased content holds the lowercased
/// keyword.
pub open spec fn with_keyword<S>(es: Seq<MemoryEntry<S>>, keyword: Seq<char>) -> Seq<MemoryEntry<S>>
    decreases es.len(),
{
    if es.len() == 0 {
        Seq::empty()
    } else {
        with_keyword(es.drop_last(), keyword) + (if text_contains(
            lowercase_of(es.last().content@),
            lowercase_of(keyword),
        ) {
            seq![es.last()]
        } else {
            Seq::<MemoryEntry<S>>::empty()
        })
    }
}

/// The ids other than `id`, in order.
pub open spec fn ids_without(ids: Seq<u64>, id: u64) -> Seq<u64>
    decreases ids.len(),
{
    if ids.len() == 0 {
        Seq::empty()
    } else {
        ids_without(ids.drop_last(), id) + (if ids.last() == id {
            Seq::<u64>::empty()
        } else {
            seq![ids.last()]
        })
    }
}

/// The ids, in order, that are not in `gone`.
pub open spec fn ids_not_in(ids: Seq<u64>, gone: Seq<u64>) -> Seq<u64>
    decreases ids.len(),
{
    if ids.len() == 0 {
        Seq::empty()
    } else {
        ids_not_in(ids.drop_last(), gone) + (if gone.contains(ids.last()) {
            Seq::<u64>::empty()
        } else {
            seq![ids.last()]
        })
    }
}

/// The short-term ids, in order, that consolidation moves: those of stored
/// entries that are in `important`.
pub open spec fn to_consolidate(short: Seq<u64>, stored: Set<u64>, important: Seq<u64>) -> Seq<u64>
    decreases short.len(),
{
    if short.len() == 0 {
        Seq::empty()
    } else {
        to_consolidate(short.drop_last(), stored, important) + (if stored.contains(short.last()) && important.contains(
            short.last(),
        ) {
            seq![short.last()]
        } else {
            Seq::<u64>::empty()
        })
    }
}

/// The entry has an expiry time and `now` has reached it.
pub open spec fn expired<S>(e: MemoryEntry<S>, now: u64) -> bool {
    match e.expires_at {
        Some(t) => now >= t,
        None => false,
    }
}

/// The entries, in order, that have not expired at `now`.
pub open spec fn unexpired<S>(es: Seq<MemoryEntry<S>>, now: u64) -> Seq<MemoryEntry<S>>
    decreases es.len(),
{
    if es.len() == 0 {
        Seq::empty()
    } else {
        unexpired(es.drop_last(), now) + (if expired(es.last(), now) {
            Seq::<MemoryEntry<S>>::empty()
        } else {
            seq![es.last()]
        })
    }
}

/// The ids, in order, of the entries that have expired at `now`.
pub open spec fn expired_ids<S>(es: Seq<MemoryEntry<S>>, now: u64) -> Seq<u64>
    decreases es.len(),
{
    if es.len() == 0 {
        Seq::empty()
    } else {
        expired_ids(es.drop_last(), now) + (if expired(es.last(), now) {
            seq![es.last().id]
        } else {
            Seq::<u64>::empty()
        })
    }
}

fn entry_at<S>(v: &mut Vec<MemoryEntry<S>>, i: usize) -> (r: &mut MemoryEntry<S>)
    requires
        i < old(v)@.len(),
    ensures
        *r == old(v)@[i as int],
        final(v)@ == old(v)@.update(i as int, *final(r)),
{
    &mut v[i]
}

fn without_id(ids: &Vec<u64>, id: u64) -> (r: Vec<u64>)
    ensures
        r@ == ids_without(ids@, id),
{
    let mut r: Vec<u64> = Vec::new();
    let mut i: usize = 0;
    while i < ids.len()
        invariant
            i <= ids@.len(),
            r@ == ids_without(ids@.take(i as int), id),
        decreases ids@.len() - i,
    {
        assert(ids@.take(i + 1).drop_last() =~= ids@.take(i as int));
        if ids[i] != id {
            r.push(ids[i]);
        }
        proof {
            let t = ids@.take(i + 1);
            assert(t.last() == ids@[i as int]);
            if ids@[i as int] == id {
                assert(ids_without(t, id) =~= ids_without(ids@.take(i as int), id));
            }
        }
        i += 1;
    }
    assert(ids@.take(i as int) =~= ids@);
    r
}

fn not_in(ids: &Vec<u64>, gone: &Vec<u64>) -> (r: Vec<u64>)
    ensures
        r@ == ids_not_in(ids@, gone@),
{
    let mut r: Vec<u64> = Vec::new();
    let mut i: usize = 0;
    while i < ids.len()
        invariant
            i <= ids@.len(),
            r@ == ids_not_in(ids@.take(i as int), gone@),
        decreases ids@.len() - i,
    {
        assert(ids@.take(i + 1).drop_last() =~= ids@.take(i as int));
        let x = ids[i];
        let found = holds(gone, x);
        if !found {
            r.push(x);
        }
        proof {
            let t = ids@.take(i + 1);
            assert(t.last() == x);
            if found {
                assert(ids_not_in(t, gone@) =~= ids_not_in(ids@.take(i as int), gone@));
            }
        }
        i += 1;
    }
    assert(ids@.take(i as int) =~= ids@);
    r
}

fn holds(v: &[u64], x: u64) -> (r: bool)
    ensures
        r == v@.contains(x),
{
    let mut i: usize = 0;
    while i < v.len()
        invariant
            i <= v@.len(),
            forall|q: int| 0 <= q < i ==> v@[q] != x,
        decreases v@.len() - i,
    {
        if v[i] == x {
            assert(v@[i as int] == x);
            return true;
        }
        i += 1;
    }
    false
}

fn has_tag(tags: &Vec<String>, tag: &str) -> (r: bool)
    ensures
        r == texts(tags@).contains(tag@),
{
    let mut i: usize = 0;
    while i < tags.len()
        invariant
            i <= tags@.len(),
            forall|q: int| 0 <= q < i ==> tags@[q]@ != tag@,
        decreases tags@.len() - i,
    {
        if str_equal(tags[i].as_str(), tag) {
            assert(texts(tags@)[i as int] == tag@);
            return true;
        }
        i += 1;
    }
    proof {
        if texts(tags@).contains(tag@) {
            let q = choose|q: int| 0 <= q < texts(tags@).len() && texts(tags@)[q] == tag@;
            assert(tags@[q]@ == tag@);
        }
    }
    false
}

/// Memories by id, with the ids of the short-term and long-term ones.
pub struct MemoryStore<S> {
    entries: Vec<MemoryEntry<S>>,
    short_term: Vec<u64>,
    long_term: Vec<u64>,
    next_id: u64,
}

impl<S> MemoryStore<S> {
    /// The entries, in the order their ids were first stored.
    pub closed spec fn entry_seq(&self) -> Seq<MemoryEntry<S>> {
        self.entries@
    }

    /// The entries by id.
    pub open spec fn entry_map(&self) -> Map<u64, MemoryEntry<S>> {
        seq_to_map(entry_pairs(self.entry_seq()))
    }

    /// The ids of the short-term memories, in order.
    pub closed spec fn short_ids(&self) -> Seq<u64> {
        self.short_term@
    }

    /// The ids of the long-term memories, in order.
    pub closed spec fn long_ids(&self) -> Seq<u64> {
        self.long_term@
    }

    /// The id the next stored memory gets.
    pub closed spec fn next_free(&self) -> u64 {
        self.next_id
    }

    /// No id belongs to two entries.
    pub open spec fn wf(&self) -> bool {
        keys_distinct(entry_pairs(self.entry_seq()))
    }

    /// An empty store; ids start at 1.
    pub fn new() -> (r: Self)
        ensures
            r.wf(),
            r.entry_seq() == Seq::<MemoryEntry<S>>::empty(),
            r.short_ids() == Seq::<u64>::empty(),
            r.long_ids() == Seq::<u64>::empty(),
            r.next_free() == 1,
    {
        let r = MemoryStore { entries: Vec::new(), short_term: Vec::new(), long_term: Vec::new(), next_id: 1 };
        assert(entry_pairs(r.entry_seq()) =~= Seq::<(u64, MemoryEntry<S>)>::empty());
        r
    }

    fn find(&self, id: u64) -> (r: Option<usize>)
        requires
            self.wf(),
        ensures
            match r {
                Some(k) => {
                    &&& k < self.entry_seq().len()
                    &&& self.entry_seq()[k as int].id == id
                    &&& has_key(entry_pairs(self.entry_seq()), id)
                    &&& key_index(entry_pairs(self.entry_seq()), id) == k
                },
                None => !has_key(entry_pairs(self.entry_seq()), id),
            },
    {
        let ghost es = entry_pairs(self.entry_seq());
        let mut i: usize = 0;
        while i < self.entries.len()
            invariant
                es == entry_pairs(self.entries@),
                keys_distinct(es),
                i <= self.entries@.len(),
                forall|q: int| 0 <= q < i ==> #[trigger] es[q].0 != id,
            decreases self.entries@.len() - i,
        {
            if self.entries[i].id == id {
                proof {
                    assert(es[i as int].0 == id);
                    lemma_entry(es, i as int);
                }
                return Some(i);
            }
            assert(es[i as int].0 != id);
            i += 1;
        }
        None
    }

    /// Stores a memory under the next id (ids wrap around past the largest
    /// `u64`), replacing an entry that has that id; a short-term or
    /// long-term memory is also listed as such. Returns the id.
    pub fn store(&mut self, entry: MemoryEntry<S>) -> (r: u64)
        requires
            old(self).wf(),
        ensures
            final(self).wf(),
            r == old(self).next_free(),
            final(self).next_free() == old(self).next_free().wrapping_add(1),
            final(self).entry_map() == old(self).entry_map().insert(r, MemoryEntry { id: r, ..entry }),
            final(self).short_ids() == (if entry.memory_type == MemoryType::ShortTerm {
                old(self).short_ids().push(r)
            } else {
                old(self).short_ids()
            }),
            final(self).long_ids() == (if entry.memory_type == MemoryType::LongTerm {
                old(self).long_ids().push(r)
            } else {
                old(self).long_ids()
            }),
    {
        let id = self.next_id;
        self.next_id = self.next_id.wrapping_add(1);
        let mut entry = entry;
        entry.id = id;
        match entry.memory_type {
            MemoryType::ShortTerm => {
                self.short_term.push(id);
            },
            MemoryType::LongTerm => {
                self.long_term.push(id);
            },
            _ => {},
        }
        let ghost ps = entry_pairs(self.entries@);
        match self.find(id) {
            Some(k) => {
                let ghost old_es = self.entries@;
                self.entries.set(k, entry);
                proof {
                    assert(entry_pairs(self.entries@) =~= ps.update(k as int, (ps[k as int].0, entry)));
                    lemma_update(ps, k as int, entry);
                }
            },
            None => {
                self.entries.push(entry);
                proof {
                    assert(entry_pairs(self.entries@) =~= ps.push((id, entry)));
                    lemma_absent(ps, id);
                    lemma_push(ps, id, entry);
                }
            },
        }
        id
    }

    /// The memory with the given id.
    pub fn retrieve(&self, id: u64) -> (r: Option<&MemoryEntry<S>>)
        requires
            self.wf(),
        ensures
            match r {
                Some(e) => self.entry_map().dom().contains(id) && *e == self.entry_map()[id],
                None => !self.entry_map().dom().contains(id),
            },
    {
        match self.find(id) {
            Some(k) => {
                proof {
                    lemma_entry(entry_pairs(self.entry_seq()), k as int);
                }
                Some(&self.entries[k])
            },
            None => None,
        }
    }

    /// The entries, in order.
    pub fn entries(&self) -> (r: &Vec<MemoryEntry<S>>)
        ensures
            r@ == self.entry_seq(),
    {
        &self.entries
    }

    /// How many memories there are.
    pub fn len(&self) -> (r: usize)
        ensures
            r == self.entry_seq().len(),
    {
        self.entries.len()
    }

    /// How many ids the short-term list holds.
    pub fn short_term_count(&self) -> (r: usize)
        ensures
            r == self.short_ids().len(),
    {
        self.short_term.len()
    }

    /// How many ids the long-term list holds.
    pub fn long_term_count(&self) -> (r: usize)
        ensures
            r == self.long_ids().len(),
    {
        self.long_term.len()
    }

    /// The memories, in order, that carry every one of the tags.
    pub fn search_by_tags(&self, tags: &[&str]) -> (r: Vec<&MemoryEntry<S>>)
        ensures
            r@.map_values(|e: &MemoryEntry<S>| *e) == tagged(self.entry_seq(), tags@.map_values(|t: &str| t@)),
    {
        let ghost es = self.entries@;
        let ghost tv = tags@.map_values(|t: &str| t@);
        let mut r: Vec<&MemoryEntry<S>> = Vec::new();
        let mut i: usize = 0;
        while i < self.entries.len()
            invariant
                es == self.entries@,
                tv == tags@.map_values(|t: &str| t@),
                i <= es.len(),
                r@.map_values(|e: &MemoryEntry<S>| *e) == tagged(es.take(i as int), tv),
            decreases es.len() - i,
        {
            let e = &self.entries[i];
            let mut all = true;
            let mut k: usize = 0;
            while k < tags.len()
                invariant
                    tv == tags@.map_values(|t: &str| t@),
                    k <= tags@.len(),
                    all == (forall|q: int| 0 <= q < k ==> texts(e.tags@).contains(#[trigger] tv[q])),
                decreases tags@.len() - k,
            {
                if !has_tag(&e.tags, tags[k]) {
                    all = false;
                }
                proof {
                    assert(tv[k as int] == tags@[k as int]@);
                }
                k += 1;
            }
            proof {
                assert(es.take(i + 1).drop_last() =~= es.take(i as int));
                assert(es.take(i + 1).last() == es[i as int]);
                assert(all == has_all_tags(es[i as int], tv));
            }
            let ghost before = r@;
            if all {
                r.push(e);
                assert(r@.map_values(|e: &MemoryEntry<S>| *e) =~= before.map_values(|e: &MemoryEntry<S>| *e).push(
                    es[i as int],
                ));
            } else {
                assert(tagged(es.take(i + 1), tv) =~= tagged(es.take(i as int), tv));
            }
            i += 1;
        }
        assert(es.take(i as int) =~= es);
        r
    }

    /// The memories, in order, whose content holds the keyword, both
    /// lowercased.
    pub fn search_by_keyword(&self, keyword: &str) -> (r: Vec<&MemoryEntry<S>>)
        ensures
            r@.map_values(|e: &MemoryEntry<S>| *e) == with_keyword(self.entry_seq(), keyword@),
    {
        let ghost es = self.entries@;
        let lowered = to_lowercase(keyword);
        let mut r: Vec<&MemoryEntry<S>> = Vec::new();
        let mut i: usize = 0;
        while i < self.entries.len()
            invariant
                es == self.entries@,
                lowered@ == lowercase_of(keyword@),
                i <= es.len(),
                r@.map_values(|e: &MemoryEntry<S>| *e) == with_keyword(es.take(i as int), keyword@),
            decreases es.len() - i,
        {
            let e = &self.entries[i];
            let content = to_lowercase(e.content.as_str());
            let hit = contains_text(content.as_str(), lowered.as_str());
            proof {
                assert(es.take(i + 1).drop_last() =~= es.take(i as int));
                assert(es.take(i + 1).last() == es[i as int]);
            }
            let ghost before = r@;
            if hit {
                r.push(e);
                assert(r@.map_values(|e: &MemoryEntry<S>| *e) =~= before.map_values(|e: &MemoryEntry<S>| *e).push(
                    es[i as int],
                ));
            } else {
                assert(with_keyword(es.take(i + 1), keyword@) =~= with_keyword(es.take(i as int), keyword@));
            }
            i += 1;
        }
        assert(es.take(i as int) =~= es);
        r
    }

    /// Removes the memory with the given id, and its id from both lists;
    /// whether there was one.
    pub fn delete(&mut self, id: u64) -> (r: bool)
        requires
            old(self).wf(),
        ensures
            final(self).wf(),
            final(self).next_free() == old(self).next_free(),
            r == old(self).entry_map().dom().contains(id),
            r ==> {
                &&& final(self).entry_map() == old(self).entry_map().remove(id)
                &&& final(self).short_ids() == ids_without(old(self).short_ids(), id)
                &&& final(self).long_ids() == ids_without(old(self).long_ids(), id)
            },
            !r ==> {
                &&& final(self).entry_seq() == old(self).entry_seq()
                &&& final(self).short_ids() == old(self).short_ids()
                &&& final(self).long_ids() == old(self).long_ids()
            },
    {
        match self.find(id) {
            Some(k) => {
                let ghost ps = entry_pairs(self.entries@);
                self.entries.remove(k);
                proof {
                    assert(entry_pairs(self.entries@) =~= ps.remove(k as int));
                    crate::keyed::lemma_remove(ps, k as int);
                }
                self.short_term = without_id(&self.short_term, id);
                self.long_term = without_id(&self.long_term, id);
                true
            },
            None => false,
        }
    }

    /// Moves to the long-term list, in order, the short-term ids of stored
    /// memories that are in `important`, and marks those memories
    /// long-term; returns how many moved.
    pub fn consolidate(&mut self, important: &[u64]) -> (r: usize)
        requires
            old(self).wf(),
        ensures
            ({
                let moved = to_consolidate(old(self).short_ids(), old(self).entry_map().dom(), important@);
                &&& r == moved.len()
                &&& final(self).wf()
                &&& final(self).next_free() == old(self).next_free()
                &&& final(self).short_ids() == ids_not_in(old(self).short_ids(), moved)
                &&& final(self).long_ids() == old(self).long_ids() + moved
                &&& final(self).entry_seq().len() == old(self).entry_seq().len()
                &&& forall|i: int|
                    0 <= i < old(self).entry_seq().len() ==> #[trigger] final(self).entry_seq()[i] == (if moved.contains(
                        old(self).entry_seq()[i].id,
                    ) {
                        MemoryEntry { memory_type: MemoryType::LongTerm, ..old(self).entry_seq()[i] }
                    } else {
                        old(self).entry_seq()[i]
                    })
            }),
    {
        let ghost dom = self.entry_map().dom();
        let ghost short0 = self.short_term@;
        let mut moved: Vec<u64> = Vec::new();
        let mut i: usize = 0;
        while i < self.short_term.len()
            invariant
                self.wf(),
                dom == self.entry_map().dom(),
                short0 == self.short_term@,
                i <= short0.len(),
                moved@ == to_consolidate(short0.take(i as int), dom, important@),
            decreases short0.len() - i,
        {
            let id = self.short_term[i];
            let stored = self.find(id).is_some();
            let marked = holds(important, id);
            proof {
                assert(short0.take(i + 1).drop_last() =~= short0.take(i as int));
                assert(short0.take(i + 1).last() == id);
            }
            if stored && marked {
                moved.push(id);
            } else {
                assert(to_consolidate(short0.take(i + 1), dom, important@) =~= to_consolidate(
                    short0.take(i as int),
                    dom,
                    important@,
                ));
            }
            i += 1;
        }
        assert(short0.take(i as int) =~= short0);
        let ghost old_es = self.entries@;
        let ghost ps = entry_pairs(old_es);
        let mut j: usize = 0;
        while j < self.entries.len()
            invariant
                self.short_term@ == old(self).short_term@,
                self.long_term@ == old(self).long_term@,
                self.next_id == old(self).next_id,
                old_es == old(self).entries@,
                short0 == old(self).short_term@,
                old_es.len() == self.entries@.len(),
                ps == entry_pairs(old_es),
                keys_distinct(ps),
                j <= old_es.len(),
                forall|q: int| 0 <= q < old_es.len() ==> (#[trigger] self.entries@[q]).id == old_es[q].id,
                forall|q: int|
                    0 <= q < j ==> #[trigger] self.entries@[q] == (if moved@.contains(old_es[q].id) {
                        MemoryEntry { memory_type: MemoryType::LongTerm, ..old_es[q] }
                    } else {
                        old_es[q]
                    }),
                forall|q: int| j <= q < old_es.len() ==> #[trigger] self.entries@[q] == old_es[q],
            decreases old_es.len() - j,
        {
            let id = self.entries[j].id;
            if holds(moved.as_slice(), id) {
                let ghost before = self.entries@;
                let e = entry_at(&mut self.entries, j);
                e.memory_type = MemoryType::LongTerm;
                proof {
                    assert forall|q: int| 0 <= q < old_es.len() && q != j implies #[trigger] self.entries@[q] == before[q] by {
                    }
                }
            }
            j += 1;
        }
        proof {
            let es = self.entries@;
            assert(entry_pairs(es).len() == ps.len());
            assert forall|a: int, b: int|
                0 <= a < entry_pairs(es).len() && 0 <= b < entry_pairs(es).len() && a != b implies #[trigger] entry_pairs(
                es,
            )[a].0 != #[trigger] entry_pairs(es)[b].0 by {
                assert(entry_pairs(es)[a].0 == ps[a].0 && entry_pairs(es)[b].0 == ps[b].0);
            }
        }
        let mut k: usize = 0;
        let ghost long0 = self.long_term@;
        let ghost es1 = self.entries@;
        while k < moved.len()
            invariant
                self.entries@ == es1,
                self.short_term@ == old(self).short_term@,
                self.next_id == old(self).next_id,
                k <= moved@.len(),
                self.long_term@ == long0 + moved@.take(k as int),
            decreases moved@.len() - k,
        {
            self.long_term.push(moved[k]);
            assert(moved@.take(k + 1) =~= moved@.take(k as int).push(moved@[k as int]));
            k += 1;
        }
        assert(moved@.take(k as int) =~= moved@);
        self.short_term = not_in(&self.short_term, &moved);
        moved.len()
    }

    /// Deletes every memory whose expiry time `now` has reached; returns how
    /// many.
    pub fn cleanup_expired(&mut self, now: u64) -> (r: usize)
        requires
            old(self).wf(),
        ensures
            final(self).wf(),
            final(self).next_free() == old(self).next_free(),
            r == expired_ids(old(self).entry_seq(), now).len(),
            final(self).entry_seq() == unexpired(old(self).entry_seq(), now),
            final(self).short_ids() == ids_not_in(old(self).short_ids(), expired_ids(old(self).entry_seq(), now)),
            final(self).long_ids() == ids_not_in(old(self).long_ids(), expired_ids(old(self).entry_seq(), now)),
    {
        let ghost es0 = self.entries@;
        let total = self.entries.len();
        let mut rest: Vec<MemoryEntry<S>> = Vec::new();
        core::mem::swap(&mut rest, &mut self.entries);
        let mut kept: Vec<MemoryEntry<S>> = Vec::new();
        let mut gone: Vec<u64> = Vec::new();
        let mut n: usize = 0;
        assert(es0.skip(0) =~= es0);
        while rest.len() > 0
            invariant
                total == es0.len(),
                n <= es0.len(),
                rest@ == es0.skip(n as int),
                kept@ == unexpired(es0.take(n as int), now),
                gone@ == expired_ids(es0.take(n as int), now),
            decreases rest@.len(),
        {
            let e = rest.remove(0);
            proof {
                assert(es0.skip(n as int)[0] == es0[n as int]);
                assert(es0.skip(n as int).drop_first() =~= es0.skip(n + 1));
                assert(es0.take(n + 1).drop_last() =~= es0.take(n as int));
                assert(es0.take(n + 1).last() == es0[n as int]);
            }
            let is_expired = match e.expires_at {
                Some(t) => now >= t,
                None => false,
            };
            if is_expired {
                gone.push(e.id);
            } else {
                kept.push(e);
            }
            n += 1;
        }
        proof {
            assert(es0.skip(n as int).len() == 0);
            assert(es0.take(n as int) =~= es0);
            lemma_unexpired_distinct(es0, now);
        }
        self.entries = kept;
        self.short_term = not_in(&self.short_term, &gone);
        self.long_term = not_in(&self.long_term, &gone);
        gone.len()
    }
}

proof fn lemma_unexpired_distinct<S>(es: Seq<MemoryEntry<S>>, now: u64)
    requires
        keys_distinct(entry_pairs(es)),
    ensures
        keys_distinct(entry_pairs(unexpired(es, now))),
        unexpired(es, now).len() + expired_ids(es, now).len() == es.len(),
        forall|k: int|
            0 <= k < unexpired(es, now).len() ==> exists|i: int|
                0 <= i < es.len() && #[trigger] es[i] == #[trigger] unexpired(es, now)[k],
    decreases es.len(),
{
    if es.len() > 0 {
        let pre = es.drop_last();
        assert(keys_distinct(entry_pairs(pre))) by {
            assert forall|a: int, b: int|
                0 <= a < entry_pairs(pre).len() && 0 <= b < entry_pairs(pre).len() && a != b implies #[trigger] entry_pairs(
                pre,
            )[a].0 != #[trigger] entry_pairs(pre)[b].0 by {
                assert(entry_pairs(pre)[a].0 == entry_pairs(es)[a].0);
                assert(entry_pairs(pre)[b].0 == entry_pairs(es)[b].0);
            }
        }
        lemma_unexpired_distinct(pre, now);
        let u = unexpired(pre, now);
        let l = es.last();
        if !expired(l, now) {
            let v = unexpired(es, now);
            assert(v == u.push(l));
            assert forall|k: int| 0 <= k < v.len() implies exists|i: int|
                0 <= i < es.len() && #[trigger] es[i] == #[trigger] v[k] by {
                if k < u.len() {
                    assert(v[k] == u[k]);
                    let i = choose|i: int| 0 <= i < pre.len() && #[trigger] pre[i] == #[trigger] u[k];
                    assert(es[i] == pre[i]);
                } else {
                    assert(es[es.len() - 1] == v[k]);
                }
            }
            assert forall|a: int, b: int|
                0 <= a < entry_pairs(v).len() && 0 <= b < entry_pairs(v).len() && a != b implies #[trigger] entry_pairs(
                v,
            )[a].0 != #[trigger] entry_pairs(v)[b].0 by {
                if a < u.len() && b < u.len() {
                    assert(entry_pairs(v)[a].0 == entry_pairs(u)[a].0);
                    assert(entry_pairs(v)[b].0 == entry_pairs(u)[b].0);
                } else {
                    let (x, y) = if a < u.len() {
                        (a, b)
                    } else {
                        (b, a)
                    };
                    if x < u.len() {
                        let i = choose|i: int| 0 <= i < pre.len() && #[trigger] pre[i] == #[trigger] u[x];
                        assert(entry_pairs(es)[i].0 == pre[i].id);
                        assert(entry_pairs(es)[es.len() - 1].0 == l.id);
                    }
                }
            }
        } else {
            assert(unexpired(es, now) == u + Seq::<MemoryEntry<S>>::empty());
            assert(unexpired(es, now) =~= u);
            assert forall|k: int| 0 <= k < u.len() implies exists|i: int|
                0 <= i < es.len() && #[trigger] es[i] == #[trigger] u[k] by {
                let i = choose|i: int| 0 <= i < pre.len() && #[trigger] pre[i] == #[trigger] u[k];
                assert(es[i] == pre[i]);
            }
        }
    }
}

/// A stored memory is found again under the id that storing it returned,
/// with that id, until it is deleted; deleting it leaves nothing under the
/// id.
pub proof fn law_store_retrieve_delete<S>(m: Map<u64, MemoryEntry<S>>, id: u64, e: MemoryEntry<S>)
    ensures
        ({
            let s = (MemoryEntry { id: id, ..e });
            &&& m.insert(id, s).dom().contains(id)
            &&& m.insert(id, s)[id] == s
            &&& m.insert(id, s)[id].id == id
            &&& !m.insert(id, s).remove(id).dom().contains(id)
        }),
{
}

proof fn lemma_consolidate_members(short: Seq<u64>, stored: Set<u64>, important: Seq<u64>)
    ensures
        forall|x: u64|
            #[trigger] to_consolidate(short, stored, important).contains(x) <==> (short.contains(x) && stored.contains(x)
                && important.contains(x)),
    decreases short.len(),
{
    if short.len() > 0 {
        let pre = short.drop_last();
        lemma_consolidate_members(pre, stored, important);
        let m = to_consolidate(short, stored, important);
        let mp = to_consolidate(pre, stored, important);
        assert forall|x: u64| #[trigger] m.contains(x) <==> (short.contains(x) && stored.contains(x) && important.contains(x)) by {
            if m.contains(x) {
                let q = choose|q: int| 0 <= q < m.len() && m[q] == x;
                if q < mp.len() {
                    assert(m[q] == mp[q]);
                    assert(mp.contains(x));
                    let w = choose|w: int| 0 <= w < pre.len() && pre[w] == x;
                    assert(short[w] == pre[w]);
                } else {
                    assert(short[short.len() - 1] == x);
                }
            }
            if short.contains(x) && stored.contains(x) && important.contains(x) {
                let w = choose|w: int| 0 <= w < short.len() && short[w] == x;
                if w < pre.len() {
                    assert(pre[w] == short[w]);
                    assert(mp.contains(x));
                    let q = choose|q: int| 0 <= q < mp.len() && mp[q] == x;
                    assert(m[q] == mp[q]);
                } else {
                    assert(m[m.len() - 1] == x);
                }
            }
        }
    }
}

proof fn lemma_split_count(s: Seq<u64>, stored: Set<u64>, important: Seq<u64>, gone: Seq<u64>)
    requires
        forall|x: u64| s.contains(x) ==> (#[trigger] gone.contains(x) <==> (stored.contains(x) && important.contains(x))),
    ensures
        ids_not_in(s, gone).len() + to_consolidate(s, stored, important).len() == s.len(),
    decreases s.len(),
{
    if s.len() > 0 {
        let pre = s.drop_last();
        assert forall|x: u64| pre.contains(x) implies (#[trigger] gone.contains(x) <==> (stored.contains(x) && important.contains(x))) by {
            let w = choose|w: int| 0 <= w < pre.len() && pre[w] == x;
            assert(s[w] == pre[w]);
        }
        lemma_split_count(pre, stored, important, gone);
        assert(s.contains(s.last())) by {
            assert(s[s.len() - 1] == s.last());
        }
    }
}

/// Consolidation moves ids between the lists without losing or doubling
/// any: the short-term list loses exactly as many ids as it returns.
pub proof fn law_consolidate_keeps_count(short: Seq<u64>, stored: Set<u64>, important: Seq<u64>)
    ensures
        ids_not_in(short, to_consolidate(short, stored, important)).len() + to_consolidate(short, stored, important).len()
            == short.len(),
{
    lemma_consolidate_members(short, stored, important);
    let gone = to_consolidate(short, stored, important);
    assert forall|x: u64| short.contains(x) implies (#[trigger] gone.contains(x) <==> (stored.contains(x) && important.contains(x))) by {
    }
    lemma_split_count(short, stored, important, gone);
}

/// Cleaning up splits the memories: those kept and those counted as
/// expired make up all of them.
pub proof fn law_cleanup_partitions<S>(es: Seq<MemoryEntry<S>>, now: u64)
    ensures
        unexpired(es, now).len() + expired_ids(es, now).len() == es.len(),
        forall|k: int| 0 <= k < unexpired(es, now).len() ==> !expired(#[trigger] unexpired(es, now)[k], now),
    decreases es.len(),
{
    if es.len() > 0 {
        law_cleanup_partitions(es.drop_last(), now);
        let u = unexpired(es.drop_last(), now);
        let v = unexpired(es, now);
        assert forall|k: int| 0 <= k < v.len() implies !expired(#[trigger] v[k], now) by {
            if k < u.len() {
                assert(v[k] == u[k]);
            }
        }
    }
}

impl<S> Default for MemoryStore<S> {
    fn default() -> (r: Self)
        ensures
            r.entry_seq() == Seq::<MemoryEntry<S>>::empty(),
            r.next_free() == 1,
    {
        Self::new()
    }
}

} // verus!
