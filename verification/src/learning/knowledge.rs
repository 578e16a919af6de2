//! A knowledge graph: facts as subject, predicate and object, found by the
//! entities they mention, by predicate, and along paths of one or two hops.
use vstd::prelude::*;
use crate::text::{str_equal, texts};

verus! {

/// A fact: a subject, a predicate and an object, with details that the
/// graph carries along without reading them.
pub struct KnowledgeTriple<D> {
    pub subject: String,
    pub predicate: String,
    pub object: String,
    pub detail: D,
}

/// What a fact says: its subject, predicate and object.
pub open spec fn triple_key<D>(t: KnowledgeTriple<D>) -> (Seq<char>, Seq<char>, Seq<char>) {
    (t.subject@, t.predicate@, t.object@)
}

impl<D: Clone> Clone for KnowledgeTriple<D> {
    fn clone(&self) -> (r: Self)
        ensures
            triple_key(r) == triple_key(*self),
            cloned(self.detail, r.detail),
    {
        KnowledgeTriple {
            subject: self.subject.clone(),
            predicate: self.predicate.clone(),
            object: self.object.clone(),
            detail: self.detail.clone(),
        }
    }
}

/// The positions filed under entity `e`: for each fact in order, its
/// position once if its subject is `e`, and once more if its object is.
pub open spec fn entity_positions<D>(ts: Seq<KnowledgeTriple<D>>, e: Seq<char>) -> Seq<int>
    decreases ts.len(),
{
    if ts.len() == 0 {
        Seq::empty()
    } else {
        let i = ts.len() - 1;
        entity_positions(ts.drop_last(), e) + (if ts[i].subject@ == e {
            seq![i]
        } else {
            Seq::<int>::empty()
        }) + (if ts[i].object@ == e {
            seq![i]
        } else {
            Seq::<int>::empty()
        })
    }
}

/// The paths of the second hop from the fact at `i`: for each position `j`
/// in `seconds`, the path `[i, j]` when the fact at `j` ends at `to`.
pub open spec fn second_hops<D>(ts: Seq<KnowledgeTriple<D>>, i: int, seconds: Seq<int>, to: Seq<char>) -> Seq<Seq<int>>
    decreases seconds.len(),
{
    if seconds.len() == 0 {
        Seq::empty()
    } else {
        let j = seconds.last();
        second_hops(ts, i, seconds.drop_last(), to) + (if ts[j].object@ == to {
            seq![seq![i, j]]
        } else {
            Seq::<Seq<int>>::empty()
        })
    }
}

/// The paths through the first hops `firsts`: a fact that ends at `to` is a
/// path by itself; any other leads on to the facts filed under its object.
pub open spec fn paths_through<D>(ts: Seq<KnowledgeTriple<D>>, firsts: Seq<int>, to: Seq<char>) -> Seq<Seq<int>>
    decreases firsts.len(),
{
    if firsts.len() == 0 {
        Seq::empty()
    } else {
        let i = firsts.last();
        paths_through(ts, firsts.drop_last(), to) + (if ts[i].object@ == to {
            seq![seq![i]]
        } else {
            second_hops(ts, i, entity_positions(ts, ts[i].object@), to)
        })
    }
}

/// The paths of one or two hops from `from` to `to`, as positions of facts.
pub open spec fn path_positions<D>(ts: Seq<KnowledgeTriple<D>>, from: Seq<char>, to: Seq<char>) -> Seq<Seq<int>> {
    paths_through(ts, entity_positions(ts, from), to)
}

/// Every entity, other than `e`, of a fact that mentions `e`.
pub open spec fn related_set<D>(ts: Seq<KnowledgeTriple<D>>, e: Seq<char>) -> Set<Seq<char>> {
    Set::new(
        |x: Seq<char>|
            x != e && exists|i: int|
                0 <= i < ts.len() && (ts[i].subject@ == e || ts[i].object@ == e) && (#[trigger] ts[i].subject@ == x
                    || ts[i].object@ == x),
    )
}

/// Every subject and object of the facts.
pub open spec fn entity_set<D>(ts: Seq<KnowledgeTriple<D>>) -> Set<Seq<char>> {
    Set::new(|x: Seq<char>| exists|i: int| 0 <= i < ts.len() && (#[trigger] ts[i].subject@ == x || ts[i].object@ == x))
}

/// The positions of `incoming` that merging it into `existing` appends:
/// each fact in order unless its subject, predicate and object are already
/// among the existing facts or those appended before it.
pub open spec fn merge_appends<D>(existing: Seq<KnowledgeTriple<D>>, incoming: Seq<KnowledgeTriple<D>>) -> Seq<int>
    decreases incoming.len(),
{
    if incoming.len() == 0 {
        Seq::empty()
    } else {
        let prev = merge_appends(existing, incoming.drop_last());
        let k = triple_key(incoming.last());
        let known = (exists|i: int| 0 <= i < existing.len() && #[trigger] triple_key(existing[i]) == k) || (exists|q: int|
            0 <= q < prev.len() && #[trigger] triple_key(incoming[prev[q]]) == k);
        if known {
            prev
        } else {
            prev.push(incoming.len() - 1)
        }
    }
}

/// What the facts say after merging `incoming` into `existing`.
pub open spec fn merged_keys<D>(existing: Seq<KnowledgeTriple<D>>, incoming: Seq<KnowledgeTriple<D>>) -> Seq<
    (Seq<char>, Seq<char>, Seq<char>),
> {
    existing.map_values(|t: KnowledgeTriple<D>| triple_key(t)) + merge_appends(existing, incoming).map_values(
        |p: int| triple_key(incoming[p]),
    )
}

proof fn lemma_entity_positions_bound<D>(ts: Seq<KnowledgeTriple<D>>, e: Seq<char>)
    ensures
        forall|k: int| 0 <= k < entity_positions(ts, e).len() ==> 0 <= #[trigger] entity_positions(ts, e)[k] < ts.len(),
    decreases ts.len(),
{
    if ts.len() > 0 {
        lemma_entity_positions_bound(ts.drop_last(), e);
        let i = ts.len() - 1;
        let prev = entity_positions(ts.drop_last(), e);
        let sa = if ts[i].subject@ == e {
            seq![i]
        } else {
            Seq::<int>::empty()
        };
        let oa = if ts[i].object@ == e {
            seq![i]
        } else {
            Seq::<int>::empty()
        };
        let all = entity_positions(ts, e);
        assert(all == prev + sa + oa);
        assert forall|k: int| 0 <= k < all.len() implies 0 <= #[trigger] all[k] < ts.len() by {
            if k < prev.len() {
                assert(all[k] == prev[k]);
            } else if k < prev.len() + sa.len() {
                assert(all[k] == sa[k - prev.len()]);
            } else {
                assert(all[k] == oa[k - prev.len() - sa.len()]);
            }
        }
    }
}

proof fn lemma_merge_appends_bound<D>(existing: Seq<KnowledgeTriple<D>>, incoming: Seq<KnowledgeTriple<D>>)
    ensures
        forall|k: int|
            0 <= k < merge_appends(existing, incoming).len() ==> 0 <= #[trigger] merge_appends(existing, incoming)[k]
                < incoming.len(),
    decreases incoming.len(),
{
    if incoming.len() > 0 {
        lemma_merge_appends_bound(existing, incoming.drop_last());
        let prev = merge_appends(existing, incoming.drop_last());
        let all = merge_appends(existing, incoming);
        assert forall|k: int| 0 <= k < all.len() implies 0 <= #[trigger] all[k] < incoming.len() by {
            if k < prev.len() {
                assert(all[k] == prev[k]);
            }
        }
    }
}

proof fn lemma_entity_set_step<D>(ts: Seq<KnowledgeTriple<D>>, i: int)
    requires
        0 <= i < ts.len(),
    ensures
        entity_set(ts.take(i + 1)) == entity_set(ts.take(i)).insert(ts[i].subject@).insert(ts[i].object@),
{
    let a = ts.take(i + 1);
    let b = ts.take(i);
    let t = ts[i];
    assert(a[i] == t);
    assert forall|x: Seq<char>| entity_set(a).contains(x) <==> (entity_set(b).contains(x) || x == t.subject@ || x == t.object@) by {
        if entity_set(a).contains(x) {
            let w = choose|w: int| 0 <= w < a.len() && (#[trigger] a[w].subject@ == x || a[w].object@ == x);
            if w < i {
                assert(b[w] == a[w]);
                assert(b[w].subject@ == a[w].subject@ && b[w].object@ == a[w].object@);
                assert(entity_set(b).contains(x));
            }
        }
        if entity_set(b).contains(x) {
            let w = choose|w: int| 0 <= w < b.len() && (#[trigger] b[w].subject@ == x || b[w].object@ == x);
            assert(a[w] == b[w]);
            assert(b[w].subject@ == a[w].subject@ && b[w].object@ == a[w].object@);
            assert(entity_set(a).contains(x));
        }
        if x == t.subject@ || x == t.object@ {
            assert(a[i].subject@ == t.subject@ && a[i].object@ == t.object@);
            assert(entity_set(a).contains(x));
        }
    }
    assert(entity_set(a) =~= entity_set(b).insert(t.subject@).insert(t.object@));
}

/// Facts in the order they were added.
pub struct KnowledgeGraph<D> {
    triples: Vec<KnowledgeTriple<D>>,
}

impl<D> KnowledgeGraph<D> {
    /// The facts, oldest first.
    pub closed spec fn triples(&self) -> Seq<KnowledgeTriple<D>> {
        self.triples@
    }

    /// No facts.
    pub fn new() -> (r: Self)
        ensures
            r.triples() == Seq::<KnowledgeTriple<D>>::empty(),
    {
        KnowledgeGraph { triples: Vec::new() }
    }

    /// Adds a fact after the others; it is filed under its subject and its
    /// object.
    pub fn add_triple(&mut self, triple: KnowledgeTriple<D>)
        ensures
            final(self).triples() == old(self).triples().push(triple),
    {
        self.triples.push(triple);
    }

    /// How many facts there are.
    pub fn triple_count(&self) -> (r: usize)
        ensures
            r == self.triples().len(),
    {
        self.triples.len()
    }

    fn positions_of(&self, e: &str) -> (r: Vec<usize>)
        ensures
            r@.len() == entity_positions(self.triples(), e@).len(),
            forall|k: int| 0 <= k < r@.len() ==> #[trigger] r@[k] as int == entity_positions(self.triples(), e@)[k],
    {
        let ghost ts = self.triples@;
        let mut r: Vec<usize> = Vec::new();
        let mut i: usize = 0;
        while i < self.triples.len()
            invariant
                ts == self.triples@,
                i <= ts.len(),
                r@.len() == entity_positions(ts.take(i as int), e@).len(),
                forall|k: int| 0 <= k < r@.len() ==> #[trigger] r@[k] as int == entity_positions(ts.take(i as int), e@)[k],
            decreases ts.len() - i,
        {
            proof {
                assert(ts.take(i + 1).drop_last() =~= ts.take(i as int));
                assert(ts.take(i + 1)[i as int] == ts[i as int]);
            }
            let ghost before = r@;
            let ghost p = entity_positions(ts.take(i as int), e@);
            if str_equal(self.triples[i].subject.as_str(), e) {
                r.push(i);
            }
            let ghost mid = r@;
            if str_equal(self.triples[i].object.as_str(), e) {
                r.push(i);
            }
            proof {
                let sa = if ts[i as int].subject@ == e@ {
                    seq![i as int]
                } else {
                    Seq::<int>::empty()
                };
                let oa = if ts[i as int].object@ == e@ {
                    seq![i as int]
                } else {
                    Seq::<int>::empty()
                };
                let np = entity_positions(ts.take(i + 1), e@);
                assert(np == p + sa + oa);
                assert forall|k: int| 0 <= k < r@.len() implies #[trigger] r@[k] as int == np[k] by {
                    if k < before.len() {
                        assert(r@[k] == before[k]);
                    } else if k < mid.len() {
                        assert(r@[k] == mid[k]);
                    }
                }
            }
            i += 1;
        }
        assert(ts.take(i as int) =~= ts);
        r
    }

    fn refs_at<'a>(&'a self, ps: &Vec<usize>) -> (r: Vec<&'a KnowledgeTriple<D>>)
        requires
            forall|k: int| 0 <= k < ps@.len() ==> #[trigger] ps@[k] < self.triples().len(),
        ensures
            r@.len() == ps@.len(),
            forall|k: int| 0 <= k < r@.len() ==> *(#[trigger] r@[k]) == self.triples()[ps@[k] as int],
    {
        let mut r: Vec<&KnowledgeTriple<D>> = Vec::new();
        let mut k: usize = 0;
        while k < ps.len()
            invariant
                forall|q: int| 0 <= q < ps@.len() ==> #[trigger] ps@[q] < self.triples().len(),
                k <= ps@.len(),
                r@.len() == k,
                forall|q: int| 0 <= q < k ==> *(#[trigger] r@[q]) == self.triples()[ps@[q] as int],
            decreases ps@.len() - k,
        {
            assert(ps@[k as int] < self.triples().len());
            r.push(&self.triples[ps[k]]);
            k += 1;
        }
        r
    }

    /// The facts filed under `subject`: those whose subject or object it is,
    /// in order, a fact naming it twice coming twice.
    pub fn query_subject(&self, subject: &str) -> (r: Vec<&KnowledgeTriple<D>>)
        ensures
            r@.len() == entity_positions(self.triples(), subject@).len(),
            forall|k: int|
                0 <= k < r@.len() ==> *(#[trigger] r@[k]) == self.triples()[entity_positions(self.triples(), subject@)[k]],
    {
        let ps = self.positions_of(subject);
        proof {
            lemma_entity_positions_bound(self.triples(), subject@);
        }
        self.refs_at(&ps)
    }

    /// The facts filed under `object`: those whose subject or object it is,
    /// in order, a fact naming it twice coming twice.
    pub fn query_object(&self, object: &str) -> (r: Vec<&KnowledgeTriple<D>>)
        ensures
            r@.len() == entity_positions(self.triples(), object@).len(),
            forall|k: int|
                0 <= k < r@.len() ==> *(#[trigger] r@[k]) == self.triples()[entity_positions(self.triples(), object@)[k]],
    {
        let ps = self.positions_of(object);
        proof {
            lemma_entity_positions_bound(self.triples(), object@);
        }
        self.refs_at(&ps)
    }

    /// The facts with the given predicate, in order.
    pub fn query_predicate(&self, predicate: &str) -> (r: Vec<&KnowledgeTriple<D>>)
        ensures
            r@.map_values(|t: &KnowledgeTriple<D>| *t) == self.triples().filter(
                |t: KnowledgeTriple<D>| t.predicate@ == predicate@,
            ),
    {
        let ghost ts = self.triples@;
        let ghost f = |t: KnowledgeTriple<D>| t.predicate@ == predicate@;
        let mut r: Vec<&KnowledgeTriple<D>> = Vec::new();
        let mut i: usize = 0;
        while i < self.triples.len()
            invariant
                ts == self.triples@,
                f == (|t: KnowledgeTriple<D>| t.predicate@ == predicate@),
                i <= ts.len(),
                r@.map_values(|t: &KnowledgeTriple<D>| *t) == ts.take(i as int).filter(f),
            decreases ts.len() - i,
        {
            proof {
                assert(ts.take(i + 1).drop_last() =~= ts.take(i as int));
                reveal(Seq::filter);
            }
            let ghost before = r@;
            if str_equal(self.triples[i].predicate.as_str(), predicate) {
                r.push(&self.triples[i]);
                assert(r@.map_values(|t: &KnowledgeTriple<D>| *t) =~= before.map_values(|t: &KnowledgeTriple<D>| *t).push(
                    ts[i as int],
                ));
            }
            i += 1;
        }
        assert(ts.take(i as int) =~= ts);
        r
    }

    /// Paths of one or two hops from `from` to `to`: for each fact filed
    /// under `from` in order, the fact itself when its object is `to`, else
    /// each fact filed under its object that ends at `to`, after it.
    pub fn query_path(&self, from: &str, to: &str) -> (r: Vec<Vec<&KnowledgeTriple<D>>>)
        ensures
            path_rows(r@, self.triples(), path_positions(self.triples(), from@, to@)),
    {
        let ghost ts = self.triples@;
        let firsts = self.positions_of(from);
        proof {
            lemma_entity_positions_bound(ts, from@);
        }
        let ghost fp = entity_positions(ts, from@);
        assert(firsts@.map_values(|x: usize| x as int) =~= fp);
        let mut r: Vec<Vec<&KnowledgeTriple<D>>> = Vec::new();
        let mut a: usize = 0;
        while a < firsts.len()
            invariant
                ts == self.triples@,
                fp == entity_positions(ts, from@),
                firsts@.len() == fp.len(),
                forall|k: int| 0 <= k < firsts@.len() ==> #[trigger] firsts@[k] as int == fp[k],
                forall|k: int| 0 <= k < fp.len() ==> 0 <= #[trigger] fp[k] < ts.len(),
                a <= firsts@.len(),
                path_rows(r@, ts, paths_through(ts, fp.take(a as int), to@)),
            decreases firsts@.len() - a,
        {
            let i = firsts[a];
            assert(fp.take(a + 1).drop_last() =~= fp.take(a as int));
            assert(fp.take(a + 1).last() == i as int);
            assert(0 <= fp[a as int] < ts.len());
            let ghost before = paths_through(ts, fp.take(a as int), to@);
            if str_equal(self.triples[i].object.as_str(), to) {
                let mut one: Vec<&KnowledgeTriple<D>> = Vec::new();
                one.push(&self.triples[i]);
                let ghost rb = r@;
                r.push(one);
                proof {
                    let np = before + seq![seq![i as int]];
                    assert(paths_through(ts, fp.take(a + 1), to@) == np);
                    assert forall|k: int| #![trigger r@[k]] 0 <= k < r@.len() implies row_matches(r@[k]@, ts, np[k]) by {
                        if k < rb.len() {
                            assert(r@[k] == rb[k]);
                        }
                    }
                }
            } else {
                let seconds = self.positions_of(self.triples[i].object.as_str());
                proof {
                    lemma_entity_positions_bound(ts, ts[i as int].object@);
                }
                let ghost sp = entity_positions(ts, ts[i as int].object@);
                let mut b: usize = 0;
                while b < seconds.len()
                    invariant
                        ts == self.triples@,
                        i < ts.len(),
                        sp == entity_positions(ts, ts[i as int].object@),
                        seconds@.len() == sp.len(),
                        forall|k: int| 0 <= k < seconds@.len() ==> #[trigger] seconds@[k] as int == sp[k],
                        forall|k: int| 0 <= k < sp.len() ==> 0 <= #[trigger] sp[k] < ts.len(),
                        b <= seconds@.len(),
                        path_rows(r@, ts, before + second_hops(ts, i as int, sp.take(b as int), to@)),
                    decreases seconds@.len() - b,
                {
                    let j = seconds[b];
                    assert(sp.take(b + 1).drop_last() =~= sp.take(b as int));
                    assert(sp.take(b + 1).last() == j as int);
                    assert(0 <= sp[b as int] < ts.len());
                    let ghost cur = before + second_hops(ts, i as int, sp.take(b as int), to@);
                    if str_equal(self.triples[j].object.as_str(), to) {
                        let mut two: Vec<&KnowledgeTriple<D>> = Vec::new();
                        two.push(&self.triples[i]);
                        two.push(&self.triples[j]);
                        let ghost rb = r@;
                        r.push(two);
                        proof {
                            let np = cur + seq![seq![i as int, j as int]];
                            assert(before + second_hops(ts, i as int, sp.take(b + 1), to@) =~= np);
                            assert forall|k: int| #![trigger r@[k]] 0 <= k < r@.len() implies row_matches(
                                r@[k]@,
                                ts,
                                np[k],
                            ) by {
                                if k < rb.len() {
                                    assert(r@[k] == rb[k]);
                                }
                            }
                        }
                    } else {
                        assert(before + second_hops(ts, i as int, sp.take(b + 1), to@) =~= cur);
                    }
                    b += 1;
                }
                assert(sp.take(b as int) =~= sp);
                assert(paths_through(ts, fp.take(a + 1), to@) =~= before + second_hops(ts, i as int, sp, to@));
            }
            a += 1;
        }
        assert(fp.take(a as int) =~= fp);
        r
    }

    /// The entities, other than `entity`, of the facts that mention it,
    /// each once, in the order they are first met.
    pub fn related_entities(&self, entity: &str) -> (r: Vec<String>)
        ensures
            texts(r@).no_duplicates(),
            texts(r@).to_set() == related_set(self.triples(), entity@),
    {
        let ghost ts = self.triples@;
        let ghost e = entity@;
        let mut r: Vec<String> = Vec::new();
        let mut i: usize = 0;
        while i < self.triples.len()
            invariant
                ts == self.triples@,
                e == entity@,
                i <= ts.len(),
                texts(r@).no_duplicates(),
                forall|x: Seq<char>| #[trigger] texts(r@).contains(x) <==> related_set(ts.take(i as int), e).contains(x),
            decreases ts.len() - i,
        {
            let t = &self.triples[i];
            let ghost ti = ts[i as int];
            if str_equal(t.subject.as_str(), entity) || str_equal(t.object.as_str(), entity) {
                if !str_equal(t.subject.as_str(), entity) {
                    push_new(&mut r, &t.subject);
                }
                if !str_equal(t.object.as_str(), entity) {
                    push_new(&mut r, &t.object);
                }
            }
            proof {
                let tk = ts.take(i + 1);
                assert forall|x: Seq<char>| #[trigger] texts(r@).contains(x) <== related_set(tk, e).contains(x) by {
                    if related_set(tk, e).contains(x) {
                        let w = choose|w: int|
                            0 <= w < tk.len() && (tk[w].subject@ == e || tk[w].object@ == e) && (#[trigger] tk[w].subject@
                                == x || tk[w].object@ == x);
                        if w < i {
                            assert(ts.take(i as int)[w] == tk[w]);
                            assert(related_set(ts.take(i as int), e).contains(x));
                        }
                    }
                }
                assert forall|x: Seq<char>| #[trigger] texts(r@).contains(x) ==> related_set(tk, e).contains(x) by {
                    if texts(r@).contains(x) && x != ti.subject@ && x != ti.object@ {
                        assert(related_set(ts.take(i as int), e).contains(x));
                        let w = choose|w: int|
                            0 <= w < i && (ts.take(i as int)[w].subject@ == e || ts.take(i as int)[w].object@ == e) && (
                            #[trigger] ts.take(i as int)[w].subject@ == x || ts.take(i as int)[w].object@ == x);
                        assert(tk[w] == ts.take(i as int)[w]);
                    }
                    if texts(r@).contains(x) && (x == ti.subject@ || x == ti.object@) {
                        if !related_set(ts.take(i as int), e).contains(x) {
                            assert(tk[i as int] == ti);
                        } else {
                            let w = choose|w: int|
                                0 <= w < i && (ts.take(i as int)[w].subject@ == e || ts.take(i as int)[w].object@ == e)
                                    && (#[trigger] ts.take(i as int)[w].subject@ == x || ts.take(i as int)[w].object@
                                    == x);
                            assert(tk[w] == ts.take(i as int)[w]);
                        }
                    }
                }
            }
            i += 1;
        }
        assert(ts.take(i as int) =~= ts);
        assert(texts(r@).to_set() =~= related_set(ts, e));
        r
    }

    /// How many distinct entities the facts mention as subject or object.
    pub fn entity_count(&self) -> (r: usize)
        ensures
            r == entity_set(self.triples()).len(),
    {
        let ghost ts = self.triples@;
        let mut seen: Vec<String> = Vec::new();
        let mut i: usize = 0;
        while i < self.triples.len()
            invariant
                ts == self.triples@,
                i <= ts.len(),
                texts(seen@).no_duplicates(),
                forall|x: Seq<char>| #[trigger] texts(seen@).contains(x) <==> entity_set(ts.take(i as int)).contains(x),
            decreases ts.len() - i,
        {
            let t = &self.triples[i];
            let ghost ti = ts[i as int];
            let ghost s0 = texts(seen@);
            push_new(&mut seen, &t.subject);
            let ghost s1 = texts(seen@);
            push_new(&mut seen, &t.object);
            proof {
                lemma_entity_set_step(ts, i as int);
                assert forall|x: Seq<char>| #[trigger] texts(seen@).contains(x) <==> entity_set(ts.take(i + 1)).contains(x) by {
                    assert(s0.contains(x) <==> entity_set(ts.take(i as int)).contains(x));
                }
            }
            i += 1;
        }
        assert(ts.take(i as int) =~= ts);
        proof {
            texts(seen@).unique_seq_to_set();
            assert(texts(seen@).to_set() =~= entity_set(ts));
        }
        seen.len()
    }

    fn has_fact(&self, t: &KnowledgeTriple<D>) -> (r: bool)
        ensures
            r == exists|i: int| 0 <= i < self.triples().len() && #[trigger] triple_key(self.triples()[i]) == triple_key(*t),
    {
        let mut i: usize = 0;
        while i < self.triples.len()
            invariant
                i <= self.triples@.len(),
                forall|q: int| 0 <= q < i ==> #[trigger] triple_key(self.triples@[q]) != triple_key(*t),
            decreases self.triples@.len() - i,
        {
            let u = &self.triples[i];
            if str_equal(u.subject.as_str(), t.subject.as_str()) && str_equal(u.predicate.as_str(), t.predicate.as_str())
                && str_equal(u.object.as_str(), t.object.as_str()) {
                assert(triple_key(self.triples()[i as int]) == triple_key(*t));
                return true;
            }
            i += 1;
        }
        false
    }
}

impl<D> Default for KnowledgeGraph<D> {
    fn default() -> (r: Self)
        ensures
            r.triples() == Seq::<KnowledgeTriple<D>>::empty(),
    {
        Self::new()
    }
}

impl<D: Clone> KnowledgeGraph<D> {
    /// Adds each fact of `other` in order whose subject, predicate and
    /// object are not yet among this graph's facts (a clone of it).
    pub fn merge(&mut self, other: &KnowledgeGraph<D>)
        ensures
            ({
                let adds = merge_appends(old(self).triples(), other.triples());
                &&& final(self).triples().len() == old(self).triples().len() + adds.len()
                &&& final(self).triples().take(old(self).triples().len() as int) == old(self).triples()
                &&& forall|k: int|
                    #![trigger final(self).triples()[old(self).triples().len() + k]]
                    0 <= k < adds.len() ==> {
                        &&& triple_key(final(self).triples()[old(self).triples().len() + k]) == triple_key(
                            other.triples()[adds[k]],
                        )
                        &&& cloned(other.triples()[adds[k]].detail, final(self).triples()[old(self).triples().len() + k].detail)
                    }
            }),
            final(self).triples().map_values(|t: KnowledgeTriple<D>| triple_key(t)) == merged_keys(
                old(self).triples(),
                other.triples(),
            ),
    {
        let ghost old_ts = self.triples@;
        let ghost os = other.triples@;
        let mut j: usize = 0;
        while j < other.triples.len()
            invariant
                os == other.triples@,
                j <= os.len(),
                ({
                    let adds = merge_appends(old_ts, os.take(j as int));
                    &&& self.triples@.len() == old_ts.len() + adds.len()
                    &&& self.triples@.take(old_ts.len() as int) == old_ts
                    &&& forall|k: int|
                        #![trigger self.triples@[old_ts.len() + k]]
                        0 <= k < adds.len() ==> {
                            &&& triple_key(self.triples@[old_ts.len() + k]) == triple_key(os[adds[k]])
                            &&& cloned(os[adds[k]].detail, self.triples@[old_ts.len() + k].detail)
                        }
                }),
            decreases os.len() - j,
        {
            let ghost prev = merge_appends(old_ts, os.take(j as int));
            proof {
                lemma_merge_appends_bound(old_ts, os.take(j as int));
                assert(os.take(j + 1).drop_last() =~= os.take(j as int));
                assert(os.take(j + 1).last() == os[j as int]);
                assert forall|q: int| 0 <= q < prev.len() implies #[trigger] os.take(j + 1)[prev[q]] == os[prev[q]] by {
                    assert(0 <= prev[q] < j);
                }
            }
            let t = &other.triples[j];
            let known = self.has_fact(t);
            let ghost cur = self.triples();
            proof {
                let k = triple_key(os[j as int]);
                let existing_known = exists|i: int| 0 <= i < old_ts.len() && #[trigger] triple_key(old_ts[i]) == k;
                let appended_known = exists|q: int| 0 <= q < prev.len() && #[trigger] triple_key(os.take(j + 1)[prev[q]]) == k;
                assert(known == (existing_known || appended_known)) by {
                    if known {
                        let i = choose|i: int| 0 <= i < cur.len() && #[trigger] triple_key(cur[i]) == triple_key(*t);
                        if i < old_ts.len() {
                            assert(cur.take(old_ts.len() as int)[i] == cur[i]);
                        } else {
                            let q = i - old_ts.len();
                            assert(triple_key(cur[old_ts.len() + q]) == triple_key(os[prev[q]]));
                            assert(triple_key(os.take(j + 1)[prev[q]]) == k);
                        }
                    }
                    if existing_known {
                        let i = choose|i: int| 0 <= i < old_ts.len() && #[trigger] triple_key(old_ts[i]) == k;
                        assert(cur.take(old_ts.len() as int)[i] == cur[i]);
                        assert(triple_key(cur[i]) == triple_key(*t));
                    }
                    if appended_known {
                        let q = choose|q: int| 0 <= q < prev.len() && #[trigger] triple_key(os.take(j + 1)[prev[q]]) == k;
                        assert(triple_key(cur[old_ts.len() + q]) == triple_key(os[prev[q]]));
                        assert(triple_key(cur[old_ts.len() + q]) == triple_key(*t));
                    }
                }
            }
            if !known {
                let c = t.clone();
                self.triples.push(c);
                proof {
                    let adds = merge_appends(old_ts, os.take(j + 1));
                    assert(adds == prev.push(j as int));
                    assert(self.triples@.take(old_ts.len() as int) =~= cur.take(old_ts.len() as int));
                    assert forall|k: int| #![trigger self.triples@[old_ts.len() + k]] 0 <= k < adds.len() implies {
                        &&& triple_key(self.triples@[old_ts.len() + k]) == triple_key(os[adds[k]])
                        &&& cloned(os[adds[k]].detail, self.triples@[old_ts.len() + k].detail)
                    } by {
                        if k < prev.len() {
                            assert(self.triples@[old_ts.len() + k] == cur[old_ts.len() + k]);
                        }
                    }
                }
            } else {
                proof {
                    assert(merge_appends(old_ts, os.take(j + 1)) == prev);
                }
            }
            j += 1;
        }
        assert(os.take(j as int) =~= os);
        proof {
            let adds = merge_appends(old_ts, os);
            let fin = self.triples@;
            let mk = merged_keys(old_ts, os);
            let fk = fin.map_values(|t: KnowledgeTriple<D>| triple_key(t));
            assert forall|q: int| 0 <= q < fin.len() implies #[trigger] fk[q] == mk[q] by {
                if q < old_ts.len() {
                    assert(fin.take(old_ts.len() as int)[q] == fin[q]);
                } else {
                    let k = q - old_ts.len();
                    assert(triple_key(fin[old_ts.len() + k]) == triple_key(os[adds[k]]));
                }
            }
            assert(fk =~= mk);
        }
    }
}

/// Merging keeps every fact of the incoming graph: after it, each of them
/// is said by some fact of the result.
pub proof fn law_merge_covers<D>(existing: Seq<KnowledgeTriple<D>>, incoming: Seq<KnowledgeTriple<D>>)
    ensures
        forall|j: int| 0 <= j < incoming.len() ==> merged_keys(existing, incoming).contains(#[trigger] triple_key(incoming[j])),
    decreases incoming.len(),
{
    if incoming.len() > 0 {
        let pre = incoming.drop_last();
        law_merge_covers(existing, pre);
        lemma_merge_appends_bound(existing, pre);
        let prev = merge_appends(existing, pre);
        let all = merge_appends(existing, incoming);
        let mk = merged_keys(existing, incoming);
        let mp = merged_keys(existing, pre);
        let ek = existing.map_values(|t: KnowledgeTriple<D>| triple_key(t));
        assert(all.take(prev.len() as int) =~= prev);
        assert forall|q: int| 0 <= q < mp.len() implies #[trigger] mk[q] == mp[q] by {
            if q >= existing.len() {
                let k = q - existing.len();
                assert(all[k] == prev[k]);
                assert(pre[prev[k]] == incoming[prev[k]]);
            }
        }
        assert forall|j: int| 0 <= j < incoming.len() implies mk.contains(#[trigger] triple_key(incoming[j])) by {
            if j < pre.len() {
                assert(pre[j] == incoming[j]);
                assert(mp.contains(triple_key(pre[j])));
                let q = choose|q: int| 0 <= q < mp.len() && mp[q] == triple_key(pre[j]);
                assert(mk[q] == mp[q]);
            } else {
                let k = triple_key(incoming.last());
                if exists|i: int| 0 <= i < existing.len() && #[trigger] triple_key(existing[i]) == k {
                    let i = choose|i: int| 0 <= i < existing.len() && #[trigger] triple_key(existing[i]) == k;
                    assert(mk[i] == ek[i]);
                } else if exists|q: int| 0 <= q < prev.len() && #[trigger] triple_key(incoming[prev[q]]) == k {
                    let q = choose|q: int| 0 <= q < prev.len() && #[trigger] triple_key(incoming[prev[q]]) == k;
                    assert(all[q] == prev[q]);
                    assert(mk[existing.len() + q] == triple_key(incoming[all[q]]));
                } else {
                    assert(all == prev.push(incoming.len() - 1));
                    assert(mk[(existing.len() + prev.len()) as int] == triple_key(incoming[incoming.len() - 1]));
                }
            }
        }
    }
}

/// Merging adds no fact twice: when the existing facts say distinct things,
/// so do the facts after the merge.
pub proof fn law_merge_no_duplicates<D>(existing: Seq<KnowledgeTriple<D>>, incoming: Seq<KnowledgeTriple<D>>)
    requires
        existing.map_values(|t: KnowledgeTriple<D>| triple_key(t)).no_duplicates(),
    ensures
        merged_keys(existing, incoming).no_duplicates(),
    decreases incoming.len(),
{
    if incoming.len() > 0 {
        let pre = incoming.drop_last();
        law_merge_no_duplicates(existing, pre);
        lemma_merge_appends_bound(existing, pre);
        let prev = merge_appends(existing, pre);
        let all = merge_appends(existing, incoming);
        let mk = merged_keys(existing, incoming);
        let mp = merged_keys(existing, pre);
        let ek = existing.map_values(|t: KnowledgeTriple<D>| triple_key(t));
        assert forall|q: int| 0 <= q < mp.len() implies #[trigger] mp[q] == (if q < existing.len() {
            ek[q]
        } else {
            triple_key(incoming[prev[q - existing.len()]])
        }) by {
            if q >= existing.len() {
                assert(pre[prev[q - existing.len()]] == incoming[prev[q - existing.len()]]);
            }
        }
        if all == prev {
            assert(mk =~= mp) by {
                assert forall|q: int| 0 <= q < mp.len() implies #[trigger] mk[q] == mp[q] by {
                    if q >= existing.len() {
                        assert(pre[prev[q - existing.len()]] == incoming[prev[q - existing.len()]]);
                    }
                }
            }
        } else {
            let k = triple_key(incoming.last());
            assert(all == prev.push(incoming.len() - 1));
            assert(mk =~= mp.push(k)) by {
                assert forall|q: int| 0 <= q < mp.len() implies #[trigger] mk[q] == mp[q] by {
                    if q >= existing.len() {
                        assert(all[q - existing.len()] == prev[q - existing.len()]);
                        assert(pre[prev[q - existing.len()]] == incoming[prev[q - existing.len()]]);
                    }
                }
            }
            assert(!mp.contains(k)) by {
                if mp.contains(k) {
                    let q = choose|q: int| 0 <= q < mp.len() && mp[q] == k;
                    if q < existing.len() {
                        assert(triple_key(existing[q]) == k);
                    } else {
                        let r = q - existing.len();
                        assert(triple_key(incoming[prev[r]]) == k);
                    }
                }
            }
            assert forall|a: int, b: int| 0 <= a < mk.len() && 0 <= b < mk.len() && a != b implies mk[a] != mk[b] by {
                if a < mp.len() && b < mp.len() {
                    assert(mk[a] == mp[a] && mk[b] == mp[b]);
                } else if a < mp.len() {
                    assert(mk[a] == mp[a]);
                } else if b < mp.len() {
                    assert(mk[b] == mp[b]);
                }
            }
        }
    }
}

/// Merging the same graph again adds nothing.
pub proof fn law_merge_again_adds_nothing<D>(
    existing: Seq<KnowledgeTriple<D>>,
    incoming: Seq<KnowledgeTriple<D>>,
    after: Seq<KnowledgeTriple<D>>,
)
    requires
        after.map_values(|t: KnowledgeTriple<D>| triple_key(t)) == merged_keys(existing, incoming),
    ensures
        merge_appends(after, incoming).len() == 0,
{
    law_merge_covers(existing, incoming);
    lemma_all_known(after, incoming, incoming.len() as int);
    assert(incoming.take(incoming.len() as int) =~= incoming);
}

proof fn lemma_all_known<D>(after: Seq<KnowledgeTriple<D>>, incoming: Seq<KnowledgeTriple<D>>, n: int)
    requires
        0 <= n <= incoming.len(),
        forall|j: int|
            0 <= j < incoming.len() ==> after.map_values(|t: KnowledgeTriple<D>| triple_key(t)).contains(
                #[trigger] triple_key(incoming[j]),
            ),
    ensures
        merge_appends(after, incoming.take(n)).len() == 0,
    decreases n,
{
    if n > 0 {
        lemma_all_known(after, incoming, n - 1);
        let pre = incoming.take(n);
        assert(pre.drop_last() =~= incoming.take(n - 1));
        assert(pre.last() == incoming[n - 1]);
        let ak = after.map_values(|t: KnowledgeTriple<D>| triple_key(t));
        assert(ak.contains(triple_key(incoming[n - 1])));
        let i = choose|i: int| 0 <= i < ak.len() && ak[i] == triple_key(incoming[n - 1]);
        assert(triple_key(after[i]) == triple_key(pre.last()));
    }
}

/// The facts filed under the positions of a path, one row.
pub open spec fn row_matches<D>(row: Seq<&KnowledgeTriple<D>>, ts: Seq<KnowledgeTriple<D>>, p: Seq<int>) -> bool {
    &&& row.len() == p.len()
    &&& forall|m: int| 0 <= m < p.len() ==> *(#[trigger] row[m]) == ts[p[m]]
}

/// Rows of facts that follow the paths given as positions.
pub open spec fn path_rows<D>(rows: Seq<Vec<&KnowledgeTriple<D>>>, ts: Seq<KnowledgeTriple<D>>, ps: Seq<Seq<int>>) -> bool {
    &&& rows.len() == ps.len()
    &&& forall|k: int| #![trigger rows[k]] 0 <= k < rows.len() ==> row_matches(rows[k]@, ts, ps[k])
}

/// Appends `s` unless a string with the same characters is there.
fn push_new(v: &mut Vec<String>, s: &String)
    requires
        texts(old(v)@).no_duplicates(),
    ensures
        texts(final(v)@).no_duplicates(),
        forall|x: Seq<char>| #[trigger] texts(final(v)@).contains(x) <==> (texts(old(v)@).contains(x) || x == s@),
{
    let mut i: usize = 0;
    while i < v.len()
        invariant
            v@ == old(v)@,
            texts(v@).no_duplicates(),
            i <= v@.len(),
            forall|q: int| 0 <= q < i ==> #[trigger] v@[q]@ != s@,
        decreases v@.len() - i,
    {
        if str_equal(v[i].as_str(), s.as_str()) {
            assert(texts(v@)[i as int] == s@);
            return;
        }
        i += 1;
    }
    let ghost before = v@;
    v.push(s.clone());
    proof {
        assert(texts(v@) =~= texts(before).push(s@));
        assert(!texts(before).contains(s@)) by {
            if texts(before).contains(s@) {
                let q = choose|q: int| 0 <= q < texts(before).len() && texts(before)[q] == s@;
                assert(before[q]@ == s@);
            }
        }
        assert forall|x: Seq<char>| #[trigger] texts(v@).contains(x) <==> (texts(before).contains(x) || x == s@) by {
            if texts(v@).contains(x) && x != s@ {
                let q = choose|q: int| 0 <= q < texts(v@).len() && texts(v@)[q] == x;
                assert(texts(before)[q] == x);
            }
            if texts(before).contains(x) {
                let q = choose|q: int| 0 <= q < texts(before).len() && texts(before)[q] == x;
                assert(texts(v@)[q] == x);
            }
            if x == s@ {
                assert(texts(v@)[before.len() as int] == x);
            }
        }
    }
}

} // verus!
