//! Replicated data types for state synchronisation: vector clocks, a
//! grow-only counter, an observed-remove set and a last-writer-wins register.
use vstd::prelude::*;
use crate::keyed::{keys_distinct, seq_to_map, lemma_update, lemma_absent, lemma_push, lemma_entry, lemma_len, lemma_empty};
use crate::distributed::node::{NodeId, lex_greater, lemma_node_order};

verus! {

/// Values that the replicated types can hold: they are compared and copied
/// by what they denote.
pub trait CrdtValue: Sized + View {
    fn same(&self, other: &Self) -> (r: bool)
        ensures
            r == (self@ == other@),
    ;

    fn duplicate(&self) -> (r: Self)
        ensures
            r@ == self@,
    ;
}

impl CrdtValue for String {
    fn same(&self, other: &Self) -> (r: bool) {
        *self == *other
    }

    fn duplicate(&self) -> (r: Self) {
        self.clone()
    }
}

impl CrdtValue for u64 {
    fn same(&self, other: &Self) -> (r: bool) {
        *self == *other
    }

    fn duplicate(&self) -> (r: Self) {
        *self
    }
}

/// Causal relation between two clocks.
#[derive(Debug, Clone, Copy, PartialEq, Eq, Structural)]
pub enum CausalOrder {
    Before,
    After,
    Concurrent,
    Equal,
}

/// The count a map records for a node, zero when absent.
pub open spec fn count_at(m: Map<NodeId, u64>, n: NodeId) -> u64 {
    if m.dom().contains(n) {
        m[n]
    } else {
        0
    }
}

pub open spec fn max_u64(a: u64, b: u64) -> u64 {
    if a >= b {
        a
    } else {
        b
    }
}

/// Pointwise maximum of two count maps; the domain is the union.
pub open spec fn max_merge(a: Map<NodeId, u64>, b: Map<NodeId, u64>) -> Map<NodeId, u64> {
    Map::new(
        |k: NodeId| a.dom().contains(k) || b.dom().contains(k),
        |k: NodeId| max_u64(count_at(a, k), count_at(b, k)),
    )
}

/// Some node counts less in `a` than in `b`.
pub open spec fn counts_less_somewhere(a: Map<NodeId, u64>, b: Map<NodeId, u64>) -> bool {
    exists|n: NodeId| #[trigger] count_at(a, n) < count_at(b, n)
}

/// The causal relation of `a` to `b`.
pub open spec fn causal_order(a: Map<NodeId, u64>, b: Map<NodeId, u64>) -> CausalOrder {
    let less = counts_less_somewhere(a, b);
    let greater = counts_less_somewhere(b, a);
    if !less && !greater {
        CausalOrder::Equal
    } else if less && !greater {
        CausalOrder::Before
    } else if greater && !less {
        CausalOrder::After
    } else {
        CausalOrder::Concurrent
    }
}

/// Sum of the counts, in entry order.
pub open spec fn sum_counts(s: Seq<(NodeId, u64)>) -> nat
    decreases s.len(),
{
    if s.len() == 0 {
        0
    } else {
        sum_counts(s.drop_last()) + s.last().1 as nat
    }
}

/// The sum of the counts of a finite map.
pub open spec fn map_total(m: Map<NodeId, u64>) -> nat
    decreases m.dom().len(),
{
    if m.dom().finite() && m.dom().len() > 0 {
        let k = m.dom().choose();
        m[k] as nat + map_total(m.remove(k))
    } else {
        0
    }
}

/// The sum of a finite map's counts is any one count plus the sum of the
/// others; the empty map sums to zero.
pub proof fn lemma_map_total_remove(m: Map<NodeId, u64>, k: NodeId)
    requires
        m.dom().finite(),
    ensures
        m.dom().contains(k) ==> map_total(m) == m[k] + map_total(m.remove(k)),
        m.dom().len() == 0 ==> map_total(m) == 0,
    decreases m.dom().len(),
{
    if m.dom().contains(k) {
        let c = m.dom().choose();
        if c != k {
            lemma_map_total_remove(m.remove(c), k);
            lemma_map_total_remove(m.remove(k), c);
            assert(m.remove(c).remove(k) =~= m.remove(k).remove(c));
        }
    }
}

/// The entries' sum is the sum of the map they describe.
proof fn lemma_sum_is_map_total(s: Seq<(NodeId, u64)>)
    requires
        keys_distinct(s),
    ensures
        sum_counts(s) == map_total(seq_to_map(s)),
        seq_to_map(s).dom().finite(),
    decreases s.len(),
{
    lemma_len(s);
    if s.len() == 0 {
        lemma_empty::<NodeId, u64>();
    } else {
        let d = s.drop_last();
        let e = s.last();
        assert(keys_distinct(d)) by {
            assert forall|i: int, j: int| 0 <= i < d.len() && 0 <= j < d.len() && i != j implies #[trigger] d[i].0
                != #[trigger] d[j].0 by {
                assert(d[i] == s[i] && d[j] == s[j]);
            }
        }
        lemma_sum_is_map_total(d);
        assert forall|i: int| 0 <= i < d.len() implies #[trigger] d[i].0 != e.0 by {
            assert(d[i] == s[i]);
            assert(s[s.len() - 1] == e);
        }
        lemma_absent(d, e.0);
        lemma_push(d, e.0, e.1);
        assert(d.push(e) =~= s);
        lemma_map_total_remove(seq_to_map(s), e.0);
        assert(seq_to_map(s).remove(e.0) =~= seq_to_map(d));
    }
}

proof fn lemma_sum_update(s: Seq<(NodeId, u64)>, i: int, v: u64)
    requires
        0 <= i < s.len(),
    ensures
        sum_counts(s.update(i, (s[i].0, v))) + s[i].1 == sum_counts(s) + v,
    decreases s.len(),
{
    let t = s.update(i, (s[i].0, v));
    if i == s.len() - 1 {
        assert(t.drop_last() =~= s.drop_last());
    } else {
        lemma_sum_update(s.drop_last(), i, v);
        assert(t.drop_last() =~= s.drop_last().update(i, (s[i].0, v)));
    }
}

proof fn lemma_sum_push(s: Seq<(NodeId, u64)>, p: (NodeId, u64))
    ensures
        sum_counts(s.push(p)) == sum_counts(s) + p.1,
{
    assert(s.push(p).drop_last() =~= s);
}

fn copy_entries(v: &Vec<(NodeId, u64)>) -> (r: Vec<(NodeId, u64)>)
    ensures
        r@ == v@,
{
    let mut r: Vec<(NodeId, u64)> = Vec::new();
    let mut i: usize = 0;
    while i < v.len()
        invariant
            i <= v@.len(),
            r@ == v@.take(i as int),
        decreases v@.len() - i,
    {
        r.push(v[i]);
        i += 1;
        assert(r@ =~= v@.take(i as int));
    }
    assert(v@.take(i as int) =~= v@);
    r
}

/// Position of the entry for a node.
fn find_node(v: &Vec<(NodeId, u64)>, n: &NodeId) -> (r: Option<usize>)
    requires
        keys_distinct(v@),
    ensures
        match r {
            Some(i) => i < v@.len() && v@[i as int].0 == *n,
            None => !seq_to_map(v@).dom().contains(*n),
        },
{
    let mut i: usize = 0;
    while i < v.len()
        invariant
            i <= v@.len(),
            forall|j: int| 0 <= j < i ==> #[trigger] v@[j].0 != *n,
        decreases v@.len() - i,
    {
        if v[i].0.same_as(n) {
            return Some(i);
        }
        i += 1;
    }
    proof {
        lemma_absent(v@, *n);
    }
    None
}

fn counts_get(v: &Vec<(NodeId, u64)>, n: &NodeId) -> (r: u64)
    requires
        keys_distinct(v@),
    ensures
        r == count_at(seq_to_map(v@), *n),
{
    match find_node(v, n) {
        Some(i) => {
            proof {
                lemma_entry(v@, i as int);
            }
            v[i].1
        },
        None => 0,
    }
}

fn counts_increment(v: &mut Vec<(NodeId, u64)>, n: &NodeId)
    requires
        keys_distinct(old(v)@),
        count_at(seq_to_map(old(v)@), *n) < u64::MAX,
    ensures
        keys_distinct(final(v)@),
        seq_to_map(final(v)@) == seq_to_map(old(v)@).insert(
            *n,
            (count_at(seq_to_map(old(v)@), *n) + 1) as u64,
        ),
        sum_counts(final(v)@) == sum_counts(old(v)@) + 1,
{
    match find_node(v, n) {
        Some(i) => {
            let c = v[i].1;
            proof {
                lemma_entry(v@, i as int);
                lemma_update(v@, i as int, (c + 1) as u64);
                lemma_sum_update(v@, i as int, (c + 1) as u64);
            }
            v.set(i, (*n, c + 1));
        },
        None => {
            proof {
                lemma_push(v@, *n, 1u64);
                lemma_sum_push(v@, (*n, 1u64));
            }
            v.push((*n, 1));
        },
    }
}

fn counts_merge(v: &mut Vec<(NodeId, u64)>, other: &Vec<(NodeId, u64)>)
    requires
        keys_distinct(old(v)@),
        keys_distinct(other@),
    ensures
        keys_distinct(final(v)@),
        seq_to_map(final(v)@) == max_merge(seq_to_map(old(v)@), seq_to_map(other@)),
{
    let ghost a = seq_to_map(v@);
    let mut i: usize = 0;
    proof {
        lemma_empty::<NodeId, u64>();
        assert(other@.take(0) =~= Seq::<(NodeId, u64)>::empty());
        assert(max_merge(a, Map::empty()) =~= a);
    }
    while i < other.len()
        invariant
            i <= other@.len(),
            keys_distinct(other@),
            keys_distinct(v@),
            keys_distinct(other@.take(i as int)),
            seq_to_map(v@) == max_merge(a, seq_to_map(other@.take(i as int))),
        decreases other@.len() - i,
    {
        let (node, value) = other[i];
        let ghost pre = other@.take(i as int);
        let ghost post = other@.take(i + 1);
        proof {
            assert(post =~= pre.push((node, value)));
            assert forall|j: int| 0 <= j < pre.len() implies #[trigger] pre[j].0 != node by {
                assert(pre[j] == other@[j]);
            }
            lemma_absent(pre, node);
            lemma_push(pre, node, value);
        }
        match find_node(v, &node) {
            Some(k) => {
                let cur = v[k].1;
                let m = if cur >= value {
                    cur
                } else {
                    value
                };
                proof {
                    lemma_entry(v@, k as int);
                    lemma_update(v@, k as int, m);
                }
                v.set(k, (node, m));
            },
            None => {
                proof {
                    lemma_push(v@, node, value);
                }
                v.push((node, value));
            },
        }
        proof {
            assert(seq_to_map(v@) =~= max_merge(a, seq_to_map(post)));
        }
        i += 1;
    }
    assert(other@.take(other@.len() as int) =~= other@);
}

/// A vector clock: one logical time per node.
#[derive(Debug, Clone)]
pub struct VectorClock {
    entries: Vec<(NodeId, u64)>,
}

impl View for VectorClock {
    type V = Map<NodeId, u64>;

    closed spec fn view(&self) -> Map<NodeId, u64> {
        seq_to_map(self.entries@)
    }
}

impl VectorClock {
    /// Each node appears in one entry.
    pub closed spec fn wf(&self) -> bool {
        keys_distinct(self.entries@)
    }

    /// A clock with no entries.
    pub fn new() -> (r: VectorClock)
        ensures
            r.wf(),
            r@ == Map::<NodeId, u64>::empty(),
    {
        proof {
            lemma_empty::<NodeId, u64>();
        }
        VectorClock { entries: Vec::new() }
    }

    /// Advances the node's time by one.
    pub fn increment(&mut self, node: &NodeId)
        requires
            old(self).wf(),
            count_at(old(self)@, *node) < u64::MAX,
        ensures
            final(self).wf(),
            final(self)@ == old(self)@.insert(*node, (count_at(old(self)@, *node) + 1) as u64),
    {
        counts_increment(&mut self.entries, node);
    }

    /// Takes, per node, the larger of the two times.
    pub fn merge(&mut self, other: &VectorClock)
        requires
            old(self).wf(),
            other.wf(),
        ensures
            final(self).wf(),
            final(self)@ == max_merge(old(self)@, other@),
    {
        counts_merge(&mut self.entries, &other.entries);
    }

    /// The causal relation of this clock to `other`.
    pub fn compare(&self, other: &VectorClock) -> (r: CausalOrder)
        requires
            self.wf(),
            other.wf(),
        ensures
            r == causal_order(self@, other@),
    {
        let ghost a = self@;
        let ghost b = other@;
        let mut less = false;
        let mut greater = false;
        let mut i: usize = 0;
        while i < self.entries.len()
            invariant
                self.wf(),
                other.wf(),
                a == self@,
                b == other@,
                i <= self.entries@.len(),
                less ==> counts_less_somewhere(a, b),
                greater ==> counts_less_somewhere(b, a),
                forall|j: int|
                    0 <= j < i ==> count_at(b, #[trigger] self.entries@[j].0) <= count_at(
                        a,
                        self.entries@[j].0,
                    ) || less,
                forall|j: int|
                    0 <= j < i ==> count_at(a, #[trigger] self.entries@[j].0) <= count_at(
                        b,
                        self.entries@[j].0,
                    ) || greater,
            decreases self.entries@.len() - i,
        {
            let (n, sv) = self.entries[i];
            let ov = counts_get(&other.entries, &n);
            proof {
                lemma_entry(self.entries@, i as int);
            }
            if sv < ov {
                less = true;
                assert(count_at(a, n) < count_at(b, n));
            } else if sv > ov {
                greater = true;
                assert(count_at(b, n) < count_at(a, n));
            }
            i += 1;
        }
        let mut k: usize = 0;
        while k < other.entries.len()
            invariant
                self.wf(),
                other.wf(),
                a == self@,
                b == other@,
                k <= other.entries@.len(),
                less ==> counts_less_somewhere(a, b),
                greater ==> counts_less_somewhere(b, a),
                forall|n: NodeId|
                    a.dom().contains(n) ==> count_at(b, n) <= count_at(a, n) || less,
                forall|n: NodeId|
                    a.dom().contains(n) ==> count_at(a, n) <= count_at(b, n) || greater,
                forall|j: int|
                    0 <= j < k ==> count_at(b, #[trigger] other.entries@[j].0) <= count_at(
                        a,
                        other.entries@[j].0,
                    ) || less,
                forall|j: int|
                    0 <= j < k ==> count_at(a, #[trigger] other.entries@[j].0) <= count_at(
                        b,
                        other.entries@[j].0,
                    ) || greater,
            decreases other.entries@.len() - k,
        {
            let (n, ov) = other.entries[k];
            let sv = counts_get(&self.entries, &n);
            proof {
                lemma_entry(other.entries@, k as int);
            }
            if sv < ov {
                less = true;
                assert(count_at(a, n) < count_at(b, n));
            } else if sv > ov {
                greater = true;
                assert(count_at(b, n) < count_at(a, n));
            }
            k += 1;
            assert(forall|n: NodeId|
                a.dom().contains(n) ==> count_at(b, n) <= count_at(a, n) || less) by {
                assert forall|n: NodeId| a.dom().contains(n) implies count_at(b, n) <= count_at(
                    a,
                    n,
                ) || less by {
                    let j = crate::keyed::key_index(self.entries@, n);
                    lemma_entry(self.entries@, j);
                }
            }
        }
        proof {
            assert(less == counts_less_somewhere(a, b)) by {
                if counts_less_somewhere(a, b) && !less {
                    let n = choose|n: NodeId| #[trigger] count_at(a, n) < count_at(b, n);
                    assert(b.dom().contains(n));
                    let j = crate::keyed::key_index(other.entries@, n);
                    lemma_entry(other.entries@, j);
                    assert(count_at(b, other.entries@[j].0) <= count_at(a, other.entries@[j].0));
                }
            }
            assert(greater == counts_less_somewhere(b, a)) by {
                if counts_less_somewhere(b, a) && !greater {
                    let n = choose|n: NodeId| #[trigger] count_at(b, n) < count_at(a, n);
                    assert(a.dom().contains(n));
                }
            }
        }
        if !less && !greater {
            CausalOrder::Equal
        } else if less && !greater {
            CausalOrder::Before
        } else if greater && !less {
            CausalOrder::After
        } else {
            CausalOrder::Concurrent
        }
    }

    /// The node's time, zero when it has none.
    pub fn get(&self, node: &NodeId) -> (r: u64)
        requires
            self.wf(),
        ensures
            r == count_at(self@, *node),
    {
        counts_get(&self.entries, node)
    }

    /// Number of nodes that have a time.
    pub fn len(&self) -> (r: usize)
        requires
            self.wf(),
        ensures
            r == self@.dom().len(),
    {
        proof {
            lemma_len(self.entries@);
        }
        self.entries.len()
    }

    /// Whether no node has a time.
    pub fn is_empty(&self) -> (r: bool)
        requires
            self.wf(),
        ensures
            r == (self@.dom().len() == 0),
    {
        proof {
            lemma_len(self.entries@);
        }
        self.entries.len() == 0
    }

    /// A copy of the clock.
    pub fn duplicate(&self) -> (r: VectorClock)
        requires
            self.wf(),
        ensures
            r.wf(),
            r@ == self@,
    {
        VectorClock { entries: copy_entries(&self.entries) }
    }
}

impl Default for VectorClock {
    fn default() -> (r: VectorClock)
        ensures
            r.wf(),
            r@ == Map::<NodeId, u64>::empty(),
    {
        VectorClock::new()
    }
}

/// A grow-only counter: each node counts its own increments, and the value is
/// the sum over nodes.
#[derive(Debug, Clone)]
pub struct CrdtCounter {
    counts: Vec<(NodeId, u64)>,
}

impl View for CrdtCounter {
    type V = Map<NodeId, u64>;

    closed spec fn view(&self) -> Map<NodeId, u64> {
        seq_to_map(self.counts@)
    }
}

impl CrdtCounter {
    /// Each node appears in one entry.
    pub closed spec fn wf(&self) -> bool {
        keys_distinct(self.counts@)
    }

    /// The sum of all nodes' counts.
    pub closed spec fn total(&self) -> nat {
        sum_counts(self.counts@)
    }

    /// A counter with no counts.
    pub fn new() -> (r: CrdtCounter)
        ensures
            r.wf(),
            r@ == Map::<NodeId, u64>::empty(),
            r.total() == 0,
    {
        proof {
            lemma_empty::<NodeId, u64>();
        }
        CrdtCounter { counts: Vec::new() }
    }

    /// Counts one more for the node.
    pub fn increment(&mut self, node: &NodeId)
        requires
            old(self).wf(),
            count_at(old(self)@, *node) < u64::MAX,
        ensures
            final(self).wf(),
            final(self)@ == old(self)@.insert(*node, (count_at(old(self)@, *node) + 1) as u64),
            final(self).total() == old(self).total() + 1,
    {
        counts_increment(&mut self.counts, node);
    }

    /// Takes, per node, the larger of the two counts.
    pub fn merge(&mut self, other: &CrdtCounter)
        requires
            old(self).wf(),
            other.wf(),
        ensures
            final(self).wf(),
            final(self)@ == max_merge(old(self)@, other@),
            final(self).total() == map_total(final(self)@),
    {
        counts_merge(&mut self.counts, &other.counts);
        proof {
            lemma_sum_is_map_total(self.counts@);
        }
    }

    /// The total is the sum of the view's counts, over finitely many nodes.
    pub proof fn lemma_total_is_sum(&self)
        requires
            self.wf(),
        ensures
            self.total() == map_total(self@),
            self@.dom().finite(),
    {
        lemma_sum_is_map_total(self.counts@);
    }

    /// The sum of all nodes' counts.
    pub fn value(&self) -> (r: u64)
        requires
            self.wf(),
            self.total() <= u64::MAX,
        ensures
            r == self.total(),
            r == map_total(self@),
    {
        proof {
            lemma_sum_is_map_total(self.counts@);
        }
        let mut sum: u64 = 0;
        let mut i: usize = 0;
        while i < self.counts.len()
            invariant
                i <= self.counts@.len(),
                sum == sum_counts(self.counts@.take(i as int)),
                sum_counts(self.counts@) <= u64::MAX,
            decreases self.counts@.len() - i,
        {
            proof {
                assert(self.counts@.take(i + 1).drop_last() =~= self.counts@.take(i as int));
                lemma_sum_prefix(self.counts@, i + 1);
            }
            sum = sum + self.counts[i].1;
            i += 1;
        }
        assert(self.counts@.take(i as int) =~= self.counts@);
        sum
    }

    /// The node's count, zero when it has none.
    pub fn get(&self, node: &NodeId) -> (r: u64)
        requires
            self.wf(),
        ensures
            r == count_at(self@, *node),
    {
        counts_get(&self.counts, node)
    }

    /// Number of nodes with a count.
    pub fn node_count(&self) -> (r: usize)
        requires
            self.wf(),
        ensures
            r == self@.dom().len(),
    {
        proof {
            lemma_len(self.counts@);
        }
        self.counts.len()
    }
}

proof fn lemma_sum_prefix(s: Seq<(NodeId, u64)>, k: int)
    requires
        0 <= k <= s.len(),
    ensures
        sum_counts(s.take(k)) <= sum_counts(s),
    decreases s.len(),
{
    if k < s.len() {
        lemma_sum_prefix(s.drop_last(), k);
        assert(s.drop_last().take(k) =~= s.take(k));
    } else {
        assert(s.take(k) =~= s);
    }
}

impl Default for CrdtCounter {
    fn default() -> (r: CrdtCounter)
        ensures
            r.wf(),
            r@ == Map::<NodeId, u64>::empty(),
    {
        CrdtCounter::new()
    }
}


/// The views of the values held in a vector.
pub open spec fn value_views<T: View>(s: Seq<T>) -> Seq<T::V> {
    s.map_values(|t: T| t@)
}

/// The set of views of the values held in a vector.
pub open spec fn value_set<T: View>(s: Seq<T>) -> Set<T::V> {
    value_views(s).to_set()
}

/// The observed-remove merge of two (live, removed) states: live values of
/// either side that neither side removed, and all removals of both.
pub open spec fn or_merge<V>(a: (Set<V>, Set<V>), b: (Set<V>, Set<V>)) -> (Set<V>, Set<V>) {
    (a.0.union(b.0).difference(a.1.union(b.1)), a.1.union(b.1))
}

/// Position of a value (by view) in a vector.
fn position_of<T: CrdtValue>(v: &Vec<T>, x: &T) -> (r: Option<usize>)
    ensures
        match r {
            Some(i) => i < v@.len() && v@[i as int]@ == x@,
            None => !value_set(v@).contains(x@),
        },
{
    let mut i: usize = 0;
    while i < v.len()
        invariant
            i <= v@.len(),
            forall|j: int| 0 <= j < i ==> #[trigger] v@[j]@ != x@,
        decreases v@.len() - i,
    {
        if v[i].same(x) {
            return Some(i);
        }
        i += 1;
    }
    proof {
        if value_set(v@).contains(x@) {
            let j = choose|j: int| 0 <= j < value_views(v@).len() && value_views(v@)[j] == x@;
            assert(v@[j]@ == x@);
        }
    }
    None
}

proof fn lemma_value_set_push<T: View>(s: Seq<T>, x: T)
    ensures
        value_set(s.push(x)) == value_set(s).insert(x@),
        value_views(s.push(x)) == value_views(s).push(x@),
{
    assert(value_views(s.push(x)) =~= value_views(s).push(x@));
    value_views(s).lemma_push_to_set_commute(x@);
}

proof fn lemma_value_set_remove<T: View>(s: Seq<T>, i: int)
    requires
        0 <= i < s.len(),
        value_views(s).no_duplicates(),
    ensures
        value_set(s.remove(i)) == value_set(s).remove(s[i]@),
        value_views(s.remove(i)).no_duplicates(),
{
    let vs = value_views(s);
    let ws = value_views(s.remove(i));
    s.remove_ensures(i);
    assert(ws =~= vs.remove(i));
    vs.remove_ensures(i);
    assert forall|x: T::V| #[trigger] ws.to_set().contains(x) <==> vs.to_set().remove(
        s[i]@,
    ).contains(x) by {
        assert(vs[i] == s[i]@);
        if ws.to_set().contains(x) {
            assert(ws.contains(x));
            let a = choose|a: int| 0 <= a < ws.len() && ws[a] == x;
            let a2 = if a < i { a } else { a + 1 };
            assert(vs[a2] == x);
            assert(a2 != i);
            assert(vs[a2] != vs[i]);
            assert(vs.contains(x));
        }
        if vs.to_set().contains(x) && x != s[i]@ {
            assert(vs.contains(x));
            let a = choose|a: int| 0 <= a < vs.len() && vs[a] == x;
            assert(a != i);
            let a1 = if a < i { a } else { a - 1 };
            assert(ws[a1] == x);
            assert(ws.contains(x));
        }
    }
    assert(ws.to_set() =~= vs.to_set().remove(s[i]@));
}

proof fn lemma_value_set_len<T: View>(s: Seq<T>)
    requires
        value_views(s).no_duplicates(),
    ensures
        value_set(s).len() == s.len(),
{
    value_views(s).unique_seq_to_set();
}

/// Adds a value (by view) to a vector that holds each view once.
fn insert_value<T: CrdtValue>(v: &mut Vec<T>, x: T)
    requires
        value_views(old(v)@).no_duplicates(),
    ensures
        value_views(final(v)@).no_duplicates(),
        value_set(final(v)@) == value_set(old(v)@).insert(x@),
{
    match position_of(v, &x) {
        Some(i) => {
            assert(value_set(v@).contains(x@)) by {
                assert(value_views(v@)[i as int] == x@);
            }
            assert(value_set(v@).insert(x@) =~= value_set(v@));
        },
        None => {
            proof {
                lemma_value_set_push(v@, x);
            }
            v.push(x);
        },
    }
}

/// An observed-remove set: removal leaves a tombstone, and a value with a
/// tombstone never becomes live again.
#[derive(Debug, Clone)]
pub struct CrdtSet<T: CrdtValue> {
    items: Vec<T>,
    tombstones: Vec<T>,
}

impl<T: CrdtValue> View for CrdtSet<T> {
    type V = (Set<T::V>, Set<T::V>);

    /// (live values, removed values)
    closed spec fn view(&self) -> (Set<T::V>, Set<T::V>) {
        (value_set(self.items@), value_set(self.tombstones@))
    }
}

impl<T: CrdtValue> CrdtSet<T> {
    /// Each value is held once, and no live value has a tombstone.
    pub closed spec fn wf(&self) -> bool {
        &&& value_views(self.items@).no_duplicates()
        &&& value_views(self.tombstones@).no_duplicates()
        &&& value_set(self.items@).disjoint(value_set(self.tombstones@))
    }

    /// No live value has a tombstone, and both sets are finite.
    pub proof fn lemma_live_and_removed_disjoint(&self)
        requires
            self.wf(),
        ensures
            self@.0.disjoint(self@.1),
            self@.0.finite(),
            self@.1.finite(),
    {
        lemma_value_set_len(self.items@);
        lemma_value_set_len(self.tombstones@);
    }

    /// An empty set without tombstones.
    pub fn new() -> (r: CrdtSet<T>)
        ensures
            r.wf(),
            r@.0 == Set::<T::V>::empty(),
            r@.1 == Set::<T::V>::empty(),
    {
        let r = CrdtSet { items: Vec::new(), tombstones: Vec::new() };
        assert(value_set(r.items@) =~= Set::<T::V>::empty());
        assert(value_set(r.tombstones@) =~= Set::<T::V>::empty());
        r
    }

    /// Adds a value unless it was removed before.
    pub fn add(&mut self, item: T)
        requires
            old(self).wf(),
        ensures
            final(self).wf(),
            final(self)@.1 == old(self)@.1,
            old(self)@.1.contains(item@) ==> final(self)@.0 == old(self)@.0,
            !old(self)@.1.contains(item@) ==> final(self)@.0 == old(self)@.0.insert(item@),
    {
        match position_of(&self.tombstones, &item) {
            Some(i) => {
                assert(value_views(self.tombstones@)[i as int] == item@);
            },
            None => {
                insert_value(&mut self.items, item);
            },
        }
    }

    /// Removes a value and records its tombstone.
    pub fn remove(&mut self, item: &T)
        requires
            old(self).wf(),
        ensures
            final(self).wf(),
            final(self)@.0 == old(self)@.0.remove(item@),
            final(self)@.1 == old(self)@.1.insert(item@),
    {
        match position_of(&self.items, item) {
            Some(i) => {
                proof {
                    lemma_value_set_remove(self.items@, i as int);
                }
                self.items.remove(i);
            },
            None => {
                assert(value_set(self.items@).remove(item@) =~= value_set(self.items@));
            },
        }
        let copy = item.duplicate();
        insert_value(&mut self.tombstones, copy);
    }

    /// Merges another replica: live values of either side without a
    /// tombstone on either side, and the union of tombstones.
    pub fn merge(&mut self, other: &CrdtSet<T>)
        requires
            old(self).wf(),
            other.wf(),
        ensures
            final(self).wf(),
            final(self)@ == or_merge(old(self)@, other@),
    {
        let ghost a = self@;
        let ghost b = other@;
        let mut i: usize = 0;
        while i < other.tombstones.len()
            invariant
                i <= other.tombstones@.len(),
                value_views(self.tombstones@).no_duplicates(),
                value_views(self.items@).no_duplicates(),
                self.items@ == old(self).items@,
                value_set(self.tombstones@) == a.1.union(value_set(other.tombstones@.take(i as int))),
                a == old(self)@,
            decreases other.tombstones@.len() - i,
        {
            let t = other.tombstones[i].duplicate();
            proof {
                assert(other.tombstones@.take(i + 1) =~= other.tombstones@.take(i as int).push(other.tombstones@[i as int]));
                lemma_value_set_push(other.tombstones@.take(i as int), other.tombstones@[i as int]);
            }
            insert_value(&mut self.tombstones, t);
            i += 1;
            assert(value_set(self.tombstones@) =~= a.1.union(value_set(other.tombstones@.take(i as int))));
        }
        assert(other.tombstones@.take(i as int) =~= other.tombstones@);
        let mut k: usize = 0;
        while k < other.items.len()
            invariant
                k <= other.items@.len(),
                value_views(self.tombstones@).no_duplicates(),
                value_views(self.items@).no_duplicates(),
                value_set(self.tombstones@) == a.1.union(b.1),
                value_set(self.items@) == a.0.union(value_set(other.items@.take(k as int)).difference(a.1.union(b.1))),
                b == other@,
            decreases other.items@.len() - k,
        {
            let ghost pre = other.items@.take(k as int);
            proof {
                assert(other.items@.take(k + 1) =~= pre.push(other.items@[k as int]));
                lemma_value_set_push(pre, other.items@[k as int]);
            }
            match position_of(&self.tombstones, &other.items[k]) {
                Some(j) => {
                    assert(value_views(self.tombstones@)[j as int] == other.items@[k as int]@);
                },
                None => {
                    let x = other.items[k].duplicate();
                    insert_value(&mut self.items, x);
                },
            }
            k += 1;
            assert(value_set(self.items@) =~= a.0.union(value_set(other.items@.take(k as int)).difference(a.1.union(b.1))));
        }
        assert(other.items@.take(k as int) =~= other.items@);
        let ghost tomb = a.1.union(b.1);
        let mut kept: Vec<T> = Vec::new();
        let mut items = Vec::new();
        std::mem::swap(&mut items, &mut self.items);
        let mut m: usize = 0;
        while m < items.len()
            invariant
                m <= items@.len(),
                value_views(items@).no_duplicates(),
                value_views(self.tombstones@).no_duplicates(),
                value_set(self.tombstones@) == tomb,
                value_views(kept@).no_duplicates(),
                forall|x: T::V| #[trigger] value_set(kept@).contains(x) <==> (value_set(items@.take(m as int)).contains(x) && !tomb.contains(x)),
                forall|x: T::V| value_set(kept@).contains(x) ==> value_set(items@.take(m as int)).contains(x),
            decreases items@.len() - m,
        {
            let ghost pre = items@.take(m as int);
            proof {
                assert(items@.take(m + 1) =~= pre.push(items@[m as int]));
                lemma_value_set_push(pre, items@[m as int]);
            }
            match position_of(&self.tombstones, &items[m]) {
                Some(j) => {
                    assert(value_views(self.tombstones@)[j as int] == items@[m as int]@);
                },
                None => {
                    let x = items[m].duplicate();
                    proof {
                        if value_set(kept@).contains(x@) {
                            let q = choose|q: int| 0 <= q < pre.len() && value_views(pre)[q] == x@;
                            assert(value_views(items@)[q] == value_views(items@)[m as int]);
                        }
                        lemma_value_set_push(kept@, x);
                        assert forall|a1: int, b1: int| 0 <= a1 < value_views(kept@.push(x)).len() && 0 <= b1 < value_views(kept@.push(x)).len() && a1 != b1 implies value_views(kept@.push(x))[a1] != value_views(kept@.push(x))[b1] by {
                            if a1 == kept@.len() as int {
                                assert(value_set(kept@).contains(value_views(kept@)[b1]));
                            } else if b1 == kept@.len() as int {
                                assert(value_set(kept@).contains(value_views(kept@)[a1]));
                            }
                        }
                    }
                    kept.push(x);
                },
            }
            m += 1;
        }
        assert(items@.take(m as int) =~= items@);
        self.items = kept;
        assert(value_set(self.items@) =~= or_merge(a, b).0);
        assert(value_set(self.tombstones@) =~= or_merge(a, b).1);
    }

    /// Whether the value is live.
    pub fn contains(&self, item: &T) -> (r: bool)
        requires
            self.wf(),
        ensures
            r == self@.0.contains(item@),
    {
        match position_of(&self.items, item) {
            Some(i) => {
                assert(value_views(self.items@)[i as int] == item@);
                true
            },
            None => false,
        }
    }

    /// The live values.
    pub fn items(&self) -> (r: &Vec<T>)
        requires
            self.wf(),
        ensures
            value_set(r@) == self@.0,
            value_views(r@).no_duplicates(),
    {
        &self.items
    }

    /// Number of live values.
    pub fn len(&self) -> (r: usize)
        requires
            self.wf(),
        ensures
            r == self@.0.len(),
    {
        proof {
            lemma_value_set_len(self.items@);
        }
        self.items.len()
    }

    /// Whether no value is live.
    pub fn is_empty(&self) -> (r: bool)
        requires
            self.wf(),
        ensures
            r == (self@.0.len() == 0),
    {
        proof {
            lemma_value_set_len(self.items@);
        }
        self.items.len() == 0
    }

    /// Number of tombstones.
    pub fn tombstone_count(&self) -> (r: usize)
        requires
            self.wf(),
        ensures
            r == self@.1.len(),
    {
        proof {
            lemma_value_set_len(self.tombstones@);
        }
        self.tombstones.len()
    }
}

impl<T: CrdtValue> Default for CrdtSet<T> {
    fn default() -> (r: CrdtSet<T>)
        ensures
            r.wf(),
            r@.0 == Set::<T::V>::empty(),
            r@.1 == Set::<T::V>::empty(),
    {
        CrdtSet::new()
    }
}


/// A write with stamp (`ts`, `node`) supersedes one with (`cur_ts`,
/// `cur_node`): a later time, or the same time from a greater node.
pub open spec fn stamp_wins(ts: u64, node: NodeId, cur_ts: u64, cur_node: NodeId) -> bool {
    ts > cur_ts || (ts == cur_ts && lex_greater(node.0@, cur_node.0@))
}

/// Last-writer-wins merge of two register states (value, time, node).
pub open spec fn lww_merge<V>(a: (Option<V>, u64, NodeId), b: (Option<V>, u64, NodeId)) -> (
    Option<V>,
    u64,
    NodeId,
) {
    if stamp_wins(b.1, b.2, a.1, a.2) {
        b
    } else {
        a
    }
}

/// A last-writer-wins register.
#[derive(Debug, Clone)]
pub struct CrdtRegister<T: CrdtValue> {
    value: Option<T>,
    timestamp: u64,
    node: NodeId,
}

/// The view of an optional value.
pub open spec fn option_view<T: View>(o: Option<T>) -> Option<T::V> {
    match o {
        Some(t) => Some(t@),
        None => None,
    }
}

impl<T: CrdtValue> View for CrdtRegister<T> {
    type V = (Option<T::V>, u64, NodeId);

    closed spec fn view(&self) -> (Option<T::V>, u64, NodeId) {
        (option_view(self.value), self.timestamp, self.node)
    }
}

impl<T: CrdtValue> CrdtRegister<T> {
    /// An empty register owned by `node`, at time zero.
    pub fn new(node: NodeId) -> (r: CrdtRegister<T>)
        ensures
            r@ == (None::<T::V>, 0u64, node),
    {
        CrdtRegister { value: None, timestamp: 0, node }
    }

    /// A register holding `value` written by `node` at `timestamp`.
    pub fn with_value(node: NodeId, value: T, timestamp: u64) -> (r: CrdtRegister<T>)
        ensures
            r@ == (Some(value@), timestamp, node),
    {
        CrdtRegister { value: Some(value), timestamp, node }
    }

    /// Writes `value` if its stamp supersedes the current one.
    pub fn set(&mut self, value: T, timestamp: u64, node: &NodeId)
        ensures
            stamp_wins(timestamp, *node, old(self)@.1, old(self)@.2) ==> final(self)@ == (
                Some(value@),
                timestamp,
                *node,
            ),
            !stamp_wins(timestamp, *node, old(self)@.1, old(self)@.2) ==> final(self)@ == old(
                self,
            )@,
    {
        if timestamp > self.timestamp || (timestamp == self.timestamp && node.greater_than(
            &self.node,
        )) {
            self.value = Some(value);
            self.timestamp = timestamp;
            self.node = *node;
        }
    }

    /// Keeps whichever of the two states has the superseding stamp.
    pub fn merge(&mut self, other: &CrdtRegister<T>)
        ensures
            final(self)@ == lww_merge(old(self)@, other@),
    {
        if other.timestamp > self.timestamp || (other.timestamp == self.timestamp
            && other.node.greater_than(&self.node)) {
            self.value = match &other.value {
                Some(v) => Some(v.duplicate()),
                None => None,
            };
            self.timestamp = other.timestamp;
            self.node = other.node;
        }
    }

    /// The current value.
    pub fn get(&self) -> (r: Option<&T>)
        ensures
            match r {
                Some(v) => self@.0 == Some(v@),
                None => self@.0.is_none(),
            },
    {
        match &self.value {
            Some(v) => Some(v),
            None => None,
        }
    }

    /// Time of the last accepted write.
    pub fn timestamp(&self) -> (r: u64)
        ensures
            r == self@.1,
    {
        self.timestamp
    }

    /// Node of the last accepted write.
    pub fn node(&self) -> (r: &NodeId)
        ensures
            *r == self@.2,
    {
        &self.node
    }
}

// ---------------------------------------------------------------------------
// Laws of the replicated types
// ---------------------------------------------------------------------------

/// Merging count maps is commutative, associative and idempotent, and the
/// result dominates both inputs node by node.
pub proof fn law_max_merge(a: Map<NodeId, u64>, b: Map<NodeId, u64>, c: Map<NodeId, u64>)
    ensures
        max_merge(a, b) == max_merge(b, a),
        max_merge(max_merge(a, b), c) == max_merge(a, max_merge(b, c)),
        max_merge(a, a) == a,
        forall|n: NodeId|
            count_at(a, n) <= #[trigger] count_at(max_merge(a, b), n) && count_at(b, n)
                <= count_at(max_merge(a, b), n),
{
    assert(max_merge(a, b) =~= max_merge(b, a));
    assert(max_merge(max_merge(a, b), c) =~= max_merge(a, max_merge(b, c)));
    assert(max_merge(a, a) =~= a);
}

/// Causal order is antisymmetric: `a` before `b` exactly when `b` after `a`,
/// and two clocks are equal in order exactly when they agree on every node.
pub proof fn law_causal_order_symmetry(a: Map<NodeId, u64>, b: Map<NodeId, u64>)
    ensures
        (causal_order(a, b) == CausalOrder::Before) == (causal_order(b, a) == CausalOrder::After),
        (causal_order(a, b) == CausalOrder::Concurrent) == (causal_order(b, a)
            == CausalOrder::Concurrent),
        (causal_order(a, b) == CausalOrder::Equal) == (forall|n: NodeId|
            #[trigger] count_at(a, n) == count_at(b, n)),
{
    if causal_order(a, b) == CausalOrder::Equal {
        assert forall|n: NodeId| #[trigger] count_at(a, n) == count_at(b, n) by {
            if count_at(a, n) < count_at(b, n) {
                assert(counts_less_somewhere(a, b));
            }
            if count_at(b, n) < count_at(a, n) {
                assert(counts_less_somewhere(b, a));
            }
        }
    }
}

/// After merging `a` into a copy of `b`, `b` is causally before or equal to
/// the result: merging never loses an event.
pub proof fn law_merge_dominates(a: Map<NodeId, u64>, b: Map<NodeId, u64>)
    ensures
        causal_order(b, max_merge(b, a)) == CausalOrder::Before || causal_order(
            b,
            max_merge(b, a),
        ) == CausalOrder::Equal,
{
    let m = max_merge(b, a);
    if counts_less_somewhere(m, b) {
        let n = choose|n: NodeId| #[trigger] count_at(m, n) < count_at(b, n);
        assert(count_at(b, n) <= count_at(m, n));
    }
}

/// Incrementing a clock puts the new clock causally after the old one.
pub proof fn law_increment_advances(a: Map<NodeId, u64>, n: NodeId)
    requires
        count_at(a, n) < u64::MAX,
    ensures
        causal_order(a.insert(n, (count_at(a, n) + 1) as u64), a) == CausalOrder::After,
{
    let b = a.insert(n, (count_at(a, n) + 1) as u64);
    assert(count_at(a, n) < count_at(b, n));
    if counts_less_somewhere(b, a) {
        let m = choose|m: NodeId| #[trigger] count_at(b, m) < count_at(a, m);
        if m == n {
        } else {
            assert(count_at(b, m) == count_at(a, m));
        }
    }
}

/// The observed-remove merge is commutative and associative, and idempotent
/// on states whose live values have no tombstone.
pub proof fn law_or_merge<V>(a: (Set<V>, Set<V>), b: (Set<V>, Set<V>), c: (Set<V>, Set<V>))
    ensures
        or_merge(a, b) == or_merge(b, a),
        or_merge(or_merge(a, b), c) == or_merge(a, or_merge(b, c)),
        a.0.disjoint(a.1) ==> or_merge(a, a) == a,
{
    assert(or_merge(a, b).0 =~= or_merge(b, a).0);
    assert(or_merge(a, b).1 =~= or_merge(b, a).1);
    assert(or_merge(or_merge(a, b), c).0 =~= or_merge(a, or_merge(b, c)).0);
    assert(or_merge(or_merge(a, b), c).1 =~= or_merge(a, or_merge(b, c)).1);
    if a.0.disjoint(a.1) {
        assert(or_merge(a, a).0 =~= a.0);
        assert(or_merge(a, a).1 =~= a.1);
    }
}

/// A removed value stays removed: its tombstone survives every merge, and
/// no merge makes it live again.
pub proof fn law_tombstone_wins<V>(a: (Set<V>, Set<V>), b: (Set<V>, Set<V>), x: V)
    requires
        a.1.contains(x),
    ensures
        or_merge(a, b).1.contains(x),
        or_merge(b, a).1.contains(x),
        !or_merge(a, b).0.contains(x),
        !or_merge(b, a).0.contains(x),
{
}

/// Once a value has been removed from a set, adding it again changes
/// nothing: it stays absent and the number of live values stays the same.
pub proof fn law_no_add_after_remove<T: CrdtValue>(s1: CrdtSet<T>, s2: CrdtSet<T>, x: T::V)
    requires
        s1.wf(),
        s1@.1.contains(x),
        s2@.1 == s1@.1,
        s1@.1.contains(x) ==> s2@.0 == s1@.0,
    ensures
        !s2@.0.contains(x),
        s2@.0.len() == s1@.0.len(),
        s2@.1.contains(x),
{
    s1.lemma_live_and_removed_disjoint();
}

/// Last-writer-wins merge is associative and idempotent, and commutative
/// unless the two states carry the same stamp with different values.
pub proof fn law_lww_merge<V>(
    a: (Option<V>, u64, NodeId),
    b: (Option<V>, u64, NodeId),
    c: (Option<V>, u64, NodeId),
)
    ensures
        lww_merge(a, a) == a,
        lww_merge(lww_merge(a, b), c) == lww_merge(a, lww_merge(b, c)),
        (a.1 != b.1 || a.2 != b.2 || a == b) ==> lww_merge(a, b) == lww_merge(b, a),
{
    lemma_node_order(a.2, b.2, c.2);
    lemma_node_order(b.2, c.2, a.2);
    lemma_node_order(c.2, a.2, b.2);
    lemma_node_order(a.2, c.2, b.2);
    lemma_node_order(b.2, a.2, c.2);
    lemma_node_order(c.2, b.2, a.2);
}

} // verus!
