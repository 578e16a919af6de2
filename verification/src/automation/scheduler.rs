//! The task scheduler: tasks with dependencies, a ready queue served by
//! priority, and the dependency graph's cycles and orders.
use vstd::prelude::*;
use crate::keyed::{keys_distinct, has_key, key_index, seq_to_map, lemma_entry, lemma_absent, lemma_empty, lemma_push, lemma_update, lemma_len};
use crate::automation::error::AutomationError;
use crate::automation::task::{Task, TaskPriority, TaskResult, priority_rank};
use crate::automation::graph::{DepGraph, graph_of, graph_wf, has_cycle, has_dangling, is_topo_order, peel, lemma_peel_nodes_only, lemma_peel_all};

verus! {

// ---------------------------------------------------------------------------
// The model
// ---------------------------------------------------------------------------

/// Adjacency lists by node id.
pub open spec fn adj_entries(v: Seq<(u64, Vec<u64>)>) -> Seq<(u64, Seq<u64>)> {
    v.map_values(|p: (u64, Vec<u64>)| (p.0, p.1@))
}

/// The list of `k`, or an empty one.
pub open spec fn list_or_empty(m: Map<u64, Seq<u64>>, k: u64) -> Seq<u64> {
    if m.dom().contains(k) {
        m[k]
    } else {
        Seq::empty()
    }
}

/// `id` added at the end of the list of each dependency in turn.
pub open spec fn add_reverse(m: Map<u64, Seq<u64>>, deps: Seq<u64>, id: u64) -> Map<u64, Seq<u64>>
    decreases deps.len(),
{
    if deps.len() == 0 {
        m
    } else {
        let m1 = add_reverse(m, deps.drop_last(), id);
        m1.insert(deps.last(), list_or_empty(m1, deps.last()).push(id))
    }
}

/// Queue entries are ordered by priority, then by id.
pub open spec fn entry_lt(a: (TaskPriority, u64), b: (TaskPriority, u64)) -> bool {
    priority_rank(a.0) < priority_rank(b.0) || (priority_rank(a.0) == priority_rank(b.0) && a.1 < b.1)
}

/// Ascending; the last entry is served first.
pub open spec fn sorted_queue(q: Seq<(TaskPriority, u64)>) -> bool {
    forall|i: int, j: int| 0 <= i < j < q.len() ==> !#[trigger] entry_lt(q[j], q[i])
}

/// An entry whose task has neither completed nor failed.
pub open spec fn live(c: Set<u64>, f: Set<u64>, e: (TaskPriority, u64)) -> bool {
    !c.contains(e.1) && !f.contains(e.1)
}

/// The position of the last live entry, or -1.
pub open spec fn last_live(q: Seq<(TaskPriority, u64)>, c: Set<u64>, f: Set<u64>) -> int
    decreases q.len(),
{
    if q.len() == 0 {
        -1
    } else if live(c, f, q.last()) {
        q.len() - 1
    } else {
        last_live(q.drop_last(), c, f)
    }
}

/// The entry `next_task` serves is live and of the highest priority among
/// the live entries (the higher id among equals); none is served only when
/// no entry is live.
pub proof fn law_next_is_highest(q: Seq<(TaskPriority, u64)>, c: Set<u64>, f: Set<u64>)
    requires
        sorted_queue(q),
    ensures
        last_live(q, c, f) < 0 ==> forall|j: int| 0 <= j < q.len() ==> !live(c, f, #[trigger] q[j]),
        last_live(q, c, f) >= 0 ==> {
            let k = last_live(q, c, f);
            &&& k < q.len()
            &&& live(c, f, q[k])
            &&& forall|j: int| 0 <= j < q.len() && live(c, f, q[j]) ==> !entry_lt(q[k], #[trigger] q[j])
        },
    decreases q.len(),
{
    if q.len() > 0 {
        let d = q.drop_last();
        assert(sorted_queue(d)) by {
            assert forall|i: int, j: int| 0 <= i < j < d.len() implies !#[trigger] entry_lt(d[j], d[i]) by {
                assert(d[i] == q[i] && d[j] == q[j]);
            }
        }
        law_next_is_highest(d, c, f);
        if live(c, f, q.last()) {
            assert forall|j: int| 0 <= j < q.len() && live(c, f, q[j]) implies !entry_lt(q[q.len() - 1], #[trigger] q[j]) by {
                if j < q.len() - 1 {
                    assert(!entry_lt(q[q.len() - 1], q[j]));
                }
            }
        } else {
            assert forall|j: int| 0 <= j < q.len() && live(c, f, q[j]) implies j < d.len() && d[j] == q[j] by {
                if j == q.len() - 1 {
                    assert(q[j] == q.last());
                }
            }
        }
    }
}

/// The first dependency that is neither a task nor completed.
pub open spec fn first_missing(deps: Seq<u64>, known: Set<u64>) -> Option<u64>
    decreases deps.len(),
{
    if deps.len() == 0 {
        None
    } else if !known.contains(deps[0]) {
        Some(deps[0])
    } else {
        first_missing(deps.drop_first(), known)
    }
}

/// Every dependency is completed.
pub open spec fn all_completed(deps: Seq<u64>, c: Set<u64>) -> bool {
    forall|i: int| 0 <= i < deps.len() ==> c.contains(#[trigger] deps[i])
}

/// A dependent becomes ready: it has a dependency list, all of it is
/// completed, and it has itself neither completed nor failed.
pub open spec fn unblocks(dm: Map<u64, Seq<u64>>, c: Set<u64>, f: Set<u64>, d: u64) -> bool {
    dm.dom().contains(d) && all_completed(dm[d], c) && !c.contains(d) && !f.contains(d)
}

/// The priority of a task, or normal for an unknown one.
pub open spec fn priority_of(tm: Map<u64, Task>, id: u64) -> TaskPriority {
    if tm.dom().contains(id) {
        tm[id].priority
    } else {
        TaskPriority::Normal
    }
}

pub open spec fn task_entries(v: Seq<Task>) -> Seq<(u64, Task)> {
    v.map_values(|t: Task| (t.id, t))
}

// ---------------------------------------------------------------------------
// Keyed lists
// ---------------------------------------------------------------------------

fn find_adj(v: &Vec<(u64, Vec<u64>)>, k: u64) -> (r: Option<usize>)
    requires
        keys_distinct(adj_entries(v@)),
    ensures
        match r {
            Some(i) => i < v@.len() && v@[i as int].0 == k && seq_to_map(adj_entries(v@)).dom().contains(k)
                && seq_to_map(adj_entries(v@))[k] == v@[i as int].1@,
            None => !seq_to_map(adj_entries(v@)).dom().contains(k),
        },
{
    let ghost s = adj_entries(v@);
    let mut i: usize = 0;
    while i < v.len()
        invariant
            i <= v@.len(),
            s == adj_entries(v@),
            keys_distinct(s),
            forall|q: int| 0 <= q < i ==> #[trigger] s[q].0 != k,
        decreases v@.len() - i,
    {
        assert(s[i as int].0 == v@[i as int].0);
        if v[i].0 == k {
            proof {
                lemma_entry(s, i as int);
            }
            return Some(i);
        }
        i += 1;
    }
    proof {
        lemma_absent(s, k);
    }
    None
}

pub(crate) fn copy_list(v: &Vec<u64>) -> (r: Vec<u64>)
    ensures
        r@ == v@,
{
    let mut r: Vec<u64> = Vec::new();
    let mut i: usize = 0;
    while i < v.len()
        invariant
            i <= v@.len(),
            r@ == v@.take(i as int),
        decreases v@.len() - i,
    {
        r.push(v[i]);
        assert(v@.take(i + 1) =~= v@.take(i as int).push(v@[i as int]));
        i += 1;
    }
    assert(v@.take(i as int) =~= v@);
    r
}

/// Sets the list of `k`.
fn set_adj(v: &mut Vec<(u64, Vec<u64>)>, k: u64, list: Vec<u64>)
    requires
        keys_distinct(adj_entries(old(v)@)),
    ensures
        keys_distinct(adj_entries(final(v)@)),
        seq_to_map(adj_entries(final(v)@)) == seq_to_map(adj_entries(old(v)@)).insert(k, list@),
{
    let ghost s = adj_entries(v@);
    let ghost l = list@;
    match find_adj(v, k) {
        Some(i) => {
            v.set(i, (k, list));
            proof {
                lemma_update(s, i as int, l);
                assert(adj_entries(v@) =~= s.update(i as int, (k, l)));
            }
        },
        None => {
            v.push((k, list));
            proof {
                lemma_push(s, k, l);
                assert(adj_entries(v@) =~= s.push((k, l)));
            }
        },
    }
}

/// Adds `x` at the end of the list of `k`.
fn push_adj(v: &mut Vec<(u64, Vec<u64>)>, k: u64, x: u64)
    requires
        keys_distinct(adj_entries(old(v)@)),
    ensures
        keys_distinct(adj_entries(final(v)@)),
        seq_to_map(adj_entries(final(v)@)) == seq_to_map(adj_entries(old(v)@)).insert(
            k,
            list_or_empty(seq_to_map(adj_entries(old(v)@)), k).push(x),
        ),
{
    let list = match find_adj(v, k) {
        Some(i) => {
            let mut l = copy_list(&v[i].1);
            l.push(x);
            l
        },
        None => {
            let mut l: Vec<u64> = Vec::new();
            l.push(x);
            l
        },
    };
    set_adj(v, k, list);
}

fn contains_id(v: &Vec<u64>, x: u64) -> (r: bool)
    ensures
        r == v@.contains(x),
{
    let mut i: usize = 0;
    while i < v.len()
        invariant
            i <= v@.len(),
            forall|q: int| 0 <= q < i ==> v@[q] != x,
        decreases v@.len() - i,
    {
        if v[i] == x {
            return true;
        }
        i += 1;
    }
    false
}

proof fn lemma_push_to_set(s: Seq<u64>, x: u64)
    ensures
        s.push(x).to_set() == s.to_set().insert(x),
{
    let t = s.push(x);
    assert forall|y: u64| t.to_set().contains(y) <==> s.to_set().insert(x).contains(y) by {
        if s.contains(y) {
            let k = choose|k: int| 0 <= k < s.len() && s[k] == y;
            assert(t[k] == s[k]);
        }
        if t.contains(y) && y != x {
            let k = choose|k: int| 0 <= k < t.len() && t[k] == y;
            assert(k < s.len());
            assert(t[k] == s[k]);
        }
        if y == x {
            assert(t[s.len() as int] == x);
        }
    }
    assert(t.to_set() =~= s.to_set().insert(x));
}

/// Adds `x` to a list without repeats.
fn insert_id(v: &mut Vec<u64>, x: u64)
    requires
        old(v)@.no_duplicates(),
    ensures
        final(v)@.no_duplicates(),
        final(v)@.to_set() == old(v)@.to_set().insert(x),
{
    if !contains_id(v, x) {
        let ghost s = v@;
        v.push(x);
        proof {
            lemma_push_to_set(s, x);
            assert forall|a: int, b: int| 0 <= a < v@.len() && 0 <= b < v@.len() && a != b implies v@[a] != v@[b] by {
                if a < s.len() && b < s.len() {
                } else if a == s.len() {
                    assert(s.contains(s[b]));
                } else {
                    assert(s.contains(s[a]));
                }
            }
        }
    } else {
        assert(v@.to_set().contains(x));
        assert(v@.to_set() =~= v@.to_set().insert(x));
    }
}

/// Puts an entry into the queue at its place.
fn queue_insert(q: &mut Vec<(TaskPriority, u64)>, e: (TaskPriority, u64))
    requires
        sorted_queue(old(q)@),
    ensures
        sorted_queue(final(q)@),
        final(q)@.to_multiset() == old(q)@.to_multiset().insert(e),
{
    let ghost s = q@;
    let r = e.0.rank();
    let mut p: usize = 0;
    while p < q.len() && !(r < q[p].0.rank() || (r == q[p].0.rank() && e.1 < q[p].1))
        invariant
            p <= q@.len(),
            s == q@,
            r == priority_rank(e.0),
            forall|k: int| 0 <= k < p ==> !#[trigger] entry_lt(e, s[k]),
        decreases q@.len() - p,
    {
        p += 1;
    }
    q.insert(p, e);
    proof {
        vstd::seq_lib::to_multiset_insert(s, p as int, e);
        let t = q@;
        assert forall|i: int, j: int| 0 <= i < j < t.len() implies !#[trigger] entry_lt(t[j], t[i]) by {
            if j < p {
                assert(t[i] == s[i] && t[j] == s[j]);
            } else if j == p {
                assert(t[i] == s[i]);
                assert(!entry_lt(e, s[i]));
            } else if i < p {
                assert(t[i] == s[i] && t[j] == s[j - 1]);
                assert(p < s.len());
                assert(entry_lt(e, s[p as int]));
                if p < j - 1 {
                    assert(!entry_lt(s[j - 1], s[p as int]));
                }
                assert(!entry_lt(e, s[i]));
            } else if i == p {
                assert(t[j] == s[j - 1]);
                assert(entry_lt(e, s[p as int]));
                if p < j - 1 {
                    assert(!entry_lt(s[j - 1], s[p as int]));
                }
            } else {
                assert(t[i] == s[i - 1] && t[j] == s[j - 1]);
            }
        }
    }
}

proof fn lemma_add_nothing<A>(q: Seq<A>, e: Seq<A>)
    requires
        e.len() == 0,
    ensures
        q.to_multiset() == q.to_multiset().add(e.to_multiset()),
{
    broadcast use vstd::multiset::group_multiset_axioms;

    vstd::seq_lib::to_multiset_len(e);
    vstd::multiset::lemma_multiset_empty_len(e.to_multiset());
    assert(q.to_multiset() =~= q.to_multiset().add(e.to_multiset()));
}

// ---------------------------------------------------------------------------
// The scheduler
// ---------------------------------------------------------------------------

/// Tasks with dependencies; a task is ready once everything it depends on
/// has completed, and the ready queue hands out the highest priority
/// first (the higher id first among equals).
pub struct TaskScheduler {
    ready_queue: Vec<(TaskPriority, u64)>,
    dependency_graph: Vec<(u64, Vec<u64>)>,
    reverse_deps: Vec<(u64, Vec<u64>)>,
    tasks: Vec<Task>,
    completed: Vec<u64>,
    failed: Vec<u64>,
}

impl TaskScheduler {
    /// The ready queue, ascending.
    pub closed spec fn queue(&self) -> Seq<(TaskPriority, u64)> {
        self.ready_queue@
    }

    /// Each task's dependencies.
    pub closed spec fn dep_map(&self) -> Map<u64, Seq<u64>> {
        seq_to_map(adj_entries(self.dependency_graph@))
    }

    /// Each task's dependents.
    pub closed spec fn rdep_map(&self) -> Map<u64, Seq<u64>> {
        seq_to_map(adj_entries(self.reverse_deps@))
    }

    /// The task ids, in the order the tasks were first added.
    pub closed spec fn task_ids(&self) -> Seq<u64> {
        self.tasks@.map_values(|t: Task| t.id)
    }

    /// The tasks by id.
    pub closed spec fn task_map(&self) -> Map<u64, Task> {
        seq_to_map(task_entries(self.tasks@))
    }

    pub closed spec fn completed_set(&self) -> Set<u64> {
        self.completed@.to_set()
    }

    pub closed spec fn failed_set(&self) -> Set<u64> {
        self.failed@.to_set()
    }

    /// The dependency graph over the tasks: a task without a dependency
    /// list depends on nothing.
    pub open spec fn graph(&self) -> DepGraph {
        DepGraph {
            ids: self.task_ids(),
            deps: self.task_ids().map_values(|id: u64| list_or_empty(self.dep_map(), id)),
        }
    }

    /// Keys are distinct, the completed and failed lists have no repeats,
    /// and the queue is sorted.
    pub closed spec fn wf(&self) -> bool {
        &&& keys_distinct(task_entries(self.tasks@))
        &&& keys_distinct(adj_entries(self.dependency_graph@))
        &&& keys_distinct(adj_entries(self.reverse_deps@))
        &&& self.completed@.no_duplicates()
        &&& self.failed@.no_duplicates()
        &&& sorted_queue(self.ready_queue@)
    }

    /// The ready queue of a well-formed scheduler is ascending: its last
    /// entry has the highest priority (the higher id among equals).
    pub proof fn lemma_queue_sorted(&self)
        requires
            self.wf(),
        ensures
            sorted_queue(self.queue()),
    {
    }

    proof fn lemma_ids(&self)
        requires
            self.wf(),
        ensures
            self.task_ids().no_duplicates(),
            forall|x: u64| self.task_ids().contains(x) <==> self.task_map().dom().contains(x),
            graph_wf(self.graph()),
    {
        let e = task_entries(self.tasks@);
        let ids = self.task_ids();
        assert forall|a: int, b: int| 0 <= a < ids.len() && 0 <= b < ids.len() && a != b implies ids[a] != ids[b] by {
            assert(ids[a] == e[a].0 && ids[b] == e[b].0);
        }
        assert forall|x: u64| ids.contains(x) <==> self.task_map().dom().contains(x) by {
            if ids.contains(x) {
                let a = choose|a: int| 0 <= a < ids.len() && ids[a] == x;
                assert(e[a].0 == x);
                lemma_entry(e, a);
            }
            if self.task_map().dom().contains(x) {
                assert(has_key(e, x));
                let a = key_index(e, x);
                assert(ids[a] == x);
            }
        }
    }

    /// No tasks.
    pub fn new() -> (r: TaskScheduler)
        ensures
            r.wf(),
            r.queue().len() == 0,
            r.dep_map() == Map::<u64, Seq<u64>>::empty(),
            r.rdep_map() == Map::<u64, Seq<u64>>::empty(),
            r.task_ids().len() == 0,
            r.task_map() == Map::<u64, Task>::empty(),
            r.completed_set() == Set::<u64>::empty(),
            r.failed_set() == Set::<u64>::empty(),
    {
        let r = TaskScheduler {
            ready_queue: Vec::new(),
            dependency_graph: Vec::new(),
            reverse_deps: Vec::new(),
            tasks: Vec::new(),
            completed: Vec::new(),
            failed: Vec::new(),
        };
        proof {
            lemma_empty::<u64, Seq<u64>>();
            lemma_empty::<u64, Task>();
            assert(adj_entries(r.dependency_graph@) =~= Seq::<(u64, Seq<u64>)>::empty());
            assert(adj_entries(r.reverse_deps@) =~= Seq::<(u64, Seq<u64>)>::empty());
            assert(task_entries(r.tasks@) =~= Seq::<(u64, Task)>::empty());
            assert(r.completed@.to_set() =~= Set::<u64>::empty());
            assert(r.failed@.to_set() =~= Set::<u64>::empty());
        }
        r
    }

    fn find_task(&self, id: u64) -> (r: Option<usize>)
        requires
            self.wf(),
        ensures
            match r {
                Some(i) => i < self.tasks@.len() && self.tasks@[i as int].id == id && self.task_map().dom().contains(id)
                    && self.task_map()[id] == self.tasks@[i as int],
                None => !self.task_map().dom().contains(id),
            },
    {
        let ghost s = task_entries(self.tasks@);
        let mut i: usize = 0;
        while i < self.tasks.len()
            invariant
                i <= self.tasks@.len(),
                s == task_entries(self.tasks@),
                keys_distinct(s),
                forall|q: int| 0 <= q < i ==> #[trigger] s[q].0 != id,
            decreases self.tasks@.len() - i,
        {
            assert(s[i as int].0 == self.tasks@[i as int].id);
            if self.tasks[i].id == id {
                proof {
                    lemma_entry(s, i as int);
                }
                return Some(i);
            }
            i += 1;
        }
        proof {
            lemma_absent(s, id);
        }
        None
    }

    /// Registers a task under its id, replacing one with the same id.
    pub fn insert_task(&mut self, task: Task)
        requires
            old(self).wf(),
        ensures
            final(self).wf(),
            final(self).task_map() == old(self).task_map().insert(task.id, task),
            final(self).queue() == old(self).queue(),
            final(self).dep_map() == old(self).dep_map(),
            final(self).rdep_map() == old(self).rdep_map(),
            final(self).completed_set() == old(self).completed_set(),
            final(self).failed_set() == old(self).failed_set(),
            old(self).task_map().dom().contains(task.id) ==> final(self).task_ids() == old(self).task_ids(),
            !old(self).task_map().dom().contains(task.id) ==> final(self).task_ids() == old(self).task_ids().push(task.id),
    {
        let ghost s = task_entries(self.tasks@);
        let ghost t = task;
        let id = task.id;
        match self.find_task(id) {
            Some(i) => {
                self.tasks.set(i, task);
                proof {
                    lemma_update(s, i as int, t);
                    assert(task_entries(self.tasks@) =~= s.update(i as int, (id, t)));
                    assert(self.task_ids() =~= old(self).task_ids());
                }
            },
            None => {
                self.tasks.push(task);
                proof {
                    lemma_push(s, id, t);
                    assert(task_entries(self.tasks@) =~= s.push((id, t)));
                    assert(self.task_ids() =~= old(self).task_ids().push(id));
                }
            },
        }
    }

    /// Sets a task's dependency list.
    pub fn set_dependencies(&mut self, task_id: u64, deps: Vec<u64>)
        requires
            old(self).wf(),
        ensures
            final(self).wf(),
            final(self).dep_map() == old(self).dep_map().insert(task_id, deps@),
            final(self).task_map() == old(self).task_map(),
            final(self).task_ids() == old(self).task_ids(),
            final(self).queue() == old(self).queue(),
            final(self).rdep_map() == old(self).rdep_map(),
            final(self).completed_set() == old(self).completed_set(),
            final(self).failed_set() == old(self).failed_set(),
    {
        set_adj(&mut self.dependency_graph, task_id, deps);
    }

    /// Records `id` as a dependent of each dependency in turn.
    fn add_reverse_deps(&mut self, deps: &Vec<u64>, id: u64)
        requires
            old(self).wf(),
        ensures
            final(self).wf(),
            final(self).rdep_map() == add_reverse(old(self).rdep_map(), deps@, id),
            final(self).dep_map() == old(self).dep_map(),
            final(self).task_map() == old(self).task_map(),
            final(self).task_ids() == old(self).task_ids(),
            final(self).queue() == old(self).queue(),
            final(self).completed_set() == old(self).completed_set(),
            final(self).failed_set() == old(self).failed_set(),
            final(self).tasks == old(self).tasks,
    {
        let mut i: usize = 0;
        assert(deps@.take(0) =~= Seq::<u64>::empty());
        while i < deps.len()
            invariant
                i <= deps@.len(),
                self.wf(),
                self.rdep_map() == add_reverse(old(self).rdep_map(), deps@.take(i as int), id),
                self.dep_map() == old(self).dep_map(),
                self.tasks == old(self).tasks,
                self.queue() == old(self).queue(),
                self.completed_set() == old(self).completed_set(),
                self.failed_set() == old(self).failed_set(),
            decreases deps@.len() - i,
        {
            push_adj(&mut self.reverse_deps, deps[i], id);
            assert(deps@.take(i + 1).drop_last() =~= deps@.take(i as int));
            i += 1;
        }
        assert(deps@.take(i as int) =~= deps@);
    }

    /// Whether every listed dependency is completed.
    fn deps_completed(&self, deps: &Vec<u64>) -> (r: bool)
        ensures
            r == all_completed(deps@, self.completed_set()),
    {
        let mut i: usize = 0;
        while i < deps.len()
            invariant
                i <= deps@.len(),
                forall|q: int| 0 <= q < i ==> self.completed_set().contains(#[trigger] deps@[q]),
            decreases deps@.len() - i,
        {
            if !contains_id(&self.completed, deps[i]) {
                return false;
            }
            i += 1;
        }
        true
    }

    /// Adds a task without checking its dependencies: its dependency list
    /// and its place among its dependencies' dependents are recorded, and
    /// it joins the ready queue when all its dependencies are completed.
    pub fn add_task_no_check(&mut self, task: Task)
        requires
            old(self).wf(),
        ensures
            final(self).wf(),
            final(self).task_map() == old(self).task_map().insert(task.id, task),
            final(self).dep_map() == old(self).dep_map().insert(task.id, task.dependencies@),
            final(self).rdep_map() == add_reverse(old(self).rdep_map(), task.dependencies@, task.id),
            final(self).completed_set() == old(self).completed_set(),
            final(self).failed_set() == old(self).failed_set(),
            all_completed(task.dependencies@, old(self).completed_set()) ==> final(self).queue().to_multiset()
                == old(self).queue().to_multiset().insert((task.priority, task.id)),
            !all_completed(task.dependencies@, old(self).completed_set()) ==> final(self).queue() == old(self).queue(),
    {
        let id = task.id;
        let deps = copy_list(&task.dependencies);
        let deps2 = copy_list(&task.dependencies);
        set_adj(&mut self.dependency_graph, id, deps);
        self.add_reverse_deps(&deps2, id);
        if self.deps_completed(&task.dependencies) {
            queue_insert(&mut self.ready_queue, (task.priority, id));
        }
        self.insert_task(task);
    }

    /// Adds a task whose dependencies are all tasks or completed; else the
    /// first dependency that is neither is reported and nothing changes.
    pub fn add_task(&mut self, task: Task) -> (r: Result<(), AutomationError>)
        requires
            old(self).wf(),
        ensures
            final(self).wf(),
            match first_missing(task.dependencies@, old(self).task_map().dom() + old(self).completed_set()) {
                Some(d) => r == Err::<(), AutomationError>(AutomationError::TaskDependencyNotFound(d)) && *final(self)
                    == *old(self),
                None => {
                    &&& r is Ok
                    &&& final(self).task_map() == old(self).task_map().insert(task.id, task)
                    &&& final(self).dep_map() == old(self).dep_map().insert(task.id, task.dependencies@)
                    &&& final(self).rdep_map() == add_reverse(old(self).rdep_map(), task.dependencies@, task.id)
                    &&& final(self).completed_set() == old(self).completed_set()
                    &&& final(self).failed_set() == old(self).failed_set()
                    &&& all_completed(task.dependencies@, old(self).completed_set()) ==> final(self).queue().to_multiset()
                        == old(self).queue().to_multiset().insert((task.priority, task.id))
                    &&& !all_completed(task.dependencies@, old(self).completed_set()) ==> final(self).queue()
                        == old(self).queue()
                },
            },
    {
        let ghost known = self.task_map().dom() + self.completed_set();
        let ghost deps = task.dependencies@;
        let mut i: usize = 0;
        assert(deps.skip(0) =~= deps);
        while i < task.dependencies.len()
            invariant
                i <= deps.len(),
                deps == task.dependencies@,
                self.wf(),
                known == self.task_map().dom() + self.completed_set(),
                first_missing(deps, known) == first_missing(deps.skip(i as int), known),
            decreases deps.len() - i,
        {
            let d = task.dependencies[i];
            assert(deps.skip(i as int)[0] == d);
            assert(deps.skip(i as int).drop_first() =~= deps.skip(i + 1));
            let in_tasks = self.find_task(d).is_some();
            if !in_tasks && !contains_id(&self.completed, d) {
                return Err(AutomationError::TaskDependencyNotFound(d));
            }
            i += 1;
        }
        assert(deps.skip(i as int) =~= Seq::<u64>::empty());
        self.add_task_no_check(task);
        Ok(())
    }

    /// Hands out the ready task of highest priority, dropping from the
    /// queue the entries before it whose tasks completed or failed.
    pub fn next_task(&mut self) -> (r: Option<u64>)
        requires
            old(self).wf(),
        ensures
            final(self).wf(),
            ({
                let k = last_live(old(self).queue(), old(self).completed_set(), old(self).failed_set());
                if k < 0 {
                    r is None && final(self).queue().len() == 0
                } else {
                    r == Some(old(self).queue()[k].1) && final(self).queue() == old(self).queue().take(k)
                }
            }),
            r is None ==> forall|j: int|
                0 <= j < old(self).queue().len() ==> !live(
                    old(self).completed_set(),
                    old(self).failed_set(),
                    #[trigger] old(self).queue()[j],
                ),
            r matches Some(id) ==> exists|k: int|
                #![trigger old(self).queue()[k]]
                {
                    &&& 0 <= k < old(self).queue().len()
                    &&& old(self).queue()[k].1 == id
                    &&& live(old(self).completed_set(), old(self).failed_set(), old(self).queue()[k])
                    &&& forall|j: int|
                        0 <= j < old(self).queue().len() && live(
                            old(self).completed_set(),
                            old(self).failed_set(),
                            old(self).queue()[j],
                        ) ==> !entry_lt(old(self).queue()[k], #[trigger] old(self).queue()[j])
                },
            final(self).task_map() == old(self).task_map(),
            final(self).task_ids() == old(self).task_ids(),
            final(self).dep_map() == old(self).dep_map(),
            final(self).rdep_map() == old(self).rdep_map(),
            final(self).completed_set() == old(self).completed_set(),
            final(self).failed_set() == old(self).failed_set(),
    {
        let ghost q0 = self.ready_queue@;
        let ghost c = self.completed_set();
        let ghost f = self.failed_set();
        loop
            invariant
                self.wf(),
                c == self.completed_set(),
                f == self.failed_set(),
                q0 == old(self).queue(),
                sorted_queue(q0),
                c == old(self).completed_set(),
                f == old(self).failed_set(),
                self.ready_queue@.len() <= q0.len(),
                self.ready_queue@ == q0.take(self.ready_queue@.len() as int),
                last_live(q0, c, f) == last_live(self.ready_queue@, c, f),
                self.tasks == old(self).tasks,
                self.dependency_graph == old(self).dependency_graph,
                self.reverse_deps == old(self).reverse_deps,
                self.completed == old(self).completed,
                self.failed == old(self).failed,
            decreases self.ready_queue@.len(),
        {
            let ghost before = self.ready_queue@;
            match self.ready_queue.pop() {
                Some(e) => {
                    assert(before.drop_last() =~= self.ready_queue@);
                    assert(self.ready_queue@ =~= q0.take(self.ready_queue@.len() as int));
                    assert(sorted_queue(self.ready_queue@));
                    assert(e == before.last());
                    assert(e == q0[before.len() - 1]);
                    if !contains_id(&self.completed, e.1) && !contains_id(&self.failed, e.1) {
                        assert(live(c, f, e));
                        assert(last_live(before, c, f) == before.len() - 1);
                        proof {
                            law_next_is_highest(q0, c, f);
                        }
                        return Some(e.1);
                    }
                    assert(!live(c, f, e));
                    assert(last_live(before, c, f) == last_live(self.ready_queue@, c, f));
                },
                None => {
                    assert(before.len() == 0);
                    assert(last_live(before, c, f) == -1);
                    proof {
                        law_next_is_highest(q0, c, f);
                    }
                    return None;
                },
            }
        }
    }

    /// Marks a task completed, and hands back, in the order its dependents
    /// were recorded, those that thereby become ready; each joins the queue.
    pub fn complete_task(&mut self, task_id: u64, result: TaskResult) -> (r: Result<Vec<u64>, AutomationError>)
        requires
            old(self).wf(),
        ensures
            final(self).wf(),
            !old(self).task_map().dom().contains(task_id) ==> r == Err::<Vec<u64>, AutomationError>(
                AutomationError::TaskNotFound(task_id),
            ) && *final(self) == *old(self),
            old(self).task_map().dom().contains(task_id) ==> {
                let c2 = old(self).completed_set().insert(task_id);
                let unblocked = list_or_empty(old(self).rdep_map(), task_id).filter(
                    |d: u64| unblocks(old(self).dep_map(), c2, old(self).failed_set(), d),
                );
                &&& r is Ok
                &&& r->Ok_0@ == unblocked
                &&& final(self).completed_set() == c2
                &&& final(self).queue().to_multiset() == old(self).queue().to_multiset().add(
                    unblocked.map_values(|d: u64| (priority_of(old(self).task_map(), d), d)).to_multiset(),
                )
                &&& final(self).failed_set() == old(self).failed_set()
                &&& final(self).task_map() == old(self).task_map()
                &&& final(self).task_ids() == old(self).task_ids()
                &&& final(self).dep_map() == old(self).dep_map()
                &&& final(self).rdep_map() == old(self).rdep_map()
            },
    {
        if self.find_task(task_id).is_none() {
            return Err(AutomationError::TaskNotFound(task_id));
        }
        insert_id(&mut self.completed, task_id);
        let ghost c2 = self.completed_set();
        let ghost fset = self.failed_set();
        let ghost dm = self.dep_map();
        let ghost tm = self.task_map();
        let ghost q0 = self.ready_queue@;
        let ghost pred = |d: u64| unblocks(dm, c2, fset, d);
        let mut unblocked: Vec<u64> = Vec::new();
        match find_adj(&self.reverse_deps, task_id) {
            None => {
                proof {
                    assert(list_or_empty(old(self).rdep_map(), task_id) =~= Seq::<u64>::empty());
                    assert(Seq::<u64>::empty().filter(pred) =~= Seq::<u64>::empty());
                    lemma_add_nothing(q0, unblocked@.map_values(|d: u64| (priority_of(tm, d), d)));
                }
            },
            Some(ri) => {
                let ghost dependents = self.reverse_deps@[ri as int].1@;
                let n = self.reverse_deps[ri].1.len();
                let mut j: usize = 0;
                assert(dependents.take(0) =~= Seq::<u64>::empty());
                assert(Seq::<u64>::empty().filter(pred) =~= Seq::<u64>::empty());
                proof {
                    lemma_add_nothing(q0, unblocked@.map_values(|d: u64| (priority_of(tm, d), d)));
                }
                while j < n
                    invariant
                        j <= n,
                        n == dependents.len(),
                        ri < self.reverse_deps@.len(),
                        self.reverse_deps@[ri as int].1@ == dependents,
                        self.wf(),
                        c2 == self.completed_set(),
                        fset == self.failed_set(),
                        dm == self.dep_map(),
                        tm == self.task_map(),
                        pred == (|d: u64| unblocks(dm, c2, fset, d)),
                        unblocked@ == dependents.take(j as int).filter(pred),
                        self.ready_queue@.to_multiset() == q0.to_multiset().add(
                            unblocked@.map_values(|d: u64| (priority_of(tm, d), d)).to_multiset(),
                        ),
                        self.tasks == old(self).tasks,
                        self.dependency_graph == old(self).dependency_graph,
                        self.reverse_deps == old(self).reverse_deps,
                        self.failed == old(self).failed,
                        self.completed@.to_set() == c2,
                    decreases n - j,
                {
                    let d = self.reverse_deps[ri].1[j];
                    let ghost before = unblocked@;
                    proof {
                        assert(dependents.take(j + 1) =~= dependents.take(j as int) + seq![d]);
                        Seq::filter_distributes_over_add(dependents.take(j as int), seq![d], pred);
                        assert(seq![d].filter(pred) =~= if pred(d) { seq![d] } else { Seq::<u64>::empty() }) by {
                            reveal_with_fuel(vstd::seq::Seq::filter, 2);
                        }
                    }
                    match find_adj(&self.dependency_graph, d) {
                        Some(di) => {
                            let all_done = self.deps_completed(&self.dependency_graph[di].1);
                            if all_done && !contains_id(&self.completed, d) && !contains_id(&self.failed, d) {
                                let p = match self.find_task(d) {
                                    Some(ti) => self.tasks[ti].priority,
                                    None => TaskPriority::Normal,
                                };
                                let ghost qb = self.ready_queue@;
                                queue_insert(&mut self.ready_queue, (p, d));
                                unblocked.push(d);
                                proof {
                                    assert(pred(d));
                                    assert(unblocked@ =~= before + seq![d]);
                                    let f = |x: u64| (priority_of(tm, x), x);
                                    assert(unblocked@.map_values(f) =~= before.map_values(f).push((p, d)));
                                    vstd::seq_lib::to_multiset_build(before.map_values(f), (p, d));
                                    assert(self.ready_queue@.to_multiset() =~= q0.to_multiset().add(
                                        unblocked@.map_values(f).to_multiset(),
                                    ));
                                }
                            } else {
                                proof {
                                    assert(!pred(d));
                                    assert(before + Seq::<u64>::empty() =~= before);
                                }
                            }
                        },
                        None => {
                            proof {
                                assert(!pred(d));
                                assert(before + Seq::<u64>::empty() =~= before);
                            }
                        },
                    }
                    j += 1;
                }
                proof {
                    assert(dependents.take(j as int) =~= dependents);
                    assert(list_or_empty(old(self).rdep_map(), task_id) == dependents);
                }
            },
        }
        proof {
            assert(self.task_ids() =~= old(self).task_ids());
        }
        Ok(unblocked)
    }

    /// Marks a task failed.
    pub fn fail_task(&mut self, task_id: u64, error: String) -> (r: Result<(), AutomationError>)
        requires
            old(self).wf(),
        ensures
            final(self).wf(),
            !old(self).task_map().dom().contains(task_id) ==> r == Err::<(), AutomationError>(
                AutomationError::TaskNotFound(task_id),
            ) && *final(self) == *old(self),
            old(self).task_map().dom().contains(task_id) ==> r is Ok && final(self).failed_set()
                == old(self).failed_set().insert(task_id) && final(self).completed_set() == old(self).completed_set()
                && final(self).queue() == old(self).queue() && final(self).task_map() == old(self).task_map()
                && final(self).task_ids() == old(self).task_ids() && final(self).dep_map() == old(self).dep_map()
                && final(self).rdep_map() == old(self).rdep_map(),
    {
        if self.find_task(task_id).is_none() {
            return Err(AutomationError::TaskNotFound(task_id));
        }
        insert_id(&mut self.failed, task_id);
        Ok(())
    }

    /// The ids and dependency lists of the tasks, in task order.
    fn graph_lists(&self) -> (r: (Vec<u64>, Vec<Vec<u64>>))
        requires
            self.wf(),
        ensures
            r.0@.len() == r.1@.len(),
            r.0@.no_duplicates(),
            graph_of(r.0@, r.1@) == self.graph(),
    {
        proof {
            self.lemma_ids();
        }
        let mut ids: Vec<u64> = Vec::new();
        let mut deps: Vec<Vec<u64>> = Vec::new();
        let mut i: usize = 0;
        while i < self.tasks.len()
            invariant
                i <= self.tasks@.len(),
                self.wf(),
                ids@ == self.task_ids().take(i as int),
                deps@.len() == i,
                forall|k: int| 0 <= k < i ==> #[trigger] deps@[k]@ == list_or_empty(self.dep_map(), self.task_ids()[k]),
            decreases self.tasks@.len() - i,
        {
            let id = self.tasks[i].id;
            ids.push(id);
            let l = match find_adj(&self.dependency_graph, id) {
                Some(di) => copy_list(&self.dependency_graph[di].1),
                None => Vec::new(),
            };
            deps.push(l);
            assert(self.task_ids()[i as int] == id);
            assert(ids@ =~= self.task_ids().take(i + 1));
            i += 1;
        }
        proof {
            assert(ids@ =~= self.task_ids());
            assert(deps@.map_values(|d: Vec<u64>| d@) =~= self.task_ids().map_values(|id: u64| list_or_empty(self.dep_map(), id)));
        }
        (ids, deps)
    }

    /// Whether the tasks' dependencies form a cycle.
    pub fn has_cycle(&self) -> (r: bool)
        requires
            self.wf(),
        ensures
            r == has_cycle(self.graph()),
    {
        let (ids, deps) = self.graph_lists();
        let (order, all) = peel(&ids, &deps, true);
        proof {
            lemma_peel_nodes_only(graph_of(ids@, deps@), order@, all);
        }
        !all
    }

    /// An order of all tasks in which each follows its dependencies; none
    /// exists when the dependencies form a cycle or name an id that is not
    /// a task.
    pub fn topological_order(&self) -> (r: Result<Vec<u64>, AutomationError>)
        requires
            self.wf(),
        ensures
            match r {
                Ok(v) => !has_cycle(self.graph()) && !has_dangling(self.graph()) && is_topo_order(self.graph(), v@),
                Err(e) => e == AutomationError::CircularDependency && (has_cycle(self.graph()) || has_dangling(
                    self.graph(),
                )),
            },
    {
        if self.has_cycle() {
            return Err(AutomationError::CircularDependency);
        }
        let (ids, deps) = self.graph_lists();
        let (order, all) = peel(&ids, &deps, false);
        proof {
            lemma_peel_all(graph_of(ids@, deps@), order@, all);
        }
        if !all {
            return Err(AutomationError::CircularDependency);
        }
        Ok(order)
    }

    /// Number of queue entries whose tasks have neither completed nor failed.
    pub fn ready_count(&self) -> (r: usize)
        requires
            self.wf(),
        ensures
            r == self.queue().filter(|e: (TaskPriority, u64)| live(self.completed_set(), self.failed_set(), e)).len(),
    {
        let ghost pred = |e: (TaskPriority, u64)| live(self.completed_set(), self.failed_set(), e);
        let ghost q = self.ready_queue@;
        let mut n: usize = 0;
        let mut i: usize = 0;
        assert(q.take(0) =~= Seq::<(TaskPriority, u64)>::empty());
        while i < self.ready_queue.len()
            invariant
                i <= q.len(),
                q == self.ready_queue@,
                pred == (|e: (TaskPriority, u64)| live(self.completed_set(), self.failed_set(), e)),
                n == q.take(i as int).filter(pred).len(),
                n <= i,
            decreases q.len() - i,
        {
            let e = self.ready_queue[i];
            proof {
                assert(q.take(i + 1) =~= q.take(i as int) + seq![e]);
                Seq::filter_distributes_over_add(q.take(i as int), seq![e], pred);
                assert(seq![e].filter(pred) =~= if pred(e) { seq![e] } else { Seq::<(TaskPriority, u64)>::empty() }) by {
                    reveal_with_fuel(vstd::seq::Seq::filter, 2);
                }
            }
            if !contains_id(&self.completed, e.1) && !contains_id(&self.failed, e.1) {
                n = n + 1;
            }
            i += 1;
        }
        assert(q.take(i as int) =~= q);
        n
    }

    /// Number of tasks.
    pub fn total_count(&self) -> (r: usize)
        requires
            self.wf(),
        ensures
            r == self.task_map().dom().len(),
    {
        proof {
            lemma_len(task_entries(self.tasks@));
        }
        self.tasks.len()
    }

    /// Every task has completed.
    pub fn is_complete(&self) -> (r: bool)
        requires
            self.wf(),
        ensures
            r == forall|id: u64| self.task_map().dom().contains(id) ==> self.completed_set().contains(id),
    {
        proof {
            self.lemma_ids();
        }
        let mut i: usize = 0;
        while i < self.tasks.len()
            invariant
                i <= self.tasks@.len(),
                self.wf(),
                forall|x: u64| self.task_ids().contains(x) <==> self.task_map().dom().contains(x),
                forall|k: int| 0 <= k < i ==> self.completed_set().contains(#[trigger] self.task_ids()[k]),
            decreases self.tasks@.len() - i,
        {
            assert(self.task_ids()[i as int] == self.tasks@[i as int].id);
            assert(self.task_ids().contains(self.task_ids()[i as int]));
            if !contains_id(&self.completed, self.tasks[i].id) {
                assert(self.task_map().dom().contains(self.task_ids()[i as int]));
                assert(!self.completed@.contains(self.task_ids()[i as int]));
                assert(!self.completed_set().contains(self.task_ids()[i as int]));
                return false;
            }
            i += 1;
        }
        proof {
            assert forall|id: u64| self.task_map().dom().contains(id) implies self.completed_set().contains(id) by {
                assert(self.task_ids().contains(id));
                let k = choose|k: int| 0 <= k < self.task_ids().len() && self.task_ids()[k] == id;
            }
        }
        true
    }

    /// The task with the given id.
    pub fn get_task(&self, task_id: u64) -> (r: Option<&Task>)
        requires
            self.wf(),
        ensures
            match r {
                Some(t) => self.task_map().dom().contains(task_id) && self.task_map()[task_id] == *t,
                None => !self.task_map().dom().contains(task_id),
            },
    {
        match self.find_task(task_id) {
            Some(i) => Some(&self.tasks[i]),
            None => None,
        }
    }
}

/// The element at `i`, to change in place.
fn task_at(v: &mut Vec<Task>, i: usize) -> (t: &mut Task)
    requires
        i < old(v)@.len(),
    ensures
        *t == old(v)@[i as int],
        final(v)@ == old(v)@.update(i as int, *final(t)),
{
    &mut v[i]
}

impl TaskScheduler {
    /// The task with the given id, to change in place; as long as its id is
    /// kept, the scheduler stays well formed and files the changed task
    /// under that id.
    pub fn get_task_mut(&mut self, task_id: u64) -> (r: Option<&mut Task>)
        requires
            old(self).wf(),
        ensures
            match r {
                Some(t) => {
                    &&& old(self).task_map().dom().contains(task_id)
                    &&& *t == old(self).task_map()[task_id]
                    &&& final(t).id == task_id ==> final(self).wf() && final(self).task_map() == old(self).task_map().insert(
                        task_id,
                        *final(t),
                    )
                    &&& final(self).queue() == old(self).queue()
                    &&& final(self).dep_map() == old(self).dep_map()
                    &&& final(self).rdep_map() == old(self).rdep_map()
                    &&& final(self).completed_set() == old(self).completed_set()
                    &&& final(self).failed_set() == old(self).failed_set()
                },
                None => !old(self).task_map().dom().contains(task_id) && *final(self) == *old(self),
            },
    {
        match self.find_task(task_id) {
            Some(i) => {
                let ghost s = task_entries(self.tasks@);
                proof {
                    assert forall|t: Task| #![trigger self.tasks@.update(i as int, t)] t.id == task_id implies seq_to_map(task_entries(self.tasks@.update(i as int, t)))
                        == seq_to_map(s).insert(task_id, t) && keys_distinct(task_entries(self.tasks@.update(i as int, t))) by {
                        lemma_update(s, i as int, t);
                        assert(task_entries(self.tasks@.update(i as int, t)) =~= s.update(i as int, (s[i as int].0, t)));
                    }
                }
                Some(task_at(&mut self.tasks, i))
            },
            None => None,
        }
    }
}

impl Default for TaskScheduler {
    fn default() -> (r: TaskScheduler)
        ensures
            r.wf(),
            r.queue().len() == 0,
            r.task_map() == Map::<u64, Task>::empty(),
    {
        TaskScheduler::new()
    }
}

} // verus!
