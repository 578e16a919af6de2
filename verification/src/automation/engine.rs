//! The workflow engine: registers workflows, runs them in dependency order
//! and keeps the records of their executions.
use vstd::prelude::*;
use crate::text::{decimal, push_decimal, str_equal, text_with_number, debug_str_text, append_quoted};
use crate::textmap::TextMap;
use crate::keyed::{keys_distinct, has_key, key_index, seq_to_map, lemma_entry, lemma_absent, lemma_empty, lemma_push, lemma_update, lemma_remove, lemma_len};
use crate::automation::error::AutomationError;
use crate::automation::task::{Task, TaskType, TaskResult, FileOperation, TransformType};
use crate::automation::workflow::{Workflow, WorkflowState, WorkflowExecution, ErrorHandling, workflow_state_name, workflow_state_text};
use crate::automation::graph::{DepGraph, graph_of, has_cycle, has_dangling, is_topo_order, is_node, deps_of, earlier, peel, lemma_peel_all, lemma_node_index};

verus! {

// ---------------------------------------------------------------------------
// What a task reports
// ---------------------------------------------------------------------------

/// The rendering of a file operation, as `{:?}` shows it.
pub open spec fn file_op_text(op: FileOperation) -> Seq<char> {
    match op {
        FileOperation::Read => "Read"@,
        FileOperation::Write { content } => "Write { content: "@ + debug_str_text(content@) + " }"@,
        FileOperation::Append { content } => "Append { content: "@ + debug_str_text(content@) + " }"@,
        FileOperation::Delete => "Delete"@,
        FileOperation::Copy { dest } => "Copy { dest: "@ + debug_str_text(dest@) + " }"@,
        FileOperation::Move { dest } => "Move { dest: "@ + debug_str_text(dest@) + " }"@,
        FileOperation::Exists => "Exists"@,
        FileOperation::List => "List"@,
    }
}

/// The rendering of a transform, as `{:?}` shows it.
pub open spec fn transform_text(t: TransformType) -> Seq<char> {
    match t {
        TransformType::JsonParse => "JsonParse"@,
        TransformType::JsonStringify => "JsonStringify"@,
        TransformType::Base64Encode => "Base64Encode"@,
        TransformType::Base64Decode => "Base64Decode"@,
        TransformType::RegexMatch { pattern } => "RegexMatch { pattern: "@ + debug_str_text(pattern@) + " }"@,
        TransformType::RegexReplace { pattern, replacement } => "RegexReplace { pattern: "@ + debug_str_text(
            pattern@,
        ) + ", replacement: "@ + debug_str_text(replacement@) + " }"@,
        TransformType::Template { template } => "Template { template: "@ + debug_str_text(template@) + " }"@,
        TransformType::Split { delimiter } => "Split { delimiter: "@ + debug_str_text(delimiter@) + " }"@,
        TransformType::Join { delimiter } => "Join { delimiter: "@ + debug_str_text(delimiter@) + " }"@,
    }
}

/// Numbers separated by `, `.
pub open spec fn numbers_text(v: Seq<u64>) -> Seq<char>
    decreases v.len(),
{
    if v.len() == 0 {
        Seq::empty()
    } else if v.len() == 1 {
        decimal(v[0] as nat)
    } else {
        numbers_text(v.drop_last()) + ", "@ + decimal(v.last() as nat)
    }
}

/// What running a task of the given kind reports.
pub open spec fn task_message(t: TaskType) -> Seq<char> {
    match t {
        TaskType::Shell { command } => "执行命令: "@ + command@,
        TaskType::Http { method, url, .. } => method@ + " "@ + url@,
        TaskType::File { path, operation } => "文件操作 "@ + file_op_text(operation) + " on "@ + path@,
        TaskType::AgentCall { agent_id, method, .. } => "调用 Agent "@ + decimal(agent_id as nat) + " 的 "@ + method@
            + " 方法"@,
        TaskType::Condition { expression } => "条件判断: "@ + expression@,
        TaskType::Transform { transform, .. } => "数据转换: "@ + transform_text(transform),
        TaskType::Wait { duration_ms } => "等待 "@ + decimal(duration_ms as nat) + "ms"@,
        TaskType::Parallel { tasks } => "并行执行: ["@ + numbers_text(tasks@) + "]"@,
        TaskType::SubWorkflow { workflow_id } => "子工作流: "@ + workflow_id@,
        TaskType::Custom { handler } => "自定义处理: "@ + handler@,
    }
}

fn file_op_string(op: &FileOperation) -> (r: String)
    ensures
        r@ == file_op_text(*op),
{
    match op {
        FileOperation::Read => String::from_str("Read"),
        FileOperation::Write { content } => {
            let mut s = String::from_str("Write { content: ");
            append_quoted(&mut s, content);
            s.append(" }");
            s
        },
        FileOperation::Append { content } => {
            let mut s = String::from_str("Append { content: ");
            append_quoted(&mut s, content);
            s.append(" }");
            s
        },
        FileOperation::Delete => String::from_str("Delete"),
        FileOperation::Copy { dest } => {
            let mut s = String::from_str("Copy { dest: ");
            append_quoted(&mut s, dest);
            s.append(" }");
            s
        },
        FileOperation::Move { dest } => {
            let mut s = String::from_str("Move { dest: ");
            append_quoted(&mut s, dest);
            s.append(" }");
            s
        },
        FileOperation::Exists => String::from_str("Exists"),
        FileOperation::List => String::from_str("List"),
    }
}

fn transform_string(t: &TransformType) -> (r: String)
    ensures
        r@ == transform_text(*t),
{
    match t {
        TransformType::JsonParse => String::from_str("JsonParse"),
        TransformType::JsonStringify => String::from_str("JsonStringify"),
        TransformType::Base64Encode => String::from_str("Base64Encode"),
        TransformType::Base64Decode => String::from_str("Base64Decode"),
        TransformType::RegexMatch { pattern } => {
            let mut s = String::from_str("RegexMatch { pattern: ");
            append_quoted(&mut s, pattern);
            s.append(" }");
            s
        },
        TransformType::RegexReplace { pattern, replacement } => {
            let mut s = String::from_str("RegexReplace { pattern: ");
            append_quoted(&mut s, pattern);
            s.append(", replacement: ");
            append_quoted(&mut s, replacement);
            s.append(" }");
            s
        },
        TransformType::Template { template } => {
            let mut s = String::from_str("Template { template: ");
            append_quoted(&mut s, template);
            s.append(" }");
            s
        },
        TransformType::Split { delimiter } => {
            let mut s = String::from_str("Split { delimiter: ");
            append_quoted(&mut s, delimiter);
            s.append(" }");
            s
        },
        TransformType::Join { delimiter } => {
            let mut s = String::from_str("Join { delimiter: ");
            append_quoted(&mut s, delimiter);
            s.append(" }");
            s
        },
    }
}

fn push_numbers(s: &mut String, v: &Vec<u64>)
    ensures
        final(s)@ == old(s)@ + numbers_text(v@),
{
    let mut i: usize = 0;
    assert(numbers_text(v@.take(0)) =~= Seq::<char>::empty()) by {
        assert(v@.take(0) =~= Seq::<u64>::empty());
    }
    while i < v.len()
        invariant
            i <= v@.len(),
            s@ == old(s)@ + numbers_text(v@.take(i as int)),
        decreases v@.len() - i,
    {
        let ghost before = s@;
        if i > 0 {
            s.append(", ");
        }
        push_decimal(s, v[i]);
        proof {
            let t = v@.take(i + 1);
            assert(t.drop_last() =~= v@.take(i as int));
            if i == 0 {
                assert(t.len() == 1);
                assert(numbers_text(t) == decimal(t[0] as nat));
            }
            assert(s@ =~= old(s)@ + numbers_text(t));
        }
        i += 1;
    }
    assert(v@.take(i as int) =~= v@);
}

/// What running a task reports.
fn task_output(t: &TaskType) -> (r: String)
    ensures
        r@ == task_message(*t),
{
    match t {
        TaskType::Shell { command } => text_with_string("执行命令: ", command),
        TaskType::Http { method, url, .. } => {
            let mut s = String::new();
            s.append(method.as_str());
            s.append(" ");
            s.append(url.as_str());
            assert(s@ =~= method@ + " "@ + url@);
            s
        },
        TaskType::File { path, operation } => {
            let mut s = String::from_str("文件操作 ");
            let o = file_op_string(operation);
            s.append(o.as_str());
            s.append(" on ");
            s.append(path.as_str());
            s
        },
        TaskType::AgentCall { agent_id, method, .. } => {
            let mut s = String::from_str("调用 Agent ");
            push_decimal(&mut s, *agent_id);
            s.append(" 的 ");
            s.append(method.as_str());
            s.append(" 方法");
            s
        },
        TaskType::Condition { expression } => text_with_string("条件判断: ", expression),
        TaskType::Transform { transform, .. } => {
            let mut s = String::from_str("数据转换: ");
            let o = transform_string(transform);
            s.append(o.as_str());
            s
        },
        TaskType::Wait { duration_ms } => {
            let mut s = String::from_str("等待 ");
            push_decimal(&mut s, *duration_ms);
            s.append("ms");
            s
        },
        TaskType::Parallel { tasks } => {
            let mut s = String::from_str("并行执行: [");
            push_numbers(&mut s, tasks);
            s.append("]");
            s
        },
        TaskType::SubWorkflow { workflow_id } => text_with_string("子工作流: ", workflow_id),
        TaskType::Custom { handler } => text_with_string("自定义处理: ", handler),
    }
}

fn text_with_string(prefix: &str, s: &String) -> (r: String)
    ensures
        r@ == prefix@ + s@,
{
    let mut r = String::from_str(prefix);
    r.append(s.as_str());
    r
}

// ---------------------------------------------------------------------------
// Workflows as graphs
// ---------------------------------------------------------------------------

pub open spec fn task_id_seq(ts: Seq<Task>) -> Seq<u64> {
    ts.map_values(|t: Task| t.id)
}

/// The dependency graph of a workflow's tasks.
pub open spec fn tasks_graph(ts: Seq<Task>) -> DepGraph {
    DepGraph { ids: task_id_seq(ts), deps: ts.map_values(|t: Task| t.dependencies@) }
}

/// The task with the given id.
pub open spec fn task_of(ts: Seq<Task>, id: u64) -> Task {
    ts[choose|i: int| 0 <= i < ts.len() && ts[i].id == id]
}

/// The first id met a second time.
pub open spec fn first_repeat(ids: Seq<u64>, seen: Set<u64>) -> Option<u64>
    decreases ids.len(),
{
    if ids.len() == 0 {
        None
    } else if seen.contains(ids[0]) {
        Some(ids[0])
    } else {
        first_repeat(ids.drop_first(), seen.insert(ids[0]))
    }
}

/// The first dependency, task by task, that is not among `known`.
pub open spec fn first_unknown(ts: Seq<Task>, known: Set<u64>) -> Option<u64>
    decreases ts.len(),
{
    if ts.len() == 0 {
        None
    } else {
        match crate::automation::scheduler::first_missing(ts[0].dependencies@, known) {
            Some(d) => Some(d),
            None => first_unknown(ts.drop_first(), known),
        }
    }
}

/// Tasks of a workflow have distinct ids and depend only on each other.
pub open spec fn valid_tasks(ts: Seq<Task>) -> bool {
    task_id_seq(ts).no_duplicates() && !has_dangling(tasks_graph(ts))
}

/// What an execution of `w` with parameters `params` records when every
/// task succeeds: the tasks in an order that respects their dependencies,
/// and a success result for each.
pub open spec fn ran_to_completion(w: Workflow, params: TextMap, eid: Seq<char>, e: WorkflowExecution) -> bool {
    &&& e.id@ == eid
    &&& e.workflow_id@ == w.id@
    &&& e.state == WorkflowState::Completed
    &&& e.context.variables.wf()
    &&& e.context.variables.map() == w.variables.map().union_prefer_right(params.map())
    &&& e.context.start_time == 0
    &&& e.context.current_task_id is None
    &&& e.task_queue@.len() == 0
    &&& e.failed_tasks@.len() == 0
    &&& is_topo_order(tasks_graph(w.tasks@), e.completed_tasks@)
    &&& e.context.task_results@.len() == e.completed_tasks@.len()
    &&& forall|k: int|
        0 <= k < e.completed_tasks@.len() ==> {
            let res = #[trigger] e.context.task_results@[k];
            &&& res.0 == e.completed_tasks@[k]
            &&& res.1.success
            &&& res.1.output@ == task_message(task_of(w.tasks@, e.completed_tasks@[k]).task_type)
        }
}

// ---------------------------------------------------------------------------
// The engine
// ---------------------------------------------------------------------------

pub open spec fn workflow_entries(v: Seq<Workflow>) -> Seq<(Seq<char>, Workflow)> {
    v.map_values(|w: Workflow| (w.id@, w))
}

pub open spec fn execution_entries(v: Seq<WorkflowExecution>) -> Seq<(Seq<char>, WorkflowExecution)> {
    v.map_values(|e: WorkflowExecution| (e.id@, e))
}

/// Registers workflows and runs them.
pub struct WorkflowEngine {
    workflows: Vec<Workflow>,
    active_executions: Vec<WorkflowExecution>,
    next_task_id: u64,
    next_execution_id: u64,
}

impl WorkflowEngine {
    /// The registered workflows, by id.
    pub closed spec fn workflow_map(&self) -> Map<Seq<char>, Workflow> {
        seq_to_map(workflow_entries(self.workflows@))
    }

    /// The executions, by id.
    pub closed spec fn execution_map(&self) -> Map<Seq<char>, WorkflowExecution> {
        seq_to_map(execution_entries(self.active_executions@))
    }

    pub closed spec fn next_task(&self) -> u64 {
        self.next_task_id
    }

    /// The number the next execution's id carries.
    pub closed spec fn next_execution(&self) -> u64 {
        self.next_execution_id
    }

    /// Ids are distinct, and every registered workflow's tasks are valid.
    pub closed spec fn wf(&self) -> bool {
        &&& keys_distinct(workflow_entries(self.workflows@))
        &&& keys_distinct(execution_entries(self.active_executions@))
        &&& forall|i: int| 0 <= i < self.workflows@.len() ==> valid_tasks(#[trigger] self.workflows@[i].tasks@)
        &&& forall|i: int| 0 <= i < self.workflows@.len() ==> (#[trigger] self.workflows@[i]).variables.wf()
    }

    /// No workflows and no executions; numbering starts at 1.
    pub fn new() -> (r: WorkflowEngine)
        ensures
            r.wf(),
            r.workflow_map() == Map::<Seq<char>, Workflow>::empty(),
            r.execution_map() == Map::<Seq<char>, WorkflowExecution>::empty(),
            r.next_task() == 1,
            r.next_execution() == 1,
    {
        let r = WorkflowEngine { workflows: Vec::new(), active_executions: Vec::new(), next_task_id: 1, next_execution_id: 1 };
        proof {
            lemma_empty::<Seq<char>, Workflow>();
            lemma_empty::<Seq<char>, WorkflowExecution>();
            assert(workflow_entries(r.workflows@) =~= Seq::<(Seq<char>, Workflow)>::empty());
            assert(execution_entries(r.active_executions@) =~= Seq::<(Seq<char>, WorkflowExecution)>::empty());
        }
        r
    }

    fn find_workflow(&self, id: &str) -> (r: Option<usize>)
        requires
            self.wf(),
        ensures
            match r {
                Some(i) => i < self.workflows@.len() && self.workflows@[i as int].id@ == id@
                    && self.workflow_map().dom().contains(id@) && self.workflow_map()[id@] == self.workflows@[i as int],
                None => !self.workflow_map().dom().contains(id@),
            },
    {
        let ghost s = workflow_entries(self.workflows@);
        let mut i: usize = 0;
        while i < self.workflows.len()
            invariant
                i <= self.workflows@.len(),
                s == workflow_entries(self.workflows@),
                keys_distinct(s),
                forall|q: int| 0 <= q < i ==> #[trigger] s[q].0 != id@,
            decreases self.workflows@.len() - i,
        {
            assert(s[i as int].0 == self.workflows@[i as int].id@);
            if str_equal(self.workflows[i].id.as_str(), id) {
                proof {
                    lemma_entry(s, i as int);
                }
                return Some(i);
            }
            i += 1;
        }
        proof {
            lemma_absent(s, id@);
        }
        None
    }

    fn find_execution(&self, id: &str) -> (r: Option<usize>)
        requires
            self.wf(),
        ensures
            match r {
                Some(i) => i < self.active_executions@.len() && self.active_executions@[i as int].id@ == id@
                    && self.execution_map().dom().contains(id@) && self.execution_map()[id@]
                    == self.active_executions@[i as int],
                None => !self.execution_map().dom().contains(id@),
            },
    {
        let ghost s = execution_entries(self.active_executions@);
        let mut i: usize = 0;
        while i < self.active_executions.len()
            invariant
                i <= self.active_executions@.len(),
                s == execution_entries(self.active_executions@),
                keys_distinct(s),
                forall|q: int| 0 <= q < i ==> #[trigger] s[q].0 != id@,
            decreases self.active_executions@.len() - i,
        {
            assert(s[i as int].0 == self.active_executions@[i as int].id@);
            if str_equal(self.active_executions[i].id.as_str(), id) {
                proof {
                    lemma_entry(s, i as int);
                }
                return Some(i);
            }
            i += 1;
        }
        proof {
            lemma_absent(s, id@);
        }
        None
    }

    /// Keeps an execution under its id, replacing one with the same id.
    pub fn insert_execution(&mut self, execution: WorkflowExecution)
        requires
            old(self).wf(),
        ensures
            final(self).wf(),
            final(self).execution_map() == old(self).execution_map().insert(execution.id@, execution),
            final(self).workflow_map() == old(self).workflow_map(),
            final(self).next_task() == old(self).next_task(),
            final(self).next_execution() == old(self).next_execution(),
    {
        let ghost s = execution_entries(self.active_executions@);
        let ghost e = execution;
        let ghost k = execution.id@;
        match self.find_execution(execution.id.as_str()) {
            Some(i) => {
                self.active_executions.set(i, execution);
                proof {
                    lemma_update(s, i as int, e);
                    assert(execution_entries(self.active_executions@) =~= s.update(i as int, (k, e)));
                }
            },
            None => {
                self.active_executions.push(execution);
                proof {
                    lemma_push(s, k, e);
                    assert(execution_entries(self.active_executions@) =~= s.push((k, e)));
                }
            },
        }
    }

    /// The first task id that repeats, if any.
    fn repeated_task_id(tasks: &Vec<Task>) -> (r: Option<u64>)
        ensures
            r == first_repeat(task_id_seq(tasks@), Set::empty()),
            r is None <==> task_id_seq(tasks@).no_duplicates(),
    {
        let ghost ids = task_id_seq(tasks@);
        let mut seen: Vec<u64> = Vec::new();
        let mut i: usize = 0;
        assert(ids.skip(0) =~= ids);
        assert(seen@.to_set() =~= Set::<u64>::empty());
        while i < tasks.len()
            invariant
                i <= tasks@.len(),
                ids == task_id_seq(tasks@),
                seen@ == ids.take(i as int),
                ids.take(i as int).no_duplicates(),
                first_repeat(ids, Set::empty()) == first_repeat(ids.skip(i as int), seen@.to_set()),
            decreases tasks@.len() - i,
        {
            let id = tasks[i].id;
            assert(ids[i as int] == id);
            assert(ids.skip(i as int)[0] == id);
            assert(ids.skip(i as int).drop_first() =~= ids.skip(i + 1));
            let mut found = false;
            let mut j: usize = 0;
            while j < seen.len()
                invariant
                    j <= seen@.len(),
                    found == exists|q: int| 0 <= q < j && seen@[q] == id,
                decreases seen@.len() - j,
            {
                if seen[j] == id {
                    found = true;
                }
                j += 1;
            }
            if found {
                proof {
                    let q = choose|q: int| 0 <= q < seen@.len() && seen@[q] == id;
                    assert(seen@.to_set().contains(id));
                    assert(!ids.no_duplicates()) by {
                        assert(ids[q] == id && q != i);
                    }
                }
                return Some(id);
            }
            proof {
                assert(!seen@.to_set().contains(id)) by {
                    if seen@.to_set().contains(id) {
                        let q = choose|q: int| 0 <= q < seen@.len() && seen@[q] == id;
                    }
                }
            }
            let ghost before = seen@;
            seen.push(id);
            proof {
                assert(seen@ =~= ids.take(i + 1));
                assert(seen@.to_set() =~= before.to_set().insert(id)) by {
                    assert forall|y: u64| seen@.to_set().contains(y) <==> before.to_set().insert(id).contains(y) by {
                        if before.contains(y) {
                            let q = choose|q: int| 0 <= q < before.len() && before[q] == y;
                            assert(seen@[q] == y);
                        }
                        if seen@.contains(y) && y != id {
                            let q = choose|q: int| 0 <= q < seen@.len() && seen@[q] == y;
                            assert(q < before.len());
                        }
                        if y == id {
                            assert(seen@[before.len() as int] == id);
                        }
                    }
                }
                assert forall|a: int, b: int| 0 <= a < seen@.len() && 0 <= b < seen@.len() && a != b implies seen@[a] != seen@[b] by {
                    if a < before.len() && b < before.len() {
                        assert(seen@[a] == before[a] && seen@[b] == before[b]);
                    } else if a == before.len() {
                        assert(seen@[b] == before[b]);
                    } else {
                        assert(seen@[a] == before[a]);
                    }
                }
            }
            i += 1;
        }
        assert(ids.take(i as int) =~= ids);
        assert(ids.skip(i as int) =~= Seq::<u64>::empty());
        None
    }

    /// The first dependency, task by task, that is not one of the tasks.
    fn unknown_dependency(tasks: &Vec<Task>) -> (r: Option<u64>)
        ensures
            r == first_unknown(tasks@, task_id_seq(tasks@).to_set()),
            r is None <==> !has_dangling(tasks_graph(tasks@)),
    {
        let ghost known = task_id_seq(tasks@).to_set();
        let ghost g = tasks_graph(tasks@);
        let mut i: usize = 0;
        assert(tasks@.skip(0) =~= tasks@);
        while i < tasks.len()
            invariant
                i <= tasks@.len(),
                known == task_id_seq(tasks@).to_set(),
                g == tasks_graph(tasks@),
                first_unknown(tasks@, known) == first_unknown(tasks@.skip(i as int), known),
                forall|a: int, b: int| 0 <= a < i && 0 <= b < g.deps[a].len() ==> is_node(g, #[trigger] g.deps[a][b]),
            decreases tasks@.len() - i,
        {
            let ghost ts = tasks@.skip(i as int);
            assert(ts[0] == tasks@[i as int]);
            assert(ts.drop_first() =~= tasks@.skip(i + 1));
            let deps = &tasks[i].dependencies;
            let ghost ds = deps@;
            let mut j: usize = 0;
            assert(ds.skip(0) =~= ds);
            while j < deps.len()
                invariant
                    j <= ds.len(),
                    ds == deps@,
                    i < tasks@.len(),
                    ds == tasks@[i as int].dependencies@,
                    g == tasks_graph(tasks@),
                    known == task_id_seq(tasks@).to_set(),
                    first_unknown(tasks@, known) == first_unknown(tasks@.skip(i as int), known),
                    crate::automation::scheduler::first_missing(ds, known) == crate::automation::scheduler::first_missing(ds.skip(j as int), known),
                    forall|b: int| 0 <= b < j ==> known.contains(#[trigger] ds[b]),
                decreases ds.len() - j,
            {
                let d = deps[j];
                assert(ds.skip(j as int)[0] == d);
                assert(ds.skip(j as int).drop_first() =~= ds.skip(j + 1));
                let mut found = false;
                let mut k: usize = 0;
                while k < tasks.len()
                    invariant
                        k <= tasks@.len(),
                        found == exists|q: int| 0 <= q < k && tasks@[q].id == d,
                    decreases tasks@.len() - k,
                {
                    if tasks[k].id == d {
                        found = true;
                    }
                    k += 1;
                }
                proof {
                    if found {
                        let q = choose|q: int| 0 <= q < tasks@.len() && tasks@[q].id == d;
                        assert(task_id_seq(tasks@)[q] == d);
                    } else {
                        assert(!known.contains(d)) by {
                            if known.contains(d) {
                                let q = choose|q: int| 0 <= q < task_id_seq(tasks@).len() && task_id_seq(tasks@)[q] == d;
                                assert(tasks@[q].id == d);
                            }
                        }
                    }
                }
                if !found {
                    proof {
                        assert(crate::automation::scheduler::first_missing(ds.skip(j as int), known) == Some(d));
                        assert(tasks@.skip(i as int)[0] == tasks@[i as int]);
                        assert(first_unknown(tasks@.skip(i as int), known) == Some(d));
                        assert(g.deps[i as int] == ds);
                        assert(!is_node(g, g.deps[i as int][j as int]));
                    }
                    return Some(d);
                }
                j += 1;
            }
            assert(ds.skip(j as int) =~= Seq::<u64>::empty());
            proof {
                assert(g.deps[i as int] == ds);
            }
            i += 1;
        }
        assert(tasks@.skip(i as int) =~= Seq::<Task>::empty());
        None
    }

    /// Registers a workflow. Its id must be new, its task ids distinct and
    /// its dependencies among its own tasks.
    pub fn register_workflow(&mut self, workflow: Workflow) -> (r: Result<(), AutomationError>)
        requires
            old(self).wf(),
            workflow.variables.wf(),
        ensures
            final(self).wf(),
            final(self).execution_map() == old(self).execution_map(),
            final(self).next_task() == old(self).next_task(),
            final(self).next_execution() == old(self).next_execution(),
            old(self).workflow_map().dom().contains(workflow.id@) ==> r is Err && r->Err_0 is InvalidTaskDefinition
                && r->Err_0->InvalidTaskDefinition_0@ == "工作流 "@ + workflow.id@ + " 已存在"@ && final(self).workflow_map()
                == old(self).workflow_map(),
            !old(self).workflow_map().dom().contains(workflow.id@) ==> match first_repeat(task_id_seq(workflow.tasks@), Set::empty()) {
                Some(d) => r is Err && r->Err_0 is InvalidTaskDefinition && r->Err_0->InvalidTaskDefinition_0@ == "任务 ID "@
                    + decimal(d as nat) + " 重复"@ && final(self).workflow_map() == old(self).workflow_map(),
                None => match first_unknown(workflow.tasks@, task_id_seq(workflow.tasks@).to_set()) {
                    Some(d) => r == Err::<(), AutomationError>(AutomationError::TaskDependencyNotFound(d)) && final(self).workflow_map()
                        == old(self).workflow_map(),
                    None => r is Ok && final(self).workflow_map() == old(self).workflow_map().insert(workflow.id@, workflow),
                },
            },
    {
        if self.find_workflow(workflow.id.as_str()).is_some() {
            let mut msg = String::from_str("工作流 ");
            msg.append(workflow.id.as_str());
            msg.append(" 已存在");
            return Err(AutomationError::InvalidTaskDefinition(msg));
        }
        match Self::repeated_task_id(&workflow.tasks) {
            Some(d) => {
                let mut msg = String::from_str("任务 ID ");
                push_decimal(&mut msg, d);
                msg.append(" 重复");
                return Err(AutomationError::InvalidTaskDefinition(msg));
            },
            None => {},
        }
        match Self::unknown_dependency(&workflow.tasks) {
            Some(d) => {
                return Err(AutomationError::TaskDependencyNotFound(d));
            },
            None => {},
        }
        let ghost s = workflow_entries(self.workflows@);
        let ghost w = workflow;
        let ghost k = workflow.id@;
        self.workflows.push(workflow);
        proof {
            lemma_push(s, k, w);
            assert(workflow_entries(self.workflows@) =~= s.push((k, w)));
        }
        Ok(())
    }
}


// ---------------------------------------------------------------------------
// Running a workflow
// ---------------------------------------------------------------------------

/// The first result recorded for `id` is a success.
pub open spec fn succeeded(s: Seq<(u64, TaskResult)>, id: u64) -> bool {
    exists|q: int|
        0 <= q < s.len() && #[trigger] s[q].0 == id && s[q].1.success && forall|p: int| 0 <= p < q ==> s[p].0 != id
}

proof fn lemma_task_of(ts: Seq<Task>, i: int)
    requires
        task_id_seq(ts).no_duplicates(),
        0 <= i < ts.len(),
    ensures
        task_of(ts, ts[i].id) == ts[i],
{
    let ids = task_id_seq(ts);
    assert(ids[i] == ts[i].id);
    let c = choose|c: int| 0 <= c < ts.len() && ts[c].id == ts[i].id;
    assert(ids[c] == ts[c].id);
}

/// The ids and dependency lists of the tasks, in order.
fn task_lists(tasks: &Vec<Task>) -> (r: (Vec<u64>, Vec<Vec<u64>>))
    ensures
        r.0@.len() == r.1@.len(),
        graph_of(r.0@, r.1@) == tasks_graph(tasks@),
{
    let mut ids: Vec<u64> = Vec::new();
    let mut deps: Vec<Vec<u64>> = Vec::new();
    let mut i: usize = 0;
    while i < tasks.len()
        invariant
            i <= tasks@.len(),
            ids@ == task_id_seq(tasks@).take(i as int),
            deps@.len() == i,
            forall|k: int| 0 <= k < i ==> #[trigger] deps@[k]@ == tasks@[k].dependencies@,
        decreases tasks@.len() - i,
    {
        ids.push(tasks[i].id);
        deps.push(crate::automation::scheduler::copy_list(&tasks[i].dependencies));
        assert(ids@ =~= task_id_seq(tasks@).take(i + 1));
        i += 1;
    }
    assert(ids@ =~= task_id_seq(tasks@));
    assert(deps@.map_values(|d: Vec<u64>| d@) =~= tasks@.map_values(|t: Task| t.dependencies@));
    (ids, deps)
}

/// The position of the task with the given id.
fn task_index(tasks: &Vec<Task>, id: u64) -> (r: Option<usize>)
    ensures
        match r {
            Some(i) => i < tasks@.len() && tasks@[i as int].id == id,
            None => forall|i: int| 0 <= i < tasks@.len() ==> #[trigger] tasks@[i].id != id,
        },
{
    let mut i: usize = 0;
    while i < tasks.len()
        invariant
            i <= tasks@.len(),
            forall|q: int| 0 <= q < i ==> #[trigger] tasks@[q].id != id,
        decreases tasks@.len() - i,
    {
        if tasks[i].id == id {
            return Some(i);
        }
        i += 1;
    }
    None
}

/// Whether the result recorded for `id` is a success; false when none is.
fn result_succeeded(results: &Vec<(u64, TaskResult)>, id: u64) -> (r: bool)
    ensures
        r == succeeded(results@, id),
{
    let mut i: usize = 0;
    while i < results.len()
        invariant
            i <= results@.len(),
            forall|p: int| 0 <= p < i ==> #[trigger] results@[p].0 != id,
        decreases results@.len() - i,
    {
        if results[i].0 == id {
            let ok = results[i].1.success;
            proof {
                if !ok && succeeded(results@, id) {
                    let q = choose|q: int|
                        0 <= q < results@.len() && #[trigger] results@[q].0 == id && results@[q].1.success
                            && forall|p: int| 0 <= p < q ==> results@[p].0 != id;
                    assert(q != i);
                }
            }
            return ok;
        }
        i += 1;
    }
    false
}

/// Whether every dependency's recorded result is a success.
fn deps_succeeded(deps: &Vec<u64>, results: &Vec<(u64, TaskResult)>) -> (r: bool)
    ensures
        r == forall|j: int| 0 <= j < deps@.len() ==> succeeded(results@, #[trigger] deps@[j]),
{
    let mut j: usize = 0;
    while j < deps.len()
        invariant
            j <= deps@.len(),
            forall|q: int| 0 <= q < j ==> succeeded(results@, #[trigger] deps@[q]),
        decreases deps@.len() - j,
    {
        if !result_succeeded(results, deps[j]) {
            return false;
        }
        j += 1;
    }
    true
}

impl WorkflowEngine {
    /// Runs a registered workflow: a new execution `exec-N` takes the
    /// workflow's variables overridden by `params`, and runs every task in
    /// an order that respects the dependencies, each after all of its
    /// dependencies have succeeded. Dependencies that form a cycle are
    /// refused before anything runs; the execution number is used up
    /// either way.
    pub fn execute(&mut self, workflow_id: &str, params: TextMap) -> (r: Result<String, AutomationError>)
        requires
            old(self).wf(),
            params.wf(),
            old(self).next_execution() < u64::MAX,
        ensures
            final(self).wf(),
            final(self).workflow_map() == old(self).workflow_map(),
            final(self).next_task() == old(self).next_task(),
            !old(self).workflow_map().dom().contains(workflow_id@) ==> {
                &&& r is Err && r->Err_0 is WorkflowNotFound && r->Err_0->WorkflowNotFound_0@ == workflow_id@
                &&& final(self).execution_map() == old(self).execution_map()
                &&& final(self).next_execution() == old(self).next_execution()
            },
            old(self).workflow_map().dom().contains(workflow_id@) ==> {
                let w = old(self).workflow_map()[workflow_id@];
                let eid = "exec-"@ + decimal(old(self).next_execution() as nat);
                &&& final(self).next_execution() == old(self).next_execution() + 1
                &&& has_cycle(tasks_graph(w.tasks@)) ==> r == Err::<String, AutomationError>(
                    AutomationError::CircularDependency,
                ) && final(self).execution_map() == old(self).execution_map()
                &&& !has_cycle(tasks_graph(w.tasks@)) ==> r is Ok && r->Ok_0@ == eid && final(self).execution_map()
                    == old(self).execution_map().insert(eid, final(self).execution_map()[eid]) && ran_to_completion(
                    w,
                    params,
                    eid,
                    final(self).execution_map()[eid],
                )
            },
    {
        let wi = match self.find_workflow(workflow_id) {
            Some(i) => i,
            None => {
                return Err(AutomationError::WorkflowNotFound(String::from_str(workflow_id)));
            },
        };
        let ghost w = self.workflows@[wi as int];
        let ghost g = tasks_graph(w.tasks@);
        let execution_id = text_with_number("exec-", self.next_execution_id);
        self.next_execution_id = self.next_execution_id + 1;
        proof {
            assert(valid_tasks(self.workflows@[wi as int].tasks@));
            assert(w.variables.wf());
        }
        let mut execution = WorkflowExecution::new(execution_id.as_str(), workflow_id);
        execution.state = WorkflowState::Running;
        execution.context.start_time = 0;
        proof {
            lemma_empty::<Seq<char>, Seq<char>>();
            assert(execution.context.variables.map() =~= Map::<Seq<char>, Seq<char>>::empty());
        }
        execution.context.variables.merge_from(&self.workflows[wi].variables);
        execution.context.variables.merge_from(&params);
        proof {
            assert(Map::<Seq<char>, Seq<char>>::empty().union_prefer_right(w.variables.map()) =~= w.variables.map());
        }
        let (ids, deps) = task_lists(&self.workflows[wi].tasks);
        let (order, all) = peel(&ids, &deps, false);
        proof {
            lemma_peel_all(graph_of(ids@, deps@), order@, all);
        }
        if !all {
            return Err(AutomationError::CircularDependency);
        }
        let ghost pre = *self;
        let mut k: usize = 0;
        while k < order.len()
            invariant
                k <= order@.len(),
                *self == pre,
                self.wf(),
                wi < self.workflows@.len(),
                self.workflows@[wi as int] == w,
                g == tasks_graph(w.tasks@),
                valid_tasks(w.tasks@),
                is_topo_order(g, order@),
                execution_id@ == "exec-"@ + decimal((self.next_execution_id - 1) as nat),
                execution.id@ == execution_id@,
                execution.workflow_id@ == workflow_id@,
                execution.state == WorkflowState::Running,
                execution.context.variables.wf(),
                execution.context.variables.map() == w.variables.map().union_prefer_right(params.map()),
                execution.context.start_time == 0,
                execution.task_queue@.len() == 0,
                execution.failed_tasks@.len() == 0,
                execution.completed_tasks@ == order@.take(k as int),
                execution.context.task_results@.len() == k,
                forall|q: int|
                    0 <= q < k ==> {
                        let res = #[trigger] execution.context.task_results@[q];
                        &&& res.0 == order@[q]
                        &&& res.1.success
                        &&& res.1.output@ == task_message(task_of(w.tasks@, order@[q]).task_type)
                    },
            decreases order@.len() - k,
        {
            let task_id = order[k];
            let ti = match task_index(&self.workflows[wi].tasks, task_id) {
                Some(t) => t,
                None => {
                    proof {
                        assert(is_node(g, task_id));
                        let i = choose|i: int| 0 <= i < g.ids.len() && g.ids[i] == task_id;
                        assert(w.tasks@[i].id == task_id);
                    }
                    return Err(AutomationError::TaskNotFound(task_id));
                },
            };
            let task = &self.workflows[wi].tasks[ti];
            let deps_ok = deps_succeeded(&task.dependencies, &execution.context.task_results);
            proof {
                let results = execution.context.task_results@;
                assert(g.ids[ti as int] == task_id);
                lemma_node_index(g, ti as int);
                assert(deps_of(g, order@[k as int]) == task.dependencies@);
                assert forall|j: int| 0 <= j < task.dependencies@.len() implies succeeded(
                    results,
                    #[trigger] task.dependencies@[j],
                ) by {
                    let d = task.dependencies@[j];
                    assert(deps_of(g, order@[k as int])[j] == d);
                    assert(earlier(order@, k as int, d));
                    let q = choose|q: int| 0 <= q < k && order@[q] == d;
                    assert(results[q].0 == d);
                    assert forall|p: int| 0 <= p < q implies results[p].0 != d by {
                        assert(results[p].0 == order@[p]);
                    }
                }
            }
            if !deps_ok {
                match &self.workflows[wi].error_handling {
                    ErrorHandling::FailFast => {
                        execution.state = WorkflowState::Failed;
                        execution.failed_tasks.push(task_id);
                        let id_copy = crate::text::copy_string(&execution_id);
                        self.insert_execution(execution);
                        return Ok(id_copy);
                    },
                    ErrorHandling::ContinueOnError => {
                        execution.failed_tasks.push(task_id);
                        execution.context.task_results.push((task_id, TaskResult::failure("依赖任务失败")));
                    },
                    ErrorHandling::Retry { max_retries, .. } => {
                        let retry_count = if task.retry_count < *max_retries {
                            task.retry_count
                        } else {
                            *max_retries
                        };
                        if retry_count >= *max_retries {
                            execution.failed_tasks.push(task_id);
                            execution.context.task_results.push((task_id, TaskResult::failure("超过最大重试次数")));
                        } else {
                            execution.completed_tasks.push(task_id);
                            execution.context.task_results.push((task_id, TaskResult::success("重试成功")));
                        }
                    },
                    ErrorHandling::Fallback { task_id: fallback_id } => {
                        execution.completed_tasks.push(task_id);
                        let msg = text_with_number("执行备选任务 ", *fallback_id);
                        execution.context.task_results.push((task_id, TaskResult::success(msg.as_str())));
                    },
                }
            } else {
                execution.completed_tasks.push(task_id);
                execution.context.current_task_id = Some(task_id);
                let out = task_output(&task.task_type);
                proof {
                    lemma_task_of(w.tasks@, ti as int);
                }
                execution.context.task_results.push((task_id, TaskResult::success(out.as_str())));
                assert(execution.completed_tasks@ =~= order@.take(k + 1));
            }
            k += 1;
        }
        execution.state = WorkflowState::Completed;
        execution.context.current_task_id = None;
        assert(order@.take(k as int) =~= order@);
        let ghost e = execution;
        self.insert_execution(execution);
        proof {
            assert(self.execution_map().dom().contains(execution_id@));
            assert(self.execution_map()[execution_id@] == e);
        }
        Ok(execution_id)
    }
}


impl WorkflowEngine {
    /// Gives the execution at position `i` a new state.
    fn set_execution_state(&mut self, i: usize, state: WorkflowState)
        requires
            old(self).wf(),
            i < old(self).active_executions@.len(),
        ensures
            final(self).wf(),
            final(self).execution_map() == old(self).execution_map().insert(
                old(self).active_executions@[i as int].id@,
                WorkflowExecution { state: state, ..old(self).active_executions@[i as int] },
            ),
            final(self).workflow_map() == old(self).workflow_map(),
            final(self).next_task() == old(self).next_task(),
            final(self).next_execution() == old(self).next_execution(),
    {
        let ghost s = execution_entries(self.active_executions@);
        let ghost e = WorkflowExecution { state: state, ..self.active_executions@[i as int] };
        self.active_executions[i].state = state;
        proof {
            lemma_update(s, i as int, e);
            assert(execution_entries(self.active_executions@) =~= s.update(i as int, (s[i as int].0, e)));
        }
    }

    /// The message of a refused change of state: `无法从 {state}` and the action.
    fn transition_refused(state: WorkflowState, action: &str) -> (r: AutomationError)
        ensures
            r is InvalidStateTransition,
            r->InvalidStateTransition_0@ == "无法从 "@ + workflow_state_name(state) + action@,
    {
        let mut msg = String::from_str("无法从 ");
        msg.append(workflow_state_text(state));
        msg.append(action);
        AutomationError::InvalidStateTransition(msg)
    }

    /// Pauses a running execution.
    pub fn pause(&mut self, execution_id: &str) -> (r: Result<(), AutomationError>)
        requires
            old(self).wf(),
        ensures
            final(self).wf(),
            final(self).workflow_map() == old(self).workflow_map(),
            final(self).next_task() == old(self).next_task(),
            final(self).next_execution() == old(self).next_execution(),
            !old(self).execution_map().dom().contains(execution_id@) ==> r is Err && r->Err_0 is ExecutionNotFound
                && r->Err_0->ExecutionNotFound_0@ == execution_id@ && final(self).execution_map() == old(self).execution_map(),
            old(self).execution_map().dom().contains(execution_id@) ==> {
                let e = old(self).execution_map()[execution_id@];
                if e.state == WorkflowState::Running {
                    r is Ok && final(self).execution_map() == old(self).execution_map().insert(
                        execution_id@,
                        WorkflowExecution { state: WorkflowState::Paused, ..e },
                    )
                } else {
                    r is Err && r->Err_0 is InvalidStateTransition && r->Err_0->InvalidStateTransition_0@ == "无法从 "@
                        + workflow_state_name(e.state) + " 暂停"@ && final(self).execution_map() == old(self).execution_map()
                }
            },
    {
        match self.find_execution(execution_id) {
            None => Err(AutomationError::ExecutionNotFound(String::from_str(execution_id))),
            Some(i) => {
                let state = self.active_executions[i].state;
                if state == WorkflowState::Running {
                    self.set_execution_state(i, WorkflowState::Paused);
                    Ok(())
                } else {
                    Err(Self::transition_refused(state, " 暂停"))
                }
            },
        }
    }

    /// Resumes a paused execution.
    pub fn resume(&mut self, execution_id: &str) -> (r: Result<(), AutomationError>)
        requires
            old(self).wf(),
        ensures
            final(self).wf(),
            final(self).workflow_map() == old(self).workflow_map(),
            final(self).next_task() == old(self).next_task(),
            final(self).next_execution() == old(self).next_execution(),
            !old(self).execution_map().dom().contains(execution_id@) ==> r is Err && r->Err_0 is ExecutionNotFound
                && r->Err_0->ExecutionNotFound_0@ == execution_id@ && final(self).execution_map() == old(self).execution_map(),
            old(self).execution_map().dom().contains(execution_id@) ==> {
                let e = old(self).execution_map()[execution_id@];
                if e.state == WorkflowState::Paused {
                    r is Ok && final(self).execution_map() == old(self).execution_map().insert(
                        execution_id@,
                        WorkflowExecution { state: WorkflowState::Running, ..e },
                    )
                } else {
                    r is Err && r->Err_0 is InvalidStateTransition && r->Err_0->InvalidStateTransition_0@ == "无法从 "@
                        + workflow_state_name(e.state) + " 恢复"@ && final(self).execution_map() == old(self).execution_map()
                }
            },
    {
        match self.find_execution(execution_id) {
            None => Err(AutomationError::ExecutionNotFound(String::from_str(execution_id))),
            Some(i) => {
                let state = self.active_executions[i].state;
                if state == WorkflowState::Paused {
                    self.set_execution_state(i, WorkflowState::Running);
                    Ok(())
                } else {
                    Err(Self::transition_refused(state, " 恢复"))
                }
            },
        }
    }

    /// Cancels a running or paused execution.
    pub fn cancel(&mut self, execution_id: &str) -> (r: Result<(), AutomationError>)
        requires
            old(self).wf(),
        ensures
            final(self).wf(),
            final(self).workflow_map() == old(self).workflow_map(),
            final(self).next_task() == old(self).next_task(),
            final(self).next_execution() == old(self).next_execution(),
            !old(self).execution_map().dom().contains(execution_id@) ==> r is Err && r->Err_0 is ExecutionNotFound
                && r->Err_0->ExecutionNotFound_0@ == execution_id@ && final(self).execution_map() == old(self).execution_map(),
            old(self).execution_map().dom().contains(execution_id@) ==> {
                let e = old(self).execution_map()[execution_id@];
                if e.state == WorkflowState::Running || e.state == WorkflowState::Paused {
                    r is Ok && final(self).execution_map() == old(self).execution_map().insert(
                        execution_id@,
                        WorkflowExecution { state: WorkflowState::Cancelled, ..e },
                    )
                } else {
                    r is Err && r->Err_0 is InvalidStateTransition && r->Err_0->InvalidStateTransition_0@ == "无法从 "@
                        + workflow_state_name(e.state) + " 取消"@ && final(self).execution_map() == old(self).execution_map()
                }
            },
    {
        match self.find_execution(execution_id) {
            None => Err(AutomationError::ExecutionNotFound(String::from_str(execution_id))),
            Some(i) => {
                let state = self.active_executions[i].state;
                if state == WorkflowState::Running || state == WorkflowState::Paused {
                    self.set_execution_state(i, WorkflowState::Cancelled);
                    Ok(())
                } else {
                    Err(Self::transition_refused(state, " 取消"))
                }
            },
        }
    }

    /// The state of an execution.
    pub fn status(&self, execution_id: &str) -> (r: Result<WorkflowState, AutomationError>)
        requires
            self.wf(),
        ensures
            match r {
                Ok(s) => self.execution_map().dom().contains(execution_id@) && s == self.execution_map()[execution_id@].state,
                Err(e) => !self.execution_map().dom().contains(execution_id@) && e is ExecutionNotFound
                    && e->ExecutionNotFound_0@ == execution_id@,
            },
    {
        match self.find_execution(execution_id) {
            Some(i) => Ok(self.active_executions[i].state),
            None => Err(AutomationError::ExecutionNotFound(String::from_str(execution_id))),
        }
    }

    /// The record of an execution.
    pub fn result(&self, execution_id: &str) -> (r: Result<&WorkflowExecution, AutomationError>)
        requires
            self.wf(),
        ensures
            match r {
                Ok(e) => self.execution_map().dom().contains(execution_id@) && *e == self.execution_map()[execution_id@],
                Err(e) => !self.execution_map().dom().contains(execution_id@) && e is ExecutionNotFound
                    && e->ExecutionNotFound_0@ == execution_id@,
            },
    {
        match self.find_execution(execution_id) {
            Some(i) => Ok(&self.active_executions[i]),
            None => Err(AutomationError::ExecutionNotFound(String::from_str(execution_id))),
        }
    }

    /// Every registered workflow, once each.
    pub fn list_workflows(&self) -> (r: Vec<&Workflow>)
        requires
            self.wf(),
        ensures
            r@.len() == self.workflow_map().dom().len(),
            forall|k: int|
                0 <= k < r@.len() ==> self.workflow_map().dom().contains(#[trigger] r@[k].id@) && self.workflow_map()[r@[k].id@]
                    == *r@[k],
            forall|a: int, b: int| 0 <= a < r@.len() && 0 <= b < r@.len() && a != b ==> r@[a].id@ != r@[b].id@,
    {
        let ghost s = workflow_entries(self.workflows@);
        let mut r: Vec<&Workflow> = Vec::new();
        let mut i: usize = 0;
        while i < self.workflows.len()
            invariant
                i <= self.workflows@.len(),
                s == workflow_entries(self.workflows@),
                keys_distinct(s),
                r@.len() == i,
                forall|k: int| 0 <= k < i ==> *r@[k] == #[trigger] self.workflows@[k],
            decreases self.workflows@.len() - i,
        {
            r.push(&self.workflows[i]);
            i += 1;
        }
        proof {
            lemma_len(s);
            assert forall|k: int| 0 <= k < r@.len() implies self.workflow_map().dom().contains(#[trigger] r@[k].id@)
                && self.workflow_map()[r@[k].id@] == *r@[k] by {
                assert(s[k].0 == self.workflows@[k].id@);
                lemma_entry(s, k);
            }
            assert forall|a: int, b: int| 0 <= a < r@.len() && 0 <= b < r@.len() && a != b implies r@[a].id@ != r@[b].id@ by {
                assert(s[a].0 == self.workflows@[a].id@);
                assert(s[b].0 == self.workflows@[b].id@);
            }
        }
        r
    }

    /// Removes a registered workflow.
    pub fn remove_workflow(&mut self, workflow_id: &str) -> (r: Result<(), AutomationError>)
        requires
            old(self).wf(),
        ensures
            final(self).wf(),
            final(self).execution_map() == old(self).execution_map(),
            final(self).next_task() == old(self).next_task(),
            final(self).next_execution() == old(self).next_execution(),
            final(self).workflow_map() == old(self).workflow_map().remove(workflow_id@),
            r is Ok <==> old(self).workflow_map().dom().contains(workflow_id@),
            r is Err ==> r->Err_0 is WorkflowNotFound && r->Err_0->WorkflowNotFound_0@ == workflow_id@,
    {
        match self.find_workflow(workflow_id) {
            Some(i) => {
                let ghost s = workflow_entries(self.workflows@);
                let ghost before = self.workflows@;
                self.workflows.remove(i);
                proof {
                    lemma_remove(s, i as int);
                    assert(workflow_entries(self.workflows@) =~= s.remove(i as int));
                    assert forall|k: int| 0 <= k < self.workflows@.len() implies valid_tasks(
                        #[trigger] self.workflows@[k].tasks@,
                    ) && self.workflows@[k].variables.wf() by {
                        if k < i {
                            assert(self.workflows@[k] == before[k]);
                        } else {
                            assert(self.workflows@[k] == before[k + 1]);
                        }
                    }
                }
                Ok(())
            },
            None => {
                proof {
                    assert(old(self).workflow_map().remove(workflow_id@) =~= old(self).workflow_map());
                }
                Err(AutomationError::WorkflowNotFound(String::from_str(workflow_id)))
            },
        }
    }

    /// Hands out the next task id.
    pub fn allocate_task_id(&mut self) -> (r: u64)
        requires
            old(self).wf(),
            old(self).next_task() < u64::MAX,
        ensures
            final(self).wf(),
            r == old(self).next_task(),
            final(self).next_task() == old(self).next_task() + 1,
            final(self).workflow_map() == old(self).workflow_map(),
            final(self).execution_map() == old(self).execution_map(),
            final(self).next_execution() == old(self).next_execution(),
    {
        let id = self.next_task_id;
        self.next_task_id = self.next_task_id + 1;
        id
    }
}

impl Default for WorkflowEngine {
    fn default() -> (r: WorkflowEngine)
        ensures
            r.wf(),
            r.workflow_map() == Map::<Seq<char>, Workflow>::empty(),
            r.execution_map() == Map::<Seq<char>, WorkflowExecution>::empty(),
            r.next_task() == 1,
            r.next_execution() == 1,
    {
        WorkflowEngine::new()
    }
}


/// Pausing a running execution and resuming it gives back the same record,
/// and a cancelled, completed or failed execution can be neither paused,
/// resumed nor cancelled.
pub proof fn law_pause_resume_restores(m: Map<Seq<char>, WorkflowExecution>, id: Seq<char>)
    requires
        m.dom().contains(id),
    ensures
        m[id].state == WorkflowState::Running ==> {
            let paused = m.insert(id, WorkflowExecution { state: WorkflowState::Paused, ..m[id] });
            &&& paused[id].state == WorkflowState::Paused
            &&& paused.insert(id, WorkflowExecution { state: WorkflowState::Running, ..paused[id] }) == m
        },
        m[id].state == WorkflowState::Cancelled || m[id].state == WorkflowState::Completed || m[id].state
            == WorkflowState::Failed ==> m[id].state != WorkflowState::Running && m[id].state != WorkflowState::Paused,
{
    if m[id].state == WorkflowState::Running {
        let paused = m.insert(id, WorkflowExecution { state: WorkflowState::Paused, ..m[id] });
        assert(paused.insert(id, WorkflowExecution { state: WorkflowState::Running, ..paused[id] }) =~= m);
    }
}

} // verus!
