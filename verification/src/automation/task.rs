//! Tasks: what a task does, its priority, its life-cycle state and the
//! transitions between states.
use vstd::prelude::*;
use crate::textmap::{TextMap, set_param};
use crate::automation::error::AutomationError;

verus! {

/// How urgent a task is, from `Low` to `Critical`.
#[derive(Debug, Clone, Copy, PartialEq, Eq, Structural, PartialOrd, Ord)]
pub enum TaskPriority {
    Low,
    Normal,
    High,
    Critical,
}

/// The position of a priority in the order `Low < Normal < High < Critical`.
pub open spec fn priority_rank(p: TaskPriority) -> u8 {
    match p {
        TaskPriority::Low => 0,
        TaskPriority::Normal => 1,
        TaskPriority::High => 2,
        TaskPriority::Critical => 3,
    }
}

impl TaskPriority {
    /// The position of the priority in the order.
    pub fn rank(&self) -> (r: u8)
        ensures
            r == priority_rank(*self),
    {
        match self {
            TaskPriority::Low => 0,
            TaskPriority::Normal => 1,
            TaskPriority::High => 2,
            TaskPriority::Critical => 3,
        }
    }
}

/// The life-cycle state of a task.
#[derive(Debug, Clone, Copy, PartialEq, Eq, Structural)]
pub enum TaskState {
    Pending,
    Running,
    Paused,
    Completed,
    Failed,
    Cancelled,
    Waiting,
    Retrying,
}

/// The name of a state.
pub open spec fn task_state_name(s: TaskState) -> Seq<char> {
    match s {
        TaskState::Pending => "Pending"@,
        TaskState::Running => "Running"@,
        TaskState::Paused => "Paused"@,
        TaskState::Completed => "Completed"@,
        TaskState::Failed => "Failed"@,
        TaskState::Cancelled => "Cancelled"@,
        TaskState::Waiting => "Waiting"@,
        TaskState::Retrying => "Retrying"@,
    }
}

fn state_name(s: TaskState) -> (r: &'static str)
    ensures
        r@ == task_state_name(s),
{
    match s {
        TaskState::Pending => "Pending",
        TaskState::Running => "Running",
        TaskState::Paused => "Paused",
        TaskState::Completed => "Completed",
        TaskState::Failed => "Failed",
        TaskState::Cancelled => "Cancelled",
        TaskState::Waiting => "Waiting",
        TaskState::Retrying => "Retrying",
    }
}

/// The moves the task life cycle allows: a pending task starts, waits or
/// is cancelled; a waiting one starts or is cancelled; a running one
/// completes, fails, pauses or retries; a paused one resumes or is
/// cancelled; a retrying one runs again or fails; and any state may stay
/// as it is.
pub open spec fn valid_transition(from: TaskState, to: TaskState) -> bool {
    ||| from == to
    ||| (from == TaskState::Pending && (to == TaskState::Running || to == TaskState::Waiting || to
        == TaskState::Cancelled))
    ||| (from == TaskState::Waiting && (to == TaskState::Running || to == TaskState::Cancelled))
    ||| (from == TaskState::Running && (to == TaskState::Completed || to == TaskState::Failed || to
        == TaskState::Paused || to == TaskState::Retrying))
    ||| (from == TaskState::Paused && (to == TaskState::Running || to == TaskState::Cancelled))
    ||| (from == TaskState::Retrying && (to == TaskState::Running || to == TaskState::Failed))
}

/// Whether the life cycle allows the move.
pub fn can_transition(from: TaskState, to: TaskState) -> (r: bool)
    ensures
        r == valid_transition(from, to),
{
    match (from, to) {
        (TaskState::Pending, TaskState::Running)
        | (TaskState::Pending, TaskState::Waiting)
        | (TaskState::Pending, TaskState::Cancelled) => true,
        (TaskState::Waiting, TaskState::Running) | (TaskState::Waiting, TaskState::Cancelled) => true,
        (TaskState::Running, TaskState::Completed)
        | (TaskState::Running, TaskState::Failed)
        | (TaskState::Running, TaskState::Paused)
        | (TaskState::Running, TaskState::Retrying) => true,
        (TaskState::Paused, TaskState::Running) | (TaskState::Paused, TaskState::Cancelled) => true,
        (TaskState::Retrying, TaskState::Running) | (TaskState::Retrying, TaskState::Failed) => true,
        _ => from == to,
    }
}

/// What a file task does.
#[derive(Debug, Clone, PartialEq, Eq)]
pub enum FileOperation {
    Read,
    Write { content: String },
    Append { content: String },
    Delete,
    Copy { dest: String },
    Move { dest: String },
    Exists,
    List,
}

/// What a transform task does.
#[derive(Debug, Clone, PartialEq, Eq)]
pub enum TransformType {
    JsonParse,
    JsonStringify,
    Base64Encode,
    Base64Decode,
    RegexMatch { pattern: String },
    RegexReplace { pattern: String, replacement: String },
    Template { template: String },
    Split { delimiter: String },
    Join { delimiter: String },
}

/// What a task does.
#[derive(Debug)]
pub enum TaskType {
    Shell { command: String },
    Http { method: String, url: String, headers: TextMap, body: Option<String> },
    File { path: String, operation: FileOperation },
    AgentCall { agent_id: u64, method: String, args: Vec<String> },
    Condition { expression: String },
    Transform { input_var: String, output_var: String, transform: TransformType },
    Wait { duration_ms: u64 },
    Parallel { tasks: Vec<u64> },
    SubWorkflow { workflow_id: String },
    Custom { handler: String },
}

/// The outcome of running a task.
#[derive(Debug)]
pub struct TaskResult {
    pub success: bool,
    pub output: String,
    pub data: Option<Vec<u8>>,
    pub metadata: TextMap,
}

impl TaskResult {
    /// A success with the given output.
    pub fn success(output: &str) -> (r: TaskResult)
        ensures
            r.success,
            r.output@ == output@,
            r.data is None,
            r.metadata.wf(),
            r.metadata.entries().len() == 0,
    {
        TaskResult { success: true, output: String::from_str(output), data: None, metadata: TextMap::new() }
    }

    /// A failure; the error text is not kept, and the output is empty.
    pub fn failure(error: &str) -> (r: TaskResult)
        ensures
            !r.success,
            r.output@.len() == 0,
            r.data is None,
            r.metadata.wf(),
            r.metadata.entries().len() == 0,
    {
        TaskResult { success: false, output: String::new(), data: None, metadata: TextMap::new() }
    }
}

/// A unit of work with its dependencies.
#[derive(Debug)]
pub struct Task {
    pub id: u64,
    pub name: String,
    pub description: String,
    pub task_type: TaskType,
    pub priority: TaskPriority,
    pub state: TaskState,
    pub dependencies: Vec<u64>,
    pub params: TextMap,
    pub retry_count: u32,
    pub max_retries: u32,
    pub timeout_ms: u64,
    pub created_at: u64,
    pub started_at: Option<u64>,
    pub completed_at: Option<u64>,
    pub result: Option<TaskResult>,
    pub error: Option<String>,
}

impl Task {
    /// A pending task of normal priority with no dependencies, no
    /// parameters, three retries and a 30-second timeout.
    pub fn new(id: u64, name: &str, task_type: TaskType) -> (r: Task)
        ensures
            r.id == id,
            r.name@ == name@,
            r.description@.len() == 0,
            r.task_type == task_type,
            r.priority == TaskPriority::Normal,
            r.state == TaskState::Pending,
            r.dependencies@.len() == 0,
            r.params.wf(),
            r.params.entries().len() == 0,
            r.retry_count == 0,
            r.max_retries == 3,
            r.timeout_ms == 30000,
            r.created_at == 0,
            r.started_at is None,
            r.completed_at is None,
            r.result is None,
            r.error is None,
    {
        Task {
            id,
            name: String::from_str(name),
            description: String::new(),
            task_type,
            priority: TaskPriority::Normal,
            state: TaskState::Pending,
            dependencies: Vec::new(),
            params: TextMap::new(),
            retry_count: 0,
            max_retries: 3,
            timeout_ms: 30000,
            created_at: 0,
            started_at: None,
            completed_at: None,
            result: None,
            error: None,
        }
    }

    pub fn with_description(self, desc: &str) -> (r: Task)
        ensures
            r == (Task { description: r.description, ..self }),
            r.description@ == desc@,
    {
        let mut t = self;
        t.description = String::from_str(desc);
        t
    }

    pub fn with_priority(self, priority: TaskPriority) -> (r: Task)
        ensures
            r == (Task { priority: priority, ..self }),
    {
        let mut t = self;
        t.priority = priority;
        t
    }

    /// Adds a dependency.
    pub fn with_dependency(self, dep_id: u64) -> (r: Task)
        ensures
            r == (Task { dependencies: r.dependencies, ..self }),
            r.dependencies@ == self.dependencies@.push(dep_id),
    {
        let mut t = self;
        t.dependencies.push(dep_id);
        t
    }

    /// Sets a parameter.
    pub fn with_param(self, key: &str, value: &str) -> (r: Task)
        requires
            self.params.wf(),
        ensures
            r == (Task { params: r.params, ..self }),
            r.params.wf(),
            r.params.entries() == set_param(self.params.entries(), key@, value@),
    {
        let mut t = self;
        t.params.insert(key, value);
        t
    }

    pub fn with_max_retries(self, max_retries: u32) -> (r: Task)
        ensures
            r == (Task { max_retries: max_retries, ..self }),
    {
        let mut t = self;
        t.max_retries = max_retries;
        t
    }

    pub fn with_timeout(self, timeout_ms: u64) -> (r: Task)
        ensures
            r == (Task { timeout_ms: timeout_ms, ..self }),
    {
        let mut t = self;
        t.timeout_ms = timeout_ms;
        t
    }

    /// Moves the task to a new state, if the life cycle allows it; else
    /// the error names both states and the task stays as it was.
    pub fn transition_to(&mut self, new_state: TaskState) -> (r: Result<(), AutomationError>)
        ensures
            valid_transition(old(self).state, new_state) ==> r is Ok && *final(self) == (Task {
                state: new_state,
                ..*old(self)
            }),
            !valid_transition(old(self).state, new_state) ==> r is Err && r->Err_0 is InvalidStateTransition
                && r->Err_0->InvalidStateTransition_0@ == task_state_name(old(self).state) + " -> "@
                + task_state_name(new_state) && *final(self) == *old(self),
    {
        if can_transition(self.state, new_state) {
            self.state = new_state;
            Ok(())
        } else {
            let mut msg = String::from_str(state_name(self.state));
            msg.append(" -> ");
            msg.append(state_name(new_state));
            Err(AutomationError::InvalidStateTransition(msg))
        }
    }
}

/// A task that finished, failed or was cancelled leaves those states only
/// by staying in them.
pub proof fn law_final_states_stay(from: TaskState, to: TaskState)
    requires
        from == TaskState::Completed || from == TaskState::Failed || from == TaskState::Cancelled,
        valid_transition(from, to),
    ensures
        to == from,
{
}

/// The moves of a task's life cycle. A pending task may start, wait or be
/// cancelled; a waiting one may start or be cancelled; a running one may
/// complete, fail, pause or retry; a paused one may resume or be cancelled;
/// a retrying one may run again or fail. A task completes only from
/// running, fails only from running or retrying, is cancelled only before
/// it runs or while paused, and starts running only from pending, waiting,
/// paused or retrying; no task goes back to pending. Staying put is always
/// allowed.
pub proof fn law_task_life_cycle(from: TaskState, to: TaskState)
    ensures
        valid_transition(from, from),
        valid_transition(TaskState::Pending, TaskState::Running),
        valid_transition(TaskState::Pending, TaskState::Waiting),
        valid_transition(TaskState::Pending, TaskState::Cancelled),
        valid_transition(TaskState::Waiting, TaskState::Running),
        valid_transition(TaskState::Waiting, TaskState::Cancelled),
        valid_transition(TaskState::Running, TaskState::Completed),
        valid_transition(TaskState::Running, TaskState::Failed),
        valid_transition(TaskState::Running, TaskState::Paused),
        valid_transition(TaskState::Running, TaskState::Retrying),
        valid_transition(TaskState::Paused, TaskState::Running),
        valid_transition(TaskState::Paused, TaskState::Cancelled),
        valid_transition(TaskState::Retrying, TaskState::Running),
        valid_transition(TaskState::Retrying, TaskState::Failed),
        from != to && valid_transition(from, to) && to == TaskState::Completed ==> from == TaskState::Running,
        from != to && valid_transition(from, to) && to == TaskState::Failed ==> from == TaskState::Running || from
            == TaskState::Retrying,
        from != to && valid_transition(from, to) && to == TaskState::Cancelled ==> from == TaskState::Pending || from
            == TaskState::Waiting || from == TaskState::Paused,
        from != to && valid_transition(from, to) && to == TaskState::Running ==> from == TaskState::Pending || from
            == TaskState::Waiting || from == TaskState::Paused || from == TaskState::Retrying,
        from != to && valid_transition(from, to) && (to == TaskState::Paused || to == TaskState::Retrying) ==> from
            == TaskState::Running,
        from != to && valid_transition(from, to) && to == TaskState::Waiting ==> from == TaskState::Pending,
        from != TaskState::Pending && valid_transition(from, to) ==> to != TaskState::Pending,
{
}

/// Priorities rank low, normal, high, critical, each strictly above the
/// one before.
pub proof fn law_priority_order()
    ensures
        priority_rank(TaskPriority::Low) < priority_rank(TaskPriority::Normal),
        priority_rank(TaskPriority::Normal) < priority_rank(TaskPriority::High),
        priority_rank(TaskPriority::High) < priority_rank(TaskPriority::Critical),
{
}

} // verus!
