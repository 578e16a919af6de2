//! Workflows: named sets of tasks with variables and an error policy, and
//! the records of their executions.
use vstd::prelude::*;
use crate::textmap::{TextMap, set_param};
use crate::automation::task::{Task, TaskResult};

verus! {

/// What an execution does when a task's dependency has failed.
#[derive(Debug)]
pub enum ErrorHandling {
    FailFast,
    ContinueOnError,
    Retry { max_retries: u32, delay_ms: u64 },
    Fallback { task_id: u64 },
}

/// A named set of tasks.
#[derive(Debug)]
pub struct Workflow {
    pub id: String,
    pub name: String,
    pub description: String,
    pub version: u32,
    pub tasks: Vec<Task>,
    pub variables: TextMap,
    pub error_handling: ErrorHandling,
    pub created_at: u64,
}

impl Workflow {
    /// A first version with no tasks and no variables that stops at the
    /// first failure.
    pub fn new(id: &str, name: &str) -> (r: Workflow)
        ensures
            r.id@ == id@,
            r.name@ == name@,
            r.description@.len() == 0,
            r.version == 1,
            r.tasks@.len() == 0,
            r.variables.wf(),
            r.variables.entries().len() == 0,
            r.error_handling is FailFast,
            r.created_at == 0,
    {
        Workflow {
            id: String::from_str(id),
            name: String::from_str(name),
            description: String::new(),
            version: 1,
            tasks: Vec::new(),
            variables: TextMap::new(),
            error_handling: ErrorHandling::FailFast,
            created_at: 0,
        }
    }

    pub fn with_description(self, desc: &str) -> (r: Workflow)
        ensures
            r == (Workflow { description: r.description, ..self }),
            r.description@ == desc@,
    {
        let mut w = self;
        w.description = String::from_str(desc);
        w
    }

    /// Adds a task at the end.
    pub fn with_task(self, task: Task) -> (r: Workflow)
        ensures
            r == (Workflow { tasks: r.tasks, ..self }),
            r.tasks@ == self.tasks@.push(task),
    {
        let mut w = self;
        w.tasks.push(task);
        w
    }

    /// Sets a variable.
    pub fn with_variable(self, key: &str, value: &str) -> (r: Workflow)
        requires
            self.variables.wf(),
        ensures
            r == (Workflow { variables: r.variables, ..self }),
            r.variables.wf(),
            r.variables.entries() == set_param(self.variables.entries(), key@, value@),
    {
        let mut w = self;
        w.variables.insert(key, value);
        w
    }

    pub fn with_error_handling(self, handling: ErrorHandling) -> (r: Workflow)
        ensures
            r == (Workflow { error_handling: handling, ..self }),
    {
        let mut w = self;
        w.error_handling = handling;
        w
    }
}

/// The state of an execution.
#[derive(Debug, Clone, Copy, PartialEq, Eq, Structural)]
pub enum WorkflowState {
    Pending,
    Running,
    Paused,
    Completed,
    Failed,
    Cancelled,
}

/// The name of an execution state.
pub open spec fn workflow_state_name(s: WorkflowState) -> Seq<char> {
    match s {
        WorkflowState::Pending => "Pending"@,
        WorkflowState::Running => "Running"@,
        WorkflowState::Paused => "Paused"@,
        WorkflowState::Completed => "Completed"@,
        WorkflowState::Failed => "Failed"@,
        WorkflowState::Cancelled => "Cancelled"@,
    }
}

pub fn workflow_state_text(s: WorkflowState) -> (r: &'static str)
    ensures
        r@ == workflow_state_name(s),
{
    match s {
        WorkflowState::Pending => "Pending",
        WorkflowState::Running => "Running",
        WorkflowState::Paused => "Paused",
        WorkflowState::Completed => "Completed",
        WorkflowState::Failed => "Failed",
        WorkflowState::Cancelled => "Cancelled",
    }
}

/// What an execution knows while it runs: its variables and the results
/// of its tasks by task id.
#[derive(Debug)]
pub struct WorkflowContext {
    pub variables: TextMap,
    pub task_results: Vec<(u64, TaskResult)>,
    pub start_time: u64,
    pub current_task_id: Option<u64>,
}

impl WorkflowContext {
    /// No variables and no results yet.
    pub fn new(start_time: u64) -> (r: WorkflowContext)
        ensures
            r.variables.wf(),
            r.variables.entries().len() == 0,
            r.task_results@.len() == 0,
            r.start_time == start_time,
            r.current_task_id is None,
    {
        WorkflowContext { variables: TextMap::new(), task_results: Vec::new(), start_time, current_task_id: None }
    }
}

/// One run of a workflow.
#[derive(Debug)]
pub struct WorkflowExecution {
    pub id: String,
    pub workflow_id: String,
    pub state: WorkflowState,
    pub context: WorkflowContext,
    pub task_queue: Vec<u64>,
    pub completed_tasks: Vec<u64>,
    pub failed_tasks: Vec<u64>,
}

impl WorkflowExecution {
    /// A pending execution with an empty context.
    pub fn new(execution_id: &str, workflow_id: &str) -> (r: WorkflowExecution)
        ensures
            r.id@ == execution_id@,
            r.workflow_id@ == workflow_id@,
            r.state == WorkflowState::Pending,
            r.context.variables.wf(),
            r.context.variables.entries().len() == 0,
            r.context.task_results@.len() == 0,
            r.context.start_time == 0,
            r.context.current_task_id is None,
            r.task_queue@.len() == 0,
            r.completed_tasks@.len() == 0,
            r.failed_tasks@.len() == 0,
    {
        WorkflowExecution {
            id: String::from_str(execution_id),
            workflow_id: String::from_str(workflow_id),
            state: WorkflowState::Pending,
            context: WorkflowContext::new(0),
            task_queue: Vec::new(),
            completed_tasks: Vec::new(),
            failed_tasks: Vec::new(),
        }
    }
}

} // verus!
