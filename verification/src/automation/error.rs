//! Errors of the automation engine.
use vstd::prelude::*;
use crate::text::{decimal, push_decimal};

verus! {

/// An error of the automation engine.
#[derive(Debug, Clone, PartialEq, Eq)]
pub enum AutomationError {
    WorkflowNotFound(String),
    TaskNotFound(u64),
    CircularDependency,
    InvalidTaskDefinition(String),
    ExecutionNotFound(String),
    WorkflowAlreadyRunning(String),
    WorkflowNotRunning(String),
    TaskDependencyNotFound(u64),
    TaskTimeout(u64),
    MaxRetriesExceeded(u64),
    InvalidTrigger(String),
    VariableNotFound(String),
    TemplateError(String),
    InvalidStateTransition(String),
}

/// The human-readable text of an error.
pub open spec fn automation_error_text(e: AutomationError) -> Seq<char> {
    match e {
        AutomationError::WorkflowNotFound(s) => "工作流未找到: "@ + s@,
        AutomationError::TaskNotFound(id) => "任务未找到: "@ + decimal(id as nat),
        AutomationError::CircularDependency => "存在循环依赖"@,
        AutomationError::InvalidTaskDefinition(s) => "无效的任务定义: "@ + s@,
        AutomationError::ExecutionNotFound(s) => "执行实例未找到: "@ + s@,
        AutomationError::WorkflowAlreadyRunning(s) => "工作流已在运行中: "@ + s@,
        AutomationError::WorkflowNotRunning(s) => "工作流未在运行中: "@ + s@,
        AutomationError::TaskDependencyNotFound(id) => "任务依赖未找到: "@ + decimal(id as nat),
        AutomationError::TaskTimeout(id) => "任务超时: "@ + decimal(id as nat),
        AutomationError::MaxRetriesExceeded(id) => "超过最大重试次数: "@ + decimal(id as nat),
        AutomationError::InvalidTrigger(s) => "无效的触发器: "@ + s@,
        AutomationError::VariableNotFound(s) => "变量未找到: "@ + s@,
        AutomationError::TemplateError(s) => "模板错误: "@ + s@,
        AutomationError::InvalidStateTransition(s) => "无效的状态转换: "@ + s@,
    }
}

fn with_text(prefix: &str, s: &String) -> (r: String)
    ensures
        r@ == prefix@ + s@,
{
    let mut r = String::from_str(prefix);
    r.append(s.as_str());
    r
}

fn with_number(prefix: &str, n: u64) -> (r: String)
    ensures
        r@ == prefix@ + decimal(n as nat),
{
    let mut r = String::from_str(prefix);
    push_decimal(&mut r, n);
    r
}

impl AutomationError {
    /// The human-readable text of the error.
    pub fn message(&self) -> (r: String)
        ensures
            r@ == automation_error_text(*self),
    {
        match self {
            AutomationError::WorkflowNotFound(s) => with_text("工作流未找到: ", s),
            AutomationError::TaskNotFound(id) => with_number("任务未找到: ", *id),
            AutomationError::CircularDependency => String::from_str("存在循环依赖"),
            AutomationError::InvalidTaskDefinition(s) => with_text("无效的任务定义: ", s),
            AutomationError::ExecutionNotFound(s) => with_text("执行实例未找到: ", s),
            AutomationError::WorkflowAlreadyRunning(s) => with_text("工作流已在运行中: ", s),
            AutomationError::WorkflowNotRunning(s) => with_text("工作流未在运行中: ", s),
            AutomationError::TaskDependencyNotFound(id) => with_number("任务依赖未找到: ", *id),
            AutomationError::TaskTimeout(id) => with_number("任务超时: ", *id),
            AutomationError::MaxRetriesExceeded(id) => with_number("超过最大重试次数: ", *id),
            AutomationError::InvalidTrigger(s) => with_text("无效的触发器: ", s),
            AutomationError::VariableNotFound(s) => with_text("变量未找到: ", s),
            AutomationError::TemplateError(s) => with_text("模板错误: ", s),
            AutomationError::InvalidStateTransition(s) => with_text("无效的状态转换: ", s),
        }
    }
}

} // verus!
