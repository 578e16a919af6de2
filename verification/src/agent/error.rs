//! Errors of the agent runtime and of agent configuration, and how kernel
//! error codes map onto them.
use vstd::prelude::*;
use crate::text::{push_signed_decimal, signed_decimal};
use crate::agent::types::{E_INVAL, E_PERM, E_NOENT, E_SRCH, E_ACCES, E_NOMEM, E_QUOTA, E_CAP, E_NOTSUP, E_TIMEOUT, E_FAULT};

verus! {

/// An error of the agent runtime.
#[derive(Debug)]
pub enum RuntimeError {
    InvalidHandle,
    AgentNotFound,
    PermissionDenied,
    InvalidConfig(String),
    QuotaExceeded,
    NotSupported,
    InternalError(i64),
    Timeout,
}

/// The human-readable text of a runtime error.
pub open spec fn runtime_error_text(e: RuntimeError) -> Seq<char> {
    match e {
        RuntimeError::InvalidHandle => "无效的 Agent 句柄"@,
        RuntimeError::AgentNotFound => "Agent 未找到"@,
        RuntimeError::PermissionDenied => "权限不足"@,
        RuntimeError::InvalidConfig(msg) => "无效配置: "@ + msg@,
        RuntimeError::QuotaExceeded => "资源配额超限"@,
        RuntimeError::NotSupported => "操作不支持"@,
        RuntimeError::InternalError(code) => "内部错误 (错误码: "@ + signed_decimal(code as int) + ")"@,
        RuntimeError::Timeout => "操作超时"@,
    }
}

/// The error a negative kernel code stands for.
pub open spec fn error_for_code(e: RuntimeError, code: i64) -> bool {
    if code == E_INVAL as i64 || code == E_FAULT as i64 {
        e is InvalidConfig && e->InvalidConfig_0@ == "内核错误码: "@ + signed_decimal(code as int)
    } else if code == E_PERM as i64 || code == E_ACCES as i64 || code == E_CAP as i64 {
        e is PermissionDenied
    } else if code == E_NOENT as i64 || code == E_SRCH as i64 {
        e is AgentNotFound
    } else if code == E_NOMEM as i64 || code == E_QUOTA as i64 {
        e is QuotaExceeded
    } else if code == E_NOTSUP as i64 {
        e is NotSupported
    } else if code == E_TIMEOUT as i64 {
        e is Timeout
    } else {
        e == RuntimeError::InternalError(code)
    }
}

/// What a kernel reply means: a non-negative value is success, a negative
/// one the error of that code.
pub open spec fn reply_outcome(r: Result<i64, RuntimeError>, ret: i64) -> bool {
    if ret >= 0 {
        r == Ok::<i64, RuntimeError>(ret)
    } else {
        r is Err && error_for_code(r->Err_0, ret)
    }
}

impl RuntimeError {
    /// Reads a kernel reply.
    pub fn from_syscall_result(ret: i64) -> (r: Result<i64, RuntimeError>)
        ensures
            reply_outcome(r, ret),
    {
        if ret >= 0 {
            Ok(ret)
        } else {
            Err(RuntimeError::from_error_code(ret))
        }
    }

    /// The error a kernel code stands for.
    pub fn from_error_code(code: i64) -> (r: RuntimeError)
        ensures
            error_for_code(r, code),
    {
        if code == E_INVAL as i64 || code == E_FAULT as i64 {
            let mut s = String::from_str("内核错误码: ");
            push_signed_decimal(&mut s, code);
            RuntimeError::InvalidConfig(s)
        } else if code == E_PERM as i64 || code == E_ACCES as i64 || code == E_CAP as i64 {
            RuntimeError::PermissionDenied
        } else if code == E_NOENT as i64 || code == E_SRCH as i64 {
            RuntimeError::AgentNotFound
        } else if code == E_NOMEM as i64 || code == E_QUOTA as i64 {
            RuntimeError::QuotaExceeded
        } else if code == E_NOTSUP as i64 {
            RuntimeError::NotSupported
        } else if code == E_TIMEOUT as i64 {
            RuntimeError::Timeout
        } else {
            RuntimeError::InternalError(code)
        }
    }

    /// The human-readable text of the error.
    pub fn message(&self) -> (r: String)
        ensures
            r@ == runtime_error_text(*self),
    {
        match self {
            RuntimeError::InvalidHandle => String::from_str("无效的 Agent 句柄"),
            RuntimeError::AgentNotFound => String::from_str("Agent 未找到"),
            RuntimeError::PermissionDenied => String::from_str("权限不足"),
            RuntimeError::InvalidConfig(msg) => {
                let mut s = String::from_str("无效配置: ");
                s.append(msg.as_str());
                s
            },
            RuntimeError::QuotaExceeded => String::from_str("资源配额超限"),
            RuntimeError::NotSupported => String::from_str("操作不支持"),
            RuntimeError::InternalError(code) => {
                let mut s = String::from_str("内部错误 (错误码: ");
                push_signed_decimal(&mut s, *code);
                s.append(")");
                s
            },
            RuntimeError::Timeout => String::from_str("操作超时"),
        }
    }
}

/// An error in an agent's configuration.
#[derive(Debug)]
pub enum ConfigError {
    InvalidName,
    NameTooLong,
    InvalidType,
    InvalidPriority,
    InvalidSize(String),
}

/// The human-readable text of a configuration error.
pub open spec fn config_error_text(e: ConfigError) -> Seq<char> {
    match e {
        ConfigError::InvalidName => "无效的 Agent 名称: 名称不能为空"@,
        ConfigError::NameTooLong => "Agent 名称过长: 最大 63 字节"@,
        ConfigError::InvalidType => "无效的 Agent 类型"@,
        ConfigError::InvalidPriority => "无效的 Agent 优先级"@,
        ConfigError::InvalidSize(msg) => "无效的大小配置: "@ + msg@,
    }
}

impl ConfigError {
    /// The human-readable text of the error.
    pub fn message(&self) -> (r: String)
        ensures
            r@ == config_error_text(*self),
    {
        match self {
            ConfigError::InvalidName => String::from_str("无效的 Agent 名称: 名称不能为空"),
            ConfigError::NameTooLong => String::from_str("Agent 名称过长: 最大 63 字节"),
            ConfigError::InvalidType => String::from_str("无效的 Agent 类型"),
            ConfigError::InvalidPriority => String::from_str("无效的 Agent 优先级"),
            ConfigError::InvalidSize(msg) => {
                let mut s = String::from_str("无效的大小配置: ");
                s.append(msg.as_str());
                s
            },
        }
    }
}

} // verus!
