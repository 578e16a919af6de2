//! The agent runtime: user-space calls that check their arguments and hand
//! requests to the kernel, and the kernel-call layer beneath them.
use vstd::prelude::*;
use crate::text::text_with_text;
use crate::agent::types::{AgentSpec, AgentInfo, AgentMsgHeader, AgentHandle, AgentInfoView, AgentMessage, EventMask, MsgFlags, ResourceQuota, Signal, unlimited, E_NOTSUP, SYS_AGENT_SPAWN, SYS_AGENT_KILL, SYS_AGENT_QUERY, SYS_AGENT_MSG, SYS_AGENT_SUBSCRIBE, SYS_AGENT_CAP_GRANT, SYS_AGENT_SET_QUOTA, SYS_AGENT_GET_QUOTA};
use crate::agent::error::{RuntimeError, ConfigError, error_for_code, config_error_text};
use crate::agent::config::{AgentConfig, capability_to_index, cap_index, name_fits};

verus! {

/// What every kernel call answers in this build, which runs in user space
/// with no kernel behind it.
pub open spec fn kernel_reply() -> i64 {
    E_NOTSUP as i64
}

/// The kernel entry. This user-space build has no kernel to enter: the call
/// answers E_NOTSUP whatever it is given.
fn raw_syscall(number: u64, arg1: u64, arg2: u64, arg3: u64, arg4: u64, arg5: u64, arg6: u64) -> (r: i64)
    ensures
        r == kernel_reply(),
{
    E_NOTSUP as i64
}

/// Asks the kernel to create an agent.
fn sys_agent_spawn(spec: &AgentSpec, spec_len: usize) -> (r: i64)
    ensures
        r == kernel_reply(),
{
    raw_syscall(SYS_AGENT_SPAWN, 0, spec_len as u64, 0, 0, 0, 0)
}

/// Asks the kernel to signal an agent.
fn sys_agent_kill(handle: u64, signal: u32) -> (r: i64)
    ensures
        r == kernel_reply(),
{
    raw_syscall(SYS_AGENT_KILL, handle, signal as u64, 0, 0, 0, 0)
}

/// Asks the kernel for an agent's record.
fn sys_agent_query(handle: u64, info: &mut AgentInfo, info_len: usize) -> (r: i64)
    ensures
        r == kernel_reply(),
        *final(info) == *old(info),
{
    raw_syscall(SYS_AGENT_QUERY, handle, 0, info_len as u64, 0, 0, 0)
}

/// Hands a message to the kernel.
fn sys_agent_msg(src: u64, dst: u64, header: &AgentMsgHeader, flags: u32) -> (r: i64)
    ensures
        r == kernel_reply(),
{
    raw_syscall(SYS_AGENT_MSG, src, dst, 0, flags as u64, 0, 0)
}

/// Subscribes to a target's events.
fn sys_agent_subscribe(subscriber: u64, target: u64, mask: &EventMask) -> (r: i64)
    ensures
        r == kernel_reply(),
{
    raw_syscall(SYS_AGENT_SUBSCRIBE, subscriber, target, 0, 0, 0, 0)
}

/// Grants or withdraws a capability.
fn sys_agent_cap_grant(handle: u64, cap: usize, grant: u64) -> (r: i64)
    ensures
        r == kernel_reply(),
{
    raw_syscall(SYS_AGENT_CAP_GRANT, handle, cap as u64, grant, 0, 0, 0)
}

/// Sets an agent's limits.
fn sys_agent_set_quota(handle: u64, quota: &ResourceQuota) -> (r: i64)
    ensures
        r == kernel_reply(),
{
    raw_syscall(SYS_AGENT_SET_QUOTA, handle, 0, 0, 0, 0, 0)
}

/// Reads an agent's limits.
fn sys_agent_get_quota(handle: u64, quota: &mut ResourceQuota) -> (r: i64)
    ensures
        r == kernel_reply(),
        *final(quota) == *old(quota),
{
    raw_syscall(SYS_AGENT_GET_QUOTA, handle, 0, 0, 0, 0, 0)
}

/// A call that returns nothing: success on a non-negative reply, else the
/// error of the reply's code.
pub open spec fn kernel_unit(r: Result<(), RuntimeError>) -> bool {
    if kernel_reply() >= 0 {
        r is Ok
    } else {
        r is Err && error_for_code(r->Err_0, kernel_reply())
    }
}

/// The error text a refused configuration is reported with.
pub open spec fn refusal_text(name: Seq<char>) -> Seq<char> {
    if name.len() == 0 {
        config_error_text(ConfigError::InvalidName)
    } else {
        config_error_text(ConfigError::NameTooLong)
    }
}

/// Creates, signals and queries agents through the kernel.
pub struct AgentRuntime;

impl AgentRuntime {
    /// Creates an agent from a configuration. A configuration that does not
    /// translate is refused before the kernel is asked.
    pub fn spawn(config: &AgentConfig) -> (r: Result<AgentHandle, RuntimeError>)
        ensures
            !name_fits(config.name@) ==> r is Err && r->Err_0 is InvalidConfig && r->Err_0->InvalidConfig_0@
                == refusal_text(config.name@),
            name_fits(config.name@) && kernel_reply() >= 0 ==> r is Ok && r->Ok_0.value() == kernel_reply() as u64,
            name_fits(config.name@) && kernel_reply() < 0 ==> r is Err && error_for_code(r->Err_0, kernel_reply()),
    {
        let spec = match config.build() {
            Ok(s) => s,
            Err(e) => {
                return Err(RuntimeError::InvalidConfig(e.message()));
            },
        };
        let ret = sys_agent_spawn(&spec, 256);
        match RuntimeError::from_syscall_result(ret) {
            Ok(h) => Ok(AgentHandle::new(h as u64)),
            Err(e) => Err(e),
        }
    }

    /// Signals an agent.
    pub fn kill(handle: AgentHandle, signal: Signal) -> (r: Result<(), RuntimeError>)
        ensures
            handle.value() == 0 ==> r == Err::<(), RuntimeError>(RuntimeError::InvalidHandle),
            handle.value() != 0 ==> kernel_unit(r),
    {
        if !handle.is_valid() {
            return Err(RuntimeError::InvalidHandle);
        }
        let ret = sys_agent_kill(handle.as_u64(), signal.to_u32());
        match RuntimeError::from_syscall_result(ret) {
            Ok(_) => Ok(()),
            Err(e) => Err(e),
        }
    }

    /// An agent's record.
    pub fn query(handle: AgentHandle) -> (r: Result<AgentInfoView, RuntimeError>)
        ensures
            handle.value() == 0 ==> r is Err && r->Err_0 is InvalidHandle,
            handle.value() != 0 && kernel_reply() >= 0 ==> r is Ok,
            handle.value() != 0 && kernel_reply() < 0 ==> r is Err && error_for_code(r->Err_0, kernel_reply()),
    {
        if !handle.is_valid() {
            return Err(RuntimeError::InvalidHandle);
        }
        let mut info = AgentInfo::default();
        let ret = sys_agent_query(handle.as_u64(), &mut info, 264);
        match RuntimeError::from_syscall_result(ret) {
            Ok(_) => Ok(AgentInfoView::from_kernel(&info)),
            Err(e) => Err(e),
        }
    }

    /// The agents there are. The kernel offers no way to list them, so the
    /// list is empty.
    pub fn list() -> (r: Result<Vec<AgentHandle>, RuntimeError>)
        ensures
            r is Ok && r->Ok_0@.len() == 0,
    {
        Ok(Vec::new())
    }

    /// Sends a message; the result is the message's number.
    pub fn send(src: AgentHandle, dst: AgentHandle, payload: &[u8], flags: MsgFlags) -> (r: Result<u64, RuntimeError>)
        ensures
            src.value() == 0 || dst.value() == 0 ==> r is Err && r->Err_0 is InvalidHandle,
            src.value() != 0 && dst.value() != 0 && kernel_reply() >= 0 ==> r == Ok::<u64, RuntimeError>(
                kernel_reply() as u64,
            ),
            src.value() != 0 && dst.value() != 0 && kernel_reply() < 0 ==> r is Err && error_for_code(
                r->Err_0,
                kernel_reply(),
            ),
    {
        if !src.is_valid() || !dst.is_valid() {
            return Err(RuntimeError::InvalidHandle);
        }
        let mut header = AgentMsgHeader::default();
        header.msg_type = 1;
        header.flags = flags.bits();
        header.payload_size = payload.len() as u64;
        let ret = sys_agent_msg(src.as_u64(), dst.as_u64(), &header, flags.bits());
        match RuntimeError::from_syscall_result(ret) {
            Ok(id) => Ok(id as u64),
            Err(e) => Err(e),
        }
    }

    /// Receives a message. The kernel offers no way to receive one, so the
    /// call is not supported.
    pub fn receive(handle: AgentHandle) -> (r: Result<AgentMessage, RuntimeError>)
        ensures
            r is Err && r->Err_0 is NotSupported,
    {
        Err(RuntimeError::NotSupported)
    }

    /// Subscribes the agent to events.
    pub fn subscribe(handle: AgentHandle, events: EventMask) -> (r: Result<(), RuntimeError>)
        ensures
            handle.value() == 0 ==> r == Err::<(), RuntimeError>(RuntimeError::InvalidHandle),
            handle.value() != 0 ==> kernel_unit(r),
    {
        if !handle.is_valid() {
            return Err(RuntimeError::InvalidHandle);
        }
        let ret = sys_agent_subscribe(handle.as_u64(), 0, &events);
        match RuntimeError::from_syscall_result(ret) {
            Ok(_) => Ok(()),
            Err(e) => Err(e),
        }
    }

    /// Grants the agent a capability by name.
    pub fn register_capability(handle: AgentHandle, cap: &str) -> (r: Result<(), RuntimeError>)
        ensures
            handle.value() == 0 ==> r == Err::<(), RuntimeError>(RuntimeError::InvalidHandle),
            handle.value() != 0 && cap_index(cap@) is None ==> r is Err && r->Err_0 is InvalidConfig
                && r->Err_0->InvalidConfig_0@ == "未知能力: "@ + cap@,
            handle.value() != 0 && cap_index(cap@) is Some ==> kernel_unit(r),
    {
        if !handle.is_valid() {
            return Err(RuntimeError::InvalidHandle);
        }
        let idx = match capability_to_index(cap) {
            Some(i) => i,
            None => {
                return Err(RuntimeError::InvalidConfig(text_with_text("未知能力: ", cap)));
            },
        };
        let ret = sys_agent_cap_grant(handle.as_u64(), idx, 1);
        match RuntimeError::from_syscall_result(ret) {
            Ok(_) => Ok(()),
            Err(e) => Err(e),
        }
    }

    /// Sets the agent's limits.
    pub fn set_quota(handle: AgentHandle, quota: &ResourceQuota) -> (r: Result<(), RuntimeError>)
        ensures
            handle.value() == 0 ==> r == Err::<(), RuntimeError>(RuntimeError::InvalidHandle),
            handle.value() != 0 ==> kernel_unit(r),
    {
        if !handle.is_valid() {
            return Err(RuntimeError::InvalidHandle);
        }
        let ret = sys_agent_set_quota(handle.as_u64(), quota);
        match RuntimeError::from_syscall_result(ret) {
            Ok(_) => Ok(()),
            Err(e) => Err(e),
        }
    }

    /// The agent's limits.
    pub fn get_quota(handle: AgentHandle) -> (r: Result<ResourceQuota, RuntimeError>)
        ensures
            handle.value() == 0 ==> r is Err && r->Err_0 is InvalidHandle,
            handle.value() != 0 && kernel_reply() >= 0 ==> r is Ok && unlimited(r->Ok_0),
            handle.value() != 0 && kernel_reply() < 0 ==> r is Err && error_for_code(r->Err_0, kernel_reply()),
    {
        if !handle.is_valid() {
            return Err(RuntimeError::InvalidHandle);
        }
        let mut quota = ResourceQuota::default();
        let ret = sys_agent_get_quota(handle.as_u64(), &mut quota);
        match RuntimeError::from_syscall_result(ret) {
            Ok(_) => Ok(quota),
            Err(e) => Err(e),
        }
    }
}

} // verus!
