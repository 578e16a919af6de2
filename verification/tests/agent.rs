use lib::agent::types::{AgentType, AgentState, AgentPriority, AgentId, KernelAgentHandle, CapBitmap, ResourceQuota, AgentSpec, AgentInfo, AgentMsgHeader, EventMask, Signal, MsgFlags, AgentHandle, AgentMessage, AgentInfoView, AGENT_FLAG_AUTO_START, AGENT_FLAG_ENCLAVED, AGENT_FLAG_ISOLATED, AGENT_FLAG_NONE, AGENT_FLAG_PERSISTENT, AGENT_FLAG_PRIVILEGED, CAP_ADMIN, CAP_IPC, CAP_NETWORK, E_ACCES, E_AGAIN, E_BUSY, E_CAP, E_EXIST, E_FAULT, E_INVAL, E_NOENT, E_NOMEM, E_NOTSUP, E_OK, E_PERM, E_QUOTA, E_SRCH, E_TIMEOUT, MSG_SYNC, MSG_URGENT, SIG_FREEZE, SIG_KILL, SIG_TERM, SIG_THAW, SYS_AGENT_KILL, SYS_AGENT_MSG, SYS_AGENT_QUERY, SYS_AGENT_RESTORE, SYS_AGENT_SPAWN};
use lib::agent::error::{RuntimeError, ConfigError};
use lib::agent::config::{AgentConfig, simple_hash, capability_to_index};
use lib::agent::runtime::AgentRuntime;


// === 测试: 配置构建器链式调用 ===
#[test]
fn test_agent_config_builder() {
    let config = AgentConfig::new("test-agent")
        .agent_type(AgentType::AIInference)
        .priority(AgentPriority::High)
        .heap_size(64 * 1024 * 1024)
        .stack_size(8 * 1024 * 1024)
        .capability("network")
        .capability("ipc")
        .auto_start(true)
        .entry_point("main")
        .param("model", "llama3")
        .param("device", "gpu0");

    assert_eq!(config.name, "test-agent");
    assert_eq!(config.agent_type, AgentType::AIInference);
    assert_eq!(config.priority, AgentPriority::High);
    assert_eq!(config.heap_size, 64 * 1024 * 1024);
    assert_eq!(config.stack_size, 8 * 1024 * 1024);
    assert_eq!(config.capabilities, vec!["network", "ipc"]);
    assert!(config.auto_start);
    assert_eq!(config.entry_point, Some("main".to_string()));
    assert_eq!(config.params.get("model"), Some(&"llama3".to_string()));
    assert_eq!(config.params.get("device"), Some(&"gpu0".to_string()));
}

// === 测试: 构建为内核 AgentSpec ===
#[test]
fn test_agent_config_build_to_spec() {
    let config = AgentConfig::new("my-agent")
        .agent_type(AgentType::Network)
        .priority(AgentPriority::Realtime)
        .heap_size(128 * 1024 * 1024)
        .stack_size(16 * 1024 * 1024)
        .capability("network")
        .capability("ipc")
        .auto_start(true)
        .build()
        .unwrap();

    // 验证基本字段
    assert_eq!(config.version, 1);
    assert_eq!(config.agent_type, AgentType::Network);
    assert_eq!(config.priority, AgentPriority::Realtime.as_u8());
    assert_eq!(config.heap_size, 128 * 1024 * 1024);
    assert_eq!(config.stack_size, 16 * 1024 * 1024);

    // 验证名称已写入
    let name_str = std::str::from_utf8(&config.name).unwrap_or("");
    assert!(name_str.starts_with("my-agent"));

    // 验证自动启动标志
    assert_eq!(config.flags & AGENT_FLAG_AUTO_START, AGENT_FLAG_AUTO_START);

    // 验证能力位图
    assert!(config.capabilities.is_set(CAP_NETWORK));
    assert!(config.capabilities.is_set(CAP_IPC));
    assert!(!config.capabilities.is_set(CAP_ADMIN));

    // 验证 AgentSpec 大小为 256 字节
    assert_eq!(std::mem::size_of::<AgentSpec>(), 256);
}

// === 测试: 无效名称 (空字符串) ===
#[test]
fn test_agent_config_invalid_name() {
    let config = AgentConfig::new("");
    let result = config.build();
    assert!(matches!(result, Err(ConfigError::InvalidName)));
}

// === 测试: 名称过长 ===
#[test]
fn test_agent_config_name_too_long() {
    let long_name = "a".repeat(64); // 超过 63 字节限制
    let config = AgentConfig::new(&long_name);
    let result = config.build();
    assert!(matches!(result, Err(ConfigError::NameTooLong)));
}

// === 测试: 名称恰好 63 字节 (边界值) ===
#[test]
fn test_agent_config_name_boundary() {
    let name = "a".repeat(63); // 恰好 63 字节
    let config = AgentConfig::new(&name);
    let result = config.build();
    assert!(result.is_ok());
}

// === 测试: AgentType 枚举值 ===
#[test]
fn test_agent_type_values() {
    assert_eq!(AgentType::Generic as u32, 0);
    assert_eq!(AgentType::AIInference as u32, 1);
    assert_eq!(AgentType::DataProcessing as u32, 2);
    assert_eq!(AgentType::Network as u32, 3);
    assert_eq!(AgentType::System as u32, 4);
    assert_eq!(AgentType::Sandbox as u32, 5);
    assert_eq!(AgentType::Virtualization as u32, 6);
}

// === 测试: AgentType from_u32 ===
#[test]
fn test_agent_type_from_u32() {
    assert_eq!(AgentType::from_u32(0), AgentType::Generic);
    assert_eq!(AgentType::from_u32(1), AgentType::AIInference);
    assert_eq!(AgentType::from_u32(6), AgentType::Virtualization);
    // 无效值返回 Generic
    assert_eq!(AgentType::from_u32(99), AgentType::Generic);
}

// === 测试: AgentType Display ===
#[test]
fn test_agent_type_display() {
    assert_eq!(AgentType::Generic.display_text(), "Generic");
    assert_eq!(AgentType::AIInference.display_text(), "AIInference");
    assert_eq!(AgentType::Network.display_text(), "Network");
}

// === 测试: AgentState 枚举值 ===
#[test]
fn test_agent_state_values() {
    assert_eq!(AgentState::Creating as u32, 0);
    assert_eq!(AgentState::Ready as u32, 1);
    assert_eq!(AgentState::Running as u32, 2);
    assert_eq!(AgentState::Waiting as u32, 3);
    assert_eq!(AgentState::Frozen as u32, 4);
    assert_eq!(AgentState::Migrating as u32, 5);
    assert_eq!(AgentState::Terminating as u32, 6);
    assert_eq!(AgentState::Terminated as u32, 7);
    assert_eq!(AgentState::Failed as u32, 8);
}

// === 测试: AgentState from_u32 ===
#[test]
fn test_agent_state_from_u32() {
    assert_eq!(AgentState::from_u32(0), AgentState::Creating);
    assert_eq!(AgentState::from_u32(2), AgentState::Running);
    assert_eq!(AgentState::from_u32(8), AgentState::Failed);
    // 无效值返回 Creating
    assert_eq!(AgentState::from_u32(99), AgentState::Creating);
}

// === 测试: AgentState Display ===
#[test]
fn test_agent_state_display() {
    assert_eq!(AgentState::Running.display_text(), "Running");
    assert_eq!(AgentState::Failed.display_text(), "Failed");
}

// === 测试: AgentPriority 排序 ===
#[test]
fn test_agent_priority_ordering() {
    assert!(AgentPriority::Realtime > AgentPriority::High);
    assert!(AgentPriority::High > AgentPriority::Normal);
    assert!(AgentPriority::Normal > AgentPriority::Low);
    assert!(AgentPriority::Low > AgentPriority::Idle);
}

// === 测试: AgentPriority 数值 ===
#[test]
fn test_agent_priority_values() {
    assert_eq!(AgentPriority::Idle.as_u8(), 0);
    assert_eq!(AgentPriority::Low.as_u8(), 64);
    assert_eq!(AgentPriority::Normal.as_u8(), 128);
    assert_eq!(AgentPriority::High.as_u8(), 192);
    assert_eq!(AgentPriority::Realtime.as_u8(), 255);
}

// === 测试: AgentPriority Display ===
#[test]
fn test_agent_priority_display() {
    assert_eq!(AgentPriority::Idle.display_text(), "Idle");
    assert_eq!(AgentPriority::Normal.display_text(), "Normal");
    assert_eq!(AgentPriority::Realtime.display_text(), "Realtime");
}

// === 测试: 消息标志 ===
#[test]
fn test_msg_flags() {
    // 验证各标志位值
    assert_eq!(MsgFlags::SYNC().bits(), 1);
    assert_eq!(MsgFlags::ASYNC().bits(), 2);
    assert_eq!(MsgFlags::URGENT().bits(), 4);
    assert_eq!(MsgFlags::NOCOPY().bits(), 8);
    assert_eq!(MsgFlags::BROADCAST().bits(), 16);
    assert_eq!(MsgFlags::RELIABLE().bits(), 32);

    // 验证标志位互不重叠
    let all = MsgFlags::SYNC() | MsgFlags::ASYNC() | MsgFlags::URGENT()
        | MsgFlags::NOCOPY() | MsgFlags::BROADCAST() | MsgFlags::RELIABLE();
    assert_eq!(all.bits(), 63); // 1+2+4+8+16+32

    // 验证 is_sync / is_async / is_urgent
    let sync_flags = MsgFlags::SYNC();
    assert!(sync_flags.is_sync());
    assert!(!sync_flags.is_async());
    assert!(!sync_flags.is_urgent());

    // 验证 contains
    let combined = MsgFlags::SYNC() | MsgFlags::URGENT();
    assert!(combined.contains(MsgFlags::SYNC()));
    assert!(combined.contains(MsgFlags::URGENT()));
    assert!(!combined.contains(MsgFlags::ASYNC()));

    // 验证 union
    let a = MsgFlags::SYNC();
    let b = MsgFlags::RELIABLE();
    let c = a.union(b);
    assert!(c.is_sync());
    assert!(c.is_reliable());

    // 验证 empty
    let empty = MsgFlags::empty();
    assert!(!empty.is_sync());
    assert!(!empty.is_async());
    assert_eq!(empty.bits(), 0);

    // 验证 BitOrAssign
    let mut flags = MsgFlags::empty();
    flags |= MsgFlags::SYNC();
    assert!(flags.is_sync());
}

// === 测试: 信号类型 ===
#[test]
fn test_signal_types() {
    // 验证信号到内核编号的映射
    assert_eq!(Signal::Kill.to_u32(), SIG_KILL);
    assert_eq!(Signal::Terminate.to_u32(), SIG_TERM);
    assert_eq!(Signal::Freeze.to_u32(), SIG_FREEZE);
    assert_eq!(Signal::Thaw.to_u32(), SIG_THAW);

    // 验证 Display
    assert_eq!(Signal::Kill.display_text(), "SIGKILL");
    assert_eq!(Signal::Terminate.display_text(), "SIGTERM");
    assert_eq!(Signal::Freeze.display_text(), "SIGFREEZE");
    assert_eq!(Signal::Thaw.display_text(), "SIGTHAW");
}

// === 测试: RuntimeError Display ===
#[test]
fn test_runtime_error_display() {
    assert_eq!(
        RuntimeError::InvalidHandle.message(),
        "无效的 Agent 句柄"
    );
    assert_eq!(
        RuntimeError::AgentNotFound.message(),
        "Agent 未找到"
    );
    assert_eq!(
        RuntimeError::PermissionDenied.message(),
        "权限不足"
    );
    assert_eq!(
        RuntimeError::QuotaExceeded.message(),
        "资源配额超限"
    );
    assert_eq!(
        RuntimeError::NotSupported.message(),
        "操作不支持"
    );
    assert_eq!(
        RuntimeError::Timeout.message(),
        "操作超时"
    );
    assert!(!RuntimeError::InternalError(-42).message().is_empty());
    assert!(!RuntimeError::InvalidConfig("test".to_string()).message().is_empty());
}

// === 测试: RuntimeError from_error_code ===
#[test]
fn test_runtime_error_from_error_code() {
    assert!(matches!(
        RuntimeError::from_error_code(E_PERM as i64),
        RuntimeError::PermissionDenied
    ));
    assert!(matches!(
        RuntimeError::from_error_code(E_SRCH as i64),
        RuntimeError::AgentNotFound
    ));
    assert!(matches!(
        RuntimeError::from_error_code(E_NOMEM as i64),
        RuntimeError::QuotaExceeded
    ));
    assert!(matches!(
        RuntimeError::from_error_code(E_NOTSUP as i64),
        RuntimeError::NotSupported
    ));
    assert!(matches!(
        RuntimeError::from_error_code(E_TIMEOUT as i64),
        RuntimeError::Timeout
    ));
    assert!(matches!(
        RuntimeError::from_error_code(-999),
        RuntimeError::InternalError(_)
    ));
}

// === 测试: RuntimeError from_syscall_result ===
#[test]
fn test_runtime_error_from_syscall_result() {
    // 成功返回值
    let result = RuntimeError::from_syscall_result(42);
    assert_eq!(result.unwrap(), 42);

    // 错误返回值
    let result = RuntimeError::from_syscall_result(E_PERM as i64);
    assert!(result.is_err());
}

// === 测试: ConfigError Display ===
#[test]
fn test_config_error_display() {
    assert!(!ConfigError::InvalidName.message().is_empty());
    assert!(!ConfigError::NameTooLong.message().is_empty());
    assert!(!ConfigError::InvalidType.message().is_empty());
    assert!(!ConfigError::InvalidPriority.message().is_empty());
    assert!(!ConfigError::InvalidSize("heap".to_string()).message().is_empty());
}

// === 测试: AgentHandle 有效性 ===
#[test]
fn test_agent_handle_validity() {
    // 无效句柄
    let invalid = AgentHandle::INVALID();
    assert!(!invalid.is_valid());
    assert_eq!(invalid.as_u64(), 0);

    // 有效句柄
    let valid = AgentHandle::new(42);
    assert!(valid.is_valid());
    assert_eq!(valid.as_u64(), 42);

    // 与内核句柄的转换
    let kernel_handle = KernelAgentHandle(42);
    let user_handle = AgentHandle::from_kernel(kernel_handle);
    assert_eq!(user_handle.as_u64(), 42);
    assert_eq!(user_handle.to_kernel().0, 42);

    // AgentId 转换
    assert_eq!(valid.agent_id(), AgentId(42));

    // Display
    assert_eq!(valid.display_text(), "AgentHandle(42)");

    // Default
    assert_eq!(AgentHandle::default(), AgentHandle::INVALID());
}

// === 测试: AgentMessage 创建 ===
#[test]
fn test_agent_message_creation() {
    let handle = AgentHandle::new(1);
    let msg = AgentMessage::new(100, handle, vec![1, 2, 3, 4]);

    assert_eq!(msg.msg_id, 100);
    assert_eq!(msg.src, handle);
    assert_eq!(msg.payload, vec![1, 2, 3, 4]);
    assert_eq!(msg.timestamp, 0);
    assert_eq!(msg.flags, 0);
    assert_eq!(msg.payload_len(), 4);

    // with_timestamp
    let msg = msg.with_timestamp(12345);
    assert_eq!(msg.timestamp, 12345);

    // with_flags
    let msg = msg.with_flags(MSG_SYNC | MSG_URGENT);
    assert_eq!(msg.flags, MSG_SYNC | MSG_URGENT);
}

// === 测试: AgentId ===
#[test]
fn test_agent_id() {
    assert!(!AgentId::INVALID().is_valid());
    assert!(AgentId::new(42).is_valid());
    assert!(AgentId::SYSTEM().is_system());
    assert!(!AgentId::new(42).is_system());
    assert_eq!(AgentId::new(42).display_text(), "Agent(42)");
    assert_eq!(AgentId::default(), AgentId::INVALID());
}

// === 测试: KernelAgentHandle ===
#[test]
fn test_kernel_agent_handle() {
    assert!(!KernelAgentHandle::INVALID().is_valid());
    let h = KernelAgentHandle(5);
    assert!(h.is_valid());
    assert_eq!(h.index(), 4);
}

// === 测试: CapBitmap 操作 ===
#[test]
fn test_cap_bitmap_operations() {
    let mut caps = CapBitmap::new();
    assert!(!caps.is_set(CAP_NETWORK));
    assert!(!caps.is_set(CAP_ADMIN));

    caps.set(CAP_NETWORK);
    assert!(caps.is_set(CAP_NETWORK));
    assert!(!caps.is_set(CAP_ADMIN));

    caps.set(CAP_ADMIN);
    assert!(caps.is_set(CAP_NETWORK));
    assert!(caps.is_set(CAP_ADMIN));

    caps.clear(CAP_NETWORK);
    assert!(!caps.is_set(CAP_NETWORK));
    assert!(caps.is_set(CAP_ADMIN));

    // 超出范围不应 panic
    caps.set(128);
    assert!(!caps.is_set(128));
    caps.clear(200);
}

// === 测试: ResourceQuota ===
#[test]
fn test_resource_quota() {
    let quota = ResourceQuota::new();
    assert_eq!(quota.max_memory_bytes, 0);
    assert_eq!(quota.max_shm_bytes, 0);
    assert_eq!(quota.max_cpu_percent, 0);
    assert_eq!(quota.max_fds, 0);
    assert_eq!(quota.max_threads, 0);
    assert_eq!(quota.max_msg_per_sec, 0);

    let quota2 = ResourceQuota::default();
    assert_eq!(quota.max_memory_bytes, quota2.max_memory_bytes);
}

// === 测试: EventMask ===
#[test]
fn test_event_mask() {
    let mut mask = EventMask::new();
    assert!(!mask.is_set(0));
    assert!(!mask.is_set(1));

    mask.set(0);
    assert!(mask.is_set(0));
    assert!(!mask.is_set(1));

    mask.set(1);
    mask.set(5);
    assert!(mask.is_set(0));
    assert!(mask.is_set(1));
    assert!(mask.is_set(5));

    mask.clear(0);
    assert!(!mask.is_set(0));
    assert!(mask.is_set(1));

    // ALL 掩码
    assert!(EventMask::ALL().contains(&mask));

    // has 方法
    assert!(EventMask::ALL().has(0));
    assert!(EventMask::ALL().has(255));

    // 超出范围不应 panic
    mask.set(256);
    assert!(!mask.is_set(256));
}

// === 测试: AgentInfoView ===
#[test]
fn test_agent_info_view() {
    let mut info = AgentInfo::default();
    info.handle = KernelAgentHandle(42);
    info.state = AgentState::Running;
    info.agent_type = AgentType::AIInference;
    info.creator_pid = 100;
    info.memory_used = 1024 * 1024;
    info.msg_sent = 10;
    info.msg_received = 20;

    // 写入名称
    let name = b"test-agent";
    info.name[..name.len()].copy_from_slice(name);

    let view = AgentInfoView::from_kernel(&info);
    assert_eq!(view.handle.as_u64(), 42);
    assert_eq!(view.state, AgentState::Running);
    assert_eq!(view.agent_type, AgentType::AIInference);
    assert_eq!(view.name, "test-agent");
    assert_eq!(view.creator_pid, 100);
    assert_eq!(view.memory_used, 1024 * 1024);
    assert_eq!(view.msg_sent, 10);
    assert_eq!(view.msg_received, 20);
}

// === 测试: AgentSpec 大小 ===
#[test]
fn test_agent_spec_size() {
    assert_eq!(
        std::mem::size_of::<AgentSpec>(),
        256,
        "AgentSpec 大小必须为 256 字节"
    );
}

// === 测试: AgentInfo 大小 ===
#[test]
fn test_agent_info_size() {
    assert_eq!(
        std::mem::size_of::<AgentInfo>(),
        264,
        "AgentInfo 大小必须为 264 字节"
    );
}

// === 测试: AgentMsgHeader 大小 ===
#[test]
fn test_agent_msg_header_size() {
    assert_eq!(
        std::mem::size_of::<AgentMsgHeader>(),
        48,
        "AgentMsgHeader 大小必须为 48 字节"
    );
}

// === 测试: Agent 标志位 ===
#[test]
fn test_agent_flags() {
    assert_eq!(AGENT_FLAG_NONE, 0);
    assert_eq!(AGENT_FLAG_AUTO_START & AGENT_FLAG_PERSISTENT, 0);
    assert_eq!(AGENT_FLAG_ISOLATED & AGENT_FLAG_PRIVILEGED, 0);
    assert_eq!(AGENT_FLAG_ENCLAVED & AGENT_FLAG_AUTO_START, 0);

    let flags = AGENT_FLAG_AUTO_START | AGENT_FLAG_ISOLATED;
    assert_eq!(flags & AGENT_FLAG_AUTO_START, AGENT_FLAG_AUTO_START);
    assert_eq!(flags & AGENT_FLAG_ISOLATED, AGENT_FLAG_ISOLATED);
    assert_eq!(flags & AGENT_FLAG_PERSISTENT, 0);
}

// === 测试: 错误码负值 ===
#[test]
fn test_error_codes_negative() {
    assert!(E_OK >= 0);
    let error_codes = [
        E_INVAL, E_PERM, E_NOENT, E_NOMEM, E_BUSY, E_EXIST,
        E_NOTSUP, E_AGAIN, E_SRCH, E_ACCES, E_FAULT, E_TIMEOUT,
        E_QUOTA, E_CAP,
    ];
    for &code in &error_codes {
        assert!(code < 0, "错误码 {} 应为负值", code);
    }
    assert!(E_QUOTA < -100);
    assert!(E_CAP < -100);
}

// === 测试: Syscall 编号连续性 ===
#[test]
fn test_syscall_numbers() {
    assert_eq!(SYS_AGENT_SPAWN, 512);
    assert_eq!(SYS_AGENT_KILL, 513);
    assert_eq!(SYS_AGENT_QUERY, 514);
    assert_eq!(SYS_AGENT_MSG, 515);
    assert_eq!(SYS_AGENT_RESTORE, 528);
}

// === 测试: AgentRuntime::spawn 配置验证 ===
#[test]
fn test_runtime_spawn_invalid_config() {
    // 空名称应返回 InvalidConfig 错误
    let config = AgentConfig::new("");
    let result = AgentRuntime::spawn(&config);
    assert!(matches!(result, Err(RuntimeError::InvalidConfig(_))));
}

// === 测试: AgentRuntime::kill 无效句柄 ===
#[test]
fn test_runtime_kill_invalid_handle() {
    let result = AgentRuntime::kill(AgentHandle::INVALID(), Signal::Kill);
    assert!(matches!(result, Err(RuntimeError::InvalidHandle)));
}

// === 测试: AgentRuntime::query 无效句柄 ===
#[test]
fn test_runtime_query_invalid_handle() {
    let result = AgentRuntime::query(AgentHandle::INVALID());
    assert!(matches!(result, Err(RuntimeError::InvalidHandle)));
}

// === 测试: AgentRuntime::list ===
#[test]
fn test_runtime_list() {
    let result = AgentRuntime::list();
    assert!(result.is_ok());
    assert!(result.unwrap().is_empty());
}

// === 测试: AgentRuntime::send 无效句柄 ===
#[test]
fn test_runtime_send_invalid_handle() {
    let result = AgentRuntime::send(
        AgentHandle::INVALID(),
        AgentHandle::new(1),
        &[1, 2, 3],
        MsgFlags::SYNC(),
    );
    assert!(matches!(result, Err(RuntimeError::InvalidHandle)));

    let result = AgentRuntime::send(
        AgentHandle::new(1),
        AgentHandle::INVALID(),
        &[1, 2, 3],
        MsgFlags::SYNC(),
    );
    assert!(matches!(result, Err(RuntimeError::InvalidHandle)));
}

// === 测试: AgentRuntime::receive ===
#[test]
fn test_runtime_receive() {
    let result = AgentRuntime::receive(AgentHandle::new(1));
    assert!(matches!(result, Err(RuntimeError::NotSupported)));
}

// === 测试: AgentRuntime::subscribe 无效句柄 ===
#[test]
fn test_runtime_subscribe_invalid_handle() {
    let result = AgentRuntime::subscribe(AgentHandle::INVALID(), EventMask::ALL());
    assert!(matches!(result, Err(RuntimeError::InvalidHandle)));
}

// === 测试: AgentRuntime::register_capability 无效句柄 ===
#[test]
fn test_runtime_register_capability_invalid_handle() {
    let result = AgentRuntime::register_capability(AgentHandle::INVALID(), "network");
    assert!(matches!(result, Err(RuntimeError::InvalidHandle)));
}

// === 测试: AgentRuntime::register_capability 未知能力 ===
#[test]
fn test_runtime_register_capability_unknown() {
    let result = AgentRuntime::register_capability(AgentHandle::new(1), "unknown_cap");
    assert!(matches!(result, Err(RuntimeError::InvalidConfig(_))));
}

// === 测试: AgentRuntime::set_quota 无效句柄 ===
#[test]
fn test_runtime_set_quota_invalid_handle() {
    let quota = ResourceQuota::new();
    let result = AgentRuntime::set_quota(AgentHandle::INVALID(), &quota);
    assert!(matches!(result, Err(RuntimeError::InvalidHandle)));
}

// === 测试: AgentRuntime::get_quota 无效句柄 ===
#[test]
fn test_runtime_get_quota_invalid_handle() {
    let result = AgentRuntime::get_quota(AgentHandle::INVALID());
    assert!(matches!(result, Err(RuntimeError::InvalidHandle)));
}

// === 测试: simple_hash ===
#[test]
fn test_simple_hash() {
    // 相同输入应产生相同输出
    let h1 = simple_hash("main");
    let h2 = simple_hash("main");
    assert_eq!(h1, h2);

    // 不同输入应产生不同输出
    let h3 = simple_hash("other");
    assert_ne!(h1, h3);

    // 哈希值不应为零
    assert_ne!(h1, 0);
}

// === 测试: capability_to_index ===
#[test]
fn test_capability_to_index() {
    assert_eq!(capability_to_index("network"), Some(CAP_NETWORK));
    assert_eq!(capability_to_index("ipc"), Some(CAP_IPC));
    assert_eq!(capability_to_index("admin"), Some(CAP_ADMIN));
    assert_eq!(capability_to_index("unknown"), None);
}

// === 测试: ConfigError 实现 std::error::Error ===
#[test]
fn test_config_error_is_error() {
    let err = ConfigError::InvalidName;
    assert!(!err.message().is_empty());
}

// === 测试: RuntimeError 实现 std::error::Error ===
#[test]
fn test_runtime_error_is_error() {
    let err = RuntimeError::AgentNotFound;
    assert!(!err.message().is_empty());
}

