//! The agent kernel interface: agent kinds, states and priorities, handles,
//! capability and event bitmaps, and the records exchanged with the kernel.
use vstd::prelude::*;
use crate::text::{push_char, push_decimal};

verus! {

// ---------------------------------------------------------------------------
// Flags, signals, capabilities, error codes and call numbers
// ---------------------------------------------------------------------------

pub const AGENT_FLAG_NONE: u32 = 0;
pub const AGENT_FLAG_AUTO_START: u32 = 1;
pub const AGENT_FLAG_PERSISTENT: u32 = 2;
pub const AGENT_FLAG_ISOLATED: u32 = 4;
pub const AGENT_FLAG_PRIVILEGED: u32 = 8;
pub const AGENT_FLAG_ENCLAVED: u32 = 16;

pub const MSG_SYNC: u32 = 1;
pub const MSG_ASYNC: u32 = 2;
pub const MSG_URGENT: u32 = 4;
pub const MSG_NOCOPY: u32 = 8;
pub const MSG_BROADCAST: u32 = 16;
pub const MSG_RELIABLE: u32 = 32;

pub const EVT_STATE_CHANGED: u64 = 1;
pub const EVT_MSG_RECEIVED: u64 = 2;
pub const EVT_CAP_REGISTERED: u64 = 4;
pub const EVT_CAP_REVOKED: u64 = 8;
pub const EVT_RESOURCE_LOW: u64 = 16;
pub const EVT_ERROR: u64 = 32;
pub const EVT_MIGRATION: u64 = 64;
pub const EVT_SNAPSHOT: u64 = 128;
pub const EVT_HEARTBEAT: u64 = 256;
pub const EVT_CUSTOM_START: u64 = 65536;

pub const SIG_KILL: u32 = 0;
pub const SIG_TERM: u32 = 1;
pub const SIG_COREDUMP: u32 = 2;
pub const SIG_FREEZE: u32 = 3;
pub const SIG_THAW: u32 = 4;

pub const CAP_SPAWN_AGENT: usize = 0;
pub const CAP_SPAWN_SYSTEM_AGENT: usize = 1;
pub const CAP_NETWORK: usize = 2;
pub const CAP_DEVICE_ACCESS: usize = 3;
pub const CAP_IPC: usize = 4;
pub const CAP_SHARED_MEMORY: usize = 5;
pub const CAP_FILESYSTEM: usize = 6;
pub const CAP_ADMIN: usize = 7;
pub const CAP_VIRTUALIZATION: usize = 8;
pub const CAP_ENCLAVE: usize = 9;
pub const CAP_SPAWN_ENCLAVED: usize = 10;

pub const E_OK: isize = 0;
pub const E_INVAL: isize = -22;
pub const E_PERM: isize = -1;
pub const E_NOENT: isize = -2;
pub const E_NOMEM: isize = -12;
pub const E_BUSY: isize = -16;
pub const E_EXIST: isize = -17;
pub const E_NOTSUP: isize = -95;
pub const E_AGAIN: isize = -11;
pub const E_SRCH: isize = -3;
pub const E_ACCES: isize = -13;
pub const E_FAULT: isize = -14;
pub const E_TIMEOUT: isize = -110;
pub const E_QUOTA: isize = -200;
pub const E_CAP: isize = -201;

pub const SYS_AGENT_SPAWN: u64 = 512;
pub const SYS_AGENT_KILL: u64 = 513;
pub const SYS_AGENT_QUERY: u64 = 514;
pub const SYS_AGENT_MSG: u64 = 515;
pub const SYS_AGENT_REGISTER: u64 = 516;
pub const SYS_AGENT_SUBSCRIBE: u64 = 517;
pub const SYS_AGENT_MIGRATE: u64 = 518;
pub const SYS_AGENT_MEMORY_SHARE: u64 = 519;
pub const SYS_AGENT_CAP_GRANT: u64 = 520;
pub const SYS_AGENT_CAP_REVOKE: u64 = 521;
pub const SYS_AGENT_BIND_PORT: u64 = 522;
pub const SYS_AGENT_EXPORT: u64 = 523;
pub const SYS_AGENT_IMPORT: u64 = 524;
pub const SYS_AGENT_SET_QUOTA: u64 = 525;
pub const SYS_AGENT_GET_QUOTA: u64 = 526;
pub const SYS_AGENT_SNAPSHOT: u64 = 527;
pub const SYS_AGENT_RESTORE: u64 = 528;

// ---------------------------------------------------------------------------
// Kinds, states, priorities
// ---------------------------------------------------------------------------

/// The kind of an agent.
#[derive(Debug, Clone, Copy, PartialEq, Eq, Structural)]
pub enum AgentType {
    Generic,
    AIInference,
    DataProcessing,
    Network,
    System,
    Sandbox,
    Virtualization,
}

/// The kernel number of an agent kind.
pub open spec fn agent_type_code(t: AgentType) -> u32 {
    match t {
        AgentType::Generic => 0,
        AgentType::AIInference => 1,
        AgentType::DataProcessing => 2,
        AgentType::Network => 3,
        AgentType::System => 4,
        AgentType::Sandbox => 5,
        AgentType::Virtualization => 6,
    }
}

pub open spec fn agent_type_text(t: AgentType) -> &'static str {
    match t {
        AgentType::Generic => "Generic",
        AgentType::AIInference => "AIInference",
        AgentType::DataProcessing => "DataProcessing",
        AgentType::Network => "Network",
        AgentType::System => "System",
        AgentType::Sandbox => "Sandbox",
        AgentType::Virtualization => "Virtualization",
    }
}

impl AgentType {
    /// The kind with the given kernel number; an unknown number gives
    /// `Generic`.
    pub fn from_u32(val: u32) -> (r: AgentType)
        ensures
            val <= 6 ==> agent_type_code(r) == val,
            val > 6 ==> r == AgentType::Generic,
    {
        match val {
            0 => AgentType::Generic,
            1 => AgentType::AIInference,
            2 => AgentType::DataProcessing,
            3 => AgentType::Network,
            4 => AgentType::System,
            5 => AgentType::Sandbox,
            6 => AgentType::Virtualization,
            _ => AgentType::Generic,
        }
    }

    /// The kernel number of the kind.
    pub fn as_u32(&self) -> (r: u32)
        ensures
            r == agent_type_code(*self),
    {
        match self {
            AgentType::Generic => 0,
            AgentType::AIInference => 1,
            AgentType::DataProcessing => 2,
            AgentType::Network => 3,
            AgentType::System => 4,
            AgentType::Sandbox => 5,
            AgentType::Virtualization => 6,
        }
    }

    /// The name of the kind.
    pub fn display_text(&self) -> (r: String)
        ensures
            r@ == agent_type_text(*self)@,
    {
        match self {
            AgentType::Generic => String::from_str("Generic"),
            AgentType::AIInference => String::from_str("AIInference"),
            AgentType::DataProcessing => String::from_str("DataProcessing"),
            AgentType::Network => String::from_str("Network"),
            AgentType::System => String::from_str("System"),
            AgentType::Sandbox => String::from_str("Sandbox"),
            AgentType::Virtualization => String::from_str("Virtualization"),
        }
    }
}

impl Default for AgentType {
    fn default() -> (r: AgentType)
        ensures
            r == AgentType::Generic,
    {
        AgentType::Generic
    }
}

/// The life-cycle state of an agent.
#[derive(Debug, Clone, Copy, PartialEq, Eq, Structural)]
pub enum AgentState {
    Creating,
    Ready,
    Running,
    Waiting,
    Frozen,
    Migrating,
    Terminating,
    Terminated,
    Failed,
}

/// The kernel number of a state.
pub open spec fn agent_state_code(s: AgentState) -> u32 {
    match s {
        AgentState::Creating => 0,
        AgentState::Ready => 1,
        AgentState::Running => 2,
        AgentState::Waiting => 3,
        AgentState::Frozen => 4,
        AgentState::Migrating => 5,
        AgentState::Terminating => 6,
        AgentState::Terminated => 7,
        AgentState::Failed => 8,
    }
}

pub open spec fn agent_state_text(s: AgentState) -> &'static str {
    match s {
        AgentState::Creating => "Creating",
        AgentState::Ready => "Ready",
        AgentState::Running => "Running",
        AgentState::Waiting => "Waiting",
        AgentState::Frozen => "Frozen",
        AgentState::Migrating => "Migrating",
        AgentState::Terminating => "Terminating",
        AgentState::Terminated => "Terminated",
        AgentState::Failed => "Failed",
    }
}

impl AgentState {
    /// The state with the given kernel number; an unknown number gives
    /// `Creating`.
    pub fn from_u32(val: u32) -> (r: AgentState)
        ensures
            val <= 8 ==> agent_state_code(r) == val,
            val > 8 ==> r == AgentState::Creating,
    {
        match val {
            0 => AgentState::Creating,
            1 => AgentState::Ready,
            2 => AgentState::Running,
            3 => AgentState::Waiting,
            4 => AgentState::Frozen,
            5 => AgentState::Migrating,
            6 => AgentState::Terminating,
            7 => AgentState::Terminated,
            8 => AgentState::Failed,
            _ => AgentState::Creating,
        }
    }

    /// The kernel number of the state.
    pub fn as_u32(&self) -> (r: u32)
        ensures
            r == agent_state_code(*self),
    {
        match self {
            AgentState::Creating => 0,
            AgentState::Ready => 1,
            AgentState::Running => 2,
            AgentState::Waiting => 3,
            AgentState::Frozen => 4,
            AgentState::Migrating => 5,
            AgentState::Terminating => 6,
            AgentState::Terminated => 7,
            AgentState::Failed => 8,
        }
    }

    /// The name of the state.
    pub fn display_text(&self) -> (r: String)
        ensures
            r@ == agent_state_text(*self)@,
    {
        match self {
            AgentState::Creating => String::from_str("Creating"),
            AgentState::Ready => String::from_str("Ready"),
            AgentState::Running => String::from_str("Running"),
            AgentState::Waiting => String::from_str("Waiting"),
            AgentState::Frozen => String::from_str("Frozen"),
            AgentState::Migrating => String::from_str("Migrating"),
            AgentState::Terminating => String::from_str("Terminating"),
            AgentState::Terminated => String::from_str("Terminated"),
            AgentState::Failed => String::from_str("Failed"),
        }
    }
}

impl Default for AgentState {
    fn default() -> (r: AgentState)
        ensures
            r == AgentState::Creating,
    {
        AgentState::Creating
    }
}

/// The scheduling priority of an agent, ordered from `Idle` to `Realtime`.
#[derive(Debug, Clone, Copy, PartialEq, Eq, Structural, PartialOrd, Ord)]
pub enum AgentPriority {
    Idle,
    Low,
    Normal,
    High,
    Realtime,
}

/// The kernel number of a priority.
pub open spec fn priority_code(p: AgentPriority) -> u8 {
    match p {
        AgentPriority::Idle => 0,
        AgentPriority::Low => 64,
        AgentPriority::Normal => 128,
        AgentPriority::High => 192,
        AgentPriority::Realtime => 255,
    }
}

/// The priority a kernel number falls under: 0 is idle, up to 127 low, up
/// to 191 normal, up to 254 high, 255 realtime.
pub open spec fn priority_of(val: u8) -> AgentPriority {
    if val == 0 {
        AgentPriority::Idle
    } else if val <= 127 {
        AgentPriority::Low
    } else if val <= 191 {
        AgentPriority::Normal
    } else if val <= 254 {
        AgentPriority::High
    } else {
        AgentPriority::Realtime
    }
}

pub open spec fn priority_text(p: AgentPriority) -> &'static str {
    match p {
        AgentPriority::Idle => "Idle",
        AgentPriority::Low => "Low",
        AgentPriority::Normal => "Normal",
        AgentPriority::High => "High",
        AgentPriority::Realtime => "Realtime",
    }
}

impl AgentPriority {
    /// The priority a kernel number falls under.
    pub fn from_u8(val: u8) -> (r: AgentPriority)
        ensures
            r == priority_of(val),
    {
        if val == 0 {
            AgentPriority::Idle
        } else if val <= 127 {
            AgentPriority::Low
        } else if val <= 191 {
            AgentPriority::Normal
        } else if val <= 254 {
            AgentPriority::High
        } else {
            AgentPriority::Realtime
        }
    }

    /// The kernel number of the priority.
    pub fn as_u8(&self) -> (r: u8)
        ensures
            r == priority_code(*self),
    {
        match self {
            AgentPriority::Idle => 0,
            AgentPriority::Low => 64,
            AgentPriority::Normal => 128,
            AgentPriority::High => 192,
            AgentPriority::Realtime => 255,
        }
    }

    /// The name of the priority.
    pub fn display_text(&self) -> (r: String)
        ensures
            r@ == priority_text(*self)@,
    {
        match self {
            AgentPriority::Idle => String::from_str("Idle"),
            AgentPriority::Low => String::from_str("Low"),
            AgentPriority::Normal => String::from_str("Normal"),
            AgentPriority::High => String::from_str("High"),
            AgentPriority::Realtime => String::from_str("Realtime"),
        }
    }
}

impl Default for AgentPriority {
    fn default() -> (r: AgentPriority)
        ensures
            r == AgentPriority::Normal,
    {
        AgentPriority::Normal
    }
}

/// The kernel number of a priority falls back under that priority.
pub proof fn law_priority_roundtrip(p: AgentPriority)
    ensures
        priority_of(priority_code(p)) == p,
{
}

// ---------------------------------------------------------------------------
// Identifiers and handles
// ---------------------------------------------------------------------------

/// An agent identifier; 0 is invalid and 1 is the system agent.
#[derive(Debug, Clone, Copy, PartialEq, Eq, Structural, Hash)]
pub struct AgentId(pub u64);

impl AgentId {
    /// The invalid identifier.
    #[allow(non_snake_case)]
    pub fn INVALID() -> (r: AgentId)
        ensures
            r.0 == 0,
    {
        AgentId(0)
    }

    /// The system agent's identifier.
    #[allow(non_snake_case)]
    pub fn SYSTEM() -> (r: AgentId)
        ensures
            r.0 == 1,
    {
        AgentId(1)
    }

    pub fn new(id: u64) -> (r: AgentId)
        ensures
            r.0 == id,
    {
        AgentId(id)
    }

    /// Not zero.
    pub fn is_valid(&self) -> (r: bool)
        ensures
            r == (self.0 != 0),
    {
        self.0 != 0
    }

    /// The system agent's identifier.
    pub fn is_system(&self) -> (r: bool)
        ensures
            r == (self.0 == 1),
    {
        self.0 == 1
    }

    /// `Agent(<id>)`.
    pub fn display_text(&self) -> (r: String)
        ensures
            r@ == "Agent("@ + crate::text::decimal(self.0 as nat) + ")"@,
    {
        let mut s = String::from_str("Agent(");
        push_decimal(&mut s, self.0);
        s.append(")");
        s
    }
}

impl Default for AgentId {
    fn default() -> (r: AgentId)
        ensures
            r.0 == 0,
    {
        AgentId(0)
    }
}

/// The kernel's handle of an agent; 0 is invalid.
#[derive(Debug, Clone, Copy, PartialEq, Eq, Structural, Hash)]
pub struct KernelAgentHandle(pub u64);

impl KernelAgentHandle {
    /// The invalid handle.
    #[allow(non_snake_case)]
    pub fn INVALID() -> (r: KernelAgentHandle)
        ensures
            r.0 == 0,
    {
        KernelAgentHandle(0)
    }

    /// Not zero.
    pub fn is_valid(&self) -> (r: bool)
        ensures
            r == (self.0 != 0),
    {
        self.0 != 0
    }

    /// The table index of a valid handle: one less than its value.
    pub fn index(&self) -> (r: usize)
        requires
            self.0 != 0,
        ensures
            r == ((self.0 - 1) as usize),
    {
        (self.0 - 1) as usize
    }
}

impl Default for KernelAgentHandle {
    fn default() -> (r: KernelAgentHandle)
        ensures
            r.0 == 0,
    {
        KernelAgentHandle(0)
    }
}

// ---------------------------------------------------------------------------
// Bitmaps
// ---------------------------------------------------------------------------

/// Bit `b` of a word.
pub open spec fn word_bit(w: u64, b: u64) -> bool {
    w & (1u64 << b) != 0
}

proof fn lemma_bit_set(x: u64, a: u64, b: u64)
    requires
        a < 64,
        b < 64,
    ensures
        word_bit(x | (1u64 << a), b) == (a == b || word_bit(x, b)),
{
    assert(((x | (1u64 << a)) & (1u64 << b) != 0) == (a == b || x & (1u64 << b) != 0)) by (bit_vector)
        requires
            a < 64,
            b < 64,
    ;
}

proof fn lemma_bit_clear(x: u64, a: u64, b: u64)
    requires
        a < 64,
        b < 64,
    ensures
        word_bit(x & !(1u64 << a), b) == (a != b && word_bit(x, b)),
{
    assert(((x & !(1u64 << a)) & (1u64 << b) != 0) == (a != b && x & (1u64 << b) != 0)) by (bit_vector)
        requires
            a < 64,
            b < 64,
    ;
}

proof fn lemma_bit_all(b: u64)
    requires
        b < 64,
    ensures
        word_bit(0xffff_ffff_ffff_ffffu64, b),
        !word_bit(0u64, b),
{
    assert((0xffff_ffff_ffff_ffffu64 & (1u64 << b)) != 0 && (0u64 & (1u64 << b)) == 0) by (bit_vector)
        requires
            b < 64,
    ;
}

/// Bit `i` of a bitmap made of words; bits past the end are clear.
pub open spec fn map_bit(words: Seq<u64>, i: int) -> bool {
    0 <= i && i / 64 < words.len() && word_bit(words[i / 64], (i % 64) as u64)
}

/// A 128-bit set of capabilities.
#[derive(Debug, Clone, Copy)]
pub struct CapBitmap {
    pub bits: [u64; 2],
}

impl CapBitmap {
    /// Whether capability `i` is in the set.
    pub open spec fn has_cap(&self, i: int) -> bool {
        map_bit(self.bits@, i)
    }

    /// No capability.
    pub fn new() -> (r: CapBitmap)
        ensures
            r.bits@ == seq![0u64, 0u64],
            forall|i: int| !r.has_cap(i),
    {
        let r = CapBitmap { bits: [0u64, 0u64] };
        assert forall|i: int| !r.has_cap(i) by {
            if 0 <= i && i / 64 < 2 {
                lemma_bit_all((i % 64) as u64);
            }
        }
        r
    }

    /// Adds capability `cap`; one past the 128 bits changes nothing.
    pub fn set(&mut self, cap: usize)
        ensures
            forall|i: int| #[trigger] final(self).has_cap(i) == (old(self).has_cap(i) || (i == cap && cap < 128)),
            final(self).bits@.len() == 2,
    {
        let word = cap / 64;
        let bit = cap % 64;
        if word < 2 {
            let ghost before = self.bits@;
            let w = self.bits[word] | (1u64 << bit);
            self.bits[word] = w;
            assert forall|i: int| #[trigger] self.has_cap(i) == (map_bit(before, i) || (i == cap && cap < 128)) by {
                if 0 <= i && i / 64 < 2 {
                    if i / 64 == word as int {
                        lemma_bit_set(before[word as int], bit as u64, (i % 64) as u64);
                    }
                }
            }
        }
    }

    /// Removes capability `cap`; one past the 128 bits changes nothing.
    pub fn clear(&mut self, cap: usize)
        ensures
            forall|i: int| #[trigger] final(self).has_cap(i) == (old(self).has_cap(i) && i != cap),
            final(self).bits@.len() == 2,
    {
        let word = cap / 64;
        let bit = cap % 64;
        if word < 2 {
            let ghost before = self.bits@;
            let w = self.bits[word] & !(1u64 << bit);
            self.bits[word] = w;
            assert forall|i: int| #[trigger] self.has_cap(i) == (map_bit(before, i) && i != cap) by {
                if 0 <= i && i / 64 < 2 {
                    if i / 64 == word as int {
                        lemma_bit_clear(before[word as int], bit as u64, (i % 64) as u64);
                    }
                }
            }
        }
    }

    /// Whether capability `cap` is in the set.
    pub fn is_set(&self, cap: usize) -> (r: bool)
        ensures
            r == self.has_cap(cap as int),
    {
        let word = cap / 64;
        let bit = cap % 64;
        if word < 2 {
            (self.bits[word] & (1u64 << bit)) != 0
        } else {
            false
        }
    }

    /// Whether capability `cap` is in the set.
    pub fn test(&self, cap: usize) -> (r: bool)
        ensures
            r == self.has_cap(cap as int),
    {
        self.is_set(cap)
    }
}

impl Default for CapBitmap {
    fn default() -> (r: CapBitmap)
        ensures
            r.bits@ == seq![0u64, 0u64],
    {
        CapBitmap::new()
    }
}

/// A 256-bit set of events.
#[derive(Debug, Clone, Copy)]
pub struct EventMask {
    pub bits: [u64; 4],
}

impl EventMask {
    /// Whether event bit `i` is in the set.
    pub open spec fn has_event(&self, i: int) -> bool {
        map_bit(self.bits@, i)
    }

    /// No events.
    pub fn new() -> (r: EventMask)
        ensures
            r.bits@ == seq![0u64, 0u64, 0u64, 0u64],
            forall|i: int| !r.has_event(i),
    {
        let r = EventMask { bits: [0u64, 0u64, 0u64, 0u64] };
        assert forall|i: int| !r.has_event(i) by {
            if 0 <= i && i / 64 < 4 {
                lemma_bit_all((i % 64) as u64);
            }
        }
        r
    }

    /// Every event.
    #[allow(non_snake_case)]
    pub fn ALL() -> (r: EventMask)
        ensures
            r.bits@ == seq![u64::MAX, u64::MAX, u64::MAX, u64::MAX],
            forall|i: int| 0 <= i < 256 ==> r.has_event(i),
    {
        let r = EventMask { bits: [u64::MAX, u64::MAX, u64::MAX, u64::MAX] };
        assert forall|i: int| 0 <= i < 256 implies r.has_event(i) by {
            lemma_bit_all((i % 64) as u64);
        }
        r
    }

    /// Adds event bit `event_bit`; one past the 256 bits changes nothing.
    pub fn set(&mut self, event_bit: u64)
        ensures
            forall|i: int| #[trigger] final(self).has_event(i) == (old(self).has_event(i) || (i == event_bit && event_bit < 256)),
            final(self).bits@.len() == 4,
    {
        let w64 = event_bit / 64;
        let bit = event_bit % 64;
        if w64 < 4 {
            let word = w64 as usize;
            let ghost before = self.bits@;
            let w = self.bits[word] | (1u64 << bit);
            self.bits[word] = w;
            assert forall|i: int| #[trigger] self.has_event(i) == (map_bit(before, i) || (i == event_bit && event_bit < 256)) by {
                if 0 <= i && i / 64 < 4 {
                    if i / 64 == word as int {
                        lemma_bit_set(before[word as int], bit, (i % 64) as u64);
                    }
                }
            }
        }
    }

    /// Removes event bit `event_bit`; one past the 256 bits changes nothing.
    pub fn clear(&mut self, event_bit: u64)
        ensures
            forall|i: int| #[trigger] final(self).has_event(i) == (old(self).has_event(i) && i != event_bit),
            final(self).bits@.len() == 4,
    {
        let w64 = event_bit / 64;
        let bit = event_bit % 64;
        if w64 < 4 {
            let word = w64 as usize;
            let ghost before = self.bits@;
            let w = self.bits[word] & !(1u64 << bit);
            self.bits[word] = w;
            assert forall|i: int| #[trigger] self.has_event(i) == (map_bit(before, i) && i != event_bit) by {
                if 0 <= i && i / 64 < 4 {
                    if i / 64 == word as int {
                        lemma_bit_clear(before[word as int], bit, (i % 64) as u64);
                    }
                }
            }
        }
    }

    /// Whether event bit `event_bit` is in the set.
    pub fn is_set(&self, event_bit: u64) -> (r: bool)
        ensures
            r == self.has_event(event_bit as int),
    {
        let w64 = event_bit / 64;
        let bit = event_bit % 64;
        if w64 < 4 {
            let word = w64 as usize;
            (self.bits[word] & (1u64 << bit)) != 0
        } else {
            false
        }
    }

    /// Whether event bit `event_bit` is in the set.
    pub fn has(&self, event_bit: u64) -> (r: bool)
        ensures
            r == self.has_event(event_bit as int),
    {
        self.is_set(event_bit)
    }

    /// Every bit of `other` is a bit of this mask.
    pub fn contains(&self, other: &EventMask) -> (r: bool)
        ensures
            r == (forall|w: int| 0 <= w < 4 ==> #[trigger] (self.bits@[w] & other.bits@[w]) == other.bits@[w]),
    {
        let mut i: usize = 0;
        while i < 4
            invariant
                i <= 4,
                forall|w: int| 0 <= w < i ==> #[trigger] (self.bits@[w] & other.bits@[w]) == other.bits@[w],
            decreases 4 - i,
        {
            if (self.bits[i] & other.bits[i]) != other.bits[i] {
                return false;
            }
            i += 1;
        }
        true
    }
}

impl Default for EventMask {
    fn default() -> (r: EventMask)
        ensures
            r.bits@ == seq![0u64, 0u64, 0u64, 0u64],
    {
        EventMask::new()
    }
}

// ---------------------------------------------------------------------------
// Kernel records
// ---------------------------------------------------------------------------

/// Limits on an agent's resources; zero means no limit.
#[derive(Debug, Clone, Copy)]
pub struct ResourceQuota {
    pub max_memory_bytes: u64,
    pub max_shm_bytes: u64,
    pub max_cpu_percent: u32,
    pub max_fds: u32,
    pub max_threads: u32,
    pub max_msg_per_sec: u32,
}

/// All limits zero.
pub open spec fn unlimited(q: ResourceQuota) -> bool {
    q.max_memory_bytes == 0 && q.max_shm_bytes == 0 && q.max_cpu_percent == 0 && q.max_fds == 0
        && q.max_threads == 0 && q.max_msg_per_sec == 0
}

impl ResourceQuota {
    /// No limits.
    pub fn new() -> (r: ResourceQuota)
        ensures
            unlimited(r),
    {
        ResourceQuota {
            max_memory_bytes: 0,
            max_shm_bytes: 0,
            max_cpu_percent: 0,
            max_fds: 0,
            max_threads: 0,
            max_msg_per_sec: 0,
        }
    }
}

impl Default for ResourceQuota {
    fn default() -> (r: ResourceQuota)
        ensures
            unlimited(r),
    {
        ResourceQuota::new()
    }
}

/// All bytes zero.
pub open spec fn zeros(s: Seq<u8>) -> bool {
    forall|i: int| 0 <= i < s.len() ==> #[trigger] s[i] == 0u8
}

/// What the kernel is told about an agent to create.
#[derive(Debug, Clone, Copy)]
pub struct AgentSpec {
    pub version: u32,
    pub agent_type: AgentType,
    pub name: [u8; 64],
    pub entry_point: u64,
    pub code_size: u64,
    pub heap_size: u64,
    pub stack_size: u64,
    pub cpu_affinity: u64,
    pub priority: u8,
    pub sched_policy: u8,
    pub _pad0: [u8; 6],
    pub memory_limit: u64,
    pub max_fds: u32,
    pub _pad1: u32,
    pub capabilities: CapBitmap,
    pub port_count: u16,
    pub _pad2: u16,
    pub flags: u32,
    pub quota: ResourceQuota,
    pub security_label: [u8; 32],
    pub init_param: [u8; 32],
}

/// The record as `default` makes it: version 1, a generic agent at normal
/// priority, everything else zero.
pub open spec fn default_spec(s: AgentSpec) -> bool {
    &&& s.version == 1
    &&& s.agent_type == AgentType::Generic
    &&& zeros(s.name@)
    &&& s.entry_point == 0
    &&& s.code_size == 0
    &&& s.heap_size == 0
    &&& s.stack_size == 0
    &&& s.cpu_affinity == 0
    &&& s.priority == 128
    &&& s.sched_policy == 0
    &&& zeros(s._pad0@)
    &&& s.memory_limit == 0
    &&& s.max_fds == 0
    &&& s._pad1 == 0
    &&& s.capabilities.bits@ == seq![0u64, 0u64]
    &&& s.port_count == 0
    &&& s._pad2 == 0
    &&& s.flags == 0
    &&& unlimited(s.quota)
    &&& zeros(s.security_label@)
    &&& zeros(s.init_param@)
}

impl Default for AgentSpec {
    fn default() -> (r: AgentSpec)
        ensures
            default_spec(r),
    {
        AgentSpec {
            version: 1,
            agent_type: AgentType::Generic,
            name: [0u8; 64],
            entry_point: 0,
            code_size: 0,
            heap_size: 0,
            stack_size: 0,
            cpu_affinity: 0,
            priority: 128,
            sched_policy: 0,
            _pad0: [0u8; 6],
            memory_limit: 0,
            max_fds: 0,
            _pad1: 0,
            capabilities: CapBitmap::new(),
            port_count: 0,
            _pad2: 0,
            flags: 0,
            quota: ResourceQuota::new(),
            security_label: [0u8; 32],
            init_param: [0u8; 32],
        }
    }
}

/// What the kernel reports about an agent.
#[derive(Debug, Clone, Copy)]
pub struct AgentInfo {
    pub handle: KernelAgentHandle,
    pub state: AgentState,
    pub agent_type: AgentType,
    pub name: [u8; 64],
    pub creator_pid: u64,
    pub create_time_ns: u64,
    pub cpu_time_ns: u64,
    pub memory_used: u64,
    pub memory_peak: u64,
    pub thread_count: u32,
    pub connection_count: u32,
    pub msg_sent: u64,
    pub msg_received: u64,
    pub last_active_ns: u64,
    pub security_label: [u8; 32],
    pub current_cpu: u32,
    pub _pad: [u8; 4],
    pub _reserved: [u8; 72],
}

/// The record as `default` makes it: an invalid handle of a generic agent
/// being created, everything else zero.
pub open spec fn default_info(i: AgentInfo) -> bool {
    &&& i.handle.0 == 0
    &&& i.state == AgentState::Creating
    &&& i.agent_type == AgentType::Generic
    &&& zeros(i.name@)
    &&& i.creator_pid == 0
    &&& i.create_time_ns == 0
    &&& i.cpu_time_ns == 0
    &&& i.memory_used == 0
    &&& i.memory_peak == 0
    &&& i.thread_count == 0
    &&& i.connection_count == 0
    &&& i.msg_sent == 0
    &&& i.msg_received == 0
    &&& i.last_active_ns == 0
    &&& zeros(i.security_label@)
    &&& i.current_cpu == 0
    &&& zeros(i._pad@)
    &&& zeros(i._reserved@)
}

impl Default for AgentInfo {
    fn default() -> (r: AgentInfo)
        ensures
            default_info(r),
    {
        AgentInfo {
            handle: KernelAgentHandle(0),
            state: AgentState::Creating,
            agent_type: AgentType::Generic,
            name: [0u8; 64],
            creator_pid: 0,
            create_time_ns: 0,
            cpu_time_ns: 0,
            memory_used: 0,
            memory_peak: 0,
            thread_count: 0,
            connection_count: 0,
            msg_sent: 0,
            msg_received: 0,
            last_active_ns: 0,
            security_label: [0u8; 32],
            current_cpu: 0,
            _pad: [0u8; 4],
            _reserved: [0u8; 72],
        }
    }
}

/// The header of a message handed to the kernel.
#[derive(Debug, Clone, Copy)]
pub struct AgentMsgHeader {
    pub msg_type: u32,
    pub flags: u32,
    pub msg_id: u64,
    pub timestamp_ns: u64,
    pub payload_size: u64,
    pub shm_region_id: u32,
    pub priority: u8,
    pub reserved: [u8; 7],
    pub _pad: [u8; 4],
}

/// The header as `default` makes it: all zero.
pub open spec fn default_header(h: AgentMsgHeader) -> bool {
    &&& h.msg_type == 0
    &&& h.flags == 0
    &&& h.msg_id == 0
    &&& h.timestamp_ns == 0
    &&& h.payload_size == 0
    &&& h.shm_region_id == 0
    &&& h.priority == 0
    &&& zeros(h.reserved@)
    &&& zeros(h._pad@)
}

impl Default for AgentMsgHeader {
    fn default() -> (r: AgentMsgHeader)
        ensures
            default_header(r),
    {
        AgentMsgHeader {
            msg_type: 0,
            flags: 0,
            msg_id: 0,
            timestamp_ns: 0,
            payload_size: 0,
            shm_region_id: 0,
            priority: 0,
            reserved: [0u8; 7],
            _pad: [0u8; 4],
        }
    }
}

// ---------------------------------------------------------------------------
// Signals and message flags
// ---------------------------------------------------------------------------

/// A signal that ends, freezes or thaws an agent.
#[derive(Debug, Clone, Copy, PartialEq, Eq, Structural)]
pub enum Signal {
    Kill,
    Terminate,
    Freeze,
    Thaw,
}

pub open spec fn signal_code(s: Signal) -> u32 {
    match s {
        Signal::Kill => SIG_KILL,
        Signal::Terminate => SIG_TERM,
        Signal::Freeze => SIG_FREEZE,
        Signal::Thaw => SIG_THAW,
    }
}

pub open spec fn signal_text(s: Signal) -> &'static str {
    match s {
        Signal::Kill => "SIGKILL",
        Signal::Terminate => "SIGTERM",
        Signal::Freeze => "SIGFREEZE",
        Signal::Thaw => "SIGTHAW",
    }
}

impl Signal {
    /// The kernel number of the signal.
    pub fn to_u32(&self) -> (r: u32)
        ensures
            r == signal_code(*self),
    {
        match self {
            Signal::Kill => SIG_KILL,
            Signal::Terminate => SIG_TERM,
            Signal::Freeze => SIG_FREEZE,
            Signal::Thaw => SIG_THAW,
        }
    }

    /// The name of the signal.
    pub fn display_text(&self) -> (r: String)
        ensures
            r@ == signal_text(*self)@,
    {
        match self {
            Signal::Kill => String::from_str("SIGKILL"),
            Signal::Terminate => String::from_str("SIGTERM"),
            Signal::Freeze => String::from_str("SIGFREEZE"),
            Signal::Thaw => String::from_str("SIGTHAW"),
        }
    }
}

/// Flags of a message.
#[derive(Debug, Clone, Copy, PartialEq, Eq, Structural)]
pub struct MsgFlags(pub u32);

impl MsgFlags {
    #[allow(non_snake_case)]
    pub fn SYNC() -> (r: MsgFlags)
        ensures
            r.0 == MSG_SYNC,
    {
        MsgFlags(MSG_SYNC)
    }

    #[allow(non_snake_case)]
    pub fn ASYNC() -> (r: MsgFlags)
        ensures
            r.0 == MSG_ASYNC,
    {
        MsgFlags(MSG_ASYNC)
    }

    #[allow(non_snake_case)]
    pub fn URGENT() -> (r: MsgFlags)
        ensures
            r.0 == MSG_URGENT,
    {
        MsgFlags(MSG_URGENT)
    }

    #[allow(non_snake_case)]
    pub fn NOCOPY() -> (r: MsgFlags)
        ensures
            r.0 == MSG_NOCOPY,
    {
        MsgFlags(MSG_NOCOPY)
    }

    #[allow(non_snake_case)]
    pub fn BROADCAST() -> (r: MsgFlags)
        ensures
            r.0 == MSG_BROADCAST,
    {
        MsgFlags(MSG_BROADCAST)
    }

    #[allow(non_snake_case)]
    pub fn RELIABLE() -> (r: MsgFlags)
        ensures
            r.0 == MSG_RELIABLE,
    {
        MsgFlags(MSG_RELIABLE)
    }

    /// No flag.
    pub fn empty() -> (r: MsgFlags)
        ensures
            r.0 == 0,
    {
        MsgFlags(0)
    }

    pub fn bits(&self) -> (r: u32)
        ensures
            r == self.0,
    {
        self.0
    }

    pub fn is_sync(&self) -> (r: bool)
        ensures
            r == (self.0 & MSG_SYNC != 0),
    {
        (self.0 & MSG_SYNC) != 0
    }

    pub fn is_async(&self) -> (r: bool)
        ensures
            r == (self.0 & MSG_ASYNC != 0),
    {
        (self.0 & MSG_ASYNC) != 0
    }

    pub fn is_urgent(&self) -> (r: bool)
        ensures
            r == (self.0 & MSG_URGENT != 0),
    {
        (self.0 & MSG_URGENT) != 0
    }

    pub fn is_nocopy(&self) -> (r: bool)
        ensures
            r == (self.0 & MSG_NOCOPY != 0),
    {
        (self.0 & MSG_NOCOPY) != 0
    }

    pub fn is_broadcast(&self) -> (r: bool)
        ensures
            r == (self.0 & MSG_BROADCAST != 0),
    {
        (self.0 & MSG_BROADCAST) != 0
    }

    pub fn is_reliable(&self) -> (r: bool)
        ensures
            r == (self.0 & MSG_RELIABLE != 0),
    {
        (self.0 & MSG_RELIABLE) != 0
    }

    /// Every bit of `other` is set.
    pub fn contains(&self, other: MsgFlags) -> (r: bool)
        ensures
            r == (self.0 & other.0 == other.0),
    {
        (self.0 & other.0) == other.0
    }

    /// The bits of both.
    pub fn union(&self, other: MsgFlags) -> (r: MsgFlags)
        ensures
            r.0 == self.0 | other.0,
    {
        MsgFlags(self.0 | other.0)
    }
}

impl Default for MsgFlags {
    fn default() -> (r: MsgFlags)
        ensures
            r.0 == 0,
    {
        MsgFlags(0)
    }
}

impl std::ops::BitOr for MsgFlags {
    type Output = MsgFlags;

    fn bitor(self, rhs: MsgFlags) -> (r: MsgFlags) {
        MsgFlags(self.0 | rhs.0)
    }
}

impl vstd::std_specs::ops::BitOrSpecImpl for MsgFlags {
    open spec fn obeys_bitor_spec() -> bool {
        true
    }

    open spec fn bitor_req(self, rhs: MsgFlags) -> bool {
        true
    }

    open spec fn bitor_spec(self, rhs: MsgFlags) -> MsgFlags {
        MsgFlags(self.0 | rhs.0)
    }
}

impl std::ops::BitOrAssign for MsgFlags {
    fn bitor_assign(&mut self, rhs: MsgFlags) {
        self.0 = self.0 | rhs.0;
    }
}

// ---------------------------------------------------------------------------
// Handles and messages
// ---------------------------------------------------------------------------

/// A user-space handle of an agent; 0 is invalid.
#[derive(Debug, Clone, Copy, PartialEq, Eq, Structural, Hash)]
pub struct AgentHandle {
    inner: u64,
}

impl AgentHandle {
    /// The handle's value.
    pub closed spec fn value(&self) -> u64 {
        self.inner
    }

    /// The invalid handle.
    #[allow(non_snake_case)]
    pub fn INVALID() -> (r: AgentHandle)
        ensures
            r.value() == 0,
    {
        AgentHandle { inner: 0 }
    }

    pub fn new(inner: u64) -> (r: AgentHandle)
        ensures
            r.value() == inner,
    {
        AgentHandle { inner }
    }

    pub fn from_kernel(handle: KernelAgentHandle) -> (r: AgentHandle)
        ensures
            r.value() == handle.0,
    {
        AgentHandle { inner: handle.0 }
    }

    pub fn to_kernel(&self) -> (r: KernelAgentHandle)
        ensures
            r.0 == self.value(),
    {
        KernelAgentHandle(self.inner)
    }

    /// Not zero.
    pub fn is_valid(&self) -> (r: bool)
        ensures
            r == (self.value() != 0),
    {
        self.inner != 0
    }

    pub fn as_u64(&self) -> (r: u64)
        ensures
            r == self.value(),
    {
        self.inner
    }

    /// The identifier with the same value.
    pub fn agent_id(&self) -> (r: AgentId)
        ensures
            r.0 == self.value(),
    {
        AgentId(self.inner)
    }

    /// `AgentHandle(<value>)`.
    pub fn display_text(&self) -> (r: String)
        ensures
            r@ == "AgentHandle("@ + crate::text::decimal(self.value() as nat) + ")"@,
    {
        let mut s = String::from_str("AgentHandle(");
        push_decimal(&mut s, self.inner);
        s.append(")");
        s
    }
}

impl Default for AgentHandle {
    fn default() -> (r: AgentHandle)
        ensures
            r.value() == 0,
    {
        AgentHandle { inner: 0 }
    }
}

/// A message between agents.
#[derive(Debug, Clone)]
pub struct AgentMessage {
    pub msg_id: u64,
    pub src: AgentHandle,
    pub payload: Vec<u8>,
    pub timestamp: u64,
    pub flags: u32,
}

impl AgentMessage {
    /// A message with no timestamp and no flags.
    pub fn new(msg_id: u64, src: AgentHandle, payload: Vec<u8>) -> (r: AgentMessage)
        ensures
            r.msg_id == msg_id,
            r.src == src,
            r.payload@ == payload@,
            r.timestamp == 0,
            r.flags == 0,
    {
        AgentMessage { msg_id, src, payload, timestamp: 0, flags: 0 }
    }

    /// The same message with the given timestamp.
    pub fn with_timestamp(self, ts: u64) -> (r: AgentMessage)
        ensures
            r == (AgentMessage { timestamp: ts, ..self }),
    {
        let mut m = self;
        m.timestamp = ts;
        m
    }

    /// The same message with the given flags.
    pub fn with_flags(self, flags: u32) -> (r: AgentMessage)
        ensures
            r == (AgentMessage { flags: flags, ..self }),
    {
        let mut m = self;
        m.flags = flags;
        m
    }

    /// Number of payload bytes.
    pub fn payload_len(&self) -> (r: usize)
        ensures
            r == self.payload@.len(),
    {
        self.payload.len()
    }
}

/// The name in a kernel record: its bytes up to the first zero, each read
/// as the character of that code.
pub open spec fn name_text(bytes: Seq<u8>) -> Seq<char>
    decreases bytes.len(),
{
    if bytes.len() == 0 || bytes[0] == 0 {
        Seq::empty()
    } else {
        seq![bytes[0] as char] + name_text(bytes.drop_first())
    }
}

proof fn lemma_name_text_step(bytes: Seq<u8>, k: int)
    requires
        0 <= k < bytes.len(),
        forall|j: int| 0 <= j <= k ==> #[trigger] bytes[j] != 0,
    ensures
        name_text(bytes) == name_text(bytes.take(k)).push(bytes[k] as char) + name_text(bytes.skip(k + 1)),
    decreases k,
{
    if k == 0 {
        assert(bytes.take(0) =~= Seq::<u8>::empty());
        assert(bytes.drop_first() =~= bytes.skip(1));
        assert(name_text(bytes.take(0)) =~= Seq::<char>::empty());
    } else {
        let t = bytes.drop_first();
        assert forall|j: int| 0 <= j <= k - 1 implies #[trigger] t[j] != 0 by {
            assert(t[j] == bytes[j + 1]);
        }
        lemma_name_text_step(t, k - 1);
        assert(t.take(k - 1) =~= bytes.take(k).drop_first());
        assert(t.skip(k) =~= bytes.skip(k + 1));
        assert(bytes.take(k)[0] == bytes[0]);
        assert(bytes.take(k).len() > 0);
        assert(name_text(bytes.take(k)) == seq![bytes[0] as char] + name_text(bytes.take(k).drop_first()));
        assert(name_text(bytes) == seq![bytes[0] as char] + name_text(t));
        assert(seq![bytes[0] as char] + (name_text(t.take(k - 1)).push(bytes[k] as char) + name_text(
            t.skip(k),
        )) =~= (seq![bytes[0] as char] + name_text(t.take(k - 1))).push(bytes[k] as char) + name_text(
            t.skip(k),
        ));
        assert(t[k - 1] == bytes[k]);
    }
}

proof fn lemma_name_text_stop(bytes: Seq<u8>, k: int)
    requires
        0 <= k <= bytes.len(),
        forall|j: int| 0 <= j < k ==> #[trigger] bytes[j] != 0,
        k == bytes.len() || bytes[k] == 0,
    ensures
        name_text(bytes) == name_text(bytes.take(k)),
        name_text(bytes.take(k)).len() == k,
    decreases k,
{
    if k == 0 {
        assert(bytes.take(0) =~= Seq::<u8>::empty());
    } else {
        let t = bytes.drop_first();
        assert forall|j: int| 0 <= j < k - 1 implies #[trigger] t[j] != 0 by {
            assert(t[j] == bytes[j + 1]);
        }
        if k < bytes.len() {
            assert(t[k - 1] == bytes[k]);
        }
        lemma_name_text_stop(t, k - 1);
        assert(t.take(k - 1) =~= bytes.take(k).drop_first());
        assert(bytes.take(k)[0] == bytes[0]);
    }
}

/// An agent's record as user code reads it.
#[derive(Debug, Clone)]
pub struct AgentInfoView {
    pub handle: AgentHandle,
    pub state: AgentState,
    pub agent_type: AgentType,
    pub name: String,
    pub creator_pid: u64,
    pub create_time_ns: u64,
    pub cpu_time_ns: u64,
    pub memory_used: u64,
    pub memory_peak: u64,
    pub thread_count: u32,
    pub connection_count: u32,
    pub msg_sent: u64,
    pub msg_received: u64,
}

impl AgentInfoView {
    /// Reads a kernel record.
    pub fn from_kernel(info: &AgentInfo) -> (r: AgentInfoView)
        ensures
            r.handle.value() == info.handle.0,
            r.state == info.state,
            r.agent_type == info.agent_type,
            r.name@ == name_text(info.name@),
            r.creator_pid == info.creator_pid,
            r.create_time_ns == info.create_time_ns,
            r.cpu_time_ns == info.cpu_time_ns,
            r.memory_used == info.memory_used,
            r.memory_peak == info.memory_peak,
            r.thread_count == info.thread_count,
            r.connection_count == info.connection_count,
            r.msg_sent == info.msg_sent,
            r.msg_received == info.msg_received,
    {
        let mut name = String::new();
        let mut k: usize = 0;
        let ghost bytes = info.name@;
        assert(bytes.len() == 64);
        while k < 64 && info.name[k] != 0
            invariant
                k <= 64,
                bytes == info.name@,
                bytes.len() == 64,
                forall|j: int| 0 <= j < k ==> #[trigger] bytes[j] != 0,
                name@ == name_text(bytes.take(k as int)),
                name_text(bytes.take(k as int)).len() == k,
            decreases 64 - k,
        {
            proof {
                lemma_name_text_step(bytes.take(k + 1), k as int);
                assert(bytes.take(k + 1).take(k as int) =~= bytes.take(k as int));
                assert(bytes.take(k + 1).skip(k + 1) =~= Seq::<u8>::empty());
                assert(name_text(Seq::<u8>::empty()) =~= Seq::<char>::empty());
            }
            push_char(&mut name, info.name[k] as char);
            k += 1;
            proof {
                lemma_name_text_stop(bytes.take(k as int), k as int);
            }
        }
        proof {
            lemma_name_text_stop(bytes, k as int);
        }
        AgentInfoView {
            handle: AgentHandle::new(info.handle.0),
            state: info.state,
            agent_type: info.agent_type,
            name,
            creator_pid: info.creator_pid,
            create_time_ns: info.create_time_ns,
            cpu_time_ns: info.cpu_time_ns,
            memory_used: info.memory_used,
            memory_peak: info.memory_peak,
            thread_count: info.thread_count,
            connection_count: info.connection_count,
            msg_sent: info.msg_sent,
            msg_received: info.msg_received,
        }
    }
}

} // verus!
