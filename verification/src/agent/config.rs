//! Agent configuration: a builder of named settings and its translation
//! into the kernel's creation record.
use vstd::prelude::*;
use vstd::utf8::encode_utf8;
use crate::text::{str_equal, texts};
use crate::textmap::{TextMap, set_param};
use crate::agent::types::{AgentType, AgentPriority, AgentSpec, CapBitmap, default_spec, priority_code, zeros, unlimited, AGENT_FLAG_AUTO_START, CAP_SPAWN_AGENT, CAP_SPAWN_SYSTEM_AGENT, CAP_NETWORK, CAP_DEVICE_ACCESS, CAP_IPC, CAP_SHARED_MEMORY, CAP_FILESYSTEM, CAP_ADMIN, CAP_VIRTUALIZATION, CAP_ENCLAVE, CAP_SPAWN_ENCLAVED};
use crate::agent::error::ConfigError;

verus! {

// ---------------------------------------------------------------------------
// Capability names and entry-point hashing
// ---------------------------------------------------------------------------

/// The capability a name stands for.
pub open spec fn cap_index(name: Seq<char>) -> Option<int> {
    if name == "spawn_agent"@ {
        Some(CAP_SPAWN_AGENT as int)
    } else if name == "spawn_system_agent"@ {
        Some(CAP_SPAWN_SYSTEM_AGENT as int)
    } else if name == "network"@ {
        Some(CAP_NETWORK as int)
    } else if name == "device_access"@ {
        Some(CAP_DEVICE_ACCESS as int)
    } else if name == "ipc"@ {
        Some(CAP_IPC as int)
    } else if name == "shared_memory"@ {
        Some(CAP_SHARED_MEMORY as int)
    } else if name == "filesystem"@ {
        Some(CAP_FILESYSTEM as int)
    } else if name == "admin"@ {
        Some(CAP_ADMIN as int)
    } else if name == "virtualization"@ {
        Some(CAP_VIRTUALIZATION as int)
    } else if name == "enclave"@ {
        Some(CAP_ENCLAVE as int)
    } else if name == "spawn_enclaved"@ {
        Some(CAP_SPAWN_ENCLAVED as int)
    } else {
        None
    }
}

/// The capability a name stands for, if it is a known one.
pub fn capability_to_index(name: &str) -> (r: Option<usize>)
    ensures
        match r {
            Some(i) => cap_index(name@) == Some(i as int),
            None => cap_index(name@) is None,
        },
{
    if str_equal(name, "spawn_agent") {
        Some(CAP_SPAWN_AGENT)
    } else if str_equal(name, "spawn_system_agent") {
        Some(CAP_SPAWN_SYSTEM_AGENT)
    } else if str_equal(name, "network") {
        Some(CAP_NETWORK)
    } else if str_equal(name, "device_access") {
        Some(CAP_DEVICE_ACCESS)
    } else if str_equal(name, "ipc") {
        Some(CAP_IPC)
    } else if str_equal(name, "shared_memory") {
        Some(CAP_SHARED_MEMORY)
    } else if str_equal(name, "filesystem") {
        Some(CAP_FILESYSTEM)
    } else if str_equal(name, "admin") {
        Some(CAP_ADMIN)
    } else if str_equal(name, "virtualization") {
        Some(CAP_VIRTUALIZATION)
    } else if str_equal(name, "enclave") {
        Some(CAP_ENCLAVE)
    } else if str_equal(name, "spawn_enclaved") {
        Some(CAP_SPAWN_ENCLAVED)
    } else {
        None
    }
}

/// The FNV-1a hash of a byte string.
pub open spec fn fnv1a(bytes: Seq<u8>) -> u64
    decreases bytes.len(),
{
    if bytes.len() == 0 {
        0xcbf29ce484222325u64
    } else {
        vstd::wrapping::u64_specs::wrapping_mul(fnv1a(bytes.drop_last()) ^ (bytes.last() as u64), 0x100000001b3u64)
    }
}

/// The FNV-1a hash of the string's UTF-8 bytes.
pub fn simple_hash(s: &str) -> (r: u64)
    ensures
        r == fnv1a(encode_utf8(s@)),
{
    let bytes = s.as_bytes_vec();
    let mut hash: u64 = 0xcbf29ce484222325;
    let mut i: usize = 0;
    while i < bytes.len()
        invariant
            i <= bytes@.len(),
            hash == fnv1a(bytes@.take(i as int)),
        decreases bytes@.len() - i,
    {
        assert(bytes@.take(i + 1).drop_last() =~= bytes@.take(i as int));
        hash = hash ^ (bytes[i] as u64);
        hash = hash.wrapping_mul(0x100000001b3);
        i += 1;
    }
    assert(bytes@.take(i as int) =~= bytes@);
    hash
}

// ---------------------------------------------------------------------------
// The configuration and its translation
// ---------------------------------------------------------------------------

/// The bytes of one parameter in the creation record: `name=value` and a
/// zero byte.
pub open spec fn param_entry_bytes(k: Seq<char>, v: Seq<char>) -> Seq<u8> {
    encode_utf8(k) + seq![61u8] + encode_utf8(v) + seq![0u8]
}

/// The bytes of all parameters, one after another.
pub open spec fn param_bytes(s: Seq<(Seq<char>, Seq<char>)>) -> Seq<u8>
    decreases s.len(),
{
    if s.len() == 0 {
        Seq::empty()
    } else {
        param_bytes(s.drop_last()) + param_entry_bytes(s.last().0, s.last().1)
    }
}

/// The first `n` bytes of `b`, zero-filled past its end.
pub open spec fn padded(b: Seq<u8>, n: nat) -> Seq<u8> {
    Seq::new(n, |i: int| if i < b.len() { b[i] } else { 0u8 })
}

/// A capability is granted exactly when one of the names stands for it.
pub open spec fn grants(caps: Seq<Seq<char>>, bitmap: CapBitmap) -> bool {
    forall|i: int| #[trigger] bitmap.has_cap(i) <==> exists|j: int| 0 <= j < caps.len() && #[trigger] cap_index(caps[j]) == Some(i)
}

/// The name can go into the creation record: not empty, at most 63 bytes.
pub open spec fn name_fits(name: Seq<char>) -> bool {
    name.len() > 0 && encode_utf8(name).len() <= 63
}

/// A builder of an agent's settings.
pub struct AgentConfig {
    pub name: String,
    pub agent_type: AgentType,
    pub priority: AgentPriority,
    pub heap_size: u64,
    pub stack_size: u64,
    pub capabilities: Vec<String>,
    pub auto_start: bool,
    pub entry_point: Option<String>,
    pub params: TextMap,
}

/// The creation record a configuration translates into.
pub open spec fn built_from(c: AgentConfig, s: AgentSpec) -> bool {
    &&& s.version == 1
    &&& s.agent_type == c.agent_type
    &&& s.name@ == padded(encode_utf8(c.name@), 64)
    &&& s.entry_point == match c.entry_point {
        Some(ep) => fnv1a(encode_utf8(ep@)),
        None => 0,
    }
    &&& s.code_size == 0
    &&& s.heap_size == c.heap_size
    &&& s.stack_size == c.stack_size
    &&& s.cpu_affinity == 0
    &&& s.priority == priority_code(c.priority)
    &&& s.sched_policy == 0
    &&& zeros(s._pad0@)
    &&& s.memory_limit == 0
    &&& s.max_fds == 0
    &&& s._pad1 == 0
    &&& grants(texts(c.capabilities@), s.capabilities)
    &&& s.port_count == 0
    &&& s._pad2 == 0
    &&& s.flags == if c.auto_start {
        AGENT_FLAG_AUTO_START
    } else {
        0
    }
    &&& unlimited(s.quota)
    &&& zeros(s.security_label@)
    &&& s.init_param@ == padded(param_bytes(c.params.entries()), 32)
}

impl AgentConfig {
    /// The longest name, in bytes.
    pub const MAX_NAME_LEN: usize = 63;

    /// A generic agent at normal priority, with default sizes, no
    /// capabilities, no entry point and no parameters.
    pub fn new(name: &str) -> (r: AgentConfig)
        ensures
            r.name@ == name@,
            r.agent_type == AgentType::Generic,
            r.priority == AgentPriority::Normal,
            r.heap_size == 0,
            r.stack_size == 0,
            r.capabilities@.len() == 0,
            !r.auto_start,
            r.entry_point is None,
            r.params.wf(),
            r.params.entries().len() == 0,
    {
        AgentConfig {
            name: String::from_str(name),
            agent_type: AgentType::Generic,
            priority: AgentPriority::Normal,
            heap_size: 0,
            stack_size: 0,
            capabilities: Vec::new(),
            auto_start: false,
            entry_point: None,
            params: TextMap::new(),
        }
    }

    pub fn agent_type(self, t: AgentType) -> (r: AgentConfig)
        ensures
            r == (AgentConfig { agent_type: t, ..self }),
    {
        let mut c = self;
        c.agent_type = t;
        c
    }

    pub fn priority(self, p: AgentPriority) -> (r: AgentConfig)
        ensures
            r == (AgentConfig { priority: p, ..self }),
    {
        let mut c = self;
        c.priority = p;
        c
    }

    pub fn heap_size(self, size: u64) -> (r: AgentConfig)
        ensures
            r == (AgentConfig { heap_size: size, ..self }),
    {
        let mut c = self;
        c.heap_size = size;
        c
    }

    pub fn stack_size(self, size: u64) -> (r: AgentConfig)
        ensures
            r == (AgentConfig { stack_size: size, ..self }),
    {
        let mut c = self;
        c.stack_size = size;
        c
    }

    /// Adds a capability name.
    pub fn capability(self, cap: &str) -> (r: AgentConfig)
        ensures
            r == (AgentConfig { capabilities: r.capabilities, ..self }),
            texts(r.capabilities@) == texts(self.capabilities@).push(cap@),
    {
        let mut c = self;
        let ghost before = c.capabilities@;
        c.capabilities.push(String::from_str(cap));
        assert(texts(c.capabilities@) =~= texts(before).push(cap@));
        c
    }

    pub fn auto_start(self, auto: bool) -> (r: AgentConfig)
        ensures
            r == (AgentConfig { auto_start: auto, ..self }),
    {
        let mut c = self;
        c.auto_start = auto;
        c
    }

    /// Sets the entry point's name.
    pub fn entry_point(self, ep: &str) -> (r: AgentConfig)
        ensures
            r == (AgentConfig { entry_point: r.entry_point, ..self }),
            r.entry_point is Some,
            r.entry_point->0@ == ep@,
    {
        let mut c = self;
        c.entry_point = Some(String::from_str(ep));
        c
    }

    /// Sets a named parameter.
    pub fn param(self, key: &str, value: &str) -> (r: AgentConfig)
        requires
            self.params.wf(),
        ensures
            r == (AgentConfig { params: r.params, ..self }),
            r.params.wf(),
            r.params.entries() == set_param(self.params.entries(), key@, value@),
    {
        let mut c = self;
        c.params.insert(key, value);
        c
    }

    /// The creation record for these settings: the name must be non-empty
    /// and at most 63 bytes.
    pub fn build(&self) -> (r: Result<AgentSpec, ConfigError>)
        ensures
            self.name@.len() == 0 ==> r is Err && r->Err_0 is InvalidName,
            self.name@.len() > 0 && encode_utf8(self.name@).len() > 63 ==> r is Err && r->Err_0 is NameTooLong,
            self.name@.len() > 0 && encode_utf8(self.name@).len() <= 63 ==> r is Ok && built_from(*self, r->Ok_0),
    {
        let name_bytes = self.name.as_str().as_bytes_vec();
        if self.name.as_str().unicode_len() == 0 {
            return Err(ConfigError::InvalidName);
        }
        if name_bytes.len() > Self::MAX_NAME_LEN {
            return Err(ConfigError::NameTooLong);
        }
        let mut spec = AgentSpec::default();
        spec.version = 1;
        spec.agent_type = self.agent_type;
        spec.priority = self.priority.as_u8();
        spec.heap_size = self.heap_size;
        spec.stack_size = self.stack_size;
        let mut name = [0u8; 64];
        let mut i: usize = 0;
        while i < name_bytes.len()
            invariant
                i <= name_bytes@.len(),
                name_bytes@.len() <= 63,
                forall|k: int| 0 <= k < 64 ==> #[trigger] name@[k] == if k < i { name_bytes@[k] } else { 0u8 },
            decreases name_bytes@.len() - i,
        {
            name[i] = name_bytes[i];
            i += 1;
        }
        assert(name@ =~= padded(encode_utf8(self.name@), 64));
        spec.name = name;
        if self.auto_start {
            spec.flags = AGENT_FLAG_AUTO_START;
        }
        let caps = self.capability_bitmap();
        spec.capabilities = caps;
        match &self.entry_point {
            Some(ep) => {
                spec.entry_point = simple_hash(ep.as_str());
            },
            None => {},
        }
        spec.init_param = self.param_block();
        Ok(spec)
    }

    /// The capabilities the names stand for.
    fn capability_bitmap(&self) -> (r: CapBitmap)
        ensures
            grants(texts(self.capabilities@), r),
    {
        let ghost caps = texts(self.capabilities@);
        let mut b = CapBitmap::new();
        let mut j: usize = 0;
        while j < self.capabilities.len()
            invariant
                j <= self.capabilities@.len(),
                caps == texts(self.capabilities@),
                caps.len() == self.capabilities@.len(),
                forall|i: int| #[trigger] b.has_cap(i) <==> exists|q: int| 0 <= q < j && #[trigger] cap_index(caps[q]) == Some(i),
            decreases self.capabilities@.len() - j,
        {
            assert(caps[j as int] == self.capabilities@[j as int]@);
            let ghost before = b;
            match capability_to_index(self.capabilities[j].as_str()) {
                Some(idx) => {
                    b.set(idx);
                    assert forall|i: int| #[trigger] b.has_cap(i) <==> exists|q: int| 0 <= q < j + 1 && #[trigger] cap_index(caps[q]) == Some(i) by {
                        if b.has_cap(i) && !before.has_cap(i) {
                            assert(cap_index(caps[j as int]) == Some(i));
                        }
                        if exists|q: int| 0 <= q < j + 1 && #[trigger] cap_index(caps[q]) == Some(i) {
                            let q = choose|q: int| 0 <= q < j + 1 && #[trigger] cap_index(caps[q]) == Some(i);
                            if q == j {
                                assert(i == idx as int);
                                assert(idx < 128);
                            }
                        }
                    }
                },
                None => {
                    assert forall|i: int| #[trigger] b.has_cap(i) <==> exists|q: int| 0 <= q < j + 1 && #[trigger] cap_index(caps[q]) == Some(i) by {
                        if exists|q: int| 0 <= q < j + 1 && #[trigger] cap_index(caps[q]) == Some(i) {
                            let q = choose|q: int| 0 <= q < j + 1 && #[trigger] cap_index(caps[q]) == Some(i);
                            assert(q != j);
                        }
                    }
                },
            }
            j += 1;
        }
        b
    }

    /// The parameters' bytes, cut or zero-filled to 32.
    fn param_block(&self) -> (r: [u8; 32])
        ensures
            r@ == padded(param_bytes(self.params.entries()), 32),
    {
        let ghost es = self.params.entries();
        let mut all: Vec<u8> = Vec::new();
        let mut j: usize = 0;
        assert(es.take(0) =~= Seq::<(Seq<char>, Seq<char>)>::empty());
        while j < self.params.len()
            invariant
                j <= es.len(),
                es == self.params.entries(),
                all@ == param_bytes(es.take(j as int)),
            decreases es.len() - j,
        {
            let k = self.params.key_at(j).as_str().as_bytes_vec();
            let v = self.params.value_at(j).as_str().as_bytes_vec();
            let ghost before = all@;
            let mut q: usize = 0;
            while q < k.len()
                invariant
                    q <= k@.len(),
                    all@ == before + k@.take(q as int),
                decreases k@.len() - q,
            {
                all.push(k[q]);
                assert(k@.take(q + 1) =~= k@.take(q as int).push(k@[q as int]));
                q += 1;
            }
            all.push(61u8);
            let mut q: usize = 0;
            let ghost mid = all@;
            while q < v.len()
                invariant
                    q <= v@.len(),
                    all@ == mid + v@.take(q as int),
                decreases v@.len() - q,
            {
                all.push(v[q]);
                assert(v@.take(q + 1) =~= v@.take(q as int).push(v@[q as int]));
                q += 1;
            }
            all.push(0u8);
            proof {
                assert(k@.take(k@.len() as int) =~= k@);
                assert(v@.take(v@.len() as int) =~= v@);
                assert(es.take(j + 1).drop_last() =~= es.take(j as int));
                assert(all@ =~= before + param_entry_bytes(es[j as int].0, es[j as int].1));
            }
            j += 1;
        }
        assert(es.take(j as int) =~= es);
        let mut buf = [0u8; 32];
        let mut i: usize = 0;
        while i < 32 && i < all.len()
            invariant
                i <= 32,
                forall|p: int| 0 <= p < 32 ==> #[trigger] buf@[p] == if p < i && p < all@.len() { all@[p] } else { 0u8 },
            decreases 32 - i,
        {
            buf[i] = all[i];
            i += 1;
        }
        assert(buf@ =~= padded(all@, 32));
        buf
    }
}

} // verus!
