//! Cluster nodes: identifiers, connection states and per-node information.
use vstd::prelude::*;
use vstd::std_specs::cmp::PartialEqSpecImpl;
use crate::keyed::{keys_distinct, seq_to_map, lemma_update, lemma_absent, lemma_push, lemma_entry};
use crate::text::{hex_byte, push_char, push_hex_byte, str_equal};

verus! {

/// Fresh hashing keys (`RandomState::new`). In one thread each call yields
/// keys that no earlier call yielded; nothing is claimed of the value.
#[verifier::external_body]
fn fresh_hash_keys() -> std::collections::hash_map::RandomState {
    std::collections::hash_map::RandomState::new()
}

/// Hashes a number with the given keys (`BuildHasher::hash_one`). The
/// result depends on random keys, so nothing is claimed of it.
#[verifier::external_body]
fn hash_with_keys(keys: &std::collections::hash_map::RandomState, v: u64) -> u64 {
    std::hash::BuildHasher::hash_one(keys, v)
}

/// A 16-byte node identifier in UUID layout.
#[derive(Debug, Clone, Copy, Hash, Eq)]
pub struct NodeId(pub [u8; 16]);

impl PartialEq for NodeId {
    fn eq(&self, other: &NodeId) -> (r: bool) {
        self.same_as(other)
    }
}

impl PartialEqSpecImpl for NodeId {
    open spec fn obeys_eq_spec() -> bool {
        true
    }

    open spec fn eq_spec(&self, other: &NodeId) -> bool {
        *self == *other
    }
}

/// Lexicographic "greater than" on byte sequences.
pub open spec fn lex_greater(a: Seq<u8>, b: Seq<u8>) -> bool
    decreases a.len(),
{
    if a.len() == 0 || b.len() == 0 {
        false
    } else if a[0] != b[0] {
        a[0] > b[0]
    } else {
        lex_greater(a.drop_first(), b.drop_first())
    }
}

/// Every byte of the identifier is zero.
pub open spec fn all_zero(b: Seq<u8>) -> bool {
    forall|i: int| 0 <= i < b.len() ==> b[i] == 0
}

/// The identifier carries the UUID version-4 and variant bits.
pub open spec fn is_v4_layout(b: Seq<u8>) -> bool {
    &&& b.len() == 16
    &&& b[6] & 0xf0 == 0x40
    &&& b[8] & 0xc0 == 0x80
}

/// The canonical text of the first `n` bytes of an identifier: lower-case
/// hexadecimal, with a dash before bytes 4, 6, 8 and 10.
pub open spec fn uuid_text(b: Seq<u8>, n: nat) -> Seq<char>
    decreases n,
{
    if n == 0 {
        Seq::empty()
    } else {
        let k = (n - 1) as nat;
        let sep = if k == 4 || k == 6 || k == 8 || k == 10 {
            seq!['-']
        } else {
            Seq::empty()
        };
        uuid_text(b, k) + sep + hex_byte(b[k as int])
    }
}

proof fn lemma_lex_antisym(a: Seq<u8>, b: Seq<u8>)
    requires
        a.len() == b.len(),
    ensures
        !(lex_greater(a, b) && lex_greater(b, a)),
        !lex_greater(a, b) && !lex_greater(b, a) ==> a == b,
    decreases a.len(),
{
    if a.len() == 0 {
        assert(a =~= b);
    } else if a[0] != b[0] {
    } else {
        lemma_lex_antisym(a.drop_first(), b.drop_first());
        if a.drop_first() == b.drop_first() {
            assert(a =~= b) by {
                assert forall|i: int| 0 <= i < a.len() implies a[i] == b[i] by {
                    if i > 0 {
                        assert(a[i] == a.drop_first()[i - 1]);
                        assert(b[i] == b.drop_first()[i - 1]);
                    }
                }
            }
        }
    }
}

proof fn lemma_lex_trans(a: Seq<u8>, b: Seq<u8>, c: Seq<u8>)
    requires
        a.len() == b.len(),
        b.len() == c.len(),
        lex_greater(a, b),
        lex_greater(b, c),
    ensures
        lex_greater(a, c),
    decreases a.len(),
{
    if a.len() == 0 {
    } else if a[0] != b[0] || b[0] != c[0] {
    } else {
        lemma_lex_trans(a.drop_first(), b.drop_first(), c.drop_first());
    }
}

proof fn lemma_lex_irreflexive(a: Seq<u8>)
    ensures
        !lex_greater(a, a),
    decreases a.len(),
{
    if a.len() > 0 {
        lemma_lex_irreflexive(a.drop_first());
    }
}

/// Lexicographic order on identifiers: it is a strict total order.
pub proof fn lemma_node_order(a: NodeId, b: NodeId, c: NodeId)
    ensures
        !lex_greater(a.0@, a.0@),
        !(lex_greater(a.0@, b.0@) && lex_greater(b.0@, a.0@)),
        !lex_greater(a.0@, b.0@) && !lex_greater(b.0@, a.0@) ==> a == b,
        lex_greater(a.0@, b.0@) && lex_greater(b.0@, c.0@) ==> lex_greater(a.0@, c.0@),
{
    lemma_lex_irreflexive(a.0@);
    lemma_lex_antisym(a.0@, b.0@);
    if lex_greater(a.0@, b.0@) && lex_greater(b.0@, c.0@) {
        lemma_lex_trans(a.0@, b.0@, c.0@);
    }
    if a.0@ == b.0@ {
        broadcast use vstd::array::axiom_array_ext_equal;
        assert(a.0 =~= b.0);
    }
}

/// Byte `i` (little-endian) of a word.
pub open spec fn byte_of(x: u64, i: u64) -> u8 {
    ((x >> (8 * i)) & 0xff) as u8
}

/// The xorshift step that scrambles the first drawn word.
pub open spec fn xorshift(s: u64) -> u64 {
    let a = s ^ (s << 13u64);
    let b = a ^ (a >> 7u64);
    b ^ (b << 17u64)
}

/// Byte `k` of an identifier before its version and variant bits are set:
/// the low half takes byte `k` of both words, the high half byte
/// `(k - 4) % 8` of `s` and byte `(k - 6) % 8` of `n`.
pub open spec fn mixed_byte(s: u64, n: u64, k: int) -> u8 {
    if k < 8 {
        byte_of(s, k as u64) ^ byte_of(n, k as u64)
    } else {
        byte_of(s, ((k - 4) % 8) as u64) ^ byte_of(n, ((k - 6) % 8) as u64)
    }
}

/// The identifier made from the scrambled word `s` and the word `n`:
/// the mixed bytes, with the version nibble of byte 6 set to 4 and the two
/// variant bits of byte 8 set to `10`.
pub open spec fn id_bytes(s: u64, n: u64) -> Seq<u8> {
    Seq::new(
        16,
        |k: int|
            if k == 6 {
                mixed_byte(s, n, 6) & 0x0f | 0x40
            } else if k == 8 {
                mixed_byte(s, n, 8) & 0x3f | 0x80
            } else {
                mixed_byte(s, n, k)
            },
    )
}

fn byte_at(x: u64, i: u64) -> (r: u8)
    requires
        i < 8,
    ensures
        r == byte_of(x, i),
{
    ((x >> (8 * i)) & 0xff) as u8
}

proof fn lemma_id_layout(s: u64, n: u64)
    ensures
        is_v4_layout(id_bytes(s, n)),
        !all_zero(id_bytes(s, n)),
{
    let b = id_bytes(s, n);
    let x6 = mixed_byte(s, n, 6);
    let x8 = mixed_byte(s, n, 8);
    let b6 = x6 & 0x0f | 0x40;
    let b8 = x8 & 0x3f | 0x80;
    assert(b6 & 0xf0 == 0x40 && b6 != 0) by (bit_vector)
        requires
            b6 == x6 & 0x0f | 0x40,
    ;
    assert(b8 & 0xc0 == 0x80) by (bit_vector)
        requires
            b8 == x8 & 0x3f | 0x80,
    ;
    assert(b[6] == b6 && b[8] == b8);
}

/// For one scrambled word, different second words make different
/// identifiers: every byte of the second word reaches the identifier
/// unmasked.
pub proof fn law_ids_differ_by_noise(s: u64, n1: u64, n2: u64)
    requires
        n1 != n2,
    ensures
        id_bytes(s, n1) != id_bytes(s, n2),
{
    if id_bytes(s, n1) == id_bytes(s, n2) {
        let a = id_bytes(s, n1);
        let b = id_bytes(s, n2);
        assert(a[0] == b[0] && a[1] == b[1] && a[2] == b[2] && a[3] == b[3]);
        assert(a[4] == b[4] && a[5] == b[5] && a[7] == b[7] && a[12] == b[12]);
        assert(n1 == n2) by (bit_vector)
            requires
                ((s >> 0u64) & 0xff) as u8 ^ ((n1 >> 0u64) & 0xff) as u8 == ((s >> 0u64) & 0xff) as u8 ^ ((n2 >> 0u64) & 0xff) as u8,
                ((s >> 8u64) & 0xff) as u8 ^ ((n1 >> 8u64) & 0xff) as u8 == ((s >> 8u64) & 0xff) as u8 ^ ((n2 >> 8u64) & 0xff) as u8,
                ((s >> 16u64) & 0xff) as u8 ^ ((n1 >> 16u64) & 0xff) as u8 == ((s >> 16u64) & 0xff) as u8 ^ ((n2 >> 16u64) & 0xff) as u8,
                ((s >> 24u64) & 0xff) as u8 ^ ((n1 >> 24u64) & 0xff) as u8 == ((s >> 24u64) & 0xff) as u8 ^ ((n2 >> 24u64) & 0xff) as u8,
                ((s >> 32u64) & 0xff) as u8 ^ ((n1 >> 32u64) & 0xff) as u8 == ((s >> 32u64) & 0xff) as u8 ^ ((n2 >> 32u64) & 0xff) as u8,
                ((s >> 40u64) & 0xff) as u8 ^ ((n1 >> 40u64) & 0xff) as u8 == ((s >> 40u64) & 0xff) as u8 ^ ((n2 >> 40u64) & 0xff) as u8,
                ((s >> 0u64) & 0xff) as u8 ^ ((n1 >> 48u64) & 0xff) as u8 == ((s >> 0u64) & 0xff) as u8 ^ ((n2 >> 48u64) & 0xff) as u8,
                ((s >> 56u64) & 0xff) as u8 ^ ((n1 >> 56u64) & 0xff) as u8 == ((s >> 56u64) & 0xff) as u8 ^ ((n2 >> 56u64) & 0xff) as u8,
        ;
    }
}

impl NodeId {
    /// An identifier in UUID version-4 layout made from two drawn words
    /// (see `id_bytes`); the first is scrambled by `xorshift` first.
    pub fn id_from_draws(state: u64, noise: u64) -> (r: NodeId)
        ensures
            r.0@ == id_bytes(xorshift(state), noise),
            is_v4_layout(r.0@),
            !all_zero(r.0@),
    {
        let mut st = state;
        st = st ^ (st << 13u64);
        st = st ^ (st >> 7u64);
        st = st ^ (st << 17u64);
        assert(st == xorshift(state));
        let x6 = byte_at(st, 6) ^ byte_at(noise, 6);
        let x8 = byte_at(st, 4) ^ byte_at(noise, 2);
        let bytes: [u8; 16] = [
            byte_at(st, 0) ^ byte_at(noise, 0),
            byte_at(st, 1) ^ byte_at(noise, 1),
            byte_at(st, 2) ^ byte_at(noise, 2),
            byte_at(st, 3) ^ byte_at(noise, 3),
            byte_at(st, 4) ^ byte_at(noise, 4),
            byte_at(st, 5) ^ byte_at(noise, 5),
            x6 & 0x0f | 0x40,
            byte_at(st, 7) ^ byte_at(noise, 7),
            x8 & 0x3f | 0x80,
            byte_at(st, 5) ^ byte_at(noise, 3),
            byte_at(st, 6) ^ byte_at(noise, 4),
            byte_at(st, 7) ^ byte_at(noise, 5),
            byte_at(st, 0) ^ byte_at(noise, 6),
            byte_at(st, 1) ^ byte_at(noise, 7),
            byte_at(st, 2) ^ byte_at(noise, 0),
            byte_at(st, 3) ^ byte_at(noise, 1),
        ];
        proof {
            lemma_id_layout(st, noise);
            assert(bytes@ =~= id_bytes(st, noise));
        }
        NodeId(bytes)
    }

    /// A random identifier in UUID version-4 layout: two words drawn from
    /// freshly keyed hashing, made into an identifier by `id_from_draws`.
    pub fn new() -> (r: NodeId)
        ensures
            exists|state: u64, noise: u64| r.0@ == id_bytes(xorshift(state), noise),
            is_v4_layout(r.0@),
            !all_zero(r.0@),
    {
        let keys = fresh_hash_keys();
        let state = hash_with_keys(&keys, 0);
        let noise = hash_with_keys(&keys, 1);
        NodeId::id_from_draws(state, noise)
    }

    /// An identifier with the given bytes.
    pub fn from_bytes(bytes: [u8; 16]) -> (r: NodeId)
        ensures
            r.0 == bytes,
    {
        NodeId(bytes)
    }

    /// The bytes of the identifier.
    pub fn as_bytes(&self) -> (r: &[u8; 16])
        ensures
            *r == self.0,
    {
        &self.0
    }

    /// The canonical UUID text, e.g. `01234567-89ab-cdef-fedc-ba9876543210`.
    pub fn to_string(&self) -> (r: String)
        ensures
            r@ == uuid_text(self.0@, 16),
    {
        let mut s = String::new();
        let mut i: usize = 0;
        while i < 16
            invariant
                i <= 16,
                s@ == uuid_text(self.0@, i as nat),
            decreases 16 - i,
        {
            if i == 4 || i == 6 || i == 8 || i == 10 {
                push_char(&mut s, '-');
            }
            push_hex_byte(&mut s, self.0[i]);
            i += 1;
            assert(s@ =~= uuid_text(self.0@, i as nat));
        }
        s
    }

    /// Whether this is the local node: all bytes zero.
    pub fn is_local(&self) -> (r: bool)
        ensures
            r == all_zero(self.0@),
    {
        let mut i: usize = 0;
        while i < 16
            invariant
                i <= 16,
                forall|j: int| 0 <= j < i ==> self.0@[j] == 0,
            decreases 16 - i,
        {
            if self.0[i] != 0 {
                return false;
            }
            i += 1;
        }
        true
    }

    /// The local node identifier (all zero).
    pub fn local() -> (r: NodeId)
        ensures
            all_zero(r.0@),
    {
        NodeId([0u8; 16])
    }

    /// Whether two identifiers are the same.
    pub fn same_as(&self, other: &NodeId) -> (r: bool)
        ensures
            r == (*self == *other),
    {
        let mut i: usize = 0;
        while i < 16
            invariant
                i <= 16,
                forall|j: int| 0 <= j < i ==> self.0@[j] == other.0@[j],
            decreases 16 - i,
        {
            if self.0[i] != other.0[i] {
                return false;
            }
            i += 1;
        }
        proof {
            broadcast use vstd::array::axiom_array_ext_equal;

            assert(self.0 =~= other.0);
        }
        true
    }

    /// Whether this identifier is lexicographically greater than `other`.
    pub fn greater_than(&self, other: &NodeId) -> (r: bool)
        ensures
            r == lex_greater(self.0@, other.0@),
    {
        let a = self.0;
        let b = other.0;
        let mut i: usize = 0;
        proof {
            broadcast use vstd::array::array_len_matches_n;

            assert(self.0@.subrange(0, 16) =~= self.0@);
            assert(other.0@.subrange(0, 16) =~= other.0@);
        }
        while i < 16
            invariant
                i <= 16,
                a@.len() == 16,
                b@.len() == 16,
                a == self.0,
                b == other.0,
                lex_greater(self.0@, other.0@) == lex_greater(
                    self.0@.subrange(i as int, 16),
                    other.0@.subrange(i as int, 16),
                ),
            decreases 16 - i,
        {
            let x = a[i];
            let y = b[i];
            assert(self.0@.subrange(i as int, 16)[0] == x);
            assert(other.0@.subrange(i as int, 16)[0] == y);
            if x != y {
                return x > y;
            }
            assert(self.0@.subrange(i as int, 16).drop_first() =~= self.0@.subrange(
                i + 1,
                16,
            ));
            assert(other.0@.subrange(i as int, 16).drop_first() =~= other.0@.subrange(
                i + 1,
                16,
            ));
            i += 1;
        }
        false
    }
}

impl Default for NodeId {
    fn default() -> (r: NodeId)
        ensures
            is_v4_layout(r.0@),
    {
        NodeId::new()
    }
}

/// Connection state of a node.
#[derive(Debug, Clone, Copy, PartialEq, Eq, Structural)]
pub enum NodeState {
    Disconnected,
    Connecting,
    Connected,
    Syncing,
    Draining,
    Offline,
}

/// The numeric code of a node state.
pub open spec fn node_state_code(s: NodeState) -> u8 {
    match s {
        NodeState::Disconnected => 0,
        NodeState::Connecting => 1,
        NodeState::Connected => 2,
        NodeState::Syncing => 3,
        NodeState::Draining => 4,
        NodeState::Offline => 5,
    }
}

impl NodeState {
    /// Connected or syncing.
    pub fn is_active(&self) -> (r: bool)
        ensures
            r == (*self == NodeState::Connected || *self == NodeState::Syncing),
    {
        match self {
            NodeState::Connected | NodeState::Syncing => true,
            _ => false,
        }
    }

    /// The state with the given code; `None` for codes above 5.
    pub fn from_u8(value: u8) -> (r: Option<NodeState>)
        ensures
            value <= 5 ==> r.is_some() && node_state_code(r.unwrap()) == value,
            value > 5 ==> r.is_none(),
    {
        match value {
            0 => Some(NodeState::Disconnected),
            1 => Some(NodeState::Connecting),
            2 => Some(NodeState::Connected),
            3 => Some(NodeState::Syncing),
            4 => Some(NodeState::Draining),
            5 => Some(NodeState::Offline),
            _ => None,
        }
    }

    /// The numeric code of the state.
    pub fn as_u8(&self) -> (r: u8)
        ensures
            r == node_state_code(*self),
    {
        match self {
            NodeState::Disconnected => 0,
            NodeState::Connecting => 1,
            NodeState::Connected => 2,
            NodeState::Syncing => 3,
            NodeState::Draining => 4,
            NodeState::Offline => 5,
        }
    }

    /// The human-readable name of the state.
    pub fn display_text(&self) -> (r: String)
        ensures
            r@ == node_state_text(*self)@,
    {
        match self {
            NodeState::Disconnected => String::from_str("已断开"),
            NodeState::Connecting => String::from_str("连接中"),
            NodeState::Connected => String::from_str("已连接"),
            NodeState::Syncing => String::from_str("同步中"),
            NodeState::Draining => String::from_str("排空中"),
            NodeState::Offline => String::from_str("离线"),
        }
    }
}

/// The human-readable name of a node state.
pub open spec fn node_state_text(s: NodeState) -> &'static str {
    match s {
        NodeState::Disconnected => "已断开",
        NodeState::Connecting => "连接中",
        NodeState::Connected => "已连接",
        NodeState::Syncing => "同步中",
        NodeState::Draining => "排空中",
        NodeState::Offline => "离线",
    }
}

/// Information the cluster keeps about one node.
#[derive(Debug, Clone)]
pub struct NodeInfo {
    pub id: NodeId,
    pub address: String,
    pub port: u16,
    pub state: NodeState,
    pub agent_count: u32,
    pub capabilities: Vec<String>,
    pub last_heartbeat: u64,
    pub joined_at: u64,
    /// Custom key/value metadata; each key occurs once.
    pub metadata: Vec<(String, String)>,
}

/// The metadata entries, read by the characters of keys and values.
pub open spec fn text_pairs(s: Seq<(String, String)>) -> Seq<(Seq<char>, Seq<char>)> {
    s.map_values(|p: (String, String)| (p.0@, p.1@))
}

impl NodeInfo {
    /// The metadata as a map from key text to value text.
    pub open spec fn metadata_map(&self) -> Map<Seq<char>, Seq<char>> {
        seq_to_map(text_pairs(self.metadata@))
    }

    /// The node's capabilities as texts.
    pub open spec fn capability_texts(&self) -> Seq<Seq<char>> {
        self.capabilities@.map_values(|c: String| c@)
    }

    /// Metadata keys are distinct.
    pub open spec fn wf(&self) -> bool {
        keys_distinct(text_pairs(self.metadata@))
    }

    /// A disconnected node with nothing recorded yet.
    pub fn new(id: NodeId, address: String, port: u16) -> (r: NodeInfo)
        ensures
            r.wf(),
            r.id == id,
            r.address == address,
            r.port == port,
            r.state == NodeState::Disconnected,
            r.agent_count == 0,
            r.capabilities@.len() == 0,
            r.last_heartbeat == 0,
            r.joined_at == 0,
            r.metadata@.len() == 0,
    {
        NodeInfo {
            id,
            address,
            port,
            state: NodeState::Disconnected,
            agent_count: 0,
            capabilities: Vec::new(),
            last_heartbeat: 0,
            joined_at: 0,
            metadata: Vec::new(),
        }
    }

    /// A connected node that joined and last reported at `current_time`.
    pub fn new_connected(id: NodeId, address: String, port: u16, current_time: u64) -> (r:
        NodeInfo)
        ensures
            r.wf(),
            r.id == id,
            r.address == address,
            r.port == port,
            r.state == NodeState::Connected,
            r.agent_count == 0,
            r.capabilities@.len() == 0,
            r.last_heartbeat == current_time,
            r.joined_at == current_time,
            r.metadata@.len() == 0,
    {
        NodeInfo {
            id,
            address,
            port,
            state: NodeState::Connected,
            agent_count: 0,
            capabilities: Vec::new(),
            last_heartbeat: current_time,
            joined_at: current_time,
            metadata: Vec::new(),
        }
    }

    /// Sets the connection state.
    pub fn set_state(&mut self, state: NodeState)
        ensures
            *final(self) == (NodeInfo { state, ..*old(self) }),
    {
        self.state = state;
    }

    /// Adds a capability unless it is already listed.
    pub fn add_capability(&mut self, capability: String)
        ensures
            old(self).capability_texts().contains(capability@) ==> final(self).capabilities@
                == old(self).capabilities@,
            !old(self).capability_texts().contains(capability@) ==> final(self).capabilities@
                == old(self).capabilities@.push(capability),
            final(self).id == old(self).id,
            final(self).state == old(self).state,
            final(self).metadata == old(self).metadata,
            final(self).last_heartbeat == old(self).last_heartbeat,
    {
        let mut i: usize = 0;
        while i < self.capabilities.len()
            invariant
                i <= self.capabilities@.len(),
                forall|j: int| 0 <= j < i ==> self.capabilities@[j]@ != capability@,
            decreases self.capabilities@.len() - i,
        {
            if self.capabilities[i] == capability {
                assert(self.capability_texts()[i as int] == capability@);
                return;
            }
            i += 1;
        }
        assert(!self.capability_texts().contains(capability@)) by {
            if self.capability_texts().contains(capability@) {
                let j = choose|j: int|
                    0 <= j < self.capability_texts().len() && self.capability_texts()[j]
                        == capability@;
                assert(self.capabilities@[j]@ == capability@);
            }
        }
        self.capabilities.push(capability);
    }

    /// Sets a metadata entry, replacing an earlier value for the same key.
    pub fn set_metadata(&mut self, key: String, value: String)
        requires
            old(self).wf(),
        ensures
            final(self).wf(),
            final(self).metadata_map() == old(self).metadata_map().insert(key@, value@),
            final(self).id == old(self).id,
            final(self).state == old(self).state,
            final(self).capabilities == old(self).capabilities,
    {
        let ghost old_pairs = text_pairs(self.metadata@);
        let mut i: usize = 0;
        while i < self.metadata.len()
            invariant
                i <= self.metadata@.len(),
                *self == *old(self),
                old_pairs == text_pairs(self.metadata@),
                keys_distinct(old_pairs),
                forall|j: int| 0 <= j < i ==> #[trigger] self.metadata@[j].0@ != key@,
            decreases self.metadata@.len() - i,
        {
            if self.metadata[i].0 == key {
                let ghost pairs = text_pairs(self.metadata@);
                proof {
                    lemma_update(pairs, i as int, value@);
                }
                let k = self.metadata[i].0.clone();
                self.metadata.set(i, (k, value));
                assert(text_pairs(self.metadata@) =~= pairs.update(i as int, (key@, value@)));
                return;
            }
            i += 1;
        }
        proof {
            assert forall|j: int| 0 <= j < old_pairs.len() implies #[trigger] old_pairs[j].0
                != key@ by {
                assert(old_pairs[j].0 == self.metadata@[j].0@);
            }
            lemma_absent(old_pairs, key@);
            lemma_push(old_pairs, key@, value@);
        }
        self.metadata.push((key, value));
        assert(text_pairs(self.metadata@) =~= old_pairs.push((key@, value@)));
    }

    /// The value recorded for a metadata key.
    pub fn get_metadata(&self, key: &str) -> (r: Option<&String>)
        requires
            self.wf(),
        ensures
            self.metadata_map().dom().contains(key@) ==> r.is_some() && r.unwrap()@
                == self.metadata_map()[key@],
            !self.metadata_map().dom().contains(key@) ==> r.is_none(),
    {
        let ghost pairs = text_pairs(self.metadata@);
        let mut i: usize = 0;
        while i < self.metadata.len()
            invariant
                i <= self.metadata@.len(),
                pairs == text_pairs(self.metadata@),
                keys_distinct(pairs),
                forall|j: int| 0 <= j < i ==> #[trigger] pairs[j].0 != key@,
            decreases self.metadata@.len() - i,
        {
            if str_equal(self.metadata[i].0.as_str(), key) {
                proof {
                    lemma_entry(pairs, i as int);
                }
                return Some(&self.metadata[i].1);
            }
            i += 1;
        }
        proof {
            lemma_absent(pairs, key@);
        }
        None
    }
}

} // verus!
