//! Messages between nodes and the local message bus.
use vstd::prelude::*;
use crate::distributed::crdt::VectorClock;
use crate::distributed::node::NodeId;

verus! {

/// Kind of a distributed message.
#[derive(Debug, Clone, Copy, PartialEq, Eq, Structural)]
pub enum DistributedMessageType {
    Heartbeat,
    AgentSpawn,
    AgentKill,
    AgentMessage,
    StateSync,
    ClusterJoin,
    ClusterLeave,
    CrdtUpdate,
    RpcRequest,
    RpcResponse,
}

/// The numeric code of a message kind.
pub open spec fn message_type_code(t: DistributedMessageType) -> u8 {
    match t {
        DistributedMessageType::Heartbeat => 0,
        DistributedMessageType::AgentSpawn => 1,
        DistributedMessageType::AgentKill => 2,
        DistributedMessageType::AgentMessage => 3,
        DistributedMessageType::StateSync => 4,
        DistributedMessageType::ClusterJoin => 5,
        DistributedMessageType::ClusterLeave => 6,
        DistributedMessageType::CrdtUpdate => 7,
        DistributedMessageType::RpcRequest => 8,
        DistributedMessageType::RpcResponse => 9,
    }
}

impl DistributedMessageType {
    /// The kind with the given code; `None` for codes above 9.
    pub fn from_u8(value: u8) -> (r: Option<DistributedMessageType>)
        ensures
            value <= 9 ==> r.is_some() && message_type_code(r.unwrap()) == value,
            value > 9 ==> r.is_none(),
    {
        match value {
            0 => Some(DistributedMessageType::Heartbeat),
            1 => Some(DistributedMessageType::AgentSpawn),
            2 => Some(DistributedMessageType::AgentKill),
            3 => Some(DistributedMessageType::AgentMessage),
            4 => Some(DistributedMessageType::StateSync),
            5 => Some(DistributedMessageType::ClusterJoin),
            6 => Some(DistributedMessageType::ClusterLeave),
            7 => Some(DistributedMessageType::CrdtUpdate),
            8 => Some(DistributedMessageType::RpcRequest),
            9 => Some(DistributedMessageType::RpcResponse),
            _ => None,
        }
    }

    /// The numeric code of the kind.
    pub fn as_u8(&self) -> (r: u8)
        ensures
            r == message_type_code(*self),
    {
        match self {
            DistributedMessageType::Heartbeat => 0,
            DistributedMessageType::AgentSpawn => 1,
            DistributedMessageType::AgentKill => 2,
            DistributedMessageType::AgentMessage => 3,
            DistributedMessageType::StateSync => 4,
            DistributedMessageType::ClusterJoin => 5,
            DistributedMessageType::ClusterLeave => 6,
            DistributedMessageType::CrdtUpdate => 7,
            DistributedMessageType::RpcRequest => 8,
            DistributedMessageType::RpcResponse => 9,
        }
    }
}

/// Decoding a code recovers the kind that encoding gave it.
pub proof fn law_message_type_roundtrip(t: DistributedMessageType)
    ensures
        message_type_code(t) <= 9,
        forall|u: DistributedMessageType| message_type_code(u) == message_type_code(t) ==> u == t,
{
}

/// A message between nodes.
#[derive(Debug, Clone)]
pub struct DistributedMessage {
    pub id: u64,
    pub msg_type: DistributedMessageType,
    pub src: NodeId,
    /// Destination; `None` for a broadcast.
    pub dst: Option<NodeId>,
    pub payload: Vec<u8>,
    pub timestamp: u64,
    pub vector_clock: VectorClock,
}

impl DistributedMessage {
    /// A message with an empty vector clock.
    pub fn new(
        id: u64,
        msg_type: DistributedMessageType,
        src: NodeId,
        dst: Option<NodeId>,
        payload: Vec<u8>,
        timestamp: u64,
    ) -> (r: DistributedMessage)
        ensures
            r.id == id,
            r.msg_type == msg_type,
            r.src == src,
            r.dst == dst,
            r.payload == payload,
            r.timestamp == timestamp,
            r.vector_clock.wf(),
            r.vector_clock@ == Map::<NodeId, u64>::empty(),
    {
        DistributedMessage {
            id,
            msg_type,
            src,
            dst,
            payload,
            timestamp,
            vector_clock: VectorClock::new(),
        }
    }

    /// A message carrying the given vector clock.
    pub fn with_clock(
        id: u64,
        msg_type: DistributedMessageType,
        src: NodeId,
        dst: Option<NodeId>,
        payload: Vec<u8>,
        timestamp: u64,
        clock: VectorClock,
    ) -> (r: DistributedMessage)
        ensures
            r.id == id,
            r.msg_type == msg_type,
            r.src == src,
            r.dst == dst,
            r.payload == payload,
            r.timestamp == timestamp,
            r.vector_clock == clock,
    {
        DistributedMessage { id, msg_type, src, dst, payload, timestamp, vector_clock: clock }
    }

    /// Whether the message goes to every node.
    pub fn is_broadcast(&self) -> (r: bool)
        ensures
            r == self.dst.is_none(),
    {
        self.dst.is_none()
    }

    /// Whether the message goes to one node.
    pub fn is_unicast(&self) -> (r: bool)
        ensures
            r == self.dst.is_some(),
    {
        self.dst.is_some()
    }

    /// Payload size in bytes.
    pub fn payload_size(&self) -> (r: usize)
        ensures
            r == self.payload@.len(),
    {
        self.payload.len()
    }
}

/// Local message queues: incoming messages wait in a first-in first-out
/// queue, outgoing ones until they are drained.
pub struct MessageBus {
    local_queue: Vec<DistributedMessage>,
    outgoing: Vec<DistributedMessage>,
    message_counter: u64,
}

impl MessageBus {
    /// Messages waiting to be received, oldest first.
    pub closed spec fn incoming(&self) -> Seq<DistributedMessage> {
        self.local_queue@
    }

    /// Messages waiting to be sent, oldest first.
    pub closed spec fn pending(&self) -> Seq<DistributedMessage> {
        self.outgoing@
    }

    /// Number of identifiers handed out so far.
    pub closed spec fn counter(&self) -> u64 {
        self.message_counter
    }

    /// An empty bus.
    pub fn new() -> (r: MessageBus)
        ensures
            r.incoming().len() == 0,
            r.pending().len() == 0,
            r.counter() == 0,
    {
        MessageBus { local_queue: Vec::new(), outgoing: Vec::new(), message_counter: 0 }
    }

    fn next_id(&mut self) -> (r: u64)
        requires
            old(self).message_counter < u64::MAX,
        ensures
            r == old(self).message_counter + 1,
            final(self).message_counter == r,
            final(self).local_queue == old(self).local_queue,
            final(self).outgoing == old(self).outgoing,
    {
        self.message_counter = self.message_counter + 1;
        self.message_counter
    }

    /// Queues a message for sending; a message with identifier zero gets the
    /// next identifier of the bus.
    pub fn send(&mut self, msg: DistributedMessage)
        requires
            msg.id == 0 ==> old(self).counter() < u64::MAX,
        ensures
            final(self).incoming() == old(self).incoming(),
            msg.id != 0 ==> final(self).pending() == old(self).pending().push(msg)
                && final(self).counter() == old(self).counter(),
            msg.id == 0 ==> final(self).counter() == old(self).counter() + 1
                && final(self).pending() == old(self).pending().push(
                DistributedMessage { id: final(self).counter(), ..msg },
            ),
    {
        let mut msg = msg;
        if msg.id == 0 {
            msg.id = self.next_id();
        }
        self.outgoing.push(msg);
    }

    /// Queues a broadcast with the next identifier, time zero and a copy of
    /// the clock.
    pub fn broadcast(
        &mut self,
        msg_type: DistributedMessageType,
        payload: Vec<u8>,
        src: &NodeId,
        clock: &VectorClock,
    )
        requires
            old(self).counter() < u64::MAX,
            clock.wf(),
        ensures
            final(self).incoming() == old(self).incoming(),
            final(self).counter() == old(self).counter() + 1,
            final(self).pending().len() == old(self).pending().len() + 1,
            final(self).pending().take(old(self).pending().len() as int) == old(self).pending(),
            ({
                let m = final(self).pending().last();
                &&& m.id == final(self).counter()
                &&& m.msg_type == msg_type
                &&& m.src == *src
                &&& m.dst.is_none()
                &&& m.payload == payload
                &&& m.timestamp == 0
                &&& m.vector_clock.wf()
                &&& m.vector_clock@ == clock@
            }),
    {
        let id = self.next_id();
        let msg = DistributedMessage::with_clock(
            id,
            msg_type,
            *src,
            None,
            payload,
            0,
            clock.duplicate(),
        );
        self.outgoing.push(msg);
        assert(self.outgoing@.take(old(self).outgoing@.len() as int) =~= old(self).outgoing@);
    }

    /// Takes the oldest incoming message.
    pub fn receive(&mut self) -> (r: Option<DistributedMessage>)
        ensures
            old(self).incoming().len() == 0 ==> r.is_none() && final(self).incoming() == old(
                self,
            ).incoming(),
            old(self).incoming().len() > 0 ==> r == Some(old(self).incoming()[0])
                && final(self).incoming() == old(self).incoming().drop_first(),
            final(self).pending() == old(self).pending(),
            final(self).counter() == old(self).counter(),
    {
        if self.local_queue.len() == 0 {
            None
        } else {
            let m = self.local_queue.remove(0);
            assert(self.local_queue@ =~= old(self).local_queue@.drop_first());
            Some(m)
        }
    }

    /// Takes all pending outgoing messages, leaving none.
    pub fn drain_outgoing(&mut self) -> (r: Vec<DistributedMessage>)
        ensures
            r@ == old(self).pending(),
            final(self).pending().len() == 0,
            final(self).incoming() == old(self).incoming(),
            final(self).counter() == old(self).counter(),
    {
        let mut out: Vec<DistributedMessage> = Vec::new();
        std::mem::swap(&mut out, &mut self.outgoing);
        out
    }

    /// Appends received messages to the incoming queue, in order.
    pub fn handle_incoming(&mut self, messages: Vec<DistributedMessage>)
        ensures
            final(self).incoming() == old(self).incoming() + messages@,
            final(self).pending() == old(self).pending(),
            final(self).counter() == old(self).counter(),
    {
        let mut messages = messages;
        self.local_queue.append(&mut messages);
    }

    /// Number of messages waiting to be received.
    pub fn queue_size(&self) -> (r: usize)
        ensures
            r == self.incoming().len(),
    {
        self.local_queue.len()
    }

    /// Number of messages waiting to be sent.
    pub fn outgoing_size(&self) -> (r: usize)
        ensures
            r == self.pending().len(),
    {
        self.outgoing.len()
    }

    /// Number of identifiers handed out.
    pub fn message_count(&self) -> (r: u64)
        ensures
            r == self.counter(),
    {
        self.message_counter
    }
}

impl Default for MessageBus {
    fn default() -> (r: MessageBus)
        ensures
            r.incoming().len() == 0,
            r.pending().len() == 0,
            r.counter() == 0,
    {
        MessageBus::new()
    }
}

/// The incoming queue is first in, first out: after messages arrive on an
/// empty queue, receiving yields the first of them.
pub proof fn law_bus_fifo(before: Seq<DistributedMessage>, arrived: Seq<DistributedMessage>)
    requires
        before.len() == 0,
        arrived.len() > 0,
    ensures
        (before + arrived)[0] == arrived[0],
        (before + arrived).drop_first() == arrived.drop_first(),
{
    assert((before + arrived) =~= arrived);
}

} // verus!
