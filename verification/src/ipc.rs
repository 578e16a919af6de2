//! Inter-process messages: the fixed header, its flags and priorities, and
//! the ids and errors of channels and ports.
use vstd::prelude::*;

verus! {

/// The size of a message header in bytes.
pub const MESSAGE_HEADER_SIZE: usize = 64;

/// The kind of a message.
#[derive(Debug, Clone, Copy, PartialEq, Eq, Structural)]
pub enum MessageType {
    Invalid,
    Request,
    Response,
    Notification,
    Error,
    StreamBegin,
    StreamData,
    StreamEnd,
}

/// A set of message flag bits.
#[derive(Debug, Clone, Copy)]
pub struct MessageFlags(u32);

impl MessageFlags {
    pub const NONE: u32 = 0;
    pub const URGENT: u32 = 1;
    pub const NO_REPLY: u32 = 2;
    pub const BROADCAST: u32 = 4;
    pub const ZERO_COPY: u32 = 8;
    pub const ENCRYPTED: u32 = 16;

    /// The bits of the set.
    pub closed spec fn value(&self) -> u32 {
        self.0
    }

    /// No flags.
    pub fn new() -> (r: MessageFlags)
        ensures
            r.value() == 0,
    {
        MessageFlags(0)
    }

    pub fn bits(&self) -> (r: u32)
        ensures
            r == self.value(),
    {
        self.0
    }

    /// Whether any bit of `flag` is set.
    pub fn contains(&self, flag: u32) -> (r: bool)
        ensures
            r == (self.value() & flag != 0),
    {
        (self.0 & flag) != 0
    }

    /// Sets the bits of `flag`.
    pub fn set(&mut self, flag: u32)
        ensures
            final(self).value() == old(self).value() | flag,
    {
        self.0 = self.0 | flag;
    }

    /// Clears the bits of `flag`.
    pub fn clear(&mut self, flag: u32)
        ensures
            final(self).value() == old(self).value() & !flag,
    {
        self.0 = self.0 & !flag;
    }
}

/// Setting a flag makes it present, and clearing it makes it absent again.
pub proof fn law_set_then_clear(bits: u32, flag: u32)
    requires
        flag != 0,
    ensures
        (bits | flag) & flag != 0,
        ((bits | flag) & !flag) & flag == 0,
        bits & flag == 0 ==> (bits | flag) & !flag == bits,
{
    assert((bits | flag) & flag != 0) by (bit_vector)
        requires
            flag != 0,
    ;
    assert(((bits | flag) & !flag) & flag == 0) by (bit_vector);
    assert(bits & flag == 0 ==> (bits | flag) & !flag == bits) by (bit_vector);
}

/// How urgent a message is, from least to most.
#[derive(Debug, Clone, Copy, PartialEq, Eq, Structural, PartialOrd, Ord)]
pub enum MessagePriority {
    Low,
    Normal,
    High,
    Urgent,
}

/// The fixed header of a message.
#[derive(Clone, Copy)]
pub struct MessageHeader {
    pub msg_type: MessageType,
    pub flags: MessageFlags,
    pub priority: MessagePriority,
    pub src_port: u32,
    pub dst_port: u32,
    pub msg_id: u64,
    pub reply_to: u64,
    pub payload_size: u32,
    pub payload_offset: u64,
    pub timestamp: u64,
    pub reserved: [u8; 0],
}

/// A header of the given kind between two ports, of normal priority, with
/// no flags and every other field zero.
pub open spec fn plain_header(h: MessageHeader, t: MessageType, src: u32, dst: u32, reply_to: u64) -> bool {
    &&& h.msg_type == t
    &&& h.flags.value() == 0
    &&& h.priority == MessagePriority::Normal
    &&& h.src_port == src
    &&& h.dst_port == dst
    &&& h.msg_id == 0
    &&& h.reply_to == reply_to
    &&& h.payload_size == 0
    &&& h.payload_offset == 0
    &&& h.timestamp == 0
}

impl Default for MessageHeader {
    fn default() -> (r: MessageHeader)
        ensures
            plain_header(r, MessageType::Invalid, 0, 0, 0),
    {
        MessageHeader {
            msg_type: MessageType::Invalid,
            flags: MessageFlags::new(),
            priority: MessagePriority::Normal,
            src_port: 0,
            dst_port: 0,
            msg_id: 0,
            reply_to: 0,
            payload_size: 0,
            payload_offset: 0,
            timestamp: 0,
            reserved: [],
        }
    }
}

impl MessageHeader {
    pub fn new() -> (r: MessageHeader)
        ensures
            plain_header(r, MessageType::Invalid, 0, 0, 0),
    {
        MessageHeader::default()
    }

    pub fn request(src: u32, dst: u32) -> (r: MessageHeader)
        ensures
            plain_header(r, MessageType::Request, src, dst, 0),
    {
        MessageHeader { msg_type: MessageType::Request, src_port: src, dst_port: dst, ..MessageHeader::default() }
    }

    pub fn response(src: u32, dst: u32, reply_to: u64) -> (r: MessageHeader)
        ensures
            plain_header(r, MessageType::Response, src, dst, reply_to),
    {
        MessageHeader {
            msg_type: MessageType::Response,
            src_port: src,
            dst_port: dst,
            reply_to,
            ..MessageHeader::default()
        }
    }

    pub fn notification(src: u32, dst: u32) -> (r: MessageHeader)
        ensures
            plain_header(r, MessageType::Notification, src, dst, 0),
    {
        MessageHeader { msg_type: MessageType::Notification, src_port: src, dst_port: dst, ..MessageHeader::default() }
    }

    pub fn set_payload_size(&mut self, size: u32)
        ensures
            *final(self) == (MessageHeader { payload_size: size, ..*old(self) }),
    {
        self.payload_size = size;
    }

    pub fn set_msg_id(&mut self, id: u64)
        ensures
            *final(self) == (MessageHeader { msg_id: id, ..*old(self) }),
    {
        self.msg_id = id;
    }

    /// Sets the urgent flag and raises the priority to urgent.
    pub fn set_urgent(&mut self)
        ensures
            final(self).flags.value() == old(self).flags.value() | MessageFlags::URGENT,
            *final(self) == (MessageHeader {
                flags: final(self).flags,
                priority: MessagePriority::Urgent,
                ..*old(self)
            }),
    {
        self.flags.set(MessageFlags::URGENT);
        self.priority = MessagePriority::Urgent;
    }
}

/// The id of a channel; zero is no channel.
#[derive(Debug, Clone, Copy, PartialEq, Eq, Structural, Hash)]
pub struct ChannelId(pub u64);

impl ChannelId {
    #[allow(non_snake_case)]
    pub fn INVALID() -> (r: ChannelId)
        ensures
            r.0 == 0,
    {
        ChannelId(0)
    }

    pub fn new() -> (r: ChannelId)
        ensures
            r.0 == 0,
    {
        ChannelId(0)
    }

    pub fn is_valid(&self) -> (r: bool)
        ensures
            r == (self.0 != 0),
    {
        self.0 != 0
    }
}

/// The id of a port; zero is no port.
#[derive(Debug, Clone, Copy, PartialEq, Eq, Structural, Hash)]
pub struct PortId(pub u32);

impl PortId {
    #[allow(non_snake_case)]
    pub fn INVALID() -> (r: PortId)
        ensures
            r.0 == 0,
    {
        PortId(0)
    }

    pub fn new() -> (r: PortId)
        ensures
            r.0 == 0,
    {
        PortId(0)
    }

    pub fn is_valid(&self) -> (r: bool)
        ensures
            r == (self.0 != 0),
    {
        self.0 != 0
    }
}

/// An error of message passing.
#[derive(Debug, Clone, Copy, PartialEq, Eq, Structural)]
pub enum IpcError {
    ChannelNotFound,
    ChannelClosed,
    ChannelFull,
    PermissionDenied,
    InvalidMessage,
    Timeout,
    PortNotFound,
    PortAlreadyBound,
    BufferTooSmall,
    SerializationFailed,
    DeserializationFailed,
    Backpressure,
    InvalidPort,
    ResourceExhausted,
    NotSupported,
}

/// The text of an error.
pub open spec fn ipc_error_text(e: IpcError) -> Seq<char> {
    match e {
        IpcError::ChannelNotFound => "channel not found"@,
        IpcError::ChannelClosed => "channel closed"@,
        IpcError::ChannelFull => "channel full"@,
        IpcError::PermissionDenied => "permission denied"@,
        IpcError::InvalidMessage => "invalid message"@,
        IpcError::Timeout => "operation timed out"@,
        IpcError::PortNotFound => "port not found"@,
        IpcError::PortAlreadyBound => "port already bound"@,
        IpcError::BufferTooSmall => "buffer too small"@,
        IpcError::SerializationFailed => "serialization failed"@,
        IpcError::DeserializationFailed => "deserialization failed"@,
        IpcError::Backpressure => "backpressure active"@,
        IpcError::InvalidPort => "invalid port"@,
        IpcError::ResourceExhausted => "resource exhausted"@,
        IpcError::NotSupported => "operation not supported"@,
    }
}

impl IpcError {
    /// The text of the error.
    pub fn message(&self) -> (r: &'static str)
        ensures
            r@ == ipc_error_text(*self),
    {
        match self {
            IpcError::ChannelNotFound => "channel not found",
            IpcError::ChannelClosed => "channel closed",
            IpcError::ChannelFull => "channel full",
            IpcError::PermissionDenied => "permission denied",
            IpcError::InvalidMessage => "invalid message",
            IpcError::Timeout => "operation timed out",
            IpcError::PortNotFound => "port not found",
            IpcError::PortAlreadyBound => "port already bound",
            IpcError::BufferTooSmall => "buffer too small",
            IpcError::SerializationFailed => "serialization failed",
            IpcError::DeserializationFailed => "deserialization failed",
            IpcError::Backpressure => "backpressure active",
            IpcError::InvalidPort => "invalid port",
            IpcError::ResourceExhausted => "resource exhausted",
            IpcError::NotSupported => "operation not supported",
        }
    }
}

} // verus!
