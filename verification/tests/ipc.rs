use lib::ipc::{MessageType, MessageFlags, MessagePriority, MessageHeader, ChannelId, PortId, IpcError};


#[test]
fn test_message_header_default() {
    let hdr = MessageHeader::default();
    assert_eq!(hdr.msg_type, MessageType::Invalid);
    assert_eq!(hdr.payload_size, 0);
}

#[test]
fn test_message_header_request() {
    let hdr = MessageHeader::request(1, 2);
    assert_eq!(hdr.msg_type, MessageType::Request);
    assert_eq!(hdr.src_port, 1);
    assert_eq!(hdr.dst_port, 2);
}

#[test]
fn test_message_header_response() {
    let hdr = MessageHeader::response(2, 1, 42);
    assert_eq!(hdr.msg_type, MessageType::Response);
    assert_eq!(hdr.reply_to, 42);
}

#[test]
fn test_message_flags() {
    let mut flags = MessageFlags::new();
    assert!(!flags.contains(MessageFlags::URGENT));
    flags.set(MessageFlags::URGENT);
    assert!(flags.contains(MessageFlags::URGENT));
    flags.clear(MessageFlags::URGENT);
    assert!(!flags.contains(MessageFlags::URGENT));
}

#[test]
fn test_message_priority_ordering() {
    assert!(MessagePriority::Urgent > MessagePriority::High);
    assert!(MessagePriority::High > MessagePriority::Normal);
    assert!(MessagePriority::Normal > MessagePriority::Low);
}

#[test]
fn test_channel_id() {
    let id = ChannelId::INVALID();
    assert!(!id.is_valid());
    let id = ChannelId(42);
    assert!(id.is_valid());
}

#[test]
fn test_port_id() {
    let id = PortId::INVALID();
    assert!(!id.is_valid());
    let id = PortId(100);
    assert!(id.is_valid());
}

#[test]
fn test_ipc_error_display() {
    let err = IpcError::ChannelNotFound;
    assert!(!err.message().is_empty());
}

#[test]
fn test_message_type_values() {
    assert_eq!(MessageType::Request as u8, 1);
    assert_eq!(MessageType::Response as u8, 2);
    assert_eq!(MessageType::Notification as u8, 3);
}

#[test]
fn test_message_header_set_urgent() {
    let mut hdr = MessageHeader::request(1, 2);
    hdr.set_urgent();
    assert!(hdr.flags.contains(MessageFlags::URGENT));
    assert_eq!(hdr.priority, MessagePriority::Urgent);
}

#[test]
fn test_message_header_set_payload() {
    let mut hdr = MessageHeader::request(1, 2);
    hdr.set_payload_size(1024);
    assert_eq!(hdr.payload_size, 1024);
}

#[test]
fn test_message_header_builders_and_setters() {
    let hdr = MessageHeader::notification(5, 6);
    assert_eq!(hdr.msg_type, MessageType::Notification);
    assert_eq!(hdr.priority, MessagePriority::Normal);
    assert_eq!(hdr.flags.bits(), MessageFlags::NONE);
    let mut hdr = MessageHeader::new();
    hdr.set_msg_id(77);
    assert_eq!(hdr.msg_id, 77);
    let mut flags = MessageFlags::new();
    flags.set(MessageFlags::URGENT | MessageFlags::ENCRYPTED);
    flags.clear(MessageFlags::URGENT);
    assert_eq!(flags.bits(), MessageFlags::ENCRYPTED);
    assert!(!flags.contains(MessageFlags::URGENT));
    assert!(flags.contains(MessageFlags::ENCRYPTED | MessageFlags::URGENT));
}

#[test]
fn test_ipc_error_texts() {
    assert_eq!(IpcError::Timeout.message(), "operation timed out");
    assert_eq!(IpcError::Backpressure.message(), "backpressure active");
    assert_eq!(IpcError::NotSupported.message(), "operation not supported");
}
