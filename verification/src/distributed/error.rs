//! Errors of the distributed services.
use vstd::prelude::*;
use crate::text::{decimal, push_decimal};

verus! {

/// Errors of the distributed services.
#[derive(Debug, Clone, PartialEq, Eq)]
pub enum DistributedError {
    NodeNotFound,
    NodeAlreadyExists,
    NotConnected,
    /// Timed out after the given milliseconds.
    Timeout(u64),
    /// A message of the given size in bytes was too large.
    MessageTooLarge(usize),
    SerializationError(String),
    RpcError(String),
    ClusterFull,
    InvalidNodeId,
    ClockDesync,
}

/// The human-readable text of an error.
pub open spec fn distributed_error_text(e: DistributedError) -> Seq<char> {
    match e {
        DistributedError::NodeNotFound => "节点未找到"@,
        DistributedError::NodeAlreadyExists => "节点已存在"@,
        DistributedError::NotConnected => "未连接"@,
        DistributedError::Timeout(ms) => "超时 ("@ + decimal(ms as nat) + "ms)"@,
        DistributedError::MessageTooLarge(size) => "消息过大 ("@ + decimal(size as nat)
            + " 字节)"@,
        DistributedError::SerializationError(msg) => "序列化错误: "@ + msg@,
        DistributedError::RpcError(msg) => "RPC 错误: "@ + msg@,
        DistributedError::ClusterFull => "集群已满"@,
        DistributedError::InvalidNodeId => "无效的节点 ID"@,
        DistributedError::ClockDesync => "时钟不同步"@,
    }
}

impl DistributedError {
    /// The human-readable text of the error.
    pub fn message(&self) -> (r: String)
        ensures
            r@ == distributed_error_text(*self),
    {
        match self {
            DistributedError::NodeNotFound => String::from_str("节点未找到"),
            DistributedError::NodeAlreadyExists => String::from_str("节点已存在"),
            DistributedError::NotConnected => String::from_str("未连接"),
            DistributedError::Timeout(ms) => {
                let mut s = String::from_str("超时 (");
                push_decimal(&mut s, *ms);
                s.append("ms)");
                s
            },
            DistributedError::MessageTooLarge(size) => {
                let mut s = String::from_str("消息过大 (");
                push_decimal(&mut s, *size as u64);
                s.append(" 字节)");
                s
            },
            DistributedError::SerializationError(msg) => {
                let mut s = String::from_str("序列化错误: ");
                s.append(msg.as_str());
                s
            },
            DistributedError::RpcError(msg) => {
                let mut s = String::from_str("RPC 错误: ");
                s.append(msg.as_str());
                s
            },
            DistributedError::ClusterFull => String::from_str("集群已满"),
            DistributedError::InvalidNodeId => String::from_str("无效的节点 ID"),
            DistributedError::ClockDesync => String::from_str("时钟不同步"),
        }
    }
}

} // verus!
