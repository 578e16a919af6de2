use lib::distributed::node::{NodeId, NodeInfo, NodeState};
use lib::distributed::crdt::{VectorClock, CausalOrder, CrdtCounter, CrdtSet, CrdtRegister};
use lib::distributed::membership::ClusterMembership;
use lib::distributed::message::{DistributedMessageType, DistributedMessage, MessageBus};
use lib::distributed::error::DistributedError;



#[test]
fn test_node_id_new() {
    let id1 = NodeId::new();
    let id2 = NodeId::new();
    // 两次生成的 ID 应该不同
    assert_ne!(id1, id2);
}

#[test]
fn test_node_id_from_bytes() {
    let bytes = [1, 2, 3, 4, 5, 6, 7, 8, 9, 10, 11, 12, 13, 14, 15, 16];
    let id = NodeId::from_bytes(bytes);
    assert_eq!(id.as_bytes(), &bytes);
}

#[test]
fn test_node_id_to_string() {
    let bytes = [0x01, 0x23, 0x45, 0x67, 0x89, 0xab, 0xcd, 0xef,
                 0xfe, 0xdc, 0xba, 0x98, 0x76, 0x54, 0x32, 0x10];
    let id = NodeId::from_bytes(bytes);
    let s = id.to_string();
    assert_eq!(s, "01234567-89ab-cdef-fedc-ba9876543210");
}

#[test]
fn test_node_id_is_local() {
    let local = NodeId::local();
    assert!(local.is_local());

    let non_local = NodeId::new();
    assert!(!non_local.is_local());
}

#[test]
fn test_node_state_is_active() {
    assert!(NodeState::Connected.is_active());
    assert!(NodeState::Syncing.is_active());
    assert!(!NodeState::Disconnected.is_active());
    assert!(!NodeState::Connecting.is_active());
    assert!(!NodeState::Draining.is_active());
    assert!(!NodeState::Offline.is_active());
}

#[test]
fn test_node_state_from_u8() {
    assert_eq!(NodeState::from_u8(0), Some(NodeState::Disconnected));
    assert_eq!(NodeState::from_u8(2), Some(NodeState::Connected));
    assert_eq!(NodeState::from_u8(5), Some(NodeState::Offline));
    assert_eq!(NodeState::from_u8(99), None);
}

#[test]
fn test_node_info_new() {
    let id = NodeId::new();
    let info = NodeInfo::new(id.clone(), "127.0.0.1".to_string(), 8080);
    assert_eq!(info.state, NodeState::Disconnected);
    assert_eq!(info.agent_count, 0);
    assert!(info.capabilities.is_empty());
}

#[test]
fn test_node_info_capabilities() {
    let id = NodeId::new();
    let mut info = NodeInfo::new(id, "127.0.0.1".to_string(), 8080);
    info.add_capability("compute".to_string());
    info.add_capability("storage".to_string());
    // 重复添加不应产生重复
    info.add_capability("compute".to_string());
    assert_eq!(info.capabilities.len(), 2);
}

#[test]
fn test_node_info_metadata() {
    let id = NodeId::new();
    let mut info = NodeInfo::new(id, "127.0.0.1".to_string(), 8080);
    info.set_metadata("region".to_string(), "us-east".to_string());
    assert_eq!(info.get_metadata("region"), Some(&"us-east".to_string()));
    assert_eq!(info.get_metadata("nonexistent"), None);
}




// ========== VectorClock 测试 ==========

#[test]
fn test_vector_clock_increment() {
    let node = NodeId::new();
    let mut clock = VectorClock::new();

    clock.increment(&node);
    assert_eq!(clock.get(&node), 1);

    clock.increment(&node);
    assert_eq!(clock.get(&node), 2);
}

#[test]
fn test_vector_clock_merge() {
    let node_a = NodeId::new();
    let node_b = NodeId::new();

    let mut clock_a = VectorClock::new();
    clock_a.increment(&node_a);
    clock_a.increment(&node_a);

    let mut clock_b = VectorClock::new();
    clock_b.increment(&node_b);
    clock_b.increment(&node_b);
    clock_b.increment(&node_b);

    clock_a.merge(&clock_b);
    assert_eq!(clock_a.get(&node_a), 2);
    assert_eq!(clock_a.get(&node_b), 3);
}

#[test]
fn test_vector_clock_compare_equal() {
    let node = NodeId::new();
    let mut clock1 = VectorClock::new();
    let mut clock2 = VectorClock::new();

    clock1.increment(&node);
    clock2.increment(&node);

    assert_eq!(clock1.compare(&clock2), CausalOrder::Equal);
}

#[test]
fn test_vector_clock_compare_before() {
    let node = NodeId::new();
    let mut clock1 = VectorClock::new();
    let mut clock2 = VectorClock::new();

    clock1.increment(&node);
    clock2.increment(&node);
    clock2.increment(&node);

    assert_eq!(clock1.compare(&clock2), CausalOrder::Before);
    assert_eq!(clock2.compare(&clock1), CausalOrder::After);
}

#[test]
fn test_vector_clock_compare_concurrent() {
    let node_a = NodeId::new();
    let node_b = NodeId::new();

    let mut clock_a = VectorClock::new();
    clock_a.increment(&node_a);

    let mut clock_b = VectorClock::new();
    clock_b.increment(&node_b);

    assert_eq!(clock_a.compare(&clock_b), CausalOrder::Concurrent);
}

// ========== CrdtCounter 测试 ==========

#[test]
fn test_crdt_counter_increment() {
    let node = NodeId::new();
    let mut counter = CrdtCounter::new();

    counter.increment(&node);
    counter.increment(&node);
    counter.increment(&node);

    assert_eq!(counter.value(), 3);
}

#[test]
fn test_crdt_counter_merge() {
    let node_a = NodeId::new();
    let node_b = NodeId::new();

    let mut counter_a = CrdtCounter::new();
    counter_a.increment(&node_a);
    counter_a.increment(&node_a);

    let mut counter_b = CrdtCounter::new();
    counter_b.increment(&node_b);
    counter_b.increment(&node_b);
    counter_b.increment(&node_b);

    counter_a.merge(&counter_b);
    assert_eq!(counter_a.value(), 5);
}

#[test]
fn test_crdt_counter_merge_max() {
    // 合并时取最大值，不会重复计数
    let node = NodeId::new();

    let mut counter_a = CrdtCounter::new();
    counter_a.increment(&node);
    counter_a.increment(&node);
    counter_a.increment(&node);

    let mut counter_b = CrdtCounter::new();
    counter_b.increment(&node);
    counter_b.increment(&node);

    counter_a.merge(&counter_b);
    // 应取最大值 3，而非 3+2=5
    assert_eq!(counter_a.value(), 3);
}

// ========== CrdtSet 测试 ==========

#[test]
fn test_crdt_set_add() {
    let mut set: CrdtSet<String> = CrdtSet::new();
    set.add("item1".to_string());
    set.add("item2".to_string());

    assert!(set.contains(&"item1".to_string()));
    assert!(set.contains(&"item2".to_string()));
    assert_eq!(set.len(), 2);
}

#[test]
fn test_crdt_set_remove() {
    let mut set: CrdtSet<String> = CrdtSet::new();
    set.add("item1".to_string());
    set.add("item2".to_string());

    set.remove(&"item1".to_string());

    assert!(!set.contains(&"item1".to_string()));
    assert!(set.contains(&"item2".to_string()));
    assert_eq!(set.len(), 1);
    assert_eq!(set.tombstone_count(), 1);
}

#[test]
fn test_crdt_set_merge() {
    let mut set_a: CrdtSet<String> = CrdtSet::new();
    set_a.add("common".to_string());
    set_a.add("only_a".to_string());

    let mut set_b: CrdtSet<String> = CrdtSet::new();
    set_b.add("common".to_string());
    set_b.add("only_b".to_string());

    set_a.merge(&set_b);

    assert!(set_a.contains(&"common".to_string()));
    assert!(set_a.contains(&"only_a".to_string()));
    assert!(set_a.contains(&"only_b".to_string()));
    assert_eq!(set_a.len(), 3);
}

#[test]
fn test_crdt_set_merge_with_tombstone() {
    let mut set_a: CrdtSet<String> = CrdtSet::new();
    set_a.add("item".to_string());
    set_a.remove(&"item".to_string());

    let mut set_b: CrdtSet<String> = CrdtSet::new();
    set_b.add("item".to_string());

    // 合并后，item 应该仍然被删除（墓碑优先）
    set_b.merge(&set_a);
    assert!(!set_b.contains(&"item".to_string()));
}

#[test]
fn test_crdt_set_no_add_after_remove() {
    let mut set: CrdtSet<String> = CrdtSet::new();
    set.add("item".to_string());
    set.remove(&"item".to_string());

    // 删除后不应能重新添加
    set.add("item".to_string());
    assert!(!set.contains(&"item".to_string()));
}

// ========== CrdtRegister 测试 ==========

#[test]
fn test_crdt_register_set() {
    let node = NodeId::new();
    let mut reg: CrdtRegister<String> = CrdtRegister::new(node.clone());

    assert!(reg.get().is_none());

    reg.set("hello".to_string(), 1, &node);
    assert_eq!(reg.get(), Some(&"hello".to_string()));
}

#[test]
fn test_crdt_register_lww() {
    let node = NodeId::new();
    let mut reg: CrdtRegister<String> = CrdtRegister::new(node.clone());

    reg.set("first".to_string(), 1, &node);
    reg.set("second".to_string(), 5, &node);
    // 更晚的时间戳应该覆盖
    assert_eq!(reg.get(), Some(&"second".to_string()));

    // 更早的时间戳不应覆盖
    reg.set("third".to_string(), 3, &node);
    assert_eq!(reg.get(), Some(&"second".to_string()));
}

#[test]
fn test_crdt_register_merge() {
    let node_a = NodeId::new();
    let node_b = NodeId::new();

    let mut reg_a: CrdtRegister<String> = CrdtRegister::new(node_a.clone());
    reg_a.set("from_a".to_string(), 10, &node_a);

    let mut reg_b: CrdtRegister<String> = CrdtRegister::new(node_b.clone());
    reg_b.set("from_b".to_string(), 20, &node_b);

    // 时间戳更大的应该胜出
    reg_a.merge(&reg_b);
    assert_eq!(reg_a.get(), Some(&"from_b".to_string()));
}

#[test]
fn test_crdt_register_same_timestamp_node_id_decides() {
    let node_a = NodeId::from_bytes([0u8; 16]);
    let node_b = NodeId::from_bytes([1u8; 16]);

    let mut reg: CrdtRegister<String> = CrdtRegister::new(node_a.clone());
    reg.set("from_a".to_string(), 5, &node_a);

    // 相同时间戳，节点 ID 更大的胜出
    reg.set("from_b".to_string(), 5, &node_b);
    assert_eq!(reg.get(), Some(&"from_b".to_string()));
}




fn create_test_node(id: NodeId, port: u16, current_time: u64) -> NodeInfo {
    NodeInfo::new_connected(id, "127.0.0.1".to_string(), port, current_time)
}

#[test]
fn test_membership_add_node() {
    let local = NodeId::new();
    let mut membership = ClusterMembership::new(local);

    let node = NodeId::new();
    let info = create_test_node(node.clone(), 8080, 1000);

    assert!(membership.add_node(info).is_ok());
    assert_eq!(membership.node_count(), 1);
}

#[test]
fn test_membership_add_duplicate_node() {
    let local = NodeId::new();
    let mut membership = ClusterMembership::new(local);

    let node = NodeId::new();
    let info1 = create_test_node(node.clone(), 8080, 1000);
    let info2 = create_test_node(node.clone(), 8081, 2000);

    assert!(membership.add_node(info1).is_ok());
    assert_eq!(
        membership.add_node(info2),
        Err(DistributedError::NodeAlreadyExists)
    );
}

#[test]
fn test_membership_remove_node() {
    let local = NodeId::new();
    let mut membership = ClusterMembership::new(local);

    let node = NodeId::new();
    let info = create_test_node(node.clone(), 8080, 1000);
    membership.add_node(info).unwrap();

    assert!(membership.remove_node(&node).is_ok());
    assert_eq!(membership.node_count(), 0);
}

#[test]
fn test_membership_remove_nonexistent_node() {
    let local = NodeId::new();
    let mut membership = ClusterMembership::new(local);

    let ghost = NodeId::new();
    assert_eq!(
        membership.remove_node(&ghost),
        Err(DistributedError::NodeNotFound)
    );
}

#[test]
fn test_membership_update_heartbeat() {
    let local = NodeId::new();
    let mut membership = ClusterMembership::new(local);

    let node = NodeId::new();
    let info = create_test_node(node.clone(), 8080, 1000);
    membership.add_node(info).unwrap();

    assert!(membership.update_heartbeat_with_time(&node, 5000).is_ok());

    let updated = membership.get_node(&node).unwrap();
    assert_eq!(updated.last_heartbeat, 5000);
}

#[test]
fn test_membership_update_heartbeat_nonexistent() {
    let local = NodeId::new();
    let mut membership = ClusterMembership::new(local);

    let ghost = NodeId::new();
    assert_eq!(
        membership.update_heartbeat(&ghost),
        Err(DistributedError::NodeNotFound)
    );
}

#[test]
fn test_membership_active_nodes() {
    let local = NodeId::new();
    let mut membership = ClusterMembership::new(local);

    let node_a = NodeId::new();
    let node_b = NodeId::new();
    let node_c = NodeId::new();

    let mut info_a = create_test_node(node_a, 8080, 1000);
    let info_b = create_test_node(node_b, 8081, 1000);
    let mut info_c = create_test_node(node_c, 8082, 1000);

    // 设置不同的状态
    info_a.state = NodeState::Connected;
    info_c.state = NodeState::Offline;

    membership.add_node(info_a).unwrap();
    membership.add_node(info_b).unwrap();
    membership.add_node(info_c).unwrap();

    let active = membership.active_nodes();
    assert_eq!(active.len(), 2); // Connected + Syncing
}

#[test]
fn test_membership_check_timeouts() {
    let local = NodeId::new();
    let mut membership = ClusterMembership::with_config(
        local,
        5000,
        15000, // 15 秒超时
    );

    let node_a = NodeId::new();
    let node_b = NodeId::new();

    // node_a: 最后心跳在 1000，当前时间 20000（超时）
    let info_a = create_test_node(node_a.clone(), 8080, 1000);
    membership.add_node(info_a).unwrap();

    // node_b: 最后心跳在 18000，当前时间 20000（未超时）
    let info_b = create_test_node(node_b.clone(), 8081, 18000);
    membership.add_node(info_b).unwrap();

    let timed_out = membership.check_timeouts(20000);
    assert_eq!(timed_out.len(), 1);
    assert_eq!(timed_out[0], node_a);

    // 超时节点应被标记为 Offline
    let node_info = membership.get_node(&node_a).unwrap();
    assert_eq!(node_info.state, NodeState::Offline);

    // 未超时节点应保持 Connected
    let node_b_info = membership.get_node(&node_b).unwrap();
    assert_eq!(node_b_info.state, NodeState::Connected);
}

#[test]
fn test_membership_get_node() {
    let local = NodeId::new();
    let mut membership = ClusterMembership::new(local);

    let node = NodeId::new();
    let info = create_test_node(node.clone(), 8080, 1000);
    membership.add_node(info).unwrap();

    let retrieved = membership.get_node(&node);
    assert!(retrieved.is_some());
    assert_eq!(retrieved.unwrap().port, 8080);

    let ghost = NodeId::new();
    assert!(membership.get_node(&ghost).is_none());
}

#[test]
fn test_membership_node_count() {
    let local = NodeId::new();
    let mut membership = ClusterMembership::new(local);

    assert_eq!(membership.node_count(), 0);

    let node = NodeId::new();
    let info = create_test_node(node, 8080, 1000);
    membership.add_node(info).unwrap();

    assert_eq!(membership.node_count(), 1);
}

#[test]
fn test_membership_local_node() {
    let local = NodeId::new();
    let membership = ClusterMembership::new(local.clone());

    assert_eq!(membership.local_node(), &local);
}

#[test]
fn test_membership_with_config() {
    let local = NodeId::new();
    let membership = ClusterMembership::with_config(local, 3000, 9000);

    assert_eq!(membership.heartbeat_interval(), 3000);
    assert_eq!(membership.heartbeat_timeout(), 9000);
}




#[test]
fn test_distributed_message_type_from_u8() {
    assert_eq!(DistributedMessageType::from_u8(0), Some(DistributedMessageType::Heartbeat));
    assert_eq!(DistributedMessageType::from_u8(3), Some(DistributedMessageType::AgentMessage));
    assert_eq!(DistributedMessageType::from_u8(9), Some(DistributedMessageType::RpcResponse));
    assert_eq!(DistributedMessageType::from_u8(99), None);
}

#[test]
fn test_distributed_message_type_as_u8() {
    assert_eq!(DistributedMessageType::Heartbeat.as_u8(), 0);
    assert_eq!(DistributedMessageType::AgentSpawn.as_u8(), 1);
    assert_eq!(DistributedMessageType::RpcResponse.as_u8(), 9);
}

#[test]
fn test_distributed_message_new() {
    let src = NodeId::new();
    let dst = NodeId::new();
    let msg = DistributedMessage::new(
        1,
        DistributedMessageType::AgentMessage,
        src.clone(),
        Some(dst.clone()),
        vec![1, 2, 3],
        100,
    );

    assert_eq!(msg.id, 1);
    assert_eq!(msg.msg_type, DistributedMessageType::AgentMessage);
    assert_eq!(msg.src, src);
    assert_eq!(msg.dst, Some(dst));
    assert_eq!(msg.payload, vec![1, 2, 3]);
    assert_eq!(msg.timestamp, 100);
    assert!(msg.is_unicast());
    assert!(!msg.is_broadcast());
}

#[test]
fn test_distributed_message_broadcast() {
    let src = NodeId::new();
    let msg = DistributedMessage::new(
        1,
        DistributedMessageType::Heartbeat,
        src,
        None,
        vec![],
        0,
    );

    assert!(msg.is_broadcast());
    assert!(!msg.is_unicast());
}

#[test]
fn test_distributed_message_payload_size() {
    let src = NodeId::new();
    let msg = DistributedMessage::new(
        1,
        DistributedMessageType::AgentMessage,
        src,
        None,
        vec![1, 2, 3, 4, 5],
        0,
    );

    assert_eq!(msg.payload_size(), 5);
}

#[test]
fn test_message_bus_send() {
    let src = NodeId::new();
    let dst = NodeId::new();
    let mut bus = MessageBus::new();

    let msg = DistributedMessage::new(
        0, // ID 为 0，应该自动分配
        DistributedMessageType::AgentMessage,
        src,
        Some(dst),
        vec![1, 2, 3],
        100,
    );

    bus.send(msg);
    assert_eq!(bus.outgoing_size(), 1);
    assert_eq!(bus.message_count(), 1);
}

#[test]
fn test_message_bus_broadcast() {
    let src = NodeId::new();
    let mut bus = MessageBus::new();
    let clock = VectorClock::new();

    bus.broadcast(
        DistributedMessageType::Heartbeat,
        vec![1, 2, 3],
        &src,
        &clock,
    );

    assert_eq!(bus.outgoing_size(), 1);
    assert_eq!(bus.message_count(), 1);

    let outgoing = bus.drain_outgoing();
    assert_eq!(outgoing.len(), 1);
    assert!(outgoing[0].is_broadcast());
    assert_eq!(outgoing[0].msg_type, DistributedMessageType::Heartbeat);
}

#[test]
fn test_message_bus_receive_empty() {
    let mut bus = MessageBus::new();
    assert!(bus.receive().is_none());
}

#[test]
fn test_message_bus_handle_incoming_and_receive() {
    let src = NodeId::new();
    let mut bus = MessageBus::new();

    let msg = DistributedMessage::new(
        1,
        DistributedMessageType::AgentMessage,
        src,
        None,
        vec![42],
        100,
    );

    bus.handle_incoming(vec![msg]);
    assert_eq!(bus.queue_size(), 1);

    let received = bus.receive();
    assert!(received.is_some());
    let received = received.unwrap();
    assert_eq!(received.id, 1);
    assert_eq!(received.payload, vec![42]);

    // 队列应该为空
    assert_eq!(bus.queue_size(), 0);
    assert!(bus.receive().is_none());
}

#[test]
fn test_message_bus_drain_outgoing() {
    let src = NodeId::new();
    let dst = NodeId::new();
    let mut bus = MessageBus::new();

    bus.send(DistributedMessage::new(
        0, DistributedMessageType::Heartbeat, src.clone(), Some(dst.clone()), vec![], 0,
    ));
    bus.send(DistributedMessage::new(
        0, DistributedMessageType::AgentMessage, src.clone(), Some(dst.clone()), vec![1], 0,
    ));
    bus.send(DistributedMessage::new(
        0, DistributedMessageType::StateSync, src, Some(dst), vec![2], 0,
    ));

    assert_eq!(bus.outgoing_size(), 3);

    let outgoing = bus.drain_outgoing();
    assert_eq!(outgoing.len(), 3);
    assert_eq!(bus.outgoing_size(), 0);
}

#[test]
fn test_message_bus_send_preserves_id() {
    let src = NodeId::new();
    let dst = NodeId::new();
    let mut bus = MessageBus::new();

    // 指定 ID 的消息应保留原始 ID
    let msg = DistributedMessage::new(
        42,
        DistributedMessageType::AgentMessage,
        src,
        Some(dst),
        vec![],
        0,
    );

    bus.send(msg);
    let outgoing = bus.drain_outgoing();
    assert_eq!(outgoing[0].id, 42);
    // 指定 ID 不应影响计数器
    assert_eq!(bus.message_count(), 0);
}


#[test]
fn node_id_from_draws_places_bytes() {
    let zero = NodeId::id_from_draws(0, 0);
    assert_eq!(zero.0, [0, 0, 0, 0, 0, 0, 0x40, 0, 0x80, 0, 0, 0, 0, 0, 0, 0]);
    let id = NodeId::id_from_draws(0, 0x0807_0605_0403_0201);
    assert_eq!(id.0, [1, 2, 3, 4, 5, 6, 0x47, 8, 0x83, 4, 5, 6, 7, 8, 1, 2]);
    let a = NodeId::id_from_draws(1, 0);
    // xorshift(1) = 1 ^ (1 << 13) ^ ... scrambles the first word
    assert_ne!(a.0, zero.0);
    assert_ne!(NodeId::id_from_draws(5, 1).0, NodeId::id_from_draws(5, 2).0);
}
