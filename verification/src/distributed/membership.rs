//! Cluster membership: registration, heartbeats and timeout detection.
use vstd::prelude::*;
use crate::keyed::{keys_distinct, seq_to_map, lemma_absent, lemma_push, lemma_entry, lemma_len, lemma_empty, lemma_remove, lemma_update};
use crate::distributed::error::DistributedError;
use crate::distributed::node::{NodeId, NodeInfo, NodeState};

verus! {

/// The nodes keyed by their identifiers.
pub open spec fn node_pairs(s: Seq<NodeInfo>) -> Seq<(NodeId, NodeInfo)> {
    s.map_values(|n: NodeInfo| (n.id, n))
}

/// A node is declared timed out at `now`: it is not the local node, it is not
/// already offline, and more than `timeout` has passed since its heartbeat.
pub open spec fn times_out(n: NodeInfo, local: NodeId, now: u64, timeout: u64) -> bool {
    &&& n.id != local
    &&& n.state != NodeState::Offline
    &&& (if now >= n.last_heartbeat {
        now - n.last_heartbeat
    } else {
        0
    }) > timeout
}

/// The node after a timeout check at `now`.
pub open spec fn after_timeout_check(n: NodeInfo, local: NodeId, now: u64, timeout: u64) -> NodeInfo {
    if times_out(n, local, now, timeout) {
        NodeInfo { state: NodeState::Offline, ..n }
    } else {
        n
    }
}

/// The element at `i`, to change in place.
fn node_at(v: &mut Vec<NodeInfo>, i: usize) -> (n: &mut NodeInfo)
    requires
        i < old(v)@.len(),
    ensures
        *n == old(v)@[i as int],
        final(v)@ == old(v)@.update(i as int, *final(n)),
{
    &mut v[i]
}

/// Registry of the nodes of a cluster.
pub struct ClusterMembership {
    nodes: Vec<NodeInfo>,
    local_node: NodeId,
    heartbeat_interval_ms: u64,
    heartbeat_timeout_ms: u64,
}

impl View for ClusterMembership {
    type V = Map<NodeId, NodeInfo>;

    closed spec fn view(&self) -> Map<NodeId, NodeInfo> {
        seq_to_map(node_pairs(self.nodes@))
    }
}

impl ClusterMembership {
    /// Each node is registered once.
    pub closed spec fn wf(&self) -> bool {
        keys_distinct(node_pairs(self.nodes@))
    }

    /// The registered nodes in registration order.
    pub closed spec fn node_seq(&self) -> Seq<NodeInfo> {
        self.nodes@
    }

    pub closed spec fn spec_local(&self) -> NodeId {
        self.local_node
    }

    pub closed spec fn spec_interval(&self) -> u64 {
        self.heartbeat_interval_ms
    }

    pub closed spec fn spec_timeout(&self) -> u64 {
        self.heartbeat_timeout_ms
    }

    /// An empty registry with a 5 s heartbeat interval and a 15 s timeout.
    pub fn new(local_node: NodeId) -> (r: ClusterMembership)
        ensures
            r.wf(),
            r@ == Map::<NodeId, NodeInfo>::empty(),
            r.node_seq().len() == 0,
            r.spec_local() == local_node,
            r.spec_interval() == 5000,
            r.spec_timeout() == 15000,
    {
        proof {
            lemma_empty::<NodeId, NodeInfo>();
            assert(node_pairs(Seq::<NodeInfo>::empty()) =~= Seq::empty());
        }
        ClusterMembership {
            nodes: Vec::new(),
            local_node,
            heartbeat_interval_ms: 5000,
            heartbeat_timeout_ms: 15000,
        }
    }

    /// An empty registry with the given heartbeat settings.
    pub fn with_config(local_node: NodeId, heartbeat_interval_ms: u64, heartbeat_timeout_ms: u64) -> (r:
        ClusterMembership)
        ensures
            r.wf(),
            r@ == Map::<NodeId, NodeInfo>::empty(),
            r.node_seq().len() == 0,
            r.spec_local() == local_node,
            r.spec_interval() == heartbeat_interval_ms,
            r.spec_timeout() == heartbeat_timeout_ms,
    {
        proof {
            lemma_empty::<NodeId, NodeInfo>();
            assert(node_pairs(Seq::<NodeInfo>::empty()) =~= Seq::empty());
        }
        ClusterMembership { nodes: Vec::new(), local_node, heartbeat_interval_ms, heartbeat_timeout_ms }
    }

    fn find(&self, id: &NodeId) -> (r: Option<usize>)
        requires
            self.wf(),
        ensures
            match r {
                Some(i) => i < self.nodes@.len() && self.nodes@[i as int].id == *id
                    && self@.dom().contains(*id) && self@[*id] == self.nodes@[i as int],
                None => !self@.dom().contains(*id),
            },
    {
        let ghost ps = node_pairs(self.nodes@);
        let mut i: usize = 0;
        while i < self.nodes.len()
            invariant
                i <= self.nodes@.len(),
                ps == node_pairs(self.nodes@),
                keys_distinct(ps),
                forall|j: int| 0 <= j < i ==> #[trigger] ps[j].0 != *id,
            decreases self.nodes@.len() - i,
        {
            if self.nodes[i].id.same_as(id) {
                proof {
                    lemma_entry(ps, i as int);
                }
                return Some(i);
            }
            i += 1;
        }
        proof {
            lemma_absent(ps, *id);
        }
        None
    }

    /// Registers a node; fails when its identifier is already registered.
    pub fn add_node(&mut self, info: NodeInfo) -> (r: Result<(), DistributedError>)
        requires
            old(self).wf(),
        ensures
            final(self).wf(),
            old(self)@.dom().contains(info.id) ==> r == Err::<(), DistributedError>(
                DistributedError::NodeAlreadyExists,
            ) && final(self)@ == old(self)@ && final(self).node_seq() == old(self).node_seq(),
            !old(self)@.dom().contains(info.id) ==> r is Ok && final(self)@ == old(self)@.insert(
                info.id,
                info,
            ) && final(self).node_seq() == old(self).node_seq().push(info),
            final(self).spec_local() == old(self).spec_local(),
            final(self).spec_interval() == old(self).spec_interval(),
            final(self).spec_timeout() == old(self).spec_timeout(),
    {
        match self.find(&info.id) {
            Some(_) => Err(DistributedError::NodeAlreadyExists),
            None => {
                proof {
                    lemma_push(node_pairs(self.nodes@), info.id, info);
                    assert(node_pairs(self.nodes@.push(info)) =~= node_pairs(self.nodes@).push(
                        (info.id, info),
                    ));
                }
                self.nodes.push(info);
                Ok(())
            },
        }
    }

    /// Unregisters a node; fails when it is not registered.
    pub fn remove_node(&mut self, id: &NodeId) -> (r: Result<(), DistributedError>)
        requires
            old(self).wf(),
        ensures
            final(self).wf(),
            old(self)@.dom().contains(*id) ==> r is Ok && final(self)@ == old(self)@.remove(*id),
            !old(self)@.dom().contains(*id) ==> r == Err::<(), DistributedError>(
                DistributedError::NodeNotFound,
            ) && final(self)@ == old(self)@,
            final(self).spec_local() == old(self).spec_local(),
            final(self).spec_interval() == old(self).spec_interval(),
            final(self).spec_timeout() == old(self).spec_timeout(),
    {
        match self.find(id) {
            Some(i) => {
                proof {
                    lemma_remove(node_pairs(self.nodes@), i as int);
                    assert(node_pairs(self.nodes@.remove(i as int)) =~= node_pairs(
                        self.nodes@,
                    ).remove(i as int));
                }
                self.nodes.remove(i);
                Ok(())
            },
            None => Err(DistributedError::NodeNotFound),
        }
    }

    fn set_heartbeat_at(&mut self, i: usize, t: u64)
        requires
            old(self).wf(),
            i < old(self).nodes@.len(),
        ensures
            final(self).wf(),
            final(self).nodes@ == old(self).nodes@.update(
                i as int,
                NodeInfo { last_heartbeat: t, ..old(self).nodes@[i as int] },
            ),
            final(self)@ == old(self)@.insert(
                old(self).nodes@[i as int].id,
                NodeInfo { last_heartbeat: t, ..old(self).nodes@[i as int] },
            ),
            final(self).spec_local() == old(self).spec_local(),
            final(self).spec_interval() == old(self).spec_interval(),
            final(self).spec_timeout() == old(self).spec_timeout(),
    {
        let ghost ps = node_pairs(self.nodes@);
        let ghost n = NodeInfo { last_heartbeat: t, ..self.nodes@[i as int] };
        proof {
            lemma_update(ps, i as int, n);
        }
        self.nodes[i].last_heartbeat = t;
        assert(node_pairs(self.nodes@) =~= ps.update(i as int, (ps[i as int].0, n)));
    }

    /// Resets a node's heartbeat time to zero; fails when it is not registered.
    pub fn update_heartbeat(&mut self, id: &NodeId) -> (r: Result<(), DistributedError>)
        requires
            old(self).wf(),
        ensures
            final(self).wf(),
            old(self)@.dom().contains(*id) ==> r is Ok && final(self)@ == old(self)@.insert(
                *id,
                NodeInfo { last_heartbeat: 0, ..old(self)@[*id] },
            ),
            !old(self)@.dom().contains(*id) ==> r == Err::<(), DistributedError>(
                DistributedError::NodeNotFound,
            ) && final(self)@ == old(self)@,
    {
        self.update_heartbeat_with_time(id, 0)
    }

    /// Records a node's heartbeat at `current_time`; fails when it is not registered.
    pub fn update_heartbeat_with_time(&mut self, id: &NodeId, current_time: u64) -> (r: Result<
        (),
        DistributedError,
    >)
        requires
            old(self).wf(),
        ensures
            final(self).wf(),
            old(self)@.dom().contains(*id) ==> r is Ok && final(self)@ == old(self)@.insert(
                *id,
                NodeInfo { last_heartbeat: current_time, ..old(self)@[*id] },
            ),
            !old(self)@.dom().contains(*id) ==> r == Err::<(), DistributedError>(
                DistributedError::NodeNotFound,
            ) && final(self)@ == old(self)@,
            final(self).spec_local() == old(self).spec_local(),
            final(self).spec_interval() == old(self).spec_interval(),
            final(self).spec_timeout() == old(self).spec_timeout(),
    {
        match self.find(id) {
            Some(i) => {
                self.set_heartbeat_at(i, current_time);
                Ok(())
            },
            None => Err(DistributedError::NodeNotFound),
        }
    }

    /// The connected or syncing nodes, in registration order.
    pub fn active_nodes(&self) -> (r: Vec<&NodeInfo>)
        ensures
            r@.map_values(|n: &NodeInfo| *n) == self.node_seq().filter(
                |n: NodeInfo| n.state == NodeState::Connected || n.state == NodeState::Syncing,
            ),
    {
        let ghost pred = |n: NodeInfo| n.state == NodeState::Connected || n.state == NodeState::Syncing;
        let mut r: Vec<&NodeInfo> = Vec::new();
        let mut i: usize = 0;
        while i < self.nodes.len()
            invariant
                i <= self.nodes@.len(),
                r@.map_values(|n: &NodeInfo| *n) == self.nodes@.take(i as int).filter(pred),
                pred == (|n: NodeInfo| n.state == NodeState::Connected || n.state == NodeState::Syncing),
            decreases self.nodes@.len() - i,
        {
            proof {
                assert(self.nodes@.take(i + 1) =~= self.nodes@.take(i as int).push(self.nodes@[i as int]));
                self.nodes@.take(i as int).lemma_filter_push(self.nodes@[i as int], pred);
            }
            let ghost prev = r@;
            let act = self.nodes[i].state.is_active();
            assert(act == (self.nodes@[i as int].state == NodeState::Connected || self.nodes@[i as int].state == NodeState::Syncing));
            assert(act == pred(self.nodes@[i as int]));
            assert(self.nodes@.take(i + 1).filter(pred) == if act { self.nodes@.take(i as int).filter(pred).push(self.nodes@[i as int]) } else { self.nodes@.take(i as int).filter(pred) });
            if act {
                r.push(&self.nodes[i]);
                assert(r@.map_values(|n: &NodeInfo| *n) =~= prev.map_values(|n: &NodeInfo| *n).push(self.nodes@[i as int]));
            }
            i += 1;
            assert(r@.map_values(|n: &NodeInfo| *n) =~= self.nodes@.take(i as int).filter(pred));
        }
        assert(self.nodes@.take(i as int) =~= self.nodes@);
        r
    }

    /// Marks offline every node, other than the local one and those already
    /// offline, whose heartbeat is more than the timeout old, and returns their
    /// identifiers in registration order.
    pub fn check_timeouts(&mut self, current_time: u64) -> (r: Vec<NodeId>)
        requires
            old(self).wf(),
        ensures
            final(self).wf(),
            final(self).node_seq() == old(self).node_seq().map_values(
                |n: NodeInfo| after_timeout_check(n, old(self).spec_local(), current_time, old(self).spec_timeout()),
            ),
            r@ == old(self).node_seq().filter(
                |n: NodeInfo| times_out(n, old(self).spec_local(), current_time, old(self).spec_timeout()),
            ).map_values(|n: NodeInfo| n.id),
            final(self).spec_local() == old(self).spec_local(),
            final(self).spec_interval() == old(self).spec_interval(),
            final(self).spec_timeout() == old(self).spec_timeout(),
    {
        let ghost local = self.local_node;
        let ghost timeout = self.heartbeat_timeout_ms;
        let ghost pred = |n: NodeInfo| times_out(n, local, current_time, timeout);
        let ghost f = |n: NodeInfo| after_timeout_check(n, local, current_time, timeout);
        let ghost orig = self.nodes@;
        let mut timed_out: Vec<NodeId> = Vec::new();
        let mut i: usize = 0;
        while i < self.nodes.len()
            invariant
                i <= self.nodes@.len(),
                self.nodes@.len() == orig.len(),
                local == self.local_node,
                timeout == self.heartbeat_timeout_ms,
                self.local_node == old(self).local_node,
                self.heartbeat_interval_ms == old(self).heartbeat_interval_ms,
                self.heartbeat_timeout_ms == old(self).heartbeat_timeout_ms,
                orig == old(self).nodes@,
                forall|j: int| 0 <= j < i ==> #[trigger] self.nodes@[j] == f(orig[j]),
                forall|j: int| i <= j < orig.len() ==> #[trigger] self.nodes@[j] == orig[j],
                timed_out@ == orig.take(i as int).filter(pred).map_values(|n: NodeInfo| n.id),
                pred == (|n: NodeInfo| times_out(n, local, current_time, timeout)),
                f == (|n: NodeInfo| after_timeout_check(n, local, current_time, timeout)),
            decreases orig.len() - i,
        {
            proof {
                assert(orig.take(i + 1) =~= orig.take(i as int).push(orig[i as int]));
                orig.take(i as int).lemma_filter_push(orig[i as int], pred);
            }
            let ghost before = self.nodes@;
            let ghost prev = timed_out@;
            let is_local = self.nodes[i].id.same_as(&self.local_node);
            let mut fire = false;
            let offline = match self.nodes[i].state {
                NodeState::Offline => true,
                _ => false,
            };
            assert(is_local == (orig[i as int].id == local));
            assert(offline == (orig[i as int].state == NodeState::Offline));
            if !is_local && !offline {
                let elapsed = current_time.saturating_sub(self.nodes[i].last_heartbeat);
                assert(elapsed == (if current_time >= orig[i as int].last_heartbeat { current_time - orig[i as int].last_heartbeat } else { 0 }));
                if elapsed > self.heartbeat_timeout_ms {
                    fire = true;
                }
            }
            assert(fire == pred(orig[i as int]));
            if fire {
                self.nodes[i].state = NodeState::Offline;
                timed_out.push(self.nodes[i].id);
                assert(self.nodes@ =~= before.update(i as int, f(orig[i as int])));
                assert(timed_out@.map_values(|x: NodeId| x) =~= timed_out@);
            } else {
                assert(self.nodes@ =~= before.update(i as int, f(orig[i as int])));
            }
            i += 1;
            assert(timed_out@ =~= orig.take(i as int).filter(pred).map_values(|n: NodeInfo| n.id));
        }
        proof {
            assert(orig.take(i as int) =~= orig);
            assert(self.nodes@ =~= orig.map_values(f));
            assert(node_pairs(self.nodes@).len() == node_pairs(orig).len());
            assert forall|a: int, b: int|
                0 <= a < node_pairs(self.nodes@).len() && 0 <= b < node_pairs(self.nodes@).len() && a != b
                implies #[trigger] node_pairs(self.nodes@)[a].0 != #[trigger] node_pairs(self.nodes@)[b].0 by {
                assert(node_pairs(orig)[a].0 == orig[a].id);
                assert(node_pairs(orig)[b].0 == orig[b].id);
            }
        }
        timed_out
    }

    /// The information of a registered node.
    pub fn get_node(&self, id: &NodeId) -> (r: Option<&NodeInfo>)
        requires
            self.wf(),
        ensures
            self@.dom().contains(*id) ==> r == Some(&self@[*id]),
            !self@.dom().contains(*id) ==> r.is_none(),
    {
        match self.find(id) {
            Some(i) => Some(&self.nodes[i]),
            None => None,
        }
    }

    /// The information of a registered node, to change in place; as long
    /// as its id is kept, the registry stays well formed and files the
    /// changed information under that id.
    pub fn get_node_mut(&mut self, id: &NodeId) -> (r: Option<&mut NodeInfo>)
        requires
            old(self).wf(),
        ensures
            match r {
                Some(n) => {
                    &&& old(self)@.dom().contains(*id)
                    &&& *n == old(self)@[*id]
                    &&& final(n).id == *id ==> final(self).wf() && final(self)@ == old(self)@.insert(*id, *final(n))
                    &&& final(self).spec_local() == old(self).spec_local()
                    &&& final(self).spec_interval() == old(self).spec_interval()
                    &&& final(self).spec_timeout() == old(self).spec_timeout()
                },
                None => !old(self)@.dom().contains(*id) && *final(self) == *old(self),
            },
    {
        match self.find(id) {
            Some(i) => {
                let ghost s = node_pairs(self.nodes@);
                proof {
                    assert forall|n: NodeInfo| #![trigger self.nodes@.update(i as int, n)] n.id == *id implies seq_to_map(
                        node_pairs(self.nodes@.update(i as int, n)),
                    ) == seq_to_map(s).insert(*id, n) && keys_distinct(node_pairs(self.nodes@.update(i as int, n))) by {
                        lemma_update(s, i as int, n);
                        assert(node_pairs(self.nodes@.update(i as int, n)) =~= s.update(i as int, (s[i as int].0, n)));
                    }
                }
                Some(node_at(&mut self.nodes, i))
            },
            None => None,
        }
    }

    /// Number of registered nodes.
    pub fn node_count(&self) -> (r: usize)
        requires
            self.wf(),
        ensures
            r == self@.dom().len(),
    {
        proof {
            lemma_len(node_pairs(self.nodes@));
        }
        self.nodes.len()
    }

    /// The identifiers of the registered nodes, in registration order.
    pub fn node_ids(&self) -> (r: Vec<&NodeId>)
        ensures
            r@.map_values(|n: &NodeId| *n) == self.node_seq().map_values(|n: NodeInfo| n.id),
    {
        let mut r: Vec<&NodeId> = Vec::new();
        let mut i: usize = 0;
        while i < self.nodes.len()
            invariant
                i <= self.nodes@.len(),
                r@.map_values(|n: &NodeId| *n) == self.nodes@.take(i as int).map_values(|n: NodeInfo| n.id),
            decreases self.nodes@.len() - i,
        {
            let ghost prev = r@;
            r.push(&self.nodes[i].id);
            assert(r@.map_values(|n: &NodeId| *n) =~= prev.map_values(|n: &NodeId| *n).push(self.nodes@[i as int].id));
            assert(self.nodes@.take(i + 1).map_values(|n: NodeInfo| n.id) =~= self.nodes@.take(i as int).map_values(|n: NodeInfo| n.id).push(self.nodes@[i as int].id));
            i += 1;
            assert(r@.map_values(|n: &NodeId| *n) =~= self.nodes@.take(i as int).map_values(|n: NodeInfo| n.id));
        }
        assert(self.nodes@.take(i as int) =~= self.nodes@);
        r
    }

    /// The local node's identifier.
    pub fn local_node(&self) -> (r: &NodeId)
        ensures
            *r == self.spec_local(),
    {
        &self.local_node
    }

    /// Sets the heartbeat interval.
    pub fn set_heartbeat_interval(&mut self, interval_ms: u64)
        ensures
            final(self).spec_interval() == interval_ms,
            final(self).spec_timeout() == old(self).spec_timeout(),
            final(self).spec_local() == old(self).spec_local(),
            final(self).node_seq() == old(self).node_seq(),
            final(self)@ == old(self)@,
            old(self).wf() ==> final(self).wf(),
    {
        self.heartbeat_interval_ms = interval_ms;
    }

    /// Sets the heartbeat timeout.
    pub fn set_heartbeat_timeout(&mut self, timeout_ms: u64)
        ensures
            final(self).spec_timeout() == timeout_ms,
            final(self).spec_interval() == old(self).spec_interval(),
            final(self).spec_local() == old(self).spec_local(),
            final(self).node_seq() == old(self).node_seq(),
            final(self)@ == old(self)@,
            old(self).wf() ==> final(self).wf(),
    {
        self.heartbeat_timeout_ms = timeout_ms;
    }

    /// The heartbeat interval.
    pub fn heartbeat_interval(&self) -> (r: u64)
        ensures
            r == self.spec_interval(),
    {
        self.heartbeat_interval_ms
    }

    /// The heartbeat timeout.
    pub fn heartbeat_timeout(&self) -> (r: u64)
        ensures
            r == self.spec_timeout(),
    {
        self.heartbeat_timeout_ms
    }
}

/// A timeout check reports a node exactly when it is another node than the
/// local one, not yet offline, and its heartbeat is more than the timeout
/// old; it marks that node offline and leaves every other node as it was.
/// So an offline node is never reported, and a node reported by one check
/// is not reported by any later check of the nodes it left.
pub proof fn law_timeouts_report_once(
    nodes: Seq<NodeInfo>,
    local: NodeId,
    first: u64,
    later: u64,
    timeout: u64,
    k: int,
)
    requires
        0 <= k < nodes.len(),
    ensures
        times_out(nodes[k], local, first, timeout) == (nodes[k].id != local && nodes[k].state != NodeState::Offline
            && first >= nodes[k].last_heartbeat && first - nodes[k].last_heartbeat > timeout),
        nodes[k].state == NodeState::Offline ==> !times_out(nodes[k], local, first, timeout),
        times_out(nodes[k], local, first, timeout) ==> after_timeout_check(nodes[k], local, first, timeout) == (
        NodeInfo { state: NodeState::Offline, ..nodes[k] }),
        !times_out(nodes[k], local, first, timeout) ==> after_timeout_check(nodes[k], local, first, timeout)
            == nodes[k],
        ({
            let checked = nodes.map_values(|n: NodeInfo| after_timeout_check(n, local, first, timeout));
            times_out(nodes[k], local, first, timeout) ==> !times_out(checked[k], local, later, timeout)
        }),
{
}

} // verus!
