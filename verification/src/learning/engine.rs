//! Learning sessions by id, each recording metrics while it is active,
//! beside the agent's memory store and knowledge graph.
use vstd::prelude::*;
use crate::keyed::{keys_distinct, has_key, key_index, seq_to_map, key_seq, lemma_entry, lemma_absent, lemma_push, lemma_update};
use crate::text::{str_equal, texts};
use super::{LearningError, KnowledgeGraph, MemoryStore};

verus! {

/// A learning session: its configuration `C` and the metrics `M` recorded
/// so far, which the session carries without reading them.
pub struct LearningSession<C, M> {
    pub id: String,
    pub config: C,
    pub metrics_history: Vec<M>,
    /// Set by the caller.
    pub start_time: u64,
    pub is_active: bool,
}

impl<C, M> LearningSession<C, M> {
    /// An active session with no metrics, started at time 0.
    pub fn new(id: &str, config: C) -> (r: Self)
        ensures
            r.id@ == id@,
            r.config == config,
            r.metrics_history@ == Seq::<M>::empty(),
            r.start_time == 0,
            r.is_active,
    {
        LearningSession { id: String::from_str(id), config, metrics_history: Vec::new(), start_time: 0, is_active: true }
    }

    /// Appends metrics to the history.
    pub fn record_metrics(&mut self, metrics: M)
        ensures
            final(self).metrics_history@ == old(self).metrics_history@.push(metrics),
            final(self).id == old(self).id,
            final(self).config == old(self).config,
            final(self).start_time == old(self).start_time,
            final(self).is_active == old(self).is_active,
    {
        self.metrics_history.push(metrics);
    }

    /// The metrics recorded last.
    pub fn latest_metrics(&self) -> (r: Option<&M>)
        ensures
            self.metrics_history@.len() == 0 ==> r is None,
            self.metrics_history@.len() > 0 ==> r == Some(&self.metrics_history@.last()),
    {
        if self.metrics_history.len() == 0 {
            None
        } else {
            Some(&self.metrics_history[self.metrics_history.len() - 1])
        }
    }

    /// Ends the session: it records no more metrics.
    pub fn stop(&mut self)
        ensures
            !final(self).is_active,
            final(self).id == old(self).id,
            final(self).config == old(self).config,
            final(self).metrics_history == old(self).metrics_history,
            final(self).start_time == old(self).start_time,
    {
        self.is_active = false;
    }
}

/// The sessions as (id, session) entries.
pub open spec fn session_entries<C, M>(ss: Seq<LearningSession<C, M>>) -> Seq<(Seq<char>, LearningSession<C, M>)> {
    ss.map_values(|s: LearningSession<C, M>| (s.id@, s))
}

fn session_at<C, M>(v: &mut Vec<LearningSession<C, M>>, i: usize) -> (r: &mut LearningSession<C, M>)
    requires
        i < old(v)@.len(),
    ensures
        *r == old(v)@[i as int],
        final(v)@ == old(v)@.update(i as int, *final(r)),
{
    &mut v[i]
}

/// Learning sessions by id, with the memory store (scores `S`) and the
/// knowledge graph (details `D`) that they share.
pub struct LearningEngine<C, M, S, D> {
    sessions: Vec<LearningSession<C, M>>,
    memory_store: MemoryStore<S>,
    knowledge_graph: KnowledgeGraph<D>,
}

impl<C, M, S, D> LearningEngine<C, M, S, D> {
    /// The sessions, in the order they were created.
    pub closed spec fn session_seq(&self) -> Seq<LearningSession<C, M>> {
        self.sessions@
    }

    /// The sessions by id.
    pub open spec fn session_map(&self) -> Map<Seq<char>, LearningSession<C, M>> {
        seq_to_map(session_entries(self.session_seq()))
    }

    pub closed spec fn memory_view(&self) -> MemoryStore<S> {
        self.memory_store
    }

    pub closed spec fn knowledge_view(&self) -> KnowledgeGraph<D> {
        self.knowledge_graph
    }

    /// No id names two sessions, and the memory store is well formed.
    pub open spec fn wf(&self) -> bool {
        keys_distinct(session_entries(self.session_seq())) && self.memory_view().wf()
    }

    /// No sessions, an empty memory store and an empty knowledge graph.
    pub fn new() -> (r: Self)
        ensures
            r.wf(),
            r.session_seq() == Seq::<LearningSession<C, M>>::empty(),
            r.memory_view().entry_seq().len() == 0,
            r.memory_view().next_free() == 1,
            r.knowledge_view().triples().len() == 0,
    {
        let r = LearningEngine {
            sessions: Vec::new(),
            memory_store: MemoryStore::new(),
            knowledge_graph: KnowledgeGraph::new(),
        };
        assert(session_entries(r.session_seq()) =~= Seq::<(Seq<char>, LearningSession<C, M>)>::empty());
        r
    }

    fn find(&self, id: &str) -> (r: Option<usize>)
        requires
            self.wf(),
        ensures
            match r {
                Some(k) => {
                    &&& k < self.session_seq().len()
                    &&& self.session_seq()[k as int].id@ == id@
                    &&& has_key(session_entries(self.session_seq()), id@)
                    &&& key_index(session_entries(self.session_seq()), id@) == k
                },
                None => !has_key(session_entries(self.session_seq()), id@),
            },
    {
        let ghost es = session_entries(self.session_seq());
        let mut i: usize = 0;
        while i < self.sessions.len()
            invariant
                es == session_entries(self.sessions@),
                keys_distinct(es),
                i <= self.sessions@.len(),
                forall|q: int| 0 <= q < i ==> #[trigger] es[q].0 != id@,
            decreases self.sessions@.len() - i,
        {
            if str_equal(self.sessions[i].id.as_str(), id) {
                proof {
                    assert(es[i as int].0 == id@);
                    lemma_entry(es, i as int);
                }
                return Some(i);
            }
            assert(es[i as int].0 != id@);
            i += 1;
        }
        None
    }

    /// Starts a session under a new id.
    pub fn create_session(&mut self, id: &str, config: C) -> (r: Result<(), LearningError>)
        requires
            old(self).wf(),
        ensures
            final(self).wf(),
            final(self).memory_view() == old(self).memory_view(),
            final(self).knowledge_view() == old(self).knowledge_view(),
            old(self).session_map().dom().contains(id@) ==> {
                &&& r matches Err(LearningError::SessionAlreadyExists(s)) && s@ == id@
                &&& final(self).session_seq() == old(self).session_seq()
            },
            !old(self).session_map().dom().contains(id@) ==> {
                &&& r is Ok
                &&& final(self).session_seq().len() == old(self).session_seq().len() + 1
                &&& final(self).session_seq().drop_last() == old(self).session_seq()
                &&& final(self).session_seq().last().id@ == id@
                &&& final(self).session_seq().last().config == config
                &&& final(self).session_seq().last().metrics_history@.len() == 0
                &&& final(self).session_seq().last().start_time == 0
                &&& final(self).session_seq().last().is_active
            },
    {
        match self.find(id) {
            Some(_) => Err(LearningError::SessionAlreadyExists(String::from_str(id))),
            None => {
                let session = LearningSession::new(id, config);
                let ghost ps = session_entries(self.sessions@);
                self.sessions.push(session);
                proof {
                    assert(session_entries(self.sessions@) =~= ps.push((id@, session)));
                    lemma_absent(ps, id@);
                    lemma_push(ps, id@, session);
                    assert(self.sessions@.drop_last() =~= self.session_seq().drop_last());
                }
                Ok(())
            },
        }
    }

    /// Appends metrics to an active session's history.
    pub fn record_metrics(&mut self, session_id: &str, metrics: M) -> (r: Result<(), LearningError>)
        requires
            old(self).wf(),
        ensures
            final(self).wf(),
            final(self).memory_view() == old(self).memory_view(),
            final(self).knowledge_view() == old(self).knowledge_view(),
            !old(self).session_map().dom().contains(session_id@) ==> {
                &&& r matches Err(LearningError::SessionNotFound(s)) && s@ == session_id@
                &&& final(self).session_seq() == old(self).session_seq()
            },
            old(self).session_map().dom().contains(session_id@) && !old(self).session_map()[session_id@].is_active ==> {
                &&& r matches Err(LearningError::SessionNotActive(s)) && s@ == session_id@
                &&& final(self).session_seq() == old(self).session_seq()
            },
            old(self).session_map().dom().contains(session_id@) && old(self).session_map()[session_id@].is_active ==> {
                let k = key_index(session_entries(old(self).session_seq()), session_id@);
                let s = old(self).session_seq()[k];
                &&& r is Ok
                &&& final(self).session_seq() == old(self).session_seq().update(
                    k,
                    LearningSession { metrics_history: final(self).session_seq()[k].metrics_history, ..s },
                )
                &&& final(self).session_seq()[k].metrics_history@ == s.metrics_history@.push(metrics)
            },
    {
        let k = match self.find(session_id) {
            Some(k) => k,
            None => {
                return Err(LearningError::SessionNotFound(String::from_str(session_id)));
            },
        };
        proof {
            lemma_entry(session_entries(self.session_seq()), k as int);
        }
        if !self.sessions[k].is_active {
            return Err(LearningError::SessionNotActive(String::from_str(session_id)));
        }
        let ghost ps = session_entries(self.sessions@);
        let ghost before = self.sessions@;
        let s = session_at(&mut self.sessions, k);
        s.record_metrics(metrics);
        proof {
            let ns = self.sessions@[k as int];
            assert(session_entries(self.sessions@) =~= ps.update(k as int, (ps[k as int].0, ns)));
            lemma_update(ps, k as int, ns);
            assert(self.sessions@ =~= before.update(
                k as int,
                LearningSession { metrics_history: ns.metrics_history, ..before[k as int] },
            ));
        }
        Ok(())
    }

    /// The session with the given id.
    pub fn session_status(&self, session_id: &str) -> (r: Result<&LearningSession<C, M>, LearningError>)
        requires
            self.wf(),
        ensures
            self.session_map().dom().contains(session_id@) ==> r == Ok::<&LearningSession<C, M>, LearningError>(
                &self.session_map()[session_id@],
            ),
            !self.session_map().dom().contains(session_id@) ==> (r matches Err(LearningError::SessionNotFound(s)) && s@
                == session_id@),
    {
        match self.find(session_id) {
            Some(k) => {
                proof {
                    lemma_entry(session_entries(self.session_seq()), k as int);
                }
                Ok(&self.sessions[k])
            },
            None => Err(LearningError::SessionNotFound(String::from_str(session_id))),
        }
    }

    /// Stops the session with the given id.
    pub fn stop_session(&mut self, session_id: &str) -> (r: Result<(), LearningError>)
        requires
            old(self).wf(),
        ensures
            final(self).wf(),
            final(self).memory_view() == old(self).memory_view(),
            final(self).knowledge_view() == old(self).knowledge_view(),
            !old(self).session_map().dom().contains(session_id@) ==> {
                &&& r matches Err(LearningError::SessionNotFound(s)) && s@ == session_id@
                &&& final(self).session_seq() == old(self).session_seq()
            },
            old(self).session_map().dom().contains(session_id@) ==> {
                let k = key_index(session_entries(old(self).session_seq()), session_id@);
                &&& r is Ok
                &&& final(self).session_seq() == old(self).session_seq().update(
                    k,
                    LearningSession { is_active: false, ..old(self).session_seq()[k] },
                )
            },
    {
        let k = match self.find(session_id) {
            Some(k) => k,
            None => {
                return Err(LearningError::SessionNotFound(String::from_str(session_id)));
            },
        };
        let ghost ps = session_entries(self.sessions@);
        let ghost before = self.sessions@;
        let s = session_at(&mut self.sessions, k);
        s.stop();
        proof {
            let ns = self.sessions@[k as int];
            assert(ns == LearningSession { is_active: false, ..before[k as int] });
            assert(session_entries(self.sessions@) =~= ps.update(k as int, (ps[k as int].0, ns)));
            lemma_update(ps, k as int, ns);
        }
        Ok(())
    }

    /// The memory store.
    pub fn memory(&self) -> (r: &MemoryStore<S>)
        ensures
            *r == self.memory_view(),
    {
        &self.memory_store
    }

    /// The memory store, to change; the engine stays well formed as long
    /// as the store does.
    pub fn memory_mut(&mut self) -> (r: &mut MemoryStore<S>)
        ensures
            *r == old(self).memory_view(),
            final(self).memory_view() == *final(r),
            final(self).session_seq() == old(self).session_seq(),
            final(self).knowledge_view() == old(self).knowledge_view(),
    {
        &mut self.memory_store
    }

    /// The knowledge graph.
    pub fn knowledge(&self) -> (r: &KnowledgeGraph<D>)
        ensures
            *r == self.knowledge_view(),
    {
        &self.knowledge_graph
    }

    /// The knowledge graph, to change.
    pub fn knowledge_mut(&mut self) -> (r: &mut KnowledgeGraph<D>)
        ensures
            *r == old(self).knowledge_view(),
            final(self).knowledge_view() == *final(r),
            final(self).session_seq() == old(self).session_seq(),
            final(self).memory_view() == old(self).memory_view(),
    {
        &mut self.knowledge_graph
    }

    /// The session ids, in the order the sessions were created.
    pub fn list_sessions(&self) -> (r: Vec<String>)
        ensures
            texts(r@) == key_seq(session_entries(self.session_seq())),
    {
        let ghost ks = key_seq(session_entries(self.session_seq()));
        let mut r: Vec<String> = Vec::new();
        let mut i: usize = 0;
        while i < self.sessions.len()
            invariant
                ks == key_seq(session_entries(self.sessions@)),
                i <= self.sessions@.len(),
                texts(r@) == ks.take(i as int),
            decreases self.sessions@.len() - i,
        {
            let ghost before = r@;
            r.push(self.sessions[i].id.clone());
            proof {
                assert(texts(r@) =~= texts(before).push(self.sessions@[i as int].id@));
                assert(ks.take(i + 1) =~= ks.take(i as int).push(ks[i as int]));
            }
            i += 1;
        }
        assert(ks.take(i as int) =~= ks);
        r
    }
}

impl<C, M, S, D> Default for LearningEngine<C, M, S, D> {
    fn default() -> (r: Self)
        ensures
            r.wf(),
            r.session_seq() == Seq::<LearningSession<C, M>>::empty(),
    {
        Self::new()
    }
}

/// Once a session is stopped it stays filed under its id, inactive, with
/// the metrics it had: recording into it is then refused.
pub proof fn law_stopped_session_refuses<C, M>(ss: Seq<LearningSession<C, M>>, id: Seq<char>)
    requires
        keys_distinct(session_entries(ss)),
        seq_to_map(session_entries(ss)).dom().contains(id),
    ensures
        ({
            let k = key_index(session_entries(ss), id);
            let stopped = ss.update(k, LearningSession { is_active: false, ..ss[k] });
            &&& seq_to_map(session_entries(stopped)).dom().contains(id)
            &&& !seq_to_map(session_entries(stopped))[id].is_active
            &&& seq_to_map(session_entries(stopped))[id].metrics_history == seq_to_map(session_entries(ss))[id].metrics_history
        }),
{
    let es = session_entries(ss);
    let k = key_index(es, id);
    assert(0 <= k < ss.len() && es[k].0 == id);
    let ns = LearningSession { is_active: false, ..ss[k] };
    let stopped = ss.update(k, ns);
    assert(session_entries(stopped) =~= es.update(k, (es[k].0, ns)));
    lemma_update(es, k, ns);
    lemma_entry(es, k);
}

} // verus!
