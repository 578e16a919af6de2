//! Streamed answers: a session collects the chunks of one answer, and the
//! manager keeps the sessions by id.
use vstd::prelude::*;
use vstd::utf8::encode_utf8;
use crate::text::{decimal, push_decimal};
use crate::inference::types::{ModelId, StreamChunk, InferenceError};

verus! {

/// The tokens a chunk counts for: its length in bytes, cut to 32 bits.
pub open spec fn token_count(content: String) -> u32 {
    (encode_utf8(content@).len() as usize) as u32
}

/// The contents of the chunks, one after another.
pub open spec fn chunks_text(cs: Seq<StreamChunk>) -> Seq<char>
    decreases cs.len(),
{
    if cs.len() == 0 {
        Seq::empty()
    } else {
        chunks_text(cs.drop_last()) + cs.last().content@
    }
}

/// The sum of the chunks' latencies.
pub open spec fn latency_sum(cs: Seq<StreamChunk>) -> nat
    decreases cs.len(),
{
    if cs.len() == 0 {
        0
    } else {
        latency_sum(cs.drop_last()) + cs.last().latency_ms as nat
    }
}

proof fn lemma_latency_prefix(cs: Seq<StreamChunk>, i: int)
    requires
        0 <= i <= cs.len(),
    ensures
        latency_sum(cs.take(i)) <= latency_sum(cs),
    decreases cs.len(),
{
    if i < cs.len() {
        assert(cs.drop_last().take(i) =~= cs.take(i));
        lemma_latency_prefix(cs.drop_last(), i);
    } else {
        assert(cs.take(i) =~= cs);
    }
}

/// A session of one streamed answer.
pub struct StreamSession {
    pub id: u64,
    pub model_id: ModelId,
    pub chunks: Vec<StreamChunk>,
    pub total_tokens: u32,
    pub is_complete: bool,
    pub created_at: u64,
}

/// `after` is `before` with one more chunk: the chunk is kept, its bytes
/// are counted, and a final chunk completes the session.
pub open spec fn chunk_added(before: StreamSession, c: StreamChunk, after: StreamSession) -> bool {
    &&& after.id == before.id
    &&& after.model_id == before.model_id
    &&& after.created_at == before.created_at
    &&& after.chunks@ == before.chunks@.push(c)
    &&& after.total_tokens == before.total_tokens + token_count(c.content)
    &&& after.is_complete == (before.is_complete || c.is_final)
}

/// A session that has just been opened.
pub open spec fn fresh_session(s: StreamSession, id: u64, model_id: ModelId, created_at: u64) -> bool {
    &&& s.id == id
    &&& s.model_id == model_id
    &&& s.chunks@.len() == 0
    &&& s.total_tokens == 0
    &&& !s.is_complete
    &&& s.created_at == created_at
}

impl StreamSession {
    pub fn new(id: u64, model_id: ModelId) -> (r: StreamSession)
        ensures
            fresh_session(r, id, model_id, 0),
    {
        StreamSession { id, model_id, chunks: Vec::new(), total_tokens: 0, is_complete: false, created_at: 0 }
    }

    pub fn new_with_timestamp(id: u64, model_id: ModelId, created_at: u64) -> (r: StreamSession)
        ensures
            fresh_session(r, id, model_id, created_at),
    {
        StreamSession { id, model_id, chunks: Vec::new(), total_tokens: 0, is_complete: false, created_at }
    }

    /// Adds a chunk; the token count must stay within `u32`.
    pub fn add_chunk(&mut self, chunk: StreamChunk)
        requires
            old(self).total_tokens + token_count(chunk.content) <= u32::MAX,
        ensures
            chunk_added(*old(self), chunk, *final(self)),
    {
        let n = chunk.content.as_str().len();
        self.total_tokens = self.total_tokens + n as u32;
        if chunk.is_final {
            self.is_complete = true;
        }
        self.chunks.push(chunk);
    }

    /// The contents of all chunks, in order.
    pub fn full_text(&self) -> (r: String)
        ensures
            r@ == chunks_text(self.chunks@),
    {
        let mut r = String::new();
        let mut i: usize = 0;
        while i < self.chunks.len()
            invariant
                i <= self.chunks@.len(),
                r@ == chunks_text(self.chunks@.take(i as int)),
            decreases self.chunks@.len() - i,
        {
            r.append(self.chunks[i].content.as_str());
            assert(self.chunks@.take(i + 1).drop_last() =~= self.chunks@.take(i as int));
            i += 1;
        }
        assert(self.chunks@.take(i as int) =~= self.chunks@);
        r
    }

    pub fn chunk_count(&self) -> (r: usize)
        ensures
            r == self.chunks@.len(),
    {
        self.chunks.len()
    }

    pub fn is_complete(&self) -> (r: bool)
        ensures
            r == self.is_complete,
    {
        self.is_complete
    }

    pub fn last_chunk(&self) -> (r: Option<&StreamChunk>)
        ensures
            match r {
                Some(c) => self.chunks@.len() > 0 && *c == self.chunks@.last(),
                None => self.chunks@.len() == 0,
            },
    {
        if self.chunks.len() == 0 {
            None
        } else {
            Some(&self.chunks[self.chunks.len() - 1])
        }
    }

    /// The sum of the chunks' latencies, which must fit in `u32`.
    pub fn total_latency_ms(&self) -> (r: u32)
        requires
            latency_sum(self.chunks@) <= u32::MAX,
        ensures
            r == latency_sum(self.chunks@),
    {
        let mut total: u32 = 0;
        let mut i: usize = 0;
        while i < self.chunks.len()
            invariant
                i <= self.chunks@.len(),
                latency_sum(self.chunks@) <= u32::MAX,
                total == latency_sum(self.chunks@.take(i as int)),
            decreases self.chunks@.len() - i,
        {
            proof {
                assert(self.chunks@.take(i + 1).drop_last() =~= self.chunks@.take(i as int));
                lemma_latency_prefix(self.chunks@, i + 1);
            }
            total = total + self.chunks[i].latency_ms;
            i += 1;
        }
        assert(self.chunks@.take(i as int) =~= self.chunks@);
        total
    }
}

/// Session ids rise along the list.
pub open spec fn ids_increasing(ss: Seq<StreamSession>) -> bool {
    forall|a: int, b: int| 0 <= a < b < ss.len() ==> #[trigger] ss[a].id < #[trigger] ss[b].id
}

/// Some session has the id.
pub open spec fn has_session(ss: Seq<StreamSession>, id: u64) -> bool {
    exists|i: int| 0 <= i < ss.len() && #[trigger] ss[i].id == id
}

/// The position of the session with the id.
pub open spec fn session_index(ss: Seq<StreamSession>, id: u64) -> int {
    choose|i: int| 0 <= i < ss.len() && #[trigger] ss[i].id == id
}

pub open spec fn not_complete(s: StreamSession) -> bool {
    !s.is_complete
}

pub open spec fn other_than(id: u64) -> spec_fn(StreamSession) -> bool {
    |s: StreamSession| s.id != id
}

proof fn lemma_filter_keeps_order(ss: Seq<StreamSession>, pred: spec_fn(StreamSession) -> bool)
    requires
        ids_increasing(ss),
    ensures
        ids_increasing(ss.filter(pred)),
        forall|k: int| 0 <= k < ss.filter(pred).len() ==> ss.contains(#[trigger] ss.filter(pred)[k]),
    decreases ss.len(),
{
    reveal(Seq::filter);
    if ss.len() > 0 {
        let d = ss.drop_last();
        lemma_filter_keeps_order(d, pred);
        let f = d.filter(pred);
        assert forall|k: int| 0 <= k < f.len() implies #[trigger] f[k].id < ss.last().id by {
            let j = choose|j: int| 0 <= j < d.len() && d[j] == f[k];
            assert(ss[j] == d[j]);
        }
        assert forall|k: int| 0 <= k < ss.filter(pred).len() implies ss.contains(#[trigger] ss.filter(pred)[k]) by {
            if k < f.len() {
                let j = choose|j: int| 0 <= j < d.len() && d[j] == f[k];
                assert(ss[j] == d[j]);
            } else {
                assert(ss[ss.len() - 1] == ss.last());
            }
        }
    }
}

/// The streamed sessions, kept in the order of their ids.
pub struct StreamManager {
    sessions: Vec<StreamSession>,
    next_session_id: u64,
}

impl StreamManager {
    /// The sessions, by rising id.
    pub closed spec fn sessions(&self) -> Seq<StreamSession> {
        self.sessions@
    }

    /// The id the next session gets.
    pub closed spec fn next_id(&self) -> u64 {
        self.next_session_id
    }

    /// Ids rise along the list and stay below the next id.
    pub open spec fn wf(&self) -> bool {
        &&& ids_increasing(self.sessions())
        &&& forall|i: int| 0 <= i < self.sessions().len() ==> #[trigger] self.sessions()[i].id < self.next_id()
    }

    /// No sessions; ids start at 1.
    pub fn new() -> (r: StreamManager)
        ensures
            r.wf(),
            r.sessions().len() == 0,
            r.next_id() == 1,
    {
        StreamManager { sessions: Vec::new(), next_session_id: 1 }
    }

    fn find(&self, id: u64) -> (r: Option<usize>)
        requires
            self.wf(),
        ensures
            match r {
                Some(i) => i < self.sessions().len() && self.sessions()[i as int].id == id && has_session(
                    self.sessions(),
                    id,
                ) && session_index(self.sessions(), id) == i,
                None => !has_session(self.sessions(), id),
            },
    {
        let mut i: usize = 0;
        while i < self.sessions.len()
            invariant
                i <= self.sessions@.len(),
                self.wf(),
                forall|q: int| 0 <= q < i ==> #[trigger] self.sessions@[q].id != id,
            decreases self.sessions@.len() - i,
        {
            if self.sessions[i].id == id {
                proof {
                    let ss = self.sessions@;
                    assert(has_session(ss, id));
                    let c = session_index(ss, id);
                    if c != i {
                        if c < i {
                            assert(ss[c].id < ss[i as int].id);
                        } else {
                            assert(ss[i as int].id < ss[c].id);
                        }
                    }
                }
                return Some(i);
            }
            i += 1;
        }
        None
    }

    /// Opens a session for a model and returns its id.
    pub fn create_session(&mut self, model_id: ModelId) -> (r: u64)
        requires
            old(self).wf(),
            old(self).next_id() < u64::MAX,
        ensures
            final(self).wf(),
            r == old(self).next_id(),
            final(self).next_id() == old(self).next_id() + 1,
            final(self).sessions().len() == old(self).sessions().len() + 1,
            final(self).sessions().drop_last() == old(self).sessions(),
            fresh_session(final(self).sessions().last(), r, model_id, 0),
    {
        let id = self.next_session_id;
        self.next_session_id = self.next_session_id + 1;
        let session = StreamSession::new(id, model_id);
        self.sessions.push(session);
        assert(self.sessions@.drop_last() =~= old(self).sessions@);
        id
    }

    /// The message of a missing session: `会话 {id} 不存在`.
    fn missing(session_id: u64) -> (r: InferenceError)
        ensures
            r is ModelNotFound,
            r->ModelNotFound_0@ == "会话 "@ + decimal(session_id as nat) + " 不存在"@,
    {
        let mut msg = String::from_str("会话 ");
        push_decimal(&mut msg, session_id);
        msg.append(" 不存在");
        InferenceError::ModelNotFound(msg)
    }

    /// Adds a chunk to an open session; the token count of an open session
    /// must stay within `u32`.
    pub fn add_chunk(&mut self, session_id: u64, chunk: StreamChunk) -> (r: Result<(), InferenceError>)
        requires
            old(self).wf(),
            has_session(old(self).sessions(), session_id) && !old(self).sessions()[session_index(
                old(self).sessions(),
                session_id,
            )].is_complete ==> old(self).sessions()[session_index(old(self).sessions(), session_id)].total_tokens
                + token_count(chunk.content) <= u32::MAX,
        ensures
            final(self).wf(),
            final(self).next_id() == old(self).next_id(),
            !has_session(old(self).sessions(), session_id) ==> r is Err && r->Err_0 is ModelNotFound
                && r->Err_0->ModelNotFound_0@ == "会话 "@ + decimal(session_id as nat) + " 不存在"@ && final(self).sessions()
                == old(self).sessions(),
            has_session(old(self).sessions(), session_id) ==> {
                let i = session_index(old(self).sessions(), session_id);
                let s = old(self).sessions()[i];
                if s.is_complete {
                    &&& r is Err && r->Err_0 is InferenceFailed
                    &&& r->Err_0->InferenceFailed_0@ == "会话 "@ + decimal(session_id as nat) + " 已完成，无法添加新块"@
                    &&& final(self).sessions() == old(self).sessions()
                } else {
                    &&& r is Ok
                    &&& final(self).sessions().len() == old(self).sessions().len()
                    &&& final(self).sessions() == old(self).sessions().update(i, final(self).sessions()[i])
                    &&& chunk_added(s, chunk, final(self).sessions()[i])
                }
            },
    {
        match self.find(session_id) {
            None => Err(Self::missing(session_id)),
            Some(i) => {
                if self.sessions[i].is_complete {
                    let mut msg = String::from_str("会话 ");
                    push_decimal(&mut msg, session_id);
                    msg.append(" 已完成，无法添加新块");
                    return Err(InferenceError::InferenceFailed(msg));
                }
                self.sessions[i].add_chunk(chunk);
                proof {
                    assert(self.sessions@ =~= old(self).sessions@.update(i as int, self.sessions@[i as int]));
                    assert forall|a: int, b: int| 0 <= a < b < self.sessions@.len() implies #[trigger] self.sessions@[a].id
                        < #[trigger] self.sessions@[b].id by {
                        assert(old(self).sessions@[a].id < old(self).sessions@[b].id);
                    }
                    assert forall|k: int| 0 <= k < self.sessions@.len() implies #[trigger] self.sessions@[k].id
                        < self.next_session_id by {
                        assert(old(self).sessions@[k].id < self.next_session_id);
                    }
                }
                Ok(())
            },
        }
    }

    /// The session with the id.
    pub fn get_session(&self, session_id: u64) -> (r: Option<&StreamSession>)
        requires
            self.wf(),
        ensures
            match r {
                Some(s) => has_session(self.sessions(), session_id) && *s == self.sessions()[session_index(
                    self.sessions(),
                    session_id,
                )],
                None => !has_session(self.sessions(), session_id),
            },
    {
        match self.find(session_id) {
            Some(i) => Some(&self.sessions[i]),
            None => None,
        }
    }

    /// Marks a session complete.
    pub fn complete_session(&mut self, session_id: u64) -> (r: Result<(), InferenceError>)
        requires
            old(self).wf(),
        ensures
            final(self).wf(),
            final(self).next_id() == old(self).next_id(),
            !has_session(old(self).sessions(), session_id) ==> r is Err && r->Err_0 is ModelNotFound
                && r->Err_0->ModelNotFound_0@ == "会话 "@ + decimal(session_id as nat) + " 不存在"@ && final(self).sessions()
                == old(self).sessions(),
            has_session(old(self).sessions(), session_id) ==> {
                let i = session_index(old(self).sessions(), session_id);
                &&& r is Ok
                &&& final(self).sessions() == old(self).sessions().update(
                    i,
                    StreamSession { is_complete: true, ..old(self).sessions()[i] },
                )
            },
    {
        match self.find(session_id) {
            None => Err(Self::missing(session_id)),
            Some(i) => {
                self.sessions[i].is_complete = true;
                proof {
                    assert(self.sessions@ =~= old(self).sessions@.update(
                        i as int,
                        StreamSession { is_complete: true, ..old(self).sessions@[i as int] },
                    ));
                    assert forall|a: int, b: int| 0 <= a < b < self.sessions@.len() implies #[trigger] self.sessions@[a].id
                        < #[trigger] self.sessions@[b].id by {
                        assert(old(self).sessions@[a].id < old(self).sessions@[b].id);
                    }
                    assert forall|k: int| 0 <= k < self.sessions@.len() implies #[trigger] self.sessions@[k].id
                        < self.next_session_id by {
                        assert(old(self).sessions@[k].id < self.next_session_id);
                    }
                }
                Ok(())
            },
        }
    }

    /// Drops the session with the id, if there is one.
    pub fn cancel_session(&mut self, session_id: u64)
        requires
            old(self).wf(),
        ensures
            final(self).wf(),
            final(self).next_id() == old(self).next_id(),
            final(self).sessions() == old(self).sessions().filter(other_than(session_id)),
    {
        let ghost pred = other_than(session_id);
        let ghost orig = self.sessions@;
        let n = self.sessions.len();
        let mut i: usize = 0;
        let mut k: usize = 0;
        proof {
            reveal(Seq::filter);
            assert(orig.take(0).filter(pred) =~= Seq::<StreamSession>::empty());
            assert(orig.skip(0) =~= orig);
        }
        while k < n
            invariant
                pred == other_than(session_id),
                k <= orig.len(),
                n == orig.len(),
                self.sessions@ == orig.take(k as int).filter(pred) + orig.skip(k as int),
                i == orig.take(k as int).filter(pred).len(),
                self.next_session_id == old(self).next_session_id,
            decreases orig.len() - k,
        {
            proof {
                reveal(Seq::filter);
                assert(orig.take(k as int).filter(pred).len() <= k) by {
                    orig.take(k as int).lemma_filter_len(pred);
                }
                assert(orig.take(k + 1).drop_last() =~= orig.take(k as int));
                assert(orig.skip(k as int)[0] == orig[k as int]);
                assert(self.sessions@[i as int] == orig[k as int]);
            }
            if self.sessions[i].id == session_id {
                self.sessions.remove(i);
                assert(self.sessions@ =~= orig.take(k + 1).filter(pred) + orig.skip(k + 1));
            } else {
                assert(self.sessions@ =~= orig.take(k + 1).filter(pred) + orig.skip(k + 1));
                i += 1;
            }
            k += 1;
        }
        proof {
            assert(orig.take(k as int) =~= orig);
            assert(self.sessions@ =~= orig.filter(pred));
            lemma_filter_keeps_order(orig, pred);
            assert forall|q: int| 0 <= q < self.sessions@.len() implies #[trigger] self.sessions@[q].id
                < self.next_session_id by {
                let j = choose|j: int| 0 <= j < orig.len() && orig[j] == self.sessions@[q];
            }
        }
    }

    /// The number of sessions that are not complete.
    pub fn active_sessions(&self) -> (r: usize)
        ensures
            r == self.sessions().filter(|s: StreamSession| not_complete(s)).len(),
    {
        let ghost pred = |s: StreamSession| not_complete(s);
        let mut n: usize = 0;
        let mut i: usize = 0;
        proof {
            reveal(Seq::filter);
            assert(self.sessions@.take(0).filter(pred) =~= Seq::<StreamSession>::empty());
        }
        while i < self.sessions.len()
            invariant
                pred == (|s: StreamSession| not_complete(s)),
                i <= self.sessions@.len(),
                n == self.sessions@.take(i as int).filter(pred).len(),
                n <= i,
            decreases self.sessions@.len() - i,
        {
            proof {
                reveal(Seq::filter);
                assert(self.sessions@.take(i + 1).drop_last() =~= self.sessions@.take(i as int));
            }
            if !self.sessions[i].is_complete {
                n += 1;
            }
            i += 1;
        }
        assert(self.sessions@.take(i as int) =~= self.sessions@);
        n
    }

    pub fn total_sessions(&self) -> (r: usize)
        ensures
            r == self.sessions().len(),
    {
        self.sessions.len()
    }

    /// Drops the complete sessions and returns how many were dropped.
    pub fn cleanup_completed(&mut self) -> (r: usize)
        requires
            old(self).wf(),
        ensures
            final(self).wf(),
            final(self).next_id() == old(self).next_id(),
            final(self).sessions() == old(self).sessions().filter(|s: StreamSession| not_complete(s)),
            r == old(self).sessions().len() - final(self).sessions().len(),
    {
        let ghost pred = |s: StreamSession| not_complete(s);
        let ghost orig = self.sessions@;
        let before = self.sessions.len();
        let mut i: usize = 0;
        let mut k: usize = 0;
        proof {
            reveal(Seq::filter);
            assert(orig.take(0).filter(pred) =~= Seq::<StreamSession>::empty());
            assert(orig.skip(0) =~= orig);
        }
        while k < before
            invariant
                pred == (|s: StreamSession| not_complete(s)),
                k <= orig.len(),
                before == orig.len(),
                self.sessions@ == orig.take(k as int).filter(pred) + orig.skip(k as int),
                i == orig.take(k as int).filter(pred).len(),
                self.next_session_id == old(self).next_session_id,
            decreases orig.len() - k,
        {
            proof {
                reveal(Seq::filter);
                assert(orig.take(k as int).filter(pred).len() <= k) by {
                    orig.take(k as int).lemma_filter_len(pred);
                }
                assert(orig.take(k + 1).drop_last() =~= orig.take(k as int));
                assert(orig.skip(k as int)[0] == orig[k as int]);
                assert(self.sessions@[i as int] == orig[k as int]);
            }
            if self.sessions[i].is_complete {
                self.sessions.remove(i);
                assert(self.sessions@ =~= orig.take(k + 1).filter(pred) + orig.skip(k + 1));
            } else {
                assert(self.sessions@ =~= orig.take(k + 1).filter(pred) + orig.skip(k + 1));
                i += 1;
            }
            k += 1;
        }
        proof {
            assert(orig.take(k as int) =~= orig);
            assert(self.sessions@ =~= orig.filter(pred));
            lemma_filter_keeps_order(orig, pred);
            orig.lemma_filter_len(pred);
            assert forall|q: int| 0 <= q < self.sessions@.len() implies #[trigger] self.sessions@[q].id
                < self.next_session_id by {
                let j = choose|j: int| 0 <= j < orig.len() && orig[j] == self.sessions@[q];
            }
        }
        before - self.sessions.len()
    }

    /// The ids of the sessions that are not complete, rising.
    pub fn active_session_ids(&self) -> (r: Vec<u64>)
        ensures
            r@ == self.sessions().filter(|s: StreamSession| not_complete(s)).map_values(|s: StreamSession| s.id),
    {
        let ghost pred = |s: StreamSession| not_complete(s);
        let mut r: Vec<u64> = Vec::new();
        let mut i: usize = 0;
        proof {
            reveal(Seq::filter);
            assert(self.sessions@.take(0).filter(pred) =~= Seq::<StreamSession>::empty());
        }
        while i < self.sessions.len()
            invariant
                pred == (|s: StreamSession| not_complete(s)),
                i <= self.sessions@.len(),
                r@ == self.sessions@.take(i as int).filter(pred).map_values(|s: StreamSession| s.id),
            decreases self.sessions@.len() - i,
        {
            proof {
                reveal(Seq::filter);
                assert(self.sessions@.take(i + 1).drop_last() =~= self.sessions@.take(i as int));
            }
            if !self.sessions[i].is_complete {
                r.push(self.sessions[i].id);
                assert(r@ =~= self.sessions@.take(i + 1).filter(pred).map_values(|s: StreamSession| s.id));
            } else {
                assert(r@ =~= self.sessions@.take(i + 1).filter(pred).map_values(|s: StreamSession| s.id));
            }
            i += 1;
        }
        assert(self.sessions@.take(i as int) =~= self.sessions@);
        r
    }
}

impl Default for StreamManager {
    fn default() -> (r: StreamManager)
        ensures
            r.wf(),
            r.sessions().len() == 0,
            r.next_id() == 1,
    {
        StreamManager::new()
    }
}

} // verus!
