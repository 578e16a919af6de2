//! Triggers: what starts a workflow without a direct call, and the check
//! that, given the time and the events seen, names the workflows to start.
use vstd::prelude::*;
use crate::text::{texts, str_equal, starts_with};
use crate::keyed::{keys_distinct, seq_to_map, lemma_entry, lemma_absent, lemma_empty, lemma_push, lemma_update, lemma_remove};
use crate::automation::error::AutomationError;

verus! {

/// What a file watch reacts to.
#[derive(Debug, Clone, Copy, PartialEq, Eq, Structural)]
pub enum FileWatchEvent {
    Created,
    Modified,
    Deleted,
    Any,
}

/// How a trigger fires.
#[derive(Debug, Clone, PartialEq, Eq)]
pub enum TriggerType {
    /// On a schedule (a cron expression).
    Schedule { cron: String },
    /// When an event of the given type is seen.
    Event { event_type: String, filter: Option<String> },
    /// Only when started by hand.
    Manual,
    /// Only through a web hook.
    Webhook { path: String, method: String },
    /// When a file event is seen.
    FileWatch { path: String, event: FileWatchEvent },
}

/// A trigger that starts a workflow.
#[derive(Debug, Clone)]
pub struct Trigger {
    pub id: String,
    pub name: String,
    pub trigger_type: TriggerType,
    pub workflow_id: String,
    pub enabled: bool,
    pub last_triggered: Option<u64>,
    pub created_at: u64,
}

impl Trigger {
    /// An enabled trigger that has never fired.
    pub fn new(id: &str, name: &str, trigger_type: TriggerType, workflow_id: &str) -> (r: Trigger)
        ensures
            r.id@ == id@,
            r.name@ == name@,
            r.trigger_type == trigger_type,
            r.workflow_id@ == workflow_id@,
            r.enabled,
            r.last_triggered is None,
            r.created_at == 0,
    {
        Trigger {
            id: String::from_str(id),
            name: String::from_str(name),
            trigger_type,
            workflow_id: String::from_str(workflow_id),
            enabled: true,
            last_triggered: None,
            created_at: 0,
        }
    }
}

/// `s` begins with `p`.
pub open spec fn has_prefix(p: Seq<char>, s: Seq<char>) -> bool {
    p.len() <= s.len() && s.subrange(0, p.len() as int) == p
}

/// An event text matches what a file watch reacts to.
pub open spec fn file_event_matches(event: FileWatchEvent, e: Seq<char>) -> bool {
    match event {
        FileWatchEvent::Created => has_prefix("file:created:"@, e),
        FileWatchEvent::Modified => has_prefix("file:modified:"@, e),
        FileWatchEvent::Deleted => has_prefix("file:deleted:"@, e),
        FileWatchEvent::Any => has_prefix("file:created:"@, e) || has_prefix("file:modified:"@, e) || has_prefix(
            "file:deleted:"@,
            e,
        ),
    }
}

/// Whether a trigger fires at time `now` given the events seen: an enabled
/// schedule fires unless it already fired at `now` or later, an event
/// trigger on an event of its type, a file watch on a matching file event;
/// manual and web-hook triggers never fire here.
pub open spec fn should_fire(t: Trigger, now: u64, events: Seq<Seq<char>>) -> bool {
    t.enabled && match t.trigger_type {
        TriggerType::Manual => false,
        TriggerType::Schedule { .. } => match t.last_triggered {
            None => true,
            Some(last) => now > last,
        },
        TriggerType::Event { event_type, .. } => events.contains(event_type@),
        TriggerType::Webhook { .. } => false,
        TriggerType::FileWatch { event, .. } => exists|i: int|
            0 <= i < events.len() && file_event_matches(event, #[trigger] events[i]),
    }
}

/// The workflow ids of the triggers that fire, in the triggers' order.
pub open spec fn fired(ts: Seq<Trigger>, now: u64, events: Seq<Seq<char>>) -> Seq<Seq<char>>
    decreases ts.len(),
{
    if ts.len() == 0 {
        Seq::empty()
    } else {
        let rest = fired(ts.drop_last(), now, events);
        if should_fire(ts.last(), now, events) {
            rest.push(ts.last().workflow_id@)
        } else {
            rest
        }
    }
}

pub open spec fn trigger_entries(v: Seq<Trigger>) -> Seq<(Seq<char>, Trigger)> {
    v.map_values(|t: Trigger| (t.id@, t))
}

fn file_event_seen(event: FileWatchEvent, e: &String) -> (r: bool)
    ensures
        r == file_event_matches(event, e@),
{
    match event {
        FileWatchEvent::Created => starts_with(e.as_str(), "file:created:"),
        FileWatchEvent::Modified => starts_with(e.as_str(), "file:modified:"),
        FileWatchEvent::Deleted => starts_with(e.as_str(), "file:deleted:"),
        FileWatchEvent::Any => starts_with(e.as_str(), "file:created:") || starts_with(e.as_str(), "file:modified:")
            || starts_with(e.as_str(), "file:deleted:"),
    }
}

#[verifier::loop_isolation(false)]
fn trigger_fires(t: &Trigger, now: u64, events: &[String]) -> (r: bool)
    ensures
        r == should_fire(*t, now, texts(events@)),
{
    if !t.enabled {
        return false;
    }
    match &t.trigger_type {
        TriggerType::Manual => false,
        TriggerType::Schedule { .. } => match t.last_triggered {
            None => true,
            Some(last) => now > last,
        },
        TriggerType::Event { event_type, .. } => {
            let mut i: usize = 0;
            while i < events.len()
                invariant
                    i <= events@.len(),
                    forall|q: int| 0 <= q < i ==> #[trigger] events@[q]@ != event_type@,
                decreases events@.len() - i,
            {
                if str_equal(events[i].as_str(), event_type.as_str()) {
                    assert(texts(events@)[i as int] == event_type@);
                    return true;
                }
                i += 1;
            }
            proof {
                if texts(events@).contains(event_type@) {
                    let q = choose|q: int| 0 <= q < texts(events@).len() && texts(events@)[q] == event_type@;
                    assert(events@[q]@ == event_type@);
                }
            }
            false
        },
        TriggerType::Webhook { .. } => false,
        TriggerType::FileWatch { event, .. } => {
            let mut i: usize = 0;
            while i < events.len()
                invariant
                    i <= events@.len(),
                    forall|q: int| 0 <= q < i ==> !file_event_matches(*event, #[trigger] texts(events@)[q]),
                decreases events@.len() - i,
            {
                if file_event_seen(*event, &events[i]) {
                    assert(texts(events@)[i as int] == events@[i as int]@);
                    return true;
                }
                assert(texts(events@)[i as int] == events@[i as int]@);
                i += 1;
            }
            false
        },
    }
}

/// The registered triggers, kept under distinct ids.
pub struct TriggerManager {
    triggers: Vec<Trigger>,
}

impl TriggerManager {
    /// The triggers, in the order they were first registered.
    pub closed spec fn triggers(&self) -> Seq<Trigger> {
        self.triggers@
    }

    /// The triggers by id.
    pub open spec fn trigger_map(&self) -> Map<Seq<char>, Trigger> {
        seq_to_map(trigger_entries(self.triggers()))
    }

    pub open spec fn wf(&self) -> bool {
        keys_distinct(trigger_entries(self.triggers()))
    }

    /// No triggers.
    pub fn new() -> (r: TriggerManager)
        ensures
            r.wf(),
            r.triggers().len() == 0,
            r.trigger_map() == Map::<Seq<char>, Trigger>::empty(),
    {
        let r = TriggerManager { triggers: Vec::new() };
        proof {
            lemma_empty::<Seq<char>, Trigger>();
            assert(trigger_entries(r.triggers()) =~= Seq::<(Seq<char>, Trigger)>::empty());
        }
        r
    }

    fn find(&self, id: &str) -> (r: Option<usize>)
        requires
            self.wf(),
        ensures
            match r {
                Some(i) => i < self.triggers().len() && self.triggers()[i as int].id@ == id@
                    && self.trigger_map().dom().contains(id@) && self.trigger_map()[id@] == self.triggers()[i as int],
                None => !self.trigger_map().dom().contains(id@),
            },
    {
        let ghost s = trigger_entries(self.triggers@);
        let mut i: usize = 0;
        while i < self.triggers.len()
            invariant
                i <= self.triggers@.len(),
                s == trigger_entries(self.triggers@),
                keys_distinct(s),
                forall|q: int| 0 <= q < i ==> #[trigger] s[q].0 != id@,
            decreases self.triggers@.len() - i,
        {
            assert(s[i as int].0 == self.triggers@[i as int].id@);
            if str_equal(self.triggers[i].id.as_str(), id) {
                proof {
                    lemma_entry(s, i as int);
                }
                return Some(i);
            }
            i += 1;
        }
        proof {
            lemma_absent(s, id@);
        }
        None
    }

    /// Registers a trigger under its id; one already there with that id is
    /// replaced in its place.
    pub fn register(&mut self, trigger: Trigger) -> (r: Result<(), AutomationError>)
        requires
            old(self).wf(),
        ensures
            final(self).wf(),
            r is Ok,
            final(self).trigger_map() == old(self).trigger_map().insert(trigger.id@, trigger),
            !old(self).trigger_map().dom().contains(trigger.id@) ==> final(self).triggers() == old(self).triggers().push(
                trigger,
            ),
            old(self).trigger_map().dom().contains(trigger.id@) ==> exists|i: int|
                0 <= i < old(self).triggers().len() && old(self).triggers()[i].id@ == trigger.id@ && final(self).triggers()
                    == old(self).triggers().update(i, trigger),
    {
        let ghost s = trigger_entries(self.triggers@);
        let ghost t = trigger;
        let ghost k = trigger.id@;
        match self.find(trigger.id.as_str()) {
            Some(i) => {
                self.triggers.set(i, trigger);
                proof {
                    lemma_update(s, i as int, t);
                    assert(trigger_entries(self.triggers@) =~= s.update(i as int, (k, t)));
                }
            },
            None => {
                self.triggers.push(trigger);
                proof {
                    lemma_push(s, k, t);
                    assert(trigger_entries(self.triggers@) =~= s.push((k, t)));
                }
            },
        }
        Ok(())
    }

    /// Removes a trigger.
    pub fn unregister(&mut self, trigger_id: &str) -> (r: Result<(), AutomationError>)
        requires
            old(self).wf(),
        ensures
            final(self).wf(),
            final(self).trigger_map() == old(self).trigger_map().remove(trigger_id@),
            r is Ok <==> old(self).trigger_map().dom().contains(trigger_id@),
            r is Err ==> r->Err_0 is InvalidTrigger && r->Err_0->InvalidTrigger_0@ == trigger_id@ && final(self).triggers()
                == old(self).triggers(),
            r is Ok ==> exists|i: int|
                0 <= i < old(self).triggers().len() && old(self).triggers()[i].id@ == trigger_id@ && final(self).triggers()
                    == old(self).triggers().remove(i),
    {
        match self.find(trigger_id) {
            Some(i) => {
                let ghost s = trigger_entries(self.triggers@);
                self.triggers.remove(i);
                proof {
                    lemma_remove(s, i as int);
                    assert(trigger_entries(self.triggers@) =~= s.remove(i as int));
                }
                Ok(())
            },
            None => {
                proof {
                    assert(old(self).trigger_map().remove(trigger_id@) =~= old(self).trigger_map());
                }
                Err(AutomationError::InvalidTrigger(String::from_str(trigger_id)))
            },
        }
    }

    /// Sets whether a trigger is enabled.
    fn set_enabled(&mut self, trigger_id: &str, enabled: bool) -> (r: Result<(), AutomationError>)
        requires
            old(self).wf(),
        ensures
            final(self).wf(),
            r is Ok <==> old(self).trigger_map().dom().contains(trigger_id@),
            r is Err ==> r->Err_0 is InvalidTrigger && r->Err_0->InvalidTrigger_0@ == trigger_id@ && final(self).triggers()
                == old(self).triggers(),
            r is Ok ==> final(self).trigger_map() == old(self).trigger_map().insert(
                trigger_id@,
                Trigger { enabled: enabled, ..old(self).trigger_map()[trigger_id@] },
            ) && exists|i: int|
                0 <= i < old(self).triggers().len() && old(self).triggers()[i].id@ == trigger_id@ && final(self).triggers()
                    == old(self).triggers().update(i, Trigger { enabled: enabled, ..old(self).triggers()[i] }),
    {
        match self.find(trigger_id) {
            Some(i) => {
                let ghost s = trigger_entries(self.triggers@);
                let ghost t = Trigger { enabled: enabled, ..self.triggers@[i as int] };
                self.triggers[i].enabled = enabled;
                proof {
                    lemma_update(s, i as int, t);
                    assert(trigger_entries(self.triggers@) =~= s.update(i as int, (s[i as int].0, t)));
                    assert(self.triggers@ =~= old(self).triggers@.update(i as int, t));
                }
                Ok(())
            },
            None => Err(AutomationError::InvalidTrigger(String::from_str(trigger_id))),
        }
    }

    /// Enables a trigger.
    pub fn enable(&mut self, trigger_id: &str) -> (r: Result<(), AutomationError>)
        requires
            old(self).wf(),
        ensures
            final(self).wf(),
            r is Ok <==> old(self).trigger_map().dom().contains(trigger_id@),
            r is Err ==> r->Err_0 is InvalidTrigger && r->Err_0->InvalidTrigger_0@ == trigger_id@ && final(self).triggers()
                == old(self).triggers(),
            r is Ok ==> final(self).trigger_map() == old(self).trigger_map().insert(
                trigger_id@,
                Trigger { enabled: true, ..old(self).trigger_map()[trigger_id@] },
            ) && exists|i: int|
                0 <= i < old(self).triggers().len() && old(self).triggers()[i].id@ == trigger_id@ && final(self).triggers()
                    == old(self).triggers().update(i, Trigger { enabled: true, ..old(self).triggers()[i] }),
    {
        self.set_enabled(trigger_id, true)
    }

    /// Disables a trigger.
    pub fn disable(&mut self, trigger_id: &str) -> (r: Result<(), AutomationError>)
        requires
            old(self).wf(),
        ensures
            final(self).wf(),
            r is Ok <==> old(self).trigger_map().dom().contains(trigger_id@),
            r is Err ==> r->Err_0 is InvalidTrigger && r->Err_0->InvalidTrigger_0@ == trigger_id@ && final(self).triggers()
                == old(self).triggers(),
            r is Ok ==> final(self).trigger_map() == old(self).trigger_map().insert(
                trigger_id@,
                Trigger { enabled: false, ..old(self).trigger_map()[trigger_id@] },
            ) && exists|i: int|
                0 <= i < old(self).triggers().len() && old(self).triggers()[i].id@ == trigger_id@ && final(self).triggers()
                    == old(self).triggers().update(i, Trigger { enabled: false, ..old(self).triggers()[i] }),
    {
        self.set_enabled(trigger_id, false)
    }

    /// Every trigger, in order.
    pub fn list(&self) -> (r: Vec<&Trigger>)
        ensures
            r@.len() == self.triggers().len(),
            forall|k: int| 0 <= k < r@.len() ==> *r@[k] == #[trigger] self.triggers()[k],
    {
        let mut r: Vec<&Trigger> = Vec::new();
        let mut i: usize = 0;
        while i < self.triggers.len()
            invariant
                i <= self.triggers@.len(),
                r@.len() == i,
                forall|k: int| 0 <= k < i ==> *r@[k] == #[trigger] self.triggers@[k],
            decreases self.triggers@.len() - i,
        {
            r.push(&self.triggers[i]);
            i += 1;
        }
        r
    }

    /// The trigger with the given id.
    pub fn get(&self, trigger_id: &str) -> (r: Option<&Trigger>)
        requires
            self.wf(),
        ensures
            match r {
                Some(t) => self.trigger_map().dom().contains(trigger_id@) && *t == self.trigger_map()[trigger_id@],
                None => !self.trigger_map().dom().contains(trigger_id@),
            },
    {
        match self.find(trigger_id) {
            Some(i) => Some(&self.triggers[i]),
            None => None,
        }
    }

    /// The workflows to start at time `current_time` given the events
    /// seen: one entry per firing trigger, in the triggers' order.
    pub fn check_triggers(&self, current_time: u64, events: &[String]) -> (r: Vec<String>)
        ensures
            texts(r@) == fired(self.triggers(), current_time, texts(events@)),
    {
        let ghost ev = texts(events@);
        let mut triggered: Vec<String> = Vec::new();
        let mut i: usize = 0;
        while i < self.triggers.len()
            invariant
                i <= self.triggers@.len(),
                ev == texts(events@),
                texts(triggered@) == fired(self.triggers@.take(i as int), current_time, ev),
            decreases self.triggers@.len() - i,
        {
            let ghost before = triggered@;
            let t = &self.triggers[i];
            assert(self.triggers@.take(i + 1).drop_last() =~= self.triggers@.take(i as int));
            if trigger_fires(t, current_time, events) {
                triggered.push(crate::text::copy_string(&t.workflow_id));
                assert(texts(triggered@) =~= texts(before).push(t.workflow_id@));
            }
            i += 1;
        }
        assert(self.triggers@.take(i as int) =~= self.triggers@);
        triggered
    }
}

impl Default for TriggerManager {
    fn default() -> (r: TriggerManager)
        ensures
            r.wf(),
            r.triggers().len() == 0,
            r.trigger_map() == Map::<Seq<char>, Trigger>::empty(),
    {
        TriggerManager::new()
    }
}


/// Some enabled trigger that fires by itself starts workflow `w`.
pub open spec fn started_by_some_trigger(ts: Seq<Trigger>, w: Seq<char>) -> bool {
    exists|i: int|
        0 <= i < ts.len() && #[trigger] ts[i].workflow_id@ == w && ts[i].enabled && !(ts[i].trigger_type is Manual)
            && !(ts[i].trigger_type is Webhook)
}

/// A check names each trigger's workflow at most once, and only for
/// enabled triggers of a kind that fires by itself: disabled, manual and
/// web-hook triggers never fire.
pub proof fn law_fired_only_enabled(ts: Seq<Trigger>, now: u64, events: Seq<Seq<char>>)
    ensures
        fired(ts, now, events).len() <= ts.len(),
        forall|k: int|
            0 <= k < fired(ts, now, events).len() ==> started_by_some_trigger(ts, #[trigger] fired(ts, now, events)[k]),
    decreases ts.len(),
{
    if ts.len() > 0 {
        let d = ts.drop_last();
        law_fired_only_enabled(d, now, events);
        let f = fired(ts, now, events);
        let fd = fired(d, now, events);
        assert forall|k: int| 0 <= k < f.len() implies started_by_some_trigger(ts, #[trigger] f[k]) by {
            if k < fd.len() {
                assert(started_by_some_trigger(d, fd[k]));
                let i = choose|i: int|
                    0 <= i < d.len() && #[trigger] d[i].workflow_id@ == fd[k] && d[i].enabled && !(d[i].trigger_type is Manual)
                        && !(d[i].trigger_type is Webhook);
                assert(ts[i] == d[i]);
            } else {
                assert(ts[ts.len() - 1] == ts.last());
            }
        }
    }
}

/// What a file watch reacts to. A watch on creation, modification or
/// deletion reacts to events of that kind and to no other kind; a watch on
/// any event reacts exactly to what one of those three reacts to, so to
/// every creation, modification and deletion. An enabled file watch fires
/// when one of the events seen matches it.
pub proof fn law_file_watch_matches(path: Seq<char>, t: Trigger, now: u64, events: Seq<Seq<char>>, i: int)
    ensures
        file_event_matches(FileWatchEvent::Created, "file:created:"@ + path),
        file_event_matches(FileWatchEvent::Modified, "file:modified:"@ + path),
        file_event_matches(FileWatchEvent::Deleted, "file:deleted:"@ + path),
        !file_event_matches(FileWatchEvent::Created, "file:modified:"@ + path),
        !file_event_matches(FileWatchEvent::Created, "file:deleted:"@ + path),
        !file_event_matches(FileWatchEvent::Modified, "file:created:"@ + path),
        !file_event_matches(FileWatchEvent::Modified, "file:deleted:"@ + path),
        !file_event_matches(FileWatchEvent::Deleted, "file:created:"@ + path),
        !file_event_matches(FileWatchEvent::Deleted, "file:modified:"@ + path),
        forall|e: Seq<char>|
            #[trigger] file_event_matches(FileWatchEvent::Any, e) == (file_event_matches(FileWatchEvent::Created, e)
                || file_event_matches(FileWatchEvent::Modified, e) || file_event_matches(FileWatchEvent::Deleted, e)),
        file_event_matches(FileWatchEvent::Any, "file:created:"@ + path),
        file_event_matches(FileWatchEvent::Any, "file:modified:"@ + path),
        file_event_matches(FileWatchEvent::Any, "file:deleted:"@ + path),
        (t.enabled && t.trigger_type is FileWatch && 0 <= i < events.len() && file_event_matches(
            t.trigger_type->event,
            events[i],
        )) ==> should_fire(t, now, events),
{
    reveal_strlit("file:created:");
    reveal_strlit("file:modified:");
    reveal_strlit("file:deleted:");
    let c = "file:created:"@ + path;
    let m = "file:modified:"@ + path;
    let d = "file:deleted:"@ + path;
    assert(c.subrange(0, 13) =~= "file:created:"@);
    assert(m.subrange(0, 14) =~= "file:modified:"@);
    assert(d.subrange(0, 13) =~= "file:deleted:"@);
    assert(c[5] != "file:modified:"@[5]);
    if c.len() >= 14 {
        assert(c.subrange(0, 14)[5] == c[5]);
    }
    assert(d[5] != "file:modified:"@[5]);
    if d.len() >= 14 {
        assert(d.subrange(0, 14)[5] == d[5]);
    }
    assert(c[5] != "file:deleted:"@[5]);
    assert(c.subrange(0, 13)[5] == c[5]);
    assert(m[5] != "file:created:"@[5]);
    assert(m.subrange(0, 13)[5] == m[5]);
    assert(m[5] != "file:deleted:"@[5]);
    assert(d[5] != "file:created:"@[5]);
    if t.enabled && t.trigger_type is FileWatch && 0 <= i < events.len() && file_event_matches(
        t.trigger_type->event,
        events[i],
    ) {
        assert(file_event_matches(t.trigger_type->event, events[i]));
    }
}

/// When a trigger fires. A disabled trigger never fires, nor does a manual
/// or web-hook trigger; a schedule fires unless it already fired at this
/// time or later; an event trigger fires exactly when its event type is
/// among the events seen; a file watch exactly when one of the events seen
/// matches it. A trigger fires on a list of events when it fires on one
/// event of it, for event and file triggers.
pub proof fn law_when_triggers_fire(t: Trigger, now: u64, events: Seq<Seq<char>>, e: Seq<char>)
    ensures
        !t.enabled ==> !should_fire(t, now, events),
        t.trigger_type is Manual ==> !should_fire(t, now, events),
        t.trigger_type is Webhook ==> !should_fire(t, now, events),
        t.enabled && t.trigger_type is Schedule ==> (should_fire(t, now, events) <==> (t.last_triggered is None
            || now > t.last_triggered->0)),
        t.enabled && t.trigger_type is Event ==> (should_fire(t, now, events) <==> exists|i: int|
            0 <= i < events.len() && events[i] == t.trigger_type->event_type@),
        t.enabled && t.trigger_type is FileWatch ==> (should_fire(t, now, events) <==> exists|i: int|
            0 <= i < events.len() && file_event_matches(t.trigger_type->event, events[i])),
        (t.trigger_type is Event || t.trigger_type is FileWatch) && should_fire(t, now, seq![e]) ==> should_fire(
            t,
            now,
            events.push(e),
        ),
{
    if (t.trigger_type is Event || t.trigger_type is FileWatch) && should_fire(t, now, seq![e]) {
        let ev = events.push(e);
        assert(ev[events.len() as int] == e);
        assert(seq![e][0] == e);
        if t.trigger_type is Event {
            assert(ev.contains(e));
        }
    }
}

} // verus!
