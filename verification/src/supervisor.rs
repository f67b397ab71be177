//! One task with the agent that runs it and the place it runs in.
use crate::agent;
use crate::agent::{
    AgentBackend, AgentEvent, AgentStatus, EventModel, SampleModel, StatusModel, UsageSample,
};
use crate::fleet::{HandoffModel, SupervisedTask, TaskHandoff};
use crate::secrets;
use crate::secrets::{Keyring, ResolvedEnv, Secrets};
use crate::session::Usage;
use crate::store;
use crate::store::{Store, Transcripts};
use crate::task;
use crate::task::{Task, TaskModel, TaskStatus};
use crate::text;
use crate::transcript;
use crate::transcript::TaskId;
use vstd::prelude::*;
use vstd::string::*;

verus! {

/// A task, its agent and its place.
pub struct Supervisor<B, W> {
    pub backend: B,
    pub ws: W,
    pub task: Task,
    /// Errors that have not been handed out.
    pub error_hits: Vec<TaskId>,
    /// Successes that have not been handed out.
    pub success_hits: Vec<TaskId>,
    /// What the task has used.
    pub metrics: Vec<UsageSample>,
}

/// What a [`Supervisor`] knows of its task.
pub struct Progress {
    pub task: TaskModel,
    pub errors: Seq<TaskId>,
    pub successes: Seq<TaskId>,
    pub metrics: Seq<SampleModel>,
}

/// What events change: what is known of the task, the transcripts and the
/// costs.
pub struct Drained {
    pub progress: Progress,
    pub transcripts: Transcripts,
    pub costs: Map<TaskId, Usage>,
}

/// A sample with the agent and the model of its task where it names none.
pub open spec fn stamped(task: TaskModel, s: SampleModel) -> SampleModel {
    SampleModel {
        agent: if s.agent.len() == 0 {
            task.agent_ref
        } else {
            s.agent
        },
        model: if s.model.len() == 0 {
            match task.model_override {
                Some((p, m)) => p + "/"@ + m,
                None => Seq::empty(),
            }
        } else {
            s.model
        },
        ..s
    }
}

/// A task after an error. One that is blocked by it gets a summary of its
/// transcript, unless it has a summary.
pub open spec fn task_failed(t: TaskModel, transcripts: Transcripts) -> TaskModel {
    let f = t.failed();
    if f.status == TaskStatus::Blocked && f.summary is None {
        TaskModel {
            summary: if transcripts.dom().contains(t.id) {
                task::handoff(transcripts[t.id], 3, 500)
            } else {
                None
            },
            ..f
        }
    } else {
        f
    }
}

/// What is known of a task after an event. A success of a blocked task does
/// not count.
pub open spec fn progressed(p: Progress, transcripts: Transcripts, ev: EventModel) -> Progress {
    match ev {
        EventModel::Status(id, StatusModel::Error(_)) => Progress {
            task: task_failed(p.task, transcripts),
            errors: p.errors.push(id),
            ..p
        },
        EventModel::Status(_, StatusModel::Idle) => succeeded(p),
        EventModel::Status(_, StatusModel::Done) => succeeded(p),
        EventModel::Usage(s) => Progress { metrics: p.metrics.push(stamped(p.task, s)), ..p },
        _ => p,
    }
}

/// What is known of a task after a success.
pub open spec fn succeeded(p: Progress) -> Progress {
    if p.task.status == TaskStatus::Blocked {
        p
    } else {
        Progress { task: p.task.succeeded(), successes: p.successes.push(p.task.id), ..p }
    }
}

/// After one event.
pub open spec fn after_event(d: Drained, ev: EventModel) -> Drained {
    Drained {
        progress: progressed(d.progress, d.transcripts, ev),
        transcripts: match ev {
            EventModel::Message(m) => store::with_unified(d.transcripts, m),
            _ => d.transcripts,
        },
        costs: match ev {
            EventModel::Cost(t, c) => d.costs.insert(t, c),
            _ => d.costs,
        },
    }
}

/// After some events.
pub open spec fn after_events(d: Drained, evs: Seq<EventModel>) -> Drained
    decreases evs.len(),
{
    if evs.len() == 0 {
        d
    } else {
        after_event(after_events(d, evs.drop_last()), evs.last())
    }
}

impl<B, W> Supervisor<B, W> {
    /// What is known of the task.
    pub open spec fn progress(&self) -> Progress {
        Progress {
            task: self.task@,
            errors: self.error_hits@,
            successes: self.success_hits@,
            metrics: agent::samples(self.metrics@),
        }
    }

    /// What is known of the task, with what events change in a store.
    pub open spec fn drained(&self, store: Store) -> Drained {
        Drained {
            progress: self.progress(),
            transcripts: store::transcripts_of(store.transcripts@),
            costs: store.costs@,
        }
    }

    /// Events have been taken in, and nothing else has changed.
    pub open spec fn took(was: Self, store_was: Store, now: Self, store_now: Store, evs: Seq<EventModel>) -> bool {
        &&& now.ws == was.ws
        &&& store_now == (Store {
            transcripts: store_now.transcripts,
            costs: store_now.costs,
            ..store_was
        })
        &&& now.drained(store_now) == after_events(was.drained(store_was), evs)
    }
}

impl<B: AgentBackend, W> Supervisor<B, W> {
    /// A task with its agent and its place; nothing has happened yet.
    pub fn new(task: Task, backend: B, ws: W) -> (s: Self)
        ensures
            s.task == task,
            s.backend == backend,
            s.ws == ws,
            s.progress() == (Progress {
                task: task@,
                errors: Seq::empty(),
                successes: Seq::empty(),
                metrics: Seq::empty(),
            }),
    {
        let s = Supervisor {
            backend,
            ws,
            task,
            error_hits: Vec::new(),
            success_hits: Vec::new(),
            metrics: Vec::new(),
        };
        assert(agent::samples(s.metrics@) =~= Seq::empty());
        s
    }

    /// The task.
    pub fn task(&self) -> (t: &Task)
        ensures
            *t == self.task,
    {
        &self.task
    }

    /// The identity of the task.
    pub fn task_id(&self) -> (id: TaskId)
        ensures
            id == self.task.id,
    {
        self.task.id
    }

    /// What the task has used.
    pub fn metrics(&self) -> (m: &Vec<UsageSample>)
        ensures
            *m == self.metrics,
    {
        &self.metrics
    }

    /// The place the task runs in.
    pub fn workspace(&mut self) -> (w: &mut W)
        ensures
            *w == old(self).ws,
            *final(self) == (Supervisor { ws: *final(w), ..*old(self) }),
    {
        &mut self.ws
    }

    /// The environment that the task's agent is started with; empty without a
    /// keyring.
    pub fn task_env<S: Secrets>(&self, keyring: &Option<Keyring<S>>) -> (e: ResolvedEnv)
        ensures
            match keyring {
                Some(k) => exists|found: Seq<Option<Seq<char>>>| #[trigger]
                    secrets::looked_up(
                        k.secrets,
                        self.task@.agent_ref,
                        secrets::wanted(k.registry@, self.task@.agent_ref),
                        found,
                    ) && e@ == secrets::resolved(
                        secrets::wanted(k.registry@, self.task@.agent_ref),
                        found,
                    ),
                None => e@ == secrets::resolved(Seq::empty(), Seq::empty()),
            },
    {
        match keyring {
            Some(k) => {
                let e = secrets::resolve_task_env(
                    &k.registry,
                    &k.secrets,
                    self.task.agent_ref.as_str(),
                );
                proof {
                    let keys = secrets::wanted(k.registry@, self.task@.agent_ref);
                    let found = choose|found: Seq<Option<Seq<char>>>| #[trigger]
                        secrets::looked_up(k.secrets, self.task.agent_ref@, keys, found) && e@
                            == secrets::resolved(keys, found);
                    assert(secrets::looked_up(k.secrets, self.task@.agent_ref, keys, found));
                }
                e
            },
            None => ResolvedEnv::default(),
        }
    }

    /// Tells which session feeds the task.
    pub fn bind_session(&mut self, session_id: &str)
        ensures
            *final(self) == (Supervisor { backend: final(self).backend, ..*old(self) }),
            B::bound(old(self).backend, final(self).backend, old(self).task.id, session_id@),
    {
        let id = self.task.id;
        self.backend.bind_session(id, session_id);
    }

    fn stamp_usage(&self, s: &UsageSample) -> (out: UsageSample)
        ensures
            out@ == stamped(self.task@, s@),
    {
        let mut out = s.copy();
        if out.agent.as_str().is_empty() {
            out.agent = self.task.agent_ref.clone();
        }
        if out.model.as_str().is_empty() {
            out.model = match &self.task.model_override {
                Some((p, m)) => {
                    let mut name = p.clone();
                    name.append("/");
                    name.append(m.as_str());
                    name
                },
                None => {
                    let none = String::new();
                    assert(none@ =~= Seq::empty());
                    none
                },
            };
        }
        out
    }

    fn note_failure(&mut self, store: &Store)
        ensures
            *final(self) == (Supervisor { task: final(self).task, ..*old(self) }),
            final(self).task@ == task_failed(
                old(self).task@,
                store::transcripts_of(store.transcripts@),
            ),
    {
        let status = self.task.note_failure();
        if status == TaskStatus::Blocked && self.task.summary.is_none() {
            let id = self.task.id;
            self.task.summary = match store.transcripts.get(&id) {
                Some(msgs) => task::handoff_summary(msgs.as_slice(), 3, 500),
                None => None,
            };
        }
    }

    fn note_success(&mut self)
        ensures
            final(self).backend == old(self).backend,
            final(self).ws == old(self).ws,
            final(self).progress() == succeeded(old(self).progress()),
    {
        if self.task.status != TaskStatus::Blocked {
            self.task.note_success();
            self.success_hits.push(self.task.id);
        }
    }

    /// Takes in one event: errors and successes count against the task's
    /// budget, usage is recorded under its agent and model, messages and
    /// costs go to the mirrored state.
    pub fn take_event(&mut self, store: &mut Store, ev: &AgentEvent)
        ensures
            final(self).backend == old(self).backend,
            final(self).ws == old(self).ws,
            *final(store) == (Store {
                transcripts: final(store).transcripts,
                costs: final(store).costs,
                ..*old(store)
            }),
            final(self).drained(*final(store)) == after_event(old(self).drained(*old(store)), ev@),
    {
        match ev {
            AgentEvent::Status(id, status) => match status {
                AgentStatus::Error { .. } => {
                    self.error_hits.push(*id);
                    self.note_failure(store);
                },
                AgentStatus::Idle => self.note_success(),
                AgentStatus::Done => self.note_success(),
                AgentStatus::Working => {},
                AgentStatus::NeedsInput { .. } => {},
            },
            AgentEvent::Usage(s) => {
                let stamped = self.stamp_usage(s);
                let ghost was = self.metrics@;
                self.metrics.push(stamped);
                assert(agent::samples(self.metrics@) =~= agent::samples(was).push(stamped@));
            },
            AgentEvent::Message(_) => {},
            AgentEvent::Cost(_, _) => {},
        }
        agent::apply_agent_event(store, ev);
    }

    /// Takes in some events, in order.
    pub fn take_events(&mut self, store: &mut Store, evs: Vec<AgentEvent>)
        ensures
            final(self).backend == old(self).backend,
            Supervisor::took(
                *old(self),
                *old(store),
                *final(self),
                *final(store),
                agent::events(evs@),
            ),
    {
        let ghost start = self.drained(*store);
        let ghost all = agent::events(evs@);
        let mut i: usize = 0;
        assert(all.take(0) =~= Seq::empty());
        while i < evs.len()
            invariant
                i <= evs@.len(),
                all == agent::events(evs@),
                self.backend == old(self).backend,
                self.ws == old(self).ws,
                *store == (Store {
                    transcripts: store.transcripts,
                    costs: store.costs,
                    ..*old(store)
                }),
                self.drained(*store) == after_events(start, all.take(i as int)),
            decreases evs@.len() - i,
        {
            assert(all.take(i + 1).drop_last() =~= all.take(i as int));
            assert(all.take(i + 1).last() == evs@[i as int]@);
            self.take_event(store, &evs[i]);
            i += 1;
        }
        assert(all.take(all.len() as int) =~= all);
    }

    /// Takes in what has happened at the agent, whatever that is.
    pub fn tick(&mut self, store: &mut Store)
        ensures
            exists|evs: Seq<EventModel>| #[trigger]
                Supervisor::took(*old(self), *old(store), *final(self), *final(store), evs)
                    && B::collected(old(self).backend, *old(store), final(self).backend, evs),
    {
        let evs = self.backend.collect(store);
        let ghost got = agent::events(evs@);
        self.take_events(store, evs);
        assert(Supervisor::took(*old(self), *old(store), *self, *store, got));
    }

    /// The errors since the last call.
    pub fn drain_errors(&mut self) -> (hits: Vec<TaskId>)
        ensures
            hits@ == old(self).error_hits@,
            final(self).error_hits@ == Seq::<TaskId>::empty(),
            *final(self) == (Supervisor { error_hits: final(self).error_hits, ..*old(self) }),
    {
        let mut hits: Vec<TaskId> = Vec::new();
        std::mem::swap(&mut hits, &mut self.error_hits);
        hits
    }

    /// The successes since the last call.
    pub fn drain_successes(&mut self) -> (hits: Vec<TaskId>)
        ensures
            hits@ == old(self).success_hits@,
            final(self).success_hits@ == Seq::<TaskId>::empty(),
            *final(self) == (Supervisor { success_hits: final(self).success_hits, ..*old(self) }),
    {
        let mut hits: Vec<TaskId> = Vec::new();
        std::mem::swap(&mut hits, &mut self.success_hits);
        hits
    }

    /// Manual retry: the budget is full again, and what was not handed out is
    /// forgotten.
    pub fn retry_reset(&mut self)
        ensures
            final(self).backend == old(self).backend,
            final(self).ws == old(self).ws,
            final(self).progress() == (Progress {
                task: old(self).task@.retried(),
                errors: Seq::empty(),
                successes: Seq::empty(),
                ..old(self).progress()
            }),
    {
        self.task.retry_reset();
        self.error_hits.clear();
        self.success_hits.clear();
    }
}

impl<B: AgentBackend, W: Send> SupervisedTask for Supervisor<B, W> {
    open spec fn id(&self) -> TaskId {
        self.task.id
    }

    open spec fn worktree(&self) -> Option<Seq<char>> {
        Some(self.task.slug@)
    }

    open spec fn budget(&self) -> u8 {
        self.task.failure_limit
    }

    open spec fn time_limit(&self) -> Option<u64> {
        self.task.max_runtime_secs
    }

    open spec fn handed_on(&self) -> Option<HandoffModel> {
        Some(
            HandoffModel {
                parent: self.task.id,
                slug: self.task.slug@,
                agent_ref: self.task.agent_ref@,
                summary: text::opt_text(self.task.summary),
            },
        )
    }

    open spec fn used(&self) -> Seq<SampleModel> {
        agent::samples(self.metrics@)
    }

    open spec fn ticked(was: Self, store_was: Store, now: Self, store_now: Store) -> bool {
        exists|evs: Seq<EventModel>| #[trigger]
            Supervisor::took(was, store_was, now, store_now, evs) && B::collected(
                was.backend,
                store_was,
                now.backend,
                evs,
            )
    }

    open spec fn errors_drained(was: Self, now: Self, hits: Seq<TaskId>) -> bool {
        &&& hits == was.error_hits@
        &&& now.error_hits@ == Seq::<TaskId>::empty()
        &&& now == (Supervisor { error_hits: now.error_hits, ..was })
    }

    open spec fn successes_drained(was: Self, now: Self, hits: Seq<TaskId>) -> bool {
        &&& hits == was.success_hits@
        &&& now.success_hits@ == Seq::<TaskId>::empty()
        &&& now == (Supervisor { success_hits: now.success_hits, ..was })
    }

    open spec fn reset(was: Self, now: Self) -> bool {
        &&& now.backend == was.backend
        &&& now.ws == was.ws
        &&& now.progress() == (Progress {
            task: was.task@.retried(),
            errors: Seq::empty(),
            successes: Seq::empty(),
            ..was.progress()
        })
    }

    open spec fn bound(was: Self, now: Self, sid: Seq<char>) -> bool {
        &&& now == (Supervisor { backend: now.backend, ..was })
        &&& B::bound(was.backend, now.backend, was.task.id, sid)
    }

    open spec fn unbound(was: Self, now: Self, sid: Seq<char>) -> bool {
        &&& now == (Supervisor { backend: now.backend, ..was })
        &&& B::unbound(was.backend, now.backend, sid)
    }

    fn task_id(&self) -> (r: TaskId) {
        self.task.id
    }

    fn slug(&self) -> (r: Option<&str>) {
        Some(self.task.slug.as_str())
    }

    fn failure_limit(&self) -> (r: u8) {
        self.task.failure_limit
    }

    fn max_runtime_secs(&self) -> (r: Option<u64>) {
        self.task.max_runtime_secs
    }

    fn tick(&mut self, store: &mut Store) {
        Supervisor::tick(self, store);
    }

    fn drain_errors(&mut self) -> (hits: Vec<TaskId>) {
        Supervisor::drain_errors(self)
    }

    fn drain_successes(&mut self) -> (hits: Vec<TaskId>) {
        Supervisor::drain_successes(self)
    }

    fn retry_reset(&mut self) {
        Supervisor::retry_reset(self);
    }

    fn handoff(&self) -> (h: Option<TaskHandoff>) {
        Some(
            TaskHandoff {
                parent: self.task.id,
                slug: self.task.slug.clone(),
                agent_ref: self.task.agent_ref.clone(),
                summary: text::copy_opt(&self.task.summary),
            },
        )
    }

    fn bind_session(&mut self, session_id: &str) {
        Supervisor::bind_session(self, session_id);
    }

    fn unbind_session(&mut self, session_id: &str) {
        self.backend.unbind_session(session_id);
    }

    fn usage_samples(&self) -> (v: Vec<UsageSample>) {
        let mut v: Vec<UsageSample> = Vec::new();
        let ghost all = agent::samples(self.metrics@);
        let mut i: usize = 0;
        assert(agent::samples(v@) =~= all.take(0));
        while i < self.metrics.len()
            invariant
                i <= self.metrics@.len(),
                all == agent::samples(self.metrics@),
                agent::samples(v@) == all.take(i as int),
            decreases self.metrics@.len() - i,
        {
            let ghost was = v@;
            let s = self.metrics[i].copy();
            v.push(s);
            assert(agent::samples(v@) =~= agent::samples(was).push(s@));
            assert(all.take(i + 1) =~= all.take(i as int).push(all[i as int]));
            i += 1;
        }
        assert(all.take(all.len() as int) =~= all);
        v
    }
}

/// The tasks that some events call in error, one for each.
pub open spec fn error_ids(evs: Seq<EventModel>) -> Seq<TaskId>
    decreases evs.len(),
{
    if evs.len() == 0 {
        Seq::empty()
    } else {
        match evs.last() {
            EventModel::Status(id, StatusModel::Error(_)) => error_ids(evs.drop_last()).push(id),
            _ => error_ids(evs.drop_last()),
        }
    }
}

/// Every error among the events is recorded, in order and once.
pub proof fn every_error_counts(d: Drained, evs: Seq<EventModel>)
    ensures
        after_events(d, evs).progress.errors == d.progress.errors + error_ids(evs),
    decreases evs.len(),
{
    if evs.len() > 0 {
        every_error_counts(d, evs.drop_last());
        assert(after_events(d, evs).progress.errors =~= d.progress.errors + error_ids(evs));
    } else {
        assert(d.progress.errors + error_ids(evs) =~= d.progress.errors);
    }
}

/// A blocked task stays blocked whatever happens, and has no more successes.
pub proof fn events_never_unblock(d: Drained, evs: Seq<EventModel>)
    requires
        d.progress.task.status == TaskStatus::Blocked,
    ensures
        after_events(d, evs).progress.task.status == TaskStatus::Blocked,
        after_events(d, evs).progress.successes == d.progress.successes,
    decreases evs.len(),
{
    if evs.len() > 0 {
        events_never_unblock(d, evs.drop_last());
    }
}

/// A summary is never overwritten, and neither the task's identity nor its
/// worktree, agent and limits change.
pub proof fn events_keep_the_summary(d: Drained, evs: Seq<EventModel>)
    ensures
        d.progress.task.summary is Some ==> after_events(d, evs).progress.task.summary
            == d.progress.task.summary,
        after_events(d, evs).progress.task.id == d.progress.task.id,
        after_events(d, evs).progress.task.slug == d.progress.task.slug,
        after_events(d, evs).progress.task.agent_ref == d.progress.task.agent_ref,
        after_events(d, evs).progress.task.failure_limit == d.progress.task.failure_limit,
        after_events(d, evs).progress.task.max_runtime_secs == d.progress.task.max_runtime_secs,
    decreases evs.len(),
{
    if evs.len() > 0 {
        events_keep_the_summary(d, evs.drop_last());
    }
}

/// Without events nothing changes.
pub proof fn quiet_tick_changes_nothing(d: Drained)
    ensures
        after_events(d, Seq::<EventModel>::empty()) == d,
{
}

/// A task with a full budget that is told of as many errors as its limit is
/// blocked.
pub proof fn errors_block_at_the_limit(d: Drained, evs: Seq<EventModel>)
    requires
        d.progress.task.status == TaskStatus::Active,
        d.progress.task.failure_count == 0,
        forall|i: int|
            0 <= i < evs.len() ==> (#[trigger] evs[i]) matches EventModel::Status(
                _,
                StatusModel::Error(_),
            ),
    ensures
        (after_events(d, evs).progress.task.status == TaskStatus::Blocked) == (evs.len()
            >= task::at_least_one(d.progress.task.failure_limit)),
        after_events(d, evs).progress.task.failure_count == d.progress.task.failed_times(
            evs.len(),
        ).failure_count,
        after_events(d, evs).progress.task.status == d.progress.task.failed_times(
            evs.len(),
        ).status,
        after_events(d, evs).progress.task.failure_limit == d.progress.task.failure_limit,
    decreases evs.len(),
{
    task::blocked_at_the_limit(d.progress.task, evs.len());
    if evs.len() > 0 {
        let rest = evs.drop_last();
        assert forall|i: int| 0 <= i < rest.len() implies (#[trigger] rest[i]) matches EventModel::Status(
            _,
            StatusModel::Error(_),
        ) by {
            assert(rest[i] == evs[i]);
        }
        errors_block_at_the_limit(d, rest);
        task::blocked_at_the_limit(d.progress.task, rest.len());
        assert(evs[evs.len() - 1] == evs.last());
    }
}

/// Taking in some events and then some more is taking in all of them.
pub proof fn events_add_up(d: Drained, a: Seq<EventModel>, b: Seq<EventModel>)
    ensures
        after_events(d, a + b) == after_events(after_events(d, a), b),
    decreases b.len(),
{
    if b.len() == 0 {
        assert(a + b =~= a);
    } else {
        assert((a + b).drop_last() =~= a + b.drop_last());
        assert((a + b).last() == b.last());
        events_add_up(d, a, b.drop_last());
    }
}

/// What one status does to a task that is not blocked. Both a turn that ended
/// and a task that is done clear its failures and are told as a success; an
/// error counts one failure more and blocks the task where that reaches its
/// limit; any other status changes nothing.
pub proof fn one_status_counts(d: Drained, id: TaskId, s: StatusModel)
    requires
        d.progress.task.status != TaskStatus::Blocked,
    ensures
        ({
            let was = d.progress;
            let after = after_events(d, seq![EventModel::Status(id, s)]);
            let now = after.progress;
            &&& after.transcripts == d.transcripts
            &&& after.costs == d.costs
            &&& now.metrics == was.metrics
            &&& now.task.id == was.task.id
            &&& now.task.slug == was.task.slug
            &&& now.task.agent_ref == was.task.agent_ref
            &&& now.task.failure_limit == was.task.failure_limit
            &&& s == StatusModel::Idle || s == StatusModel::Done ==> {
                &&& now.task.failure_count == 0
                &&& now.task.status == TaskStatus::Active
                &&& now.task.summary == was.task.summary
                &&& now.successes == was.successes.push(was.task.id)
                &&& now.errors == was.errors
            }
            &&& s is Error ==> {
                &&& now.errors == was.errors.push(id)
                &&& now.successes == was.successes
                &&& was.task.failure_count < u32::MAX ==> now.task.failure_count
                    == was.task.failure_count + 1
                &&& now.task.status == TaskStatus::Blocked <==> now.task.failure_count
                    >= was.task.failure_limit
                &&& now.task.status != TaskStatus::Blocked ==> now.task.status
                    == TaskStatus::Retrying && now.task.summary == was.task.summary
            }
            &&& s is Working || s is NeedsInput ==> now == was
        }),
{
    let e = EventModel::Status(id, s);
    assert(seq![e].drop_last() =~= Seq::empty());
    assert(seq![e].last() == e);
    reveal_with_fuel(after_events, 2);
    assert(after_events(d, seq![e]) == after_event(d, e));
}

/// A blocked task takes no success, and a further error is still told but
/// changes nothing of the task.
pub proof fn blocked_task_only_tells_errors(d: Drained, id: TaskId, s: StatusModel)
    requires
        d.progress.task.status == TaskStatus::Blocked,
    ensures
        ({
            let was = d.progress;
            let now = after_events(d, seq![EventModel::Status(id, s)]).progress;
            &&& now.successes == was.successes
            &&& now.errors == if s is Error {
                was.errors.push(id)
            } else {
                was.errors
            }
            &&& now.task.status == was.task.status
            &&& now.task.failure_count == was.task.failure_count
            &&& now.metrics == was.metrics
        }),
{
    let e = EventModel::Status(id, s);
    assert(seq![e].drop_last() =~= Seq::empty());
    assert(seq![e].last() == e);
    reveal_with_fuel(after_events, 2);
    assert(after_events(d, seq![e]) == after_event(d, e));
}

/// The error that blocks a task leaves a note of how far it came: the last
/// three messages of its transcript. A note that is there stays.
pub proof fn blocking_leaves_a_note(d: Drained, id: TaskId, why: Seq<char>)
    requires
        d.progress.task.status != TaskStatus::Blocked,
        d.progress.task.failure_count + 1 >= d.progress.task.failure_limit,
    ensures
        ({
            let t = d.progress.task;
            let now = after_events(
                d,
                seq![EventModel::Status(id, StatusModel::Error(why))],
            ).progress.task;
            &&& now.status == TaskStatus::Blocked
            &&& t.summary is Some ==> now.summary == t.summary
            &&& t.summary is None && !d.transcripts.dom().contains(t.id) ==> now.summary is None
            &&& t.summary is None && d.transcripts.dom().contains(t.id) ==> now.summary
                == task::handoff(d.transcripts[t.id], 3, 500)
        }),
{
    let e = EventModel::Status(id, StatusModel::Error(why));
    assert(seq![e].drop_last() =~= Seq::empty());
    assert(seq![e].last() == e);
    reveal_with_fuel(after_events, 2);
    assert(after_events(d, seq![e]) == after_event(d, e));
}

/// What a message, a cost and a usage do: a message goes into the transcripts,
/// a cost takes the place of the task's last one, and a usage joins the
/// measurements, with the task's own agent and model where it names none. None
/// of them counts as a success or an error.
pub proof fn other_events_leave_the_task(d: Drained, ev: EventModel)
    requires
        !(ev is Status),
    ensures
        ({
            let after = after_events(d, seq![ev]);
            &&& after.progress.task == d.progress.task
            &&& after.progress.errors == d.progress.errors
            &&& after.progress.successes == d.progress.successes
            &&& match ev {
                EventModel::Message(m) => {
                    &&& after.transcripts == store::with_unified(d.transcripts, m)
                    &&& after.costs == d.costs
                    &&& after.progress.metrics == d.progress.metrics
                },
                EventModel::Cost(t, c) => {
                    &&& after.transcripts == d.transcripts
                    &&& after.costs.dom() == d.costs.dom().insert(t)
                    &&& after.costs[t] == c
                    &&& forall|o: TaskId|
                        o != t && d.costs.dom().contains(o) ==> #[trigger] after.costs[o]
                            == d.costs[o]
                    &&& after.progress.metrics == d.progress.metrics
                },
                EventModel::Usage(s) => {
                    let n = d.progress.metrics.len() as int;
                    let m = after.progress.metrics;
                    &&& after.transcripts == d.transcripts
                    &&& after.costs == d.costs
                    &&& m.len() == n + 1
                    &&& m.take(n) == d.progress.metrics
                    &&& m[n] == (SampleModel { agent: m[n].agent, model: m[n].model, ..s })
                    &&& s.agent.len() > 0 ==> m[n].agent == s.agent
                    &&& s.agent.len() == 0 ==> m[n].agent == d.progress.task.agent_ref
                    &&& s.model.len() > 0 ==> m[n].model == s.model
                    &&& s.model.len() == 0 ==> match d.progress.task.model_override {
                        None => m[n].model.len() == 0,
                        Some((p, i)) => m[n].model == p + seq!['/'] + i,
                    }
                },
                EventModel::Status(_, _) => true,
            }
        }),
{
    reveal_strlit("/");
    assert("/"@ =~= seq!['/']);
    assert(seq![ev].drop_last() =~= Seq::empty());
    assert(seq![ev].last() == ev);
    reveal_with_fuel(after_events, 2);
    assert(after_events(d, seq![ev]) == after_event(d, ev));
    if let EventModel::Usage(s) = ev {
        let n = d.progress.metrics.len() as int;
        assert(d.progress.metrics.push(stamped(d.progress.task, s)).take(n)
            =~= d.progress.metrics);
    }
}

/// The successes told after some events are those told before and one more,
/// the task's own, for each event that said idle or done while the task was
/// not blocked.
pub proof fn every_success_counts(d: Drained, evs: Seq<EventModel>)
    ensures
        ({
            let ends = Seq::new(evs.len(), |i: int| i).filter(
                |i: int|
                    (evs[i] matches EventModel::Status(_, s) && (s is Idle || s is Done))
                        && after_events(d, evs.take(i)).progress.task.status
                        != TaskStatus::Blocked,
            );
            let now = after_events(d, evs).progress.successes;
            &&& now.len() == d.progress.successes.len() + ends.len()
            &&& now.take(d.progress.successes.len() as int) == d.progress.successes
            &&& forall|k: int|
                d.progress.successes.len() <= k < now.len() ==> #[trigger] now[k]
                    == d.progress.task.id
        }),
{
    successes_so_far(d, evs, evs.len());
    assert(evs.take(evs.len() as int) =~= evs);
}

proof fn successes_so_far(d: Drained, evs: Seq<EventModel>, n: nat)
    requires
        n <= evs.len(),
    ensures
        ({
            let ends = Seq::new(n, |i: int| i).filter(
                |i: int|
                    (evs[i] matches EventModel::Status(_, s) && (s is Idle || s is Done))
                        && after_events(d, evs.take(i)).progress.task.status
                        != TaskStatus::Blocked,
            );
            let now = after_events(d, evs.take(n as int)).progress.successes;
            &&& now.len() == d.progress.successes.len() + ends.len()
            &&& now.take(d.progress.successes.len() as int) == d.progress.successes
            &&& forall|k: int|
                d.progress.successes.len() <= k < now.len() ==> #[trigger] now[k]
                    == d.progress.task.id
        }),
    decreases n,
{
    reveal(Seq::filter);
    let was = d.progress.successes;
    if n == 0 {
        assert(evs.take(0) =~= Seq::empty());
        assert(was.take(was.len() as int) =~= was);
    } else {
        let m = (n - 1) as nat;
        successes_so_far(d, evs, m);
        let all = Seq::new(n, |i: int| i);
        assert(all.drop_last() =~= Seq::new(m, |i: int| i));
        assert(evs.take(n as int).drop_last() =~= evs.take(m as int));
        assert(evs.take(n as int).last() == evs[m as int]);
        events_keep_the_summary(d, evs.take(m as int));
        let mid = after_events(d, evs.take(m as int)).progress.successes;
        let now = after_events(d, evs.take(n as int)).progress.successes;
        assert(now.take(was.len() as int) =~= mid.take(was.len() as int));
    }
}

/// The errors told after some events are those told before and then one for
/// each event that said error, under the identity it said it of.
pub proof fn every_error_is_told(d: Drained, evs: Seq<EventModel>)
    ensures
        after_events(d, evs).progress.errors == d.progress.errors + evs.filter(
            |e: EventModel| e matches EventModel::Status(_, s) && s is Error,
        ).map_values(|e: EventModel| e->Status_0),
    decreases evs.len(),
{
    reveal(Seq::filter);
    let p = |e: EventModel| e matches EventModel::Status(_, s) && s is Error;
    let f = |e: EventModel| e->Status_0;
    let goal = d.progress.errors + evs.filter(p).map_values(f);
    if evs.len() > 0 {
        every_error_is_told(d, evs.drop_last());
        let rest = evs.drop_last().filter(p);
        assert(rest.push(evs.last()).map_values(f) =~= rest.map_values(f).push(f(evs.last())));
    }
    assert(after_events(d, evs).progress.errors =~= goal);
}

/// Every usage told is kept, in order, behind those that were there.
pub proof fn every_usage_is_kept(d: Drained, evs: Seq<EventModel>)
    ensures
        ({
            let told = evs.filter(|e: EventModel| e is Usage);
            let now = after_events(d, evs).progress.metrics;
            let n = d.progress.metrics.len() as int;
            &&& now.len() == n + told.len()
            &&& now.take(n) == d.progress.metrics
            &&& forall|i: int|
                0 <= i < told.len() ==> {
                    let s = (#[trigger] told[i])->Usage_0;
                    &&& now[n + i].task == s.task
                    &&& now[n + i].input == s.input
                    &&& now[n + i].output == s.output
                    &&& now[n + i].cache == s.cache
                    &&& now[n + i].cost == s.cost
                    &&& now[n + i].ts == s.ts
                }
        }),
    decreases evs.len(),
{
    reveal(Seq::filter);
    let p = |e: EventModel| e is Usage;
    let n = d.progress.metrics.len() as int;
    if evs.len() > 0 {
        every_usage_is_kept(d, evs.drop_last());
        let mid = after_events(d, evs.drop_last()).progress.metrics;
        let now = after_events(d, evs).progress.metrics;
        let rest = evs.drop_last().filter(p);
        let told = evs.filter(p);
        assert(now.take(n) =~= mid.take(n));
        assert forall|i: int| 0 <= i < told.len() implies {
            let s = (#[trigger] told[i])->Usage_0;
            &&& now[n + i].task == s.task
            &&& now[n + i].input == s.input
            &&& now[n + i].output == s.output
            &&& now[n + i].cache == s.cache
            &&& now[n + i].cost == s.cost
            &&& now[n + i].ts == s.ts
        } by {
            if i < rest.len() {
                assert(told[i] == rest[i]);
                assert(now[n + i] == mid[n + i]);
            }
        }
    } else {
        assert(d.progress.metrics.take(n) =~= d.progress.metrics);
    }
}

/// Starting over clears the failures and what is still to be told, and keeps
/// the task, its agent and what it used; and what a task hands on is its own.
pub proof fn reset_starts_over<B: AgentBackend, W: Send>(
    was: Supervisor<B, W>,
    now: Supervisor<B, W>,
)
    requires
        Supervisor::<B, W>::reset(was, now),
    ensures
        now.task@.failure_count == 0,
        now.task@.status == TaskStatus::Active,
        now.task@.id == was.task@.id,
        now.task@.slug == was.task@.slug,
        now.task@.summary == was.task@.summary,
        now.error_hits@.len() == 0,
        now.success_hits@.len() == 0,
        agent::samples(now.metrics@) == agent::samples(was.metrics@),
        now.backend == was.backend,
        was.handed_on() matches Some(h) && h.parent == was.task.id && h.slug == was.task.slug@
            && h.agent_ref == was.task.agent_ref@,
{
    assert(now.progress().task == was.task@.retried());
    assert(now.progress().errors == now.error_hits@);
    assert(now.progress().successes == now.success_hits@);
}

/// What was told is handed out once: after the errors and successes were
/// taken, none are left, and the task is as it was.
pub proof fn hits_are_handed_out_once<B: AgentBackend, W: Send>(
    was: Supervisor<B, W>,
    mid: Supervisor<B, W>,
    now: Supervisor<B, W>,
    last: Supervisor<B, W>,
    errors: Seq<TaskId>,
    successes: Seq<TaskId>,
    again: Seq<TaskId>,
)
    requires
        Supervisor::<B, W>::errors_drained(was, mid, errors),
        Supervisor::<B, W>::successes_drained(mid, now, successes),
        Supervisor::<B, W>::errors_drained(now, last, again),
    ensures
        errors == was.error_hits@,
        successes == was.success_hits@,
        again.len() == 0,
        last.task == was.task,
        last.backend == was.backend,
        last.metrics == was.metrics,
        last.success_hits@.len() == 0,
{
}

} // verus!
