//! Agents behind one face: events out, prompts in, whichever program runs.
use crate::clock;
use crate::outside::Failure;
use crate::session;
use crate::session::{SessionStatus, Usage};
use crate::store;
use crate::store::Store;
use crate::text;
use crate::transcript;
use crate::transcript::{MessageModel, Role, TaskId, TaskMap, UnifiedMessage};
use std::collections::VecDeque;
use vstd::prelude::*;
use vstd::string::*;

verus! {

/// What an agent is doing.
#[derive(Debug, Clone, PartialEq, Eq)]
pub enum AgentStatus {
    Idle,
    Working,
    /// Waits for a human.
    NeedsInput { reason: String },
    Done,
    Error { msg: String },
}

/// What an [`AgentStatus`] holds.
pub enum StatusModel {
    Idle,
    Working,
    NeedsInput(Seq<char>),
    Done,
    Error(Seq<char>),
}

impl View for AgentStatus {
    type V = StatusModel;

    open spec fn view(&self) -> StatusModel {
        match self {
            AgentStatus::Idle => StatusModel::Idle,
            AgentStatus::Working => StatusModel::Working,
            AgentStatus::NeedsInput { reason } => StatusModel::NeedsInput(reason@),
            AgentStatus::Done => StatusModel::Done,
            AgentStatus::Error { msg } => StatusModel::Error(msg@),
        }
    }
}

impl AgentStatus {
    /// A copy of the status.
    pub fn copy(&self) -> (s: AgentStatus)
        ensures
            s@ == self@,
    {
        match self {
            AgentStatus::Idle => AgentStatus::Idle,
            AgentStatus::Working => AgentStatus::Working,
            AgentStatus::NeedsInput { reason } => AgentStatus::NeedsInput {
                reason: reason.clone(),
            },
            AgentStatus::Done => AgentStatus::Done,
            AgentStatus::Error { msg } => AgentStatus::Error { msg: msg.clone() },
        }
    }
}

/// An observation of what a task used. The numbers are doubles, by their
/// bits; `cost` is missing where it is not known.
#[derive(Debug, Clone, PartialEq, Eq)]
pub struct UsageSample {
    pub task: TaskId,
    /// The agent, blank where the backend does not know.
    pub agent: String,
    /// The model, blank where the backend does not know.
    pub model: String,
    pub input: u64,
    pub output: u64,
    pub cache: u64,
    pub cost: Option<u64>,
    /// Seconds since the epoch.
    pub ts: u64,
}

/// What a [`UsageSample`] holds.
pub struct SampleModel {
    pub task: TaskId,
    pub agent: Seq<char>,
    pub model: Seq<char>,
    pub input: u64,
    pub output: u64,
    pub cache: u64,
    pub cost: Option<u64>,
    pub ts: u64,
}

impl View for UsageSample {
    type V = SampleModel;

    open spec fn view(&self) -> SampleModel {
        SampleModel {
            task: self.task,
            agent: self.agent@,
            model: self.model@,
            input: self.input,
            output: self.output,
            cache: self.cache,
            cost: self.cost,
            ts: self.ts,
        }
    }
}

/// What a list of samples holds.
pub open spec fn samples(v: Seq<UsageSample>) -> Seq<SampleModel> {
    v.map_values(|s: UsageSample| s@)
}

/// A sample of a cost whose total is known.
pub open spec fn sample_of(
    task: TaskId,
    agent: Seq<char>,
    model: Seq<char>,
    cost: Usage,
    ts: u64,
) -> SampleModel {
    SampleModel {
        task,
        agent,
        model,
        input: cost.input,
        output: cost.output,
        cache: cost.cache,
        cost: Some(cost.cost),
        ts,
    }
}

impl UsageSample {
    /// A sample of a cost whose total is known.
    pub fn from_cost(task: TaskId, agent: &str, model: &str, cost: Usage, ts: u64) -> (s: UsageSample)
        ensures
            s@ == sample_of(task, agent@, model@, cost, ts),
    {
        UsageSample {
            task,
            agent: agent.to_owned(),
            model: model.to_owned(),
            input: cost.input,
            output: cost.output,
            cache: cost.cache,
            cost: Some(cost.cost),
            ts,
        }
    }

    /// A copy of the sample.
    pub fn copy(&self) -> (s: UsageSample)
        ensures
            s@ == self@,
    {
        UsageSample {
            task: self.task,
            agent: self.agent.clone(),
            model: self.model.clone(),
            input: self.input,
            output: self.output,
            cache: self.cache,
            cost: self.cost,
            ts: self.ts,
        }
    }
}

/// What an agent reports.
#[derive(Debug, Clone, PartialEq, Eq)]
pub enum AgentEvent {
    Message(UnifiedMessage),
    Status(TaskId, AgentStatus),
    /// What the task cost in all.
    Cost(TaskId, Usage),
    Usage(UsageSample),
}

/// What an [`AgentEvent`] holds.
pub enum EventModel {
    Message(MessageModel),
    Status(TaskId, StatusModel),
    Cost(TaskId, Usage),
    Usage(SampleModel),
}

impl View for AgentEvent {
    type V = EventModel;

    open spec fn view(&self) -> EventModel {
        match self {
            AgentEvent::Message(m) => EventModel::Message(m@),
            AgentEvent::Status(t, s) => EventModel::Status(*t, s@),
            AgentEvent::Cost(t, c) => EventModel::Cost(*t, *c),
            AgentEvent::Usage(s) => EventModel::Usage(s@),
        }
    }
}

/// What a list of events holds.
pub open spec fn events(v: Seq<AgentEvent>) -> Seq<EventModel> {
    v.map_values(|e: AgentEvent| e@)
}

/// Appending an event to a list appends what it holds.
pub broadcast proof fn events_push(v: Seq<AgentEvent>, e: AgentEvent)
    ensures
        #[trigger] events(v.push(e)) == events(v).push(e@),
{
    assert(events(v.push(e)) =~= events(v).push(e@));
}

/// The message of an error, where there is one.
pub open spec fn fault(r: Result<(), Failure>) -> Option<Seq<char>> {
    match r {
        Ok(_) => None,
        Err(e) => Some(e@),
    }
}

/// An agent program. What each call does is stated by the program itself, as
/// a relation between its state before and after. Where it
/// states none, nothing is promised.
pub trait AgentBackend: Send + Sized {
    /// Starting a task with a prompt.
    open spec fn spawned(was: Self, now: Self, task: TaskId, prompt: Seq<char>, fault: Option<Seq<char>>) -> bool {
        true
    }

    /// Prompting a task.
    open spec fn prompted(was: Self, now: Self, task: TaskId, text: Seq<char>, fault: Option<Seq<char>>) -> bool {
        true
    }

    /// Stopping a task.
    open spec fn aborted(was: Self, now: Self, task: TaskId, fault: Option<Seq<char>>) -> bool {
        true
    }

    /// Fetching what has happened.
    open spec fn polled(was: Self, now: Self, events: Seq<EventModel>) -> bool {
        true
    }

    /// Fetching what has happened, with the mirrored state at hand.
    open spec fn collected(was: Self, store: Store, now: Self, events: Seq<EventModel>) -> bool {
        true
    }

    /// Learning which session feeds a task.
    open spec fn bound(was: Self, now: Self, task: TaskId, sid: Seq<char>) -> bool {
        true
    }

    /// Forgetting a session.
    open spec fn unbound(was: Self, now: Self, sid: Seq<char>) -> bool {
        true
    }

    /// Starts a task with a prompt.
    fn spawn(&mut self, task: TaskId, prompt: &str) -> (r: Result<(), Failure>)
        ensures
            Self::spawned(*old(self), *final(self), task, prompt@, fault(r)),
    ;

    /// Prompts a task.
    fn prompt(&mut self, task: &TaskId, text: &str) -> (r: Result<(), Failure>)
        ensures
            Self::prompted(*old(self), *final(self), *task, text@, fault(r)),
    ;

    /// Stops a task.
    fn abort(&mut self, task: &TaskId) -> (r: Result<(), Failure>)
        ensures
            Self::aborted(*old(self), *final(self), *task, fault(r)),
    ;

    /// Fetches what has happened, without waiting.
    fn poll(&mut self) -> (out: Vec<AgentEvent>)
        ensures
            Self::polled(*old(self), *final(self), events(out@)),
    ;

    /// Fetches what has happened, with the mirrored state at hand.
    fn collect(&mut self, store: &Store) -> (out: Vec<AgentEvent>)
        ensures
            Self::collected(*old(self), *store, *final(self), events(out@)),
    ;

    /// Tells which session feeds a task.
    fn bind_session(&mut self, task: TaskId, session_id: &str)
        ensures
            Self::bound(*old(self), *final(self), task, session_id@),
    ;

    /// Tells that a session is gone.
    fn unbind_session(&mut self, session_id: &str)
        ensures
            Self::unbound(*old(self), *final(self), session_id@),
    ;
}

/// The error for a task that is not known.
pub open spec fn unknown_task(task: TaskId) -> Seq<char> {
    "unknown task "@ + text::dec(task.0 as nat)
}

/// The error for a task that is not known.
pub fn unknown_task_error(task: &TaskId) -> (f: Failure)
    ensures
        f@ == unknown_task(*task),
{
    Failure::because_of("unknown task ", task.to_text().as_str())
}

/// The identity of a message of a task: its task, a mark and a number.
pub open spec fn message_id(task: TaskId, mark: Seq<char>, n: nat) -> Seq<char> {
    text::dec(task.0 as nat) + mark + text::dec(n)
}

/// The identity of a message of a task: its task, a mark and a number.
pub fn message_name(task: TaskId, mark: &str, n: u64) -> (s: String)
    ensures
        s@ == message_id(task, mark@, n as nat),
{
    let mut s = task.to_text();
    s.append(mark);
    s.append(text::decimal(n).as_str());
    s
}

/// A message without a tool call and without a time.
pub open spec fn plain_message(id: Seq<char>, task: TaskId, role: Role, text: Seq<char>) -> MessageModel {
    MessageModel { id, task, role, text, tool: None, ts: 0 }
}

/// A scripted agent.
#[derive(Debug)]
pub struct MockAgent {
    /// What each task is doing.
    pub tasks: TaskMap<AgentStatus>,
    /// What has not been fetched yet.
    pub queue: VecDeque<AgentEvent>,
}

impl Default for MockAgent {
    fn default() -> (a: MockAgent)
        ensures
            a.statuses() == Map::<TaskId, StatusModel>::empty(),
            a.queued() == Seq::<EventModel>::empty(),
    {
        MockAgent::new()
    }
}

impl MockAgent {
    /// What each task is doing.
    pub open spec fn statuses(&self) -> Map<TaskId, StatusModel> {
        self.tasks@.map_values(|s: AgentStatus| s@)
    }

    /// What has not been fetched yet.
    pub open spec fn queued(&self) -> Seq<EventModel> {
        events(self.queue@)
    }

    /// An agent without tasks.
    pub fn new() -> (a: MockAgent)
        ensures
            a.statuses() == Map::<TaskId, StatusModel>::empty(),
            a.queued() == Seq::<EventModel>::empty(),
    {
        let a = MockAgent { tasks: TaskMap::new(), queue: VecDeque::new() };
        assert(a.statuses() =~= Map::empty());
        assert(a.queued() =~= Seq::empty());
        a
    }

    /// What a task is doing; nothing for one that is not known.
    pub fn status(&self, task: &TaskId) -> (r: Option<&AgentStatus>)
        ensures
            match r {
                Some(s) => self.statuses().dom().contains(*task) && s@ == self.statuses()[*task],
                None => !self.statuses().dom().contains(*task),
            },
    {
        self.tasks.get(task)
    }

    /// The statuses after an event of the agent.
    pub open spec fn statuses_after(statuses: Map<TaskId, StatusModel>, ev: EventModel) -> Map<
        TaskId,
        StatusModel,
    > {
        match ev {
            EventModel::Status(t, s) => statuses.insert(t, s),
            EventModel::Message(m) => if statuses.dom().contains(m.task) {
                statuses
            } else {
                statuses.insert(m.task, StatusModel::Working)
            },
            EventModel::Cost(_, _) => statuses,
            EventModel::Usage(_) => statuses,
        }
    }

    fn set_status(&mut self, task: TaskId, s: AgentStatus)
        ensures
            final(self).statuses() == old(self).statuses().insert(task, s@),
            final(self).queue == old(self).queue,
    {
        self.tasks.insert(task, s);
        assert(self.statuses() =~= old(self).statuses().insert(task, s@));
    }

    fn enqueue(&mut self, ev: AgentEvent)
        ensures
            final(self).tasks == old(self).tasks,
            final(self).queued() == old(self).queued().push(ev@),
    {
        self.queue.push_back(ev);
        assert(self.queued() =~= old(self).queued().push(ev@));
    }

    /// Makes the agent report an event.
    pub fn emit(&mut self, ev: AgentEvent)
        ensures
            final(self).queued() == old(self).queued().push(ev@),
            final(self).statuses() == MockAgent::statuses_after(old(self).statuses(), ev@),
    {
        match &ev {
            AgentEvent::Status(t, s) => self.set_status(*t, s.copy()),
            AgentEvent::Message(m) => {
                let task = m.task;
                if !self.tasks.contains_key(&task) {
                    self.set_status(task, AgentStatus::Working);
                }
            },
            AgentEvent::Cost(_, _) => {},
            AgentEvent::Usage(_) => {},
        }
        self.enqueue(ev);
    }

    /// What is queued after a prompt that is the `n`th message.
    pub open spec fn with_prompt(queued: Seq<EventModel>, task: TaskId, n: nat, text: Seq<char>) -> Seq<
        EventModel,
    > {
        queued.push(EventModel::Status(task, StatusModel::Working)).push(
            EventModel::Message(plain_message(message_id(task, "-u"@, n), task, Role::User, text)),
        )
    }

    fn take_prompt(&mut self, task: TaskId, n: u64, text: &str)
        ensures
            final(self).statuses() == old(self).statuses().insert(task, StatusModel::Working),
            final(self).queued() == MockAgent::with_prompt(
                old(self).queued(),
                task,
                n as nat,
                text@,
            ),
    {
        self.set_status(task, AgentStatus::Working);
        self.enqueue(AgentEvent::Status(task, AgentStatus::Working));
        self.enqueue(
            AgentEvent::Message(
                UnifiedMessage {
                    id: message_name(task, "-u", n),
                    task,
                    role: Role::User,
                    text: text.to_owned(),
                    tool: None,
                    ts: 0,
                },
            ),
        );
    }
}

impl AgentBackend for MockAgent {
    open spec fn spawned(
        was: MockAgent,
        now: MockAgent,
        task: TaskId,
        prompt: Seq<char>,
        fault: Option<Seq<char>>,
    ) -> bool {
        &&& fault is None
        &&& now.statuses() == was.statuses().insert(task, StatusModel::Working)
        &&& now.queued() == MockAgent::with_prompt(was.queued(), task, 0, prompt)
    }

    open spec fn prompted(
        was: MockAgent,
        now: MockAgent,
        task: TaskId,
        text: Seq<char>,
        fault: Option<Seq<char>>,
    ) -> bool {
        if was.statuses().dom().contains(task) {
            &&& fault is None
            &&& now.statuses() == was.statuses().insert(task, StatusModel::Working)
            &&& now.queued() == MockAgent::with_prompt(
                was.queued(),
                task,
                was.queued().len(),
                text,
            )
        } else {
            fault == Some(unknown_task(task)) && now == was
        }
    }

    open spec fn aborted(was: MockAgent, now: MockAgent, task: TaskId, fault: Option<Seq<char>>) -> bool {
        if was.statuses().dom().contains(task) {
            &&& fault is None
            &&& now.statuses() == was.statuses().insert(task, StatusModel::Idle)
            &&& now.queued() == was.queued().push(EventModel::Status(task, StatusModel::Idle))
        } else {
            fault == Some(unknown_task(task)) && now == was
        }
    }

    open spec fn polled(was: MockAgent, now: MockAgent, events: Seq<EventModel>) -> bool {
        &&& events == was.queued()
        &&& now.queued() == Seq::<EventModel>::empty()
        &&& now.tasks == was.tasks
    }

    open spec fn collected(
        was: MockAgent,
        store: Store,
        now: MockAgent,
        events: Seq<EventModel>,
    ) -> bool {
        MockAgent::polled(was, now, events)
    }

    open spec fn bound(was: MockAgent, now: MockAgent, task: TaskId, sid: Seq<char>) -> bool {
        now == was
    }

    open spec fn unbound(was: MockAgent, now: MockAgent, sid: Seq<char>) -> bool {
        now == was
    }

    fn spawn(&mut self, task: TaskId, prompt: &str) -> (r: Result<(), Failure>) {
        self.take_prompt(task, 0, prompt);
        Ok(())
    }

    fn prompt(&mut self, task: &TaskId, text: &str) -> (r: Result<(), Failure>) {
        if !self.tasks.contains_key(task) {
            return Err(unknown_task_error(task));
        }
        let n: usize = self.queue.len();
        self.take_prompt(*task, n as u64, text);
        Ok(())
    }

    fn abort(&mut self, task: &TaskId) -> (r: Result<(), Failure>) {
        if !self.tasks.contains_key(task) {
            return Err(unknown_task_error(task));
        }
        self.set_status(*task, AgentStatus::Idle);
        self.enqueue(AgentEvent::Status(*task, AgentStatus::Idle));
        Ok(())
    }

    fn poll(&mut self) -> (out: Vec<AgentEvent>) {
        let mut queue: VecDeque<AgentEvent> = VecDeque::new();
        std::mem::swap(&mut queue, &mut self.queue);
        assert(self.queued() =~= Seq::empty());
        drained(queue)
    }

    fn collect(&mut self, store: &Store) -> (out: Vec<AgentEvent>) {
        self.poll()
    }

    fn bind_session(&mut self, task: TaskId, session_id: &str) {
    }

    fn unbind_session(&mut self, session_id: &str) {
    }
}

/// The events of a queue, in order.
pub fn drained(queue: VecDeque<AgentEvent>) -> (out: Vec<AgentEvent>)
    ensures
        out@ == queue@,
{
    let ghost all = queue@;
    let mut queue = queue;
    let mut out: Vec<AgentEvent> = Vec::new();
    while queue.len() > 0
        invariant
            out@ + queue@ == all,
        decreases queue@.len(),
    {
        let ghost rest = queue@;
        let ghost was = out@;
        if let Some(ev) = queue.pop_front() {
            out.push(ev);
            assert(out@ + queue@ =~= was + rest);
        }
    }
    assert(out@ + queue@ =~= out@);
    out
}

/// What the status of a session says of its agent: one that waits to try
/// again needs a human as much as one that waits for a permission.
pub open spec fn status_of_session(s: SessionStatus) -> StatusModel {
    match s {
        SessionStatus::Idle => StatusModel::Idle,
        SessionStatus::Busy => StatusModel::Working,
        SessionStatus::Retry { attempt, message } => StatusModel::NeedsInput(
            "retry #"@ + text::dec(attempt as nat) + ": "@ + text::first_chars(message@, 120),
        ),
    }
}

/// What the status of a session says of its agent.
pub fn agent_status_of(s: &SessionStatus) -> (r: AgentStatus)
    ensures
        r@ == status_of_session(*s),
{
    match s {
        SessionStatus::Idle => AgentStatus::Idle,
        SessionStatus::Busy => AgentStatus::Working,
        SessionStatus::Retry { attempt, message } => {
            let head = text::take_chars(message.as_str(), 120);
            let mut reason = "retry #".to_owned();
            reason.append(text::decimal(*attempt).as_str());
            reason.append(": ");
            reason.append(head.as_str());
            AgentStatus::NeedsInput { reason }
        },
    }
}

/// Reads the mirrored sessions as events of their tasks. It drives no session
/// itself.
#[derive(Debug)]
pub struct OpencodeAdapter {
    /// The session of each task.
    pub sessions: TaskMap<String>,
    /// How much of each transcript has been reported.
    pub cursors: TaskMap<usize>,
    /// The last cost of each task that has been reported.
    pub last_cost: TaskMap<Usage>,
}

/// A value of a map, or another where it has none.
pub open spec fn seen_at(cursors: Map<TaskId, usize>, task: TaskId) -> int {
    if cursors.dom().contains(task) {
        cursors[task] as int
    } else {
        0
    }
}

/// What is new in a transcript behind the first `seen` messages.
pub open spec fn fresh_messages(list: Seq<MessageModel>, seen: int) -> Seq<EventModel> {
    Seq::new(
        if seen < list.len() {
            (list.len() - seen) as nat
        } else {
            0
        },
        |i: int| EventModel::Message(list[seen + i]),
    )
}

/// The cost of a task has changed since it was last reported.
pub open spec fn cost_changed(costs: Map<TaskId, Usage>, last: Map<TaskId, Usage>, task: TaskId) -> bool {
    costs.dom().contains(task) && !(last.dom().contains(task) && last[task].equals(costs[task]))
}

/// The costs that have been reported once a task's cost is.
pub open spec fn cost_reported(costs: Map<TaskId, Usage>, last: Map<TaskId, Usage>, task: TaskId) -> Map<
    TaskId,
    Usage,
> {
    if cost_changed(costs, last, task) {
        last.insert(task, costs[task])
    } else {
        last
    }
}

/// What is reported of a cost, if it has changed.
pub open spec fn cost_events(
    costs: Map<TaskId, Usage>,
    last: Map<TaskId, Usage>,
    task: TaskId,
    ts: u64,
) -> Seq<EventModel> {
    if cost_changed(costs, last, task) {
        seq![EventModel::Usage(sample_of(task, ""@, ""@, costs[task], ts))]
    } else {
        Seq::empty()
    }
}

/// What is reported of some tasks, each with its session: its new messages,
/// its cost if that has changed, and its status.
pub open spec fn reported(
    tasks: Seq<(TaskId, String)>,
    store: Store,
    cursors: Map<TaskId, usize>,
    last: Map<TaskId, Usage>,
    ts: u64,
) -> Seq<EventModel>
    decreases tasks.len(),
{
    if tasks.len() == 0 {
        Seq::empty()
    } else {
        let (task, sid) = tasks.last();
        reported(tasks.drop_last(), store, cursors, last, ts) + fresh_messages(
            transcript::messages(store.transcript_of(sid@)),
            seen_at(cursors, task),
        ) + cost_events(store.costs@, last, task, ts) + seq![
            EventModel::Status(task, session_status(store, sid@)),
        ]
    }
}

/// The transcripts have been reported to their end.
pub open spec fn cursors_after(
    tasks: Seq<(TaskId, String)>,
    store: Store,
    cursors: Map<TaskId, usize>,
) -> Map<TaskId, usize>
    decreases tasks.len(),
{
    if tasks.len() == 0 {
        cursors
    } else {
        cursors_after(tasks.drop_last(), store, cursors).insert(
            tasks.last().0,
            store.transcript_of(tasks.last().1@).len() as usize,
        )
    }
}

/// The costs have been reported.
pub open spec fn costs_after(
    tasks: Seq<(TaskId, String)>,
    costs: Map<TaskId, Usage>,
    last: Map<TaskId, Usage>,
) -> Map<TaskId, Usage>
    decreases tasks.len(),
{
    if tasks.len() == 0 {
        last
    } else {
        cost_reported(costs, costs_after(tasks.drop_last(), costs, last), tasks.last().0)
    }
}

/// What an agent does whose session is `sid`: a permission it waits for comes
/// first.
pub open spec fn session_status(store: Store, sid: Seq<char>) -> StatusModel {
    if store.waits(sid) {
        StatusModel::NeedsInput("permission requested"@)
    } else if store.statuses@.dom().contains(sid) {
        status_of_session(store.statuses@[sid])
    } else {
        StatusModel::Idle
    }
}

impl Default for OpencodeAdapter {
    fn default() -> (a: OpencodeAdapter)
        ensures
            a.is_new(),
    {
        OpencodeAdapter::new()
    }
}

impl OpencodeAdapter {
    /// Nothing is bound or reported.
    pub open spec fn is_new(&self) -> bool {
        &&& self.sessions@ == Map::<TaskId, String>::empty()
        &&& self.cursors@ == Map::<TaskId, usize>::empty()
        &&& self.last_cost@ == Map::<TaskId, Usage>::empty()
    }

    /// An adapter without tasks.
    pub fn new() -> (a: OpencodeAdapter)
        ensures
            a.is_new(),
    {
        OpencodeAdapter {
            sessions: TaskMap::new(),
            cursors: TaskMap::new(),
            last_cost: TaskMap::new(),
        }
    }

    /// `now` is `was` with a session for a task.
    pub open spec fn binds(was: Self, now: Self, task: TaskId, sid: Seq<char>) -> bool {
        &&& now.sessions@.dom() == was.sessions@.dom().insert(task)
        &&& now.sessions@[task]@ == sid
        &&& forall|t: TaskId|
            t != task && was.sessions@.dom().contains(t) ==> #[trigger] now.sessions@[t]
                == was.sessions@[t]
        &&& now.cursors == was.cursors
        &&& now.last_cost == was.last_cost
    }

    /// Gives a task its session.
    pub fn bind(&mut self, task: TaskId, session_id: &str)
        ensures
            OpencodeAdapter::binds(*old(self), *final(self), task, session_id@),
    {
        self.sessions.insert(task, session_id.to_owned());
        assert(self.sessions@.dom() =~= old(self).sessions@.dom().insert(task));
    }

    /// Forgets a task: its session, and what has been reported of it.
    pub fn unbind(&mut self, task: &TaskId)
        ensures
            final(self).sessions@ == old(self).sessions@.remove(*task),
            final(self).cursors@ == old(self).cursors@.remove(*task),
            final(self).last_cost@ == old(self).last_cost@.remove(*task),
    {
        self.sessions.remove(task);
        self.cursors.remove(task);
        self.last_cost.remove(task);
    }

    /// The session of a task.
    pub fn session_of(&self, task: &TaskId) -> (r: Option<&str>)
        ensures
            match r {
                Some(s) => self.sessions@.dom().contains(*task) && s@ == self.sessions@[*task]@,
                None => !self.sessions@.dom().contains(*task),
            },
    {
        match self.sessions.get(task) {
            Some(s) => Some(s.as_str()),
            None => None,
        }
    }

    /// What a task is doing. One without a session is an error.
    pub fn status_of(&self, store: &Store, task: &TaskId) -> (s: AgentStatus)
        ensures
            s@ == (if self.sessions@.dom().contains(*task) {
                session_status(*store, self.sessions@[*task]@)
            } else {
                StatusModel::Error("task "@ + text::dec(task.0 as nat) + " not bound"@)
            }),
    {
        let sid = match self.sessions.get(task) {
            Some(sid) => sid.as_str(),
            None => {
                let mut msg = "task ".to_owned();
                msg.append(task.to_text().as_str());
                msg.append(" not bound");
                return AgentStatus::Error { msg };
            },
        };
        if store.has_pending(sid) {
            return AgentStatus::NeedsInput { reason: "permission requested".to_owned() };
        }
        match store.statuses.get(sid) {
            Some(s) => agent_status_of(s),
            None => AgentStatus::Idle,
        }
    }

    /// Everything new has been reported at `ts`.
    pub open spec fn reports(
        was: Self,
        store: Store,
        now: Self,
        out: Seq<EventModel>,
        ts: u64,
    ) -> bool {
        &&& out == reported(was.sessions.entries(), store, was.cursors@, was.last_cost@, ts)
        &&& now.sessions == was.sessions
        &&& now.cursors@ == cursors_after(was.sessions.entries(), store, was.cursors@)
        &&& now.last_cost@ == costs_after(
            was.sessions.entries(),
            store.costs@,
            was.last_cost@,
        )
    }

    /// Everything that is new in the mirrored state, reported now.
    pub fn collect_new(&mut self, store: &Store) -> (out: Vec<AgentEvent>)
        ensures
            exists|ts: u64| #[trigger]
                OpencodeAdapter::reports(*old(self), *store, *final(self), events(out@), ts),
    {
        self.collect_new_at(store, clock::unix_secs())
    }

    /// Everything that is new in the mirrored state, task by task in the
    /// order of their identities: new messages, a cost that has changed, and
    /// the status.
    pub fn collect_new_at(&mut self, store: &Store, ts: u64) -> (out: Vec<AgentEvent>)
        ensures
            OpencodeAdapter::reports(*old(self), *store, *final(self), events(out@), ts),
    {
        broadcast use events_push;

        let ghost cursors = self.cursors@;
        let ghost last = self.last_cost@;
        let ghost tasks = self.sessions.entries();
        let n: usize = self.sessions.len();
        let mut out: Vec<AgentEvent> = Vec::new();
        let mut i: usize = 0;
        assert(tasks.take(0) =~= Seq::empty());
        assert(events(out@) =~= Seq::empty());
        assert forall|k: int, l: int| 0 <= k < l < n implies (#[trigger] tasks[k]).0 != (
        #[trigger] tasks[l]).0 by {
            let keys = self.sessions.keys();
            assert(keys[k] == tasks[k].0 && keys[l] == tasks[l].0);
        }
        while i < n
            invariant
                i <= n == tasks.len(),
                self.sessions == old(self).sessions,
                tasks == self.sessions.entries(),
                forall|k: int, l: int|
                    0 <= k < l < n ==> (#[trigger] tasks[k]).0 != (#[trigger] tasks[l]).0,
                forall|k: int|
                    0 <= k < n ==> self.sessions@.dom().contains((#[trigger] tasks[k]).0)
                        && self.sessions@[tasks[k].0] == tasks[k].1,
                self.cursors@ == cursors_after(tasks.take(i as int), *store, cursors),
                self.last_cost@ == costs_after(tasks.take(i as int), store.costs@, last),
                events(out@) == reported(tasks.take(i as int), *store, cursors, last, ts),
            decreases n - i,
        {
            let task = *self.sessions.key_at(i);
            let sid = self.sessions.value_at(i);
            assert(tasks[i as int] == (task, *sid));
            assert(tasks.take(i + 1).drop_last() =~= tasks.take(i as int));
            proof {
                assert forall|k: int| 0 <= k < i implies (#[trigger] tasks.take(i as int)[k]).0
                    != task by {
                    assert(tasks[k].0 != tasks[i as int].0);
                }
                other_cursors_stay(tasks.take(i as int), *store, cursors, task);
                other_costs_stay(tasks.take(i as int), store.costs@, last, task);
            }
            let seen: usize = match self.cursors.get(&task) {
                Some(c) => *c,
                None => 0,
            };
            assert(seen == seen_at(cursors, task));
            let fresh = store.transcript_for_session(sid.as_str());
            let ghost list = transcript::messages(fresh@);
            let ghost before = events(out@);
            let mut j: usize = seen;
            assert(fresh_messages(list, seen as int).take(0) =~= Seq::empty());
            assert(before + fresh_messages(list, seen as int).take(0) =~= before);
            while j < fresh.len()
                invariant
                    seen <= j,
                    j <= fresh@.len() || j == seen,
                    list == transcript::messages(fresh@),
                    events(out@) == before + fresh_messages(list, seen as int).take(j - seen),
                decreases fresh@.len() - j,
            {
                let ghost so_far = fresh_messages(list, seen as int).take(j - seen);
                let m = fresh[j].copy();
                assert(list[j as int] == m@);
                out.push(AgentEvent::Message(m));
                assert(fresh_messages(list, seen as int).take(j - seen + 1) =~= so_far.push(
                    EventModel::Message(m@),
                ));
                assert(before + so_far.push(EventModel::Message(m@)) =~= (before + so_far).push(
                    EventModel::Message(m@),
                ));
                j += 1;
            }
            assert(fresh_messages(list, seen as int).take(j - seen) =~= fresh_messages(
                list,
                seen as int,
            ));
            let count: usize = fresh.len();
            let ghost told = events(out@);
            let changed = match store.costs.get(&task) {
                Some(cost) => match self.last_cost.get(&task) {
                    Some(l) => if l.same(cost) {
                        None
                    } else {
                        Some(*cost)
                    },
                    None => Some(*cost),
                },
                None => None,
            };
            let status = self.status_of(store, &task);
            self.cursors.insert(task, count);
            if let Some(cost) = changed {
                self.last_cost.insert(task, cost);
                out.push(AgentEvent::Usage(UsageSample::from_cost(task, "", "", cost, ts)));
            }
            assert(events(out@) =~= told + cost_events(store.costs@, last, task, ts));
            let ghost costed = events(out@);
            out.push(AgentEvent::Status(task, status));
            assert(events(out@) =~= costed + seq![EventModel::Status(task, status@)]);
            i += 1;
        }
        assert(tasks.take(n as int) =~= tasks);
        out
    }
}

proof fn other_cursors_stay(
    tasks: Seq<(TaskId, String)>,
    store: Store,
    cursors: Map<TaskId, usize>,
    task: TaskId,
)
    requires
        forall|k: int| 0 <= k < tasks.len() ==> (#[trigger] tasks[k]).0 != task,
    ensures
        cursors_after(tasks, store, cursors).dom().contains(task) == cursors.dom().contains(task),
        cursors_after(tasks, store, cursors)[task] == cursors[task],
    decreases tasks.len(),
{
    if tasks.len() > 0 {
        let rest = tasks.drop_last();
        assert forall|k: int| 0 <= k < rest.len() implies (#[trigger] rest[k]).0 != task by {
            assert(rest[k] == tasks[k]);
        }
        other_cursors_stay(rest, store, cursors, task);
        assert(tasks[tasks.len() - 1].0 != task);
    }
}

proof fn other_costs_stay(
    tasks: Seq<(TaskId, String)>,
    costs: Map<TaskId, Usage>,
    last: Map<TaskId, Usage>,
    task: TaskId,
)
    requires
        forall|k: int| 0 <= k < tasks.len() ==> (#[trigger] tasks[k]).0 != task,
    ensures
        costs_after(tasks, costs, last).dom().contains(task) == last.dom().contains(task),
        costs_after(tasks, costs, last)[task] == last[task],
    decreases tasks.len(),
{
    if tasks.len() > 0 {
        let rest = tasks.drop_last();
        assert forall|k: int| 0 <= k < rest.len() implies (#[trigger] rest[k]).0 != task by {
            assert(rest[k] == tasks[k]);
        }
        other_costs_stay(rest, costs, last, task);
        assert(tasks[tasks.len() - 1].0 != task);
    }
}

/// The tasks without those whose session is `sid`.
pub open spec fn other_sessions<V>(
    m: Map<TaskId, V>,
    sessions: Map<TaskId, String>,
    sid: Seq<char>,
) -> Map<TaskId, V> {
    Map::new(
        |t: TaskId|
            m.dom().contains(t) && !(sessions.dom().contains(t) && sessions[t]@ == sid),
        |t: TaskId| m[t],
    )
}

/// The error of an adapter that only reads.
pub open spec fn read_side_only() -> Seq<char> {
    "OpencodeAdapter is read-side only"@
}

impl AgentBackend for OpencodeAdapter {
    open spec fn spawned(
        was: OpencodeAdapter,
        now: OpencodeAdapter,
        task: TaskId,
        prompt: Seq<char>,
        fault: Option<Seq<char>>,
    ) -> bool {
        now == was && fault == Some(read_side_only())
    }

    open spec fn prompted(
        was: OpencodeAdapter,
        now: OpencodeAdapter,
        task: TaskId,
        text: Seq<char>,
        fault: Option<Seq<char>>,
    ) -> bool {
        now == was && fault == Some(read_side_only())
    }

    open spec fn aborted(
        was: OpencodeAdapter,
        now: OpencodeAdapter,
        task: TaskId,
        fault: Option<Seq<char>>,
    ) -> bool {
        now == was && fault == Some(read_side_only())
    }

    open spec fn polled(was: OpencodeAdapter, now: OpencodeAdapter, events: Seq<EventModel>) -> bool {
        now == was && events == Seq::<EventModel>::empty()
    }

    open spec fn collected(
        was: OpencodeAdapter,
        store: Store,
        now: OpencodeAdapter,
        events: Seq<EventModel>,
    ) -> bool {
        exists|ts: u64| #[trigger] OpencodeAdapter::reports(was, store, now, events, ts)
    }

    open spec fn bound(was: OpencodeAdapter, now: OpencodeAdapter, task: TaskId, sid: Seq<char>) -> bool {
        OpencodeAdapter::binds(was, now, task, sid)
    }

    open spec fn unbound(was: OpencodeAdapter, now: OpencodeAdapter, sid: Seq<char>) -> bool {
        &&& now.sessions@ == other_sessions(was.sessions@, was.sessions@, sid)
        &&& now.cursors@ == other_sessions(was.cursors@, was.sessions@, sid)
        &&& now.last_cost@ == other_sessions(was.last_cost@, was.sessions@, sid)
    }

    fn spawn(&mut self, task: TaskId, prompt: &str) -> (r: Result<(), Failure>) {
        Err(Failure::because("OpencodeAdapter is read-side only"))
    }

    fn prompt(&mut self, task: &TaskId, text: &str) -> (r: Result<(), Failure>) {
        Err(Failure::because("OpencodeAdapter is read-side only"))
    }

    fn abort(&mut self, task: &TaskId) -> (r: Result<(), Failure>) {
        Err(Failure::because("OpencodeAdapter is read-side only"))
    }

    fn poll(&mut self) -> (out: Vec<AgentEvent>) {
        let out: Vec<AgentEvent> = Vec::new();
        assert(events(out@) =~= Seq::empty());
        out
    }

    fn collect(&mut self, store: &Store) -> (out: Vec<AgentEvent>) {
        self.collect_new(store)
    }

    fn bind_session(&mut self, task: TaskId, session_id: &str) {
        self.bind(task, session_id);
    }

    fn unbind_session(&mut self, session_id: &str) {
        let ghost was = *self;
        let dead = self.tasks_of(session_id);
        let mut i: usize = 0;
        assert(self.sessions@ =~= was.sessions@.remove_keys(dead@.take(0).to_set()));
        assert(self.cursors@ =~= was.cursors@.remove_keys(dead@.take(0).to_set()));
        assert(self.last_cost@ =~= was.last_cost@.remove_keys(dead@.take(0).to_set()));
        while i < dead.len()
            invariant
                i <= dead@.len(),
                self.sessions@ == was.sessions@.remove_keys(dead@.take(i as int).to_set()),
                self.cursors@ == was.cursors@.remove_keys(dead@.take(i as int).to_set()),
                self.last_cost@ == was.last_cost@.remove_keys(dead@.take(i as int).to_set()),
            decreases dead@.len() - i,
        {
            self.unbind(&dead[i]);
            proof {
                let some = dead@.take(i as int);
                let more = dead@.take(i + 1);
                assert(more =~= some.push(dead@[i as int]));
                assert forall|t: TaskId| more.contains(t) == (some.contains(t) || t
                    == dead@[i as int]) by {
                    assert(more[i as int] == dead@[i as int]);
                    if some.contains(t) {
                        let k = choose|k: int| 0 <= k < some.len() && some[k] == t;
                        assert(more[k] == t);
                    }
                }
                assert(self.sessions@ =~= was.sessions@.remove_keys(more.to_set()));
                assert(self.cursors@ =~= was.cursors@.remove_keys(more.to_set()));
                assert(self.last_cost@ =~= was.last_cost@.remove_keys(more.to_set()));
            }
            i += 1;
        }
        proof {
            assert(dead@.take(dead@.len() as int) =~= dead@);
            assert(self.sessions@ =~= other_sessions(was.sessions@, was.sessions@, session_id@));
            assert(self.cursors@ =~= other_sessions(was.cursors@, was.sessions@, session_id@));
            assert(self.last_cost@ =~= other_sessions(was.last_cost@, was.sessions@, session_id@));
        }
    }
}

impl OpencodeAdapter {
    fn tasks_of(&self, sid: &str) -> (out: Vec<TaskId>)
        ensures
            forall|t: TaskId| #[trigger]
                out@.contains(t) <==> self.sessions@.dom().contains(t) && self.sessions@[t]@ == sid@,
    {
        let n: usize = self.sessions.len();
        let ghost all = self.sessions.entries();
        let mut out: Vec<TaskId> = Vec::new();
        let mut i: usize = 0;
        while i < n
            invariant
                i <= n == all.len(),
                all == self.sessions.entries(),
                forall|k: int|
                    0 <= k < n ==> self.sessions@.dom().contains((#[trigger] all[k]).0)
                        && self.sessions@[all[k].0] == all[k].1,
                forall|t: TaskId| #[trigger]
                    out@.contains(t) <==> exists|k: int|
                        0 <= k < i && (#[trigger] all[k]).0 == t && all[k].1@ == sid@,
            decreases n - i,
        {
            let ghost was = out@;
            if text::same(self.sessions.value_at(i).as_str(), sid) {
                out.push(*self.sessions.key_at(i));
            }
            proof {
                assert forall|t: TaskId| #[trigger] out@.contains(t) <==> exists|k: int|
                    0 <= k < i + 1 && (#[trigger] all[k]).0 == t && all[k].1@ == sid@ by {
                    if out@.contains(t) {
                        let p = choose|p: int| 0 <= p < out@.len() && out@[p] == t;
                        if p < was.len() {
                            assert(was[p] == t);
                            assert(was.contains(t));
                        } else {
                            assert(all[i as int].0 == t);
                        }
                    }
                    if exists|k: int| 0 <= k < i + 1 && (#[trigger] all[k]).0 == t && all[k].1@
                        == sid@ {
                        let k = choose|k: int|
                            0 <= k < i + 1 && (#[trigger] all[k]).0 == t && all[k].1@ == sid@;
                        if k < i {
                            assert(was.contains(t));
                            let p = choose|p: int| 0 <= p < was.len() && was[p] == t;
                            assert(out@[p] == t);
                        } else {
                            assert(out@[out@.len() - 1] == t);
                        }
                    }
                }
            }
            i += 1;
        }
        proof {
            assert forall|t: TaskId| #[trigger] out@.contains(t) <==> self.sessions@.dom().contains(
                t,
            ) && self.sessions@[t]@ == sid@ by {
                if self.sessions@.dom().contains(t) && self.sessions@[t]@ == sid@ {
                    let k = choose|k: int| 0 <= k < n && self.sessions.keys()[k] == t;
                    assert(all[k].0 == t);
                }
            }
        }
        out
    }
}

/// `now` is `was` after an event of an agent: a message goes to its
/// transcript, a cost replaces the one before; the others leave no mark.
pub open spec fn applied(was: Store, now: Store, ev: EventModel) -> bool {
    match ev {
        EventModel::Message(m) => {
            &&& now == (Store { transcripts: now.transcripts, ..was })
            &&& store::transcripts_of(now.transcripts@) == store::with_unified(
                store::transcripts_of(was.transcripts@),
                m,
            )
        },
        EventModel::Cost(task, c) => {
            &&& now == (Store { costs: now.costs, ..was })
            &&& now.costs@ == was.costs@.insert(task, c)
        },
        EventModel::Status(_, _) => now == was,
        EventModel::Usage(_) => now == was,
    }
}

/// Takes an event of an agent into the mirrored state.
pub fn apply_agent_event(store: &mut Store, ev: &AgentEvent)
    ensures
        applied(*old(store), *final(store), ev@),
{
    match ev {
        AgentEvent::Message(m) => store.push_unified(m.copy()),
        AgentEvent::Cost(task, c) => {
            store.costs.insert(*task, *c);
        },
        AgentEvent::Status(_, _) => {},
        AgentEvent::Usage(_) => {},
    }
}

proof fn cursors_reach_the_end(
    tasks: Seq<(TaskId, String)>,
    store: Store,
    cursors: Map<TaskId, usize>,
    k: int,
)
    requires
        0 <= k < tasks.len(),
        forall|i: int, j: int|
            0 <= i < j < tasks.len() ==> (#[trigger] tasks[i]).0 != (#[trigger] tasks[j]).0,
    ensures
        cursors_after(tasks, store, cursors).dom().contains(tasks[k].0),
        cursors_after(tasks, store, cursors)[tasks[k].0] == store.transcript_of(
            tasks[k].1@,
        ).len() as usize,
    decreases tasks.len(),
{
    let rest = tasks.drop_last();
    if k < rest.len() {
        assert forall|i: int, j: int| 0 <= i < j < rest.len() implies (#[trigger] rest[i]).0 != (
        #[trigger] rest[j]).0 by {
            assert(rest[i] == tasks[i] && rest[j] == tasks[j]);
        }
        cursors_reach_the_end(rest, store, cursors, k);
        assert(rest[k] == tasks[k]);
        assert(tasks[tasks.len() - 1].0 != tasks[k].0);
    }
}

proof fn costs_are_reported(
    tasks: Seq<(TaskId, String)>,
    costs: Map<TaskId, Usage>,
    last: Map<TaskId, Usage>,
    k: int,
)
    requires
        0 <= k < tasks.len(),
        forall|t: TaskId| costs.dom().contains(t) ==> (#[trigger] costs[t]).equals(costs[t]),
    ensures
        !cost_changed(costs, costs_after(tasks, costs, last), tasks[k].0),
    decreases tasks.len(),
{
    let rest = tasks.drop_last();
    let mid = costs_after(rest, costs, last);
    let now = costs_after(tasks, costs, last);
    if k < rest.len() {
        costs_are_reported(rest, costs, last, k);
        assert(rest[k] == tasks[k]);
    }
    if costs.dom().contains(tasks[k].0) {
        assert(costs[tasks[k].0].equals(costs[tasks[k].0]));
    }
}

proof fn nothing_new(
    tasks: Seq<(TaskId, String)>,
    store: Store,
    cursors: Map<TaskId, usize>,
    last: Map<TaskId, Usage>,
    ts: u64,
)
    requires
        forall|k: int|
            0 <= k < tasks.len() ==> store.transcript_of((#[trigger] tasks[k]).1@).len() <= seen_at(
                cursors,
                tasks[k].0,
            ),
        forall|k: int|
            0 <= k < tasks.len() ==> !cost_changed(store.costs@, last, (#[trigger] tasks[k]).0),
    ensures
        reported(tasks, store, cursors, last, ts).len() == tasks.len(),
        forall|i: int|
            0 <= i < tasks.len() ==> #[trigger] reported(tasks, store, cursors, last, ts)[i]
                == EventModel::Status(tasks[i].0, session_status(store, tasks[i].1@)),
    decreases tasks.len(),
{
    if tasks.len() > 0 {
        let rest = tasks.drop_last();
        let n = tasks.len() - 1;
        assert forall|k: int| 0 <= k < rest.len() implies store.transcript_of(
            (#[trigger] rest[k]).1@,
        ).len() <= seen_at(cursors, rest[k].0) && !cost_changed(store.costs@, last, rest[k].0) by {
            assert(rest[k] == tasks[k]);
        }
        nothing_new(rest, store, cursors, last, ts);
        assert(tasks[n] == tasks.last());
        let fresh = fresh_messages(
            transcript::messages(store.transcript_of(tasks[n].1@)),
            seen_at(cursors, tasks[n].0),
        );
        assert(fresh =~= Seq::empty());
        let out = reported(tasks, store, cursors, last, ts);
        let before = reported(rest, store, cursors, last, ts);
        assert(out =~= before.push(
            EventModel::Status(tasks[n].0, session_status(store, tasks[n].1@)),
        ));
        assert forall|i: int| 0 <= i < tasks.len() implies #[trigger] out[i] == EventModel::Status(
            tasks[i].0,
            session_status(store, tasks[i].1@),
        ) by {
            if i < n {
                assert(out[i] == before[i]);
                assert(rest[i] == tasks[i]);
            }
        }
    }
}

/// Collecting twice from the same state reports nothing twice: the second
/// time there is one status for each task and nothing else. Costs that hold
/// a value that is no number are never taken as reported.
pub proof fn recollecting_is_quiet(
    was: OpencodeAdapter,
    store: Store,
    mid: OpencodeAdapter,
    now: OpencodeAdapter,
    first: Seq<EventModel>,
    second: Seq<EventModel>,
    ts: u64,
    later: u64,
)
    requires
        OpencodeAdapter::reports(was, store, mid, first, ts),
        OpencodeAdapter::reports(mid, store, now, second, later),
        was.sessions.keys().no_duplicates(),
        forall|sid: Seq<char>| #[trigger] store.transcript_of(sid).len() <= usize::MAX,
        forall|t: TaskId|
            store.costs@.dom().contains(t) ==> (#[trigger] store.costs@[t]).equals(
                store.costs@[t],
            ),
    ensures
        second.len() == was.sessions.entries().len(),
        forall|i: int|
            0 <= i < second.len() ==> #[trigger] second[i] == EventModel::Status(
                was.sessions.entries()[i].0,
                session_status(store, was.sessions.entries()[i].1@),
            ),
{
    let tasks = was.sessions.entries();
    assert forall|i: int, j: int| 0 <= i < j < tasks.len() implies (#[trigger] tasks[i]).0 != (
    #[trigger] tasks[j]).0 by {
        let keys = was.sessions.keys();
        assert(keys[i] == tasks[i].0 && keys[j] == tasks[j].0);
    }
    assert forall|k: int| 0 <= k < tasks.len() implies store.transcript_of(
        (#[trigger] tasks[k]).1@,
    ).len() <= seen_at(mid.cursors@, tasks[k].0) by {
        cursors_reach_the_end(tasks, store, was.cursors@, k);
    }
    assert forall|k: int| 0 <= k < tasks.len() implies !cost_changed(
        store.costs@,
        mid.last_cost@,
        (#[trigger] tasks[k]).0,
    ) by {
        costs_are_reported(tasks, store.costs@, was.last_cost@, k);
    }
    nothing_new(tasks, store, mid.cursors@, mid.last_cost@, later);
}

/// Two numbers make two identities of messages of the same task and kind.
pub proof fn message_ids_differ(task: TaskId, mark: Seq<char>, a: nat, b: nat)
    requires
        a != b,
    ensures
        message_id(task, mark, a) != message_id(task, mark, b),
{
    if message_id(task, mark, a) == message_id(task, mark, b) {
        let head = text::dec(task.0 as nat) + mark;
        let n = head.len() as int;
        assert(message_id(task, mark, a).skip(n) =~= text::dec(a));
        assert(message_id(task, mark, b).skip(n) =~= text::dec(b));
        text::dec_injective(a, b);
    }
}

/// What a collection tells of a task bound to a session: first the messages of
/// the session's transcript that were not told yet, from the cursor to the
/// end, each once and in order; then, where the costs are not those told last,
/// what the task used; then the state of the session. No other message is
/// told, and the cursor stands at the end.
pub proof fn collection_tells_what_is_new(
    was: OpencodeAdapter,
    store: Store,
    now: OpencodeAdapter,
    out: Seq<EventModel>,
    ts: u64,
    task: TaskId,
    sid: String,
)
    requires
        OpencodeAdapter::reports(was, store, now, out, ts),
        was.sessions.entries() == seq![(task, sid)],
        store.session_task@.dom().contains(sid@),
        store.transcripts@.dom().contains(store.session_task@[sid@]),
        store.transcripts@[store.session_task@[sid@]]@.len() <= usize::MAX,
        was.cursors@.dom().contains(task) ==> was.cursors@[task]
            <= store.transcripts@[store.session_task@[sid@]]@.len(),
    ensures
        ({
            let list = store.transcripts@[store.session_task@[sid@]]@;
            let seen = if was.cursors@.dom().contains(task) {
                was.cursors@[task] as int
            } else {
                0
            };
            let n = list.len() - seen;
            let told = store.costs@.dom().contains(task) && (!was.last_cost@.dom().contains(task)
                || !was.last_cost@[task].equals(store.costs@[task]));
            &&& out.len() == n + 1 + if told {
                1int
            } else {
                0
            }
            &&& forall|k: int|
                0 <= k < n ==> #[trigger] out[k] == EventModel::Message(list[seen + k]@)
            &&& forall|k: int| n <= k < out.len() ==> !(#[trigger] out[k] is Message)
            &&& told ==> {
                let c = store.costs@[task];
                &&& out[n] is Usage
                &&& out[n]->Usage_0.task == task
                &&& out[n]->Usage_0.input == c.input
                &&& out[n]->Usage_0.output == c.output
                &&& out[n]->Usage_0.cache == c.cache
                &&& out[n]->Usage_0.cost == Some(c.cost)
                &&& out[n]->Usage_0.ts == ts
                &&& out[n]->Usage_0.agent.len() == 0
                &&& out[n]->Usage_0.model.len() == 0
                &&& now.last_cost@[task] == c
            }
            &&& !told ==> now.last_cost@ == was.last_cost@
            &&& out.last() == EventModel::Status(task, session_status(store, sid@))
            &&& now.cursors@[task] == list.len()
            &&& now.cursors@.dom() == was.cursors@.dom().insert(task)
            &&& now.sessions == was.sessions
        }),
{
    reveal_strlit("");
    reveal_with_fuel(reported, 2);
    reveal_with_fuel(cursors_after, 2);
    reveal_with_fuel(costs_after, 2);
    let e = seq![(task, sid)];
    assert(e.drop_last() =~= Seq::empty());
    assert(e.last() == (task, sid));
    let list = store.transcripts@[store.session_task@[sid@]]@;
    let fresh = fresh_messages(
        transcript::messages(store.transcript_of(sid@)),
        seen_at(was.cursors@, task),
    );
    let cost = cost_events(store.costs@, was.last_cost@, task, ts);
    assert(out =~= fresh + cost + seq![EventModel::Status(task, session_status(store, sid@))]);
}

/// A collection tells of every bound task, one after the other.
pub proof fn collection_tells_of_every_task(
    was: OpencodeAdapter,
    store: Store,
    now: OpencodeAdapter,
    out: Seq<EventModel>,
    ts: u64,
)
    requires
        OpencodeAdapter::reports(was, store, now, out, ts),
    ensures
        out == was.sessions.entries().map_values(
            |e: (TaskId, String)| reported(seq![e], store, was.cursors@, was.last_cost@, ts),
        ).flatten(),
{
    tasks_are_told_in_turn(was.sessions.entries(), store, was.cursors@, was.last_cost@, ts);
}

proof fn tasks_are_told_in_turn(
    tasks: Seq<(TaskId, String)>,
    store: Store,
    cursors: Map<TaskId, usize>,
    last: Map<TaskId, Usage>,
    ts: u64,
)
    ensures
        reported(tasks, store, cursors, last, ts) == tasks.map_values(
            |e: (TaskId, String)| reported(seq![e], store, cursors, last, ts),
        ).flatten(),
    decreases tasks.len(),
{
    let f = |e: (TaskId, String)| reported(seq![e], store, cursors, last, ts);
    let all = tasks.map_values(f);
    all.lemma_flatten_and_flatten_alt_are_equivalent();
    if tasks.len() == 0 {
        assert(all.flatten_alt() =~= Seq::empty());
    } else {
        let rest = tasks.drop_last();
        tasks_are_told_in_turn(rest, store, cursors, last, ts);
        rest.map_values(f).lemma_flatten_and_flatten_alt_are_equivalent();
        assert(all.drop_last() =~= rest.map_values(f));
        let one = seq![tasks.last()];
        assert(one.drop_last() =~= Seq::empty());
        assert(one.last() == tasks.last());
        reveal_with_fuel(reported, 2);
        assert(reported(tasks, store, cursors, last, ts) =~= reported(
            rest,
            store,
            cursors,
            last,
            ts,
        ) + f(tasks.last()));
    }
}

/// What was told once is not told again: where a session's transcript has
/// grown since the last collection, the next one tells the messages that came,
/// and only those.
pub proof fn next_collection_tells_the_rest(
    was: OpencodeAdapter,
    before: Store,
    mid: OpencodeAdapter,
    after: Store,
    now: OpencodeAdapter,
    first: Seq<EventModel>,
    second: Seq<EventModel>,
    ts: u64,
    later: u64,
    task: TaskId,
    sid: String,
    more: Seq<transcript::UnifiedMessage>,
)
    requires
        OpencodeAdapter::reports(was, before, mid, first, ts),
        OpencodeAdapter::reports(mid, after, now, second, later),
        was.sessions.entries() == seq![(task, sid)],
        before.transcript_of(sid@).len() + more.len() <= usize::MAX,
        after.transcript_of(sid@) == before.transcript_of(sid@) + more,
    ensures
        second.len() > more.len(),
        forall|k: int|
            0 <= k < more.len() ==> #[trigger] second[k] == EventModel::Message(more[k]@),
        forall|k: int| more.len() <= k < second.len() ==> !(#[trigger] second[k] is Message),
{
    reveal_with_fuel(reported, 2);
    reveal_with_fuel(cursors_after, 2);
    let e = seq![(task, sid)];
    assert(e.drop_last() =~= Seq::empty());
    assert(e.last() == (task, sid));
    let list = after.transcript_of(sid@);
    let seen = before.transcript_of(sid@).len() as int;
    assert(seen_at(mid.cursors@, task) == seen);
    let fresh = fresh_messages(transcript::messages(list), seen);
    let cost = cost_events(after.costs@, mid.last_cost@, task, later);
    assert(second =~= fresh + cost + seq![EventModel::Status(task, session_status(after, sid@))]);
    assert forall|k: int| 0 <= k < more.len() implies #[trigger] second[k] == EventModel::Message(
        more[k]@,
    ) by {
        assert(second[k] == fresh[k]);
        assert(list[seen + k] == more[k]);
    }
}

/// The state told of a session: a request that waits for an answer comes
/// first, whatever the session says of itself; a busy session works, one that
/// tries again needs somebody, and one that is idle or says nothing is idle.
pub proof fn told_state_is_the_sessions(store: Store, sid: Seq<char>)
    ensures
        (exists|k: Seq<char>| #[trigger]
            store.pending_permissions@.dom().contains(k)
                && store.pending_permissions@[k].session_id@ == sid) ==> session_status(store, sid)
            == StatusModel::NeedsInput("permission requested"@),
        !(exists|k: Seq<char>| #[trigger]
            store.pending_permissions@.dom().contains(k)
                && store.pending_permissions@[k].session_id@ == sid) ==> {
            &&& !store.statuses@.dom().contains(sid) ==> session_status(store, sid) is Idle
            &&& store.statuses@.dom().contains(sid) ==> match store.statuses@[sid] {
                SessionStatus::Idle => session_status(store, sid) is Idle,
                SessionStatus::Busy => session_status(store, sid) is Working,
                SessionStatus::Retry { attempt, message } => {
                    let told = session_status(store, sid);
                    let head = "retry #"@ + text::dec(attempt as nat) + ": "@;
                    &&& told is NeedsInput
                    &&& head.is_prefix_of(told->NeedsInput_0)
                    &&& told->NeedsInput_0.skip(head.len() as int).is_prefix_of(message@)
                    &&& message@.len() <= 120 ==> told->NeedsInput_0 == head + message@
                    &&& message@.len() > 120 ==> told->NeedsInput_0.len() == head.len() + 120
                },
            }
        },
{
    if store.statuses@.dom().contains(sid) {
        if let SessionStatus::Retry { attempt, message } = store.statuses@[sid] {
            let head = "retry #"@ + text::dec(attempt as nat) + ": "@;
            let tail = text::first_chars(message@, 120);
            assert((head + tail).skip(head.len() as int) =~= tail);
        }
    }
}

/// A mock agent hands back what it was given: a prompt comes out as the turn's
/// start and then the words themselves, after everything that was queued, and
/// what was polled does not come again.
pub proof fn mock_agent_echoes_its_prompt(
    was: MockAgent,
    mid: MockAgent,
    now: MockAgent,
    again: MockAgent,
    task: TaskId,
    words: Seq<char>,
    out: Seq<EventModel>,
    rest: Seq<EventModel>,
)
    requires
        MockAgent::prompted(was, mid, task, words, None),
        MockAgent::polled(mid, now, out),
        MockAgent::polled(now, again, rest),
    ensures
        was.statuses().dom().contains(task),
        mid.statuses()[task] is Working,
        out.len() == was.queued().len() + 2,
        out.take(was.queued().len() as int) == was.queued(),
        out[was.queued().len() as int] == EventModel::Status(task, StatusModel::Working),
        out.last() is Message,
        out.last()->Message_0.task == task,
        out.last()->Message_0.role == Role::User,
        out.last()->Message_0.text == words,
        out.last()->Message_0.tool is None,
        rest.len() == 0,
{
    assert(out.take(was.queued().len() as int) =~= was.queued());
}

/// A task whose turn was aborted is idle and says so last; a task that was
/// never started cannot be prompted or aborted.
pub proof fn mock_agent_aborts_to_idle(
    was: MockAgent,
    now: MockAgent,
    task: TaskId,
    fault: Option<Seq<char>>,
)
    requires
        MockAgent::aborted(was, now, task, fault),
    ensures
        fault is None <==> was.statuses().dom().contains(task),
        fault is None ==> now.statuses()[task] is Idle && now.queued().last()
            == EventModel::Status(task, StatusModel::Idle) && now.queued().drop_last()
            == was.queued(),
        fault is Some ==> now == was,
{
    assert(was.queued().push(EventModel::Status(task, StatusModel::Idle)).drop_last()
        =~= was.queued());
}

/// Unbinding a session takes away every task bound to it, with what was told
/// of it, and nothing of the others.
pub proof fn unbinding_takes_only_the_session(
    was: OpencodeAdapter,
    now: OpencodeAdapter,
    sid: Seq<char>,
    task: TaskId,
)
    requires
        OpencodeAdapter::unbound(was, now, sid),
        was.sessions@.dom().contains(task),
    ensures
        was.sessions@[task]@ == sid ==> !now.sessions@.dom().contains(task)
            && !now.cursors@.dom().contains(task) && !now.last_cost@.dom().contains(task),
        was.sessions@[task]@ != sid ==> now.sessions@.dom().contains(task) && now.sessions@[task]
            == was.sessions@[task],
        was.sessions@[task]@ != sid && was.cursors@.dom().contains(task)
            ==> now.cursors@.dom().contains(task) && now.cursors@[task] == was.cursors@[task],
        was.sessions@[task]@ != sid && was.last_cost@.dom().contains(task)
            ==> now.last_cost@.dom().contains(task) && now.last_cost@[task] == was.last_cost@[task],
{
}

/// What an event leaves in a store: a message goes into its task's transcript,
/// a cost takes the place of the task's last one, and a status or a usage
/// changes nothing.
pub proof fn events_leave_their_trace(was: Store, now: Store, ev: EventModel)
    requires
        applied(was, now, ev),
    ensures
        now.sessions == was.sessions,
        now.messages == was.messages,
        now.statuses == was.statuses,
        ev is Status || ev is Usage ==> now == was,
        ev matches EventModel::Cost(task, c) ==> now.costs@.dom().contains(task)
            && now.costs@[task] == c && now.transcripts == was.transcripts,
        ev matches EventModel::Message(m) ==> now.costs == was.costs
            && now.transcripts@.dom().contains(m.task) && transcript::messages(
            now.transcripts@[m.task]@,
        ).contains(m),
{
    if let EventModel::Message(m) = ev {
        let t = store::transcripts_of(was.transcripts@);
        let list = store::transcript_at(t, m.task);
        let after = store::transcripts_of(now.transcripts@);
        assert(after.dom().contains(m.task));
        assert(after[m.task] == store::with_message(list, m));
        store::place_of_is_first(list, m.id);
        let at = store::place_of(list, m.id);
        if at < list.len() {
            assert(store::with_message(list, m)[at] == m);
        } else {
            assert(store::with_message(list, m)[list.len() as int] == m);
        }
    }
}

/// An agent's status is the last that was said of its task, and a task that
/// speaks before anything was said of it works.
pub proof fn statuses_are_the_last_said(statuses: Map<TaskId, StatusModel>, ev: EventModel)
    ensures
        ev matches EventModel::Status(t, s) ==> MockAgent::statuses_after(statuses, ev)[t] == s
            && MockAgent::statuses_after(statuses, ev).dom() == statuses.dom().insert(t),
        ev matches EventModel::Message(m) ==> {
            &&& !statuses.dom().contains(m.task) ==> MockAgent::statuses_after(
                statuses,
                ev,
            )[m.task] is Working
            &&& statuses.dom().contains(m.task) ==> MockAgent::statuses_after(statuses, ev)
                == statuses
        },
        ev is Cost || ev is Usage ==> MockAgent::statuses_after(statuses, ev) == statuses,
{
}

/// A task that is started works at once, and its prompt is the first that is
/// told of it.
pub proof fn mock_agent_starts_working(
    was: MockAgent,
    now: MockAgent,
    task: TaskId,
    prompt: Seq<char>,
    fault: Option<Seq<char>>,
)
    requires
        MockAgent::spawned(was, now, task, prompt, fault),
    ensures
        fault is None,
        now.statuses().dom().contains(task) && now.statuses()[task] is Working,
        now.queued().len() == was.queued().len() + 2,
        now.queued()[was.queued().len() as int] == EventModel::Status(task, StatusModel::Working),
        now.queued().last() is Message && now.queued().last()->Message_0.text == prompt
            && now.queued().last()->Message_0.task == task,
{
}

/// The adapter that only reads cannot start, prompt or stop anything: it says
/// so and stays as it was.
pub proof fn reading_adapter_only_reads(
    was: OpencodeAdapter,
    now: OpencodeAdapter,
    task: TaskId,
    words: Seq<char>,
    fault: Option<Seq<char>>,
)
    requires
        OpencodeAdapter::spawned(was, now, task, words, fault) || OpencodeAdapter::prompted(
            was,
            now,
            task,
            words,
            fault,
        ) || OpencodeAdapter::aborted(was, now, task, fault),
    ensures
        now == was,
        fault is Some,
{
}

/// A task is bound to the session it was bound to last; other tasks, and what
/// was told of any, stay.
pub proof fn binding_is_to_the_last_session(
    was: OpencodeAdapter,
    mid: OpencodeAdapter,
    now: OpencodeAdapter,
    task: TaskId,
    other: TaskId,
    first: Seq<char>,
    second: Seq<char>,
)
    requires
        OpencodeAdapter::binds(was, mid, task, first),
        OpencodeAdapter::binds(mid, now, task, second),
        other != task,
    ensures
        now.sessions@.dom().contains(task),
        now.sessions@[task]@ == second,
        now.sessions@.dom().contains(other) == was.sessions@.dom().contains(other),
        was.sessions@.dom().contains(other) ==> now.sessions@[other] == was.sessions@[other],
        now.cursors == was.cursors,
        now.last_cost == was.last_cost,
{
    if was.sessions@.dom().contains(other) {
        assert(mid.sessions@[other] == was.sessions@[other]);
        assert(now.sessions@[other] == mid.sessions@[other]);
    }
}

/// A transcript that has become shorter than what was told of it has nothing
/// new: no message is told, and the cursor goes back to its end.
pub proof fn shorter_transcript_tells_nothing(
    was: OpencodeAdapter,
    store: Store,
    now: OpencodeAdapter,
    out: Seq<EventModel>,
    ts: u64,
    task: TaskId,
    sid: String,
)
    requires
        OpencodeAdapter::reports(was, store, now, out, ts),
        was.sessions.entries() == seq![(task, sid)],
        was.cursors@.dom().contains(task),
        store.transcript_of(sid@).len() <= was.cursors@[task],
    ensures
        forall|k: int| 0 <= k < out.len() ==> !(#[trigger] out[k] is Message),
        now.cursors@[task] == store.transcript_of(sid@).len(),
{
    reveal_with_fuel(reported, 2);
    reveal_with_fuel(cursors_after, 2);
    let e = seq![(task, sid)];
    assert(e.drop_last() =~= Seq::empty());
    assert(e.last() == (task, sid));
    let cost = cost_events(store.costs@, was.last_cost@, task, ts);
    assert(out =~= cost + seq![EventModel::Status(task, session_status(store, sid@))]);
}

} // verus!
