//! Agents, their supervisors, the sweeper and the inbox that runs them all.

use std::collections::VecDeque;
use std::sync::{Arc, Mutex};

use ade::agent::{
    agent_status_of, apply_agent_event, AgentBackend, AgentEvent, AgentStatus, MockAgent,
    OpencodeAdapter, UsageSample,
};
use ade::costs::summarize;
use ade::driver::{
    open_child_task, open_host_task, open_task_with, open_terminal_task, retry, start_terminal,
    Fleet,
};
use ade::fleet::{
    apply_sweep, bind_new_session, drain_fleet, release_sessions, FleetInbox, SupervisedTask,
    SweepAction, TaskHandoff, TaskSweeper,
};
use ade::outside::Failure;
use ade::provider::{ExecOut, MockWorkspace, ShellChannel, WorkspaceProvider};
use ade::secrets::{AgentEntry, Keyring, MockSecrets, ResolvedEnv};
use ade::session::{PendingPermission, SessionStatus, Usage};
use ade::sorted_map::StrMap;
use ade::store::Store;
use ade::supervisor::Supervisor;
use ade::sweeper::FleetSweeper;
use ade::task::{Task, TaskStatus};
use ade::terminal::{prompt_line, TerminalAdapter};
use ade::transcript::{Role, TaskId, UnifiedMessage};

fn bits(u: (f64, f64, f64, f64)) -> Usage {
    Usage {
        input: u.0.to_bits(),
        output: u.1.to_bits(),
        cache: u.2.to_bits(),
        cost: u.3.to_bits(),
    }
}

#[test]
fn mock_lifecycle() {
    let mut a = MockAgent::new();
    let task = TaskId::new();
    a.spawn(task, "hello").unwrap();
    a.prompt(&task, "again").unwrap();
    a.abort(&task).unwrap();
    let evs = a.poll();
    assert!(evs.contains(&AgentEvent::Status(task, AgentStatus::Working)));
    assert!(evs.contains(&AgentEvent::Status(task, AgentStatus::Idle)));
    assert_eq!(a.status(&task), Some(&AgentStatus::Idle));
    assert!(a.poll().is_empty());
}

#[test]
fn mock_rejects_unknown_task() {
    let mut a = MockAgent::new();
    assert!(a.prompt(&TaskId::new(), "x").is_err());
    assert!(a.abort(&TaskId::new()).is_err());
}

#[test]
fn status_mapping() {
    assert_eq!(agent_status_of(&SessionStatus::Busy), AgentStatus::Working);
    assert_eq!(agent_status_of(&SessionStatus::Idle), AgentStatus::Idle);
    assert!(matches!(
        agent_status_of(&SessionStatus::Retry {
            attempt: 2,
            message: "rate limited, retrying".into(),
        }),
        AgentStatus::NeedsInput { .. }
    ));
}

#[test]
fn adapter_collects_only_new() {
    let mut store = Store::default();
    let task = store.task_for_session("s1");
    store.push_unified(message("m1", task, Role::User, "hi"));
    let mut ad = OpencodeAdapter::new();
    ad.bind(task, "s1");
    let first = ad.collect_new(&store);
    assert_eq!(
        first
            .iter()
            .filter(|e| matches!(e, AgentEvent::Message(_)))
            .count(),
        1
    );
    // Re-poll: no duplicate messages, only a fresh Status.
    let second = ad.collect_new(&store);
    assert!(second.iter().all(|e| matches!(e, AgentEvent::Status(_, _))));
    assert_eq!(ad.session_of(&task), Some("s1"));
    ad.unbind(&task);
    assert_eq!(ad.session_of(&task), None);
}

fn usage_events(evs: &[AgentEvent]) -> Vec<UsageSample> {
    evs.iter()
        .filter_map(|e| match e {
            AgentEvent::Usage(s) => Some(s.clone()),
            _ => None,
        })
        .collect()
}

#[test]
fn bridge_emits_usage_once_per_cost_change() {
    let mut store = Store::default();
    let task = store.task_for_session("s1");
    let mut ad = OpencodeAdapter::new();
    ad.bind(task, "s1");
    // No cost yet: status only.
    let first = ad.collect_new(&store);
    assert!(first.iter().all(|e| matches!(e, AgentEvent::Status(_, _))));
    // Cost appears: one Usage bridge (+ status), attribution blank.
    store.costs.insert(task, bits((5.0, 1.0, 0.0, 0.1)));
    let second = ad.collect_new_at(&store, 77);
    let usages = usage_events(&second);
    assert_eq!(usages.len(), 1);
    assert_eq!(usages[0].task, task);
    assert_eq!(usages[0].cost, Some(0.1f64.to_bits()));
    assert_eq!(usages[0].ts, 77);
    assert!(usages[0].agent.is_empty());
    // Unchanged total: edge-triggered, no second Usage.
    let third = ad.collect_new(&store);
    assert!(usage_events(&third).is_empty());
    // Changed total: emits again.
    store.costs.insert(task, bits((6.0, 1.0, 0.0, 0.2)));
    let fourth = ad.collect_new(&store);
    assert_eq!(usage_events(&fourth).len(), 1);
    // Unbind clears the edge memory: rebind re-emits once.
    ad.unbind(&task);
    ad.bind(task, "s1");
    let fifth = ad.collect_new(&store);
    assert_eq!(usage_events(&fifth).len(), 1);
}

fn message(id: &str, task: TaskId, role: Role, text: &str) -> UnifiedMessage {
    UnifiedMessage {
        id: id.into(),
        task,
        role,
        text: text.into(),
        tool: None,
        ts: 0,
    }
}

#[test]
fn apply_agent_event_writes_transcript_and_cost() {
    let mut store = Store::default();
    let task = TaskId::new();
    let mut msg = message("m1", task, Role::Agent, "done");
    msg.ts = 1;
    apply_agent_event(&mut store, &AgentEvent::Message(msg));
    apply_agent_event(
        &mut store,
        &AgentEvent::Cost(task, bits((5.0, 0.0, 0.0, 0.1))),
    );
    assert_eq!(store.transcripts.get(&task).unwrap().len(), 1);
    assert_eq!(
        f64::from_bits(store.costs.get(&task).unwrap().input),
        5.0
    );
}

#[test]
fn adapter_session_binding_roundtrips_through_trait() {
    let task = TaskId::new();
    let mut ad = OpencodeAdapter::new();
    // Read-side backend refuses session I/O but binds fine.
    assert!(AgentBackend::spawn(&mut ad, task, "x").is_err());
    AgentBackend::bind_session(&mut ad, task, "s7");
    assert!(AgentBackend::poll(&mut ad).is_empty());
    assert_eq!(ad.session_of(&task), Some("s7"));
    AgentBackend::unbind_session(&mut ad, "s7");
    // Unknown session unbind is a no-op.
    AgentBackend::unbind_session(&mut ad, "nope");
    assert_eq!(ad.session_of(&task), None);
}

#[test]
fn collect_reports_needs_input_on_permission() {
    let mut store = Store::default();
    let task = store.task_for_session("s1");
    store.pending_permissions.insert(
        "p1".into(),
        PendingPermission {
            permission_id: "p1".into(),
            session_id: "s1".into(),
            kind: String::new(),
            patterns: vec![],
            command: None,
        },
    );
    let mut ad = OpencodeAdapter::new();
    ad.bind(task, "s1");
    let evs = ad.collect(&store);
    assert!(
        evs.iter().any(|e| matches!(
            e,
            AgentEvent::Status(t, AgentStatus::NeedsInput { .. }) if *t == task
        )),
        "expected NeedsInput, got {evs:?}"
    );
}

type MockSupervisor = Supervisor<MockAgent, MockWorkspace>;

fn supervised(task: Task, events: Vec<AgentEvent>) -> MockSupervisor {
    let mut backend = MockAgent::new();
    for ev in events {
        backend.emit(ev);
    }
    Supervisor::new(task, backend, MockWorkspace::new())
}

fn supervisor_with_prompt(prompt: &str) -> (MockSupervisor, TaskId) {
    let task = Task::new("feat-x", "mock");
    let id = task.id;
    let mut backend = MockAgent::new();
    backend.spawn(id, prompt).unwrap();
    (Supervisor::new(task, backend, MockWorkspace::new()), id)
}

fn error(id: TaskId, msg: &str) -> AgentEvent {
    AgentEvent::Status(id, AgentStatus::Error { msg: msg.into() })
}

#[test]
fn supervisor_tick_drains_prompt_into_transcript() {
    let (mut sup, id) = supervisor_with_prompt("hello");
    assert_eq!(sup.task_id(), id);
    let mut store = Store::default();
    sup.tick(&mut store);
    let msgs = store.transcripts.get(&id).cloned().unwrap_or_default();
    assert_eq!(msgs.len(), 1);
    assert_eq!(msgs[0].text, "hello");
    // Re-tick: empty queue writes nothing.
    sup.tick(&mut store);
    assert_eq!(store.transcripts.get(&id).map(|v| v.len()), Some(1));
}

#[test]
fn supervisor_workspace_face_is_reachable() {
    let (mut sup, _id) = supervisor_with_prompt("hi");
    assert_eq!(sup.workspace().ssh_info(), None);
    // MockWorkspace has no canned output: exec errs instead of hanging.
    assert!(sup.workspace().exec(&["true"], "/").is_err());
}

#[test]
fn supervisor_bind_session_is_safe_for_both_backends() {
    // MockAgent ignores bindings; tick still drains.
    let (mut sup, id) = supervisor_with_prompt("hello");
    sup.bind_session("s1");
    let mut store = Store::default();
    sup.tick(&mut store);
    assert_eq!(store.transcripts.get(&id).map(|v| v.len()), Some(1));
    // OpencodeAdapter backend: bind + tick stay green, nothing polled
    // (collection goes through `collect_new`, not `poll`).
    let task = Task::new("feat-y", "opencode");
    let mut sup2 = Supervisor::new(task, OpencodeAdapter::new(), MockWorkspace::new());
    sup2.bind_session("s1");
    let mut store2 = Store::default();
    sup2.tick(&mut store2);
    assert!(store2.transcripts.is_empty());
}

#[test]
fn supervisor_seam_trait_delegates_to_inherent_methods() {
    let (mut sup, id) = supervisor_with_prompt("hello");
    // slug() exposes the task slug so the runtime auto-binds on create.
    assert_eq!(SupervisedTask::slug(&sup), Some("feat-x"));
    assert_eq!(SupervisedTask::task_id(&sup), id);
    let mut store = Store::default();
    // Trait tick drains; unbind on a Mock backend is a safe no-op.
    SupervisedTask::tick(&mut sup, &mut store);
    SupervisedTask::bind_session(&mut sup, "s9");
    SupervisedTask::unbind_session(&mut sup, "s9");
    assert_eq!(store.transcripts.get(&id).map(|v| v.len()), Some(1));
}

#[test]
fn adapter_backend_collects_through_tick_without_dupes() {
    let task = Task::new("feat-z", "opencode");
    let mut sup = Supervisor::new(task, OpencodeAdapter::new(), MockWorkspace::new());
    let mut store = Store::default();
    let sid_task = store.task_for_session("s1");
    store.push_unified(message("m1", sid_task, Role::Agent, "hi"));
    sup.bind_session("s1");
    sup.tick(&mut store);
    assert_eq!(store.transcripts.get(&sid_task).map(|v| v.len()), Some(1));
    // Second tick: cursor dedup, no duplicate messages.
    sup.tick(&mut store);
    assert_eq!(store.transcripts.get(&sid_task).map(|v| v.len()), Some(1));
}

fn usage(task: TaskId, agent: &str, model: &str, input: f64, cost: Option<f64>) -> AgentEvent {
    AgentEvent::Usage(UsageSample {
        task,
        agent: agent.into(),
        model: model.into(),
        input: input.to_bits(),
        output: 0.0f64.to_bits(),
        cache: 0.0f64.to_bits(),
        cost: cost.map(f64::to_bits),
        ts: 7,
    })
}

#[test]
fn tick_records_usage_with_task_attribution() {
    let task = Task::new("feat-u", "codex").with_model("anthropic", "sonnet");
    let id = task.id;
    // Blank attribution backfills from the task; stamped values win.
    let mut sup = supervised(
        task,
        vec![
            usage(id, "", "", 3.0, None),
            usage(id, "custom", "m", 1.0, Some(0.5)),
        ],
    );
    let mut store = Store::default();
    sup.tick(&mut store);
    let samples = sup.metrics();
    let plan = summarize(samples, u64::MAX);
    let codex = plan.by_agent.get("codex").unwrap();
    let tokens: f64 = codex
        .iter()
        .map(|i| f64::from_bits(samples[*i].input))
        .sum();
    assert_eq!(tokens, 3.0);
    assert!(codex.iter().any(|i| samples[*i].cost.is_none()));
    let custom = plan.by_agent.get("custom").unwrap();
    assert_eq!(custom.len(), 1);
    assert_eq!(samples[custom[0]].cost.map(f64::from_bits), Some(0.5));
    assert!(plan.by_model.contains_key("anthropic/sonnet"));
    assert!(plan.by_model.contains_key("m"));
}

#[test]
fn usage_samples_flow_through_the_fleet_seam() {
    let task = Task::new("feat-seam", "mock");
    let id = task.id;
    let mut sup = supervised(task, vec![usage(id, "", "", 2.0, None)]);
    let mut store = Store::default();
    sup.tick(&mut store);
    // Direct seam read.
    assert_eq!(SupervisedTask::usage_samples(&sup).len(), 1);
    // Through the inbox — the UI's path.
    let mut inbox: FleetInbox<MockSupervisor, FleetSweeper> = FleetInbox::new();
    assert!(inbox.register_task(sup));
    let got = inbox.collect_usage();
    assert_eq!(got.len(), 1);
    assert_eq!(got[0].agent, "mock");
}

#[test]
fn task_env_resolves_from_attached_secrets() {
    // No secrets attached: empty, never an error.
    let (sup, _) = supervisor_with_prompt("hello");
    assert_eq!(
        sup.task_env(&None::<Keyring<MockSecrets>>),
        ResolvedEnv::default()
    );
    // Attached: present keys resolve, missing listed.
    let task = Task::new("feat-env", "codex");
    let mut registry: StrMap<AgentEntry> = StrMap::new();
    let mut entry = AgentEntry::new("codex", "-p");
    entry.env_keys = vec!["A".into(), "B".into()];
    registry.insert("codex".into(), entry);
    let keyring = Some(Keyring {
        registry,
        secrets: MockSecrets::new().with("codex/A", "1"),
    });
    let sup = supervised(task, vec![]);
    let env = sup.task_env(&keyring);
    assert_eq!(env.vars, vec![("A".into(), "1".into())]);
    assert_eq!(env.missing, vec!["B".to_string()]);
    // An agent that is not registered wants nothing.
    let other = supervised(Task::new("feat-env2", "mock"), vec![]);
    assert_eq!(other.task_env(&keyring), ResolvedEnv::default());
}

#[test]
fn error_events_feed_retry_budget_and_drain() {
    // Fresh supervisor: spawn drains with no errors, stays Active.
    let (mut sup, _id) = supervisor_with_prompt("hello");
    let mut store = Store::default();
    sup.tick(&mut store);
    assert!(sup.drain_errors().is_empty());
    assert_eq!(sup.task().status, TaskStatus::Active);

    // Two injected errors hit the budget (limit 2) and block the task.
    let task2 = Task::new("feat-e2", "mock").with_failure_limit(2);
    let id2 = task2.id;
    let mut sup2 = supervised(task2, vec![error(id2, "boom"), error(id2, "boom2")]);
    sup2.tick(&mut store);
    assert_eq!(sup2.drain_errors(), vec![id2, id2]);
    assert_eq!(sup2.task().status, TaskStatus::Blocked);
    // Drained buffer stays empty.
    assert!(sup2.drain_errors().is_empty());

    // One error under a limit of 3 is Retrying; success clears it.
    let task3 = Task::new("feat-e3", "mock").with_failure_limit(3);
    let id3 = task3.id;
    let mut sup3 = supervised(task3, vec![error(id3, "flaky")]);
    sup3.tick(&mut store);
    assert_eq!(sup3.drain_errors(), vec![id3]);
    assert_eq!(sup3.task().status, TaskStatus::Retrying);
}

#[test]
fn seam_reports_task_failure_limit() {
    let (sup, _) = supervisor_with_prompt("hello");
    assert_eq!(SupervisedTask::failure_limit(&sup), 2);
    let task = Task::new("feat-lim", "mock").with_failure_limit(4);
    let lim = supervised(task, vec![]);
    assert_eq!(SupervisedTask::failure_limit(&lim), 4);
}

#[test]
fn inbox_chain_blocks_erroring_task_on_sweep_tick() {
    let task = Task::new("wt-err", "mock"); // default limit 2
    let id = task.id;
    let mut inbox: FleetInbox<MockSupervisor, FleetSweeper> = FleetInbox::new();
    inbox.register_sweeper(FleetSweeper::new());
    inbox.register_task(supervised(task, vec![error(id, "x"), error(id, "y")]));
    inbox.bind_new("wt-err", "s1");
    let mut store = Store::default();
    // Tick 1 drains backend errors into the sweeper; nothing surfaces yet.
    inbox.poll_fleet(&mut store, 1);
    assert!(store.errors.is_empty());
    // Tick 30 runs the sweep: 2 errors hit the default budget → blocked.
    inbox.poll_fleet(&mut store, 30);
    assert_eq!(store.errors.len(), 1);
    assert!(store.errors[0].contains("blocked"));
    assert!(store.is_blocked_slug("wt-err"));
    // Next sweep stays silent: blocked tasks are untracked.
    inbox.poll_fleet(&mut store, 60);
    assert_eq!(store.errors.len(), 1);
    // Manual retry re-tracks fresh; the sweep stays silent with no
    // new errors. (The handler clears the Store mirror separately.)
    assert!(inbox.retry_task("wt-err"));
    assert!(store.is_blocked_slug("wt-err"));
    store.clear_blocked_by_slug("wt-err");
    inbox.poll_fleet(&mut store, 90);
    assert_eq!(store.errors.len(), 1);
    assert!(!inbox.retry_task("wt-unknown"));
}

#[test]
fn supervisor_retry_reset_restores_task() {
    let task = Task::new("feat-r", "mock").with_failure_limit(1);
    let id = task.id;
    let mut sup = supervised(task, vec![error(id, "x")]);
    let mut store = Store::default();
    sup.tick(&mut store);
    assert_eq!(sup.task().status, TaskStatus::Blocked);
    sup.retry_reset();
    assert_eq!(sup.task().status, TaskStatus::Active);
    assert!(sup.drain_errors().is_empty());
}

fn seed(store: &mut Store, id: TaskId, texts: &[&str]) {
    for (n, t) in texts.iter().enumerate() {
        store.push_unified(message(&format!("m{n}"), id, Role::Agent, t));
    }
}

#[test]
fn block_snapshots_handoff_summary_unless_handwritten() {
    // Auto-snapshot from the transcript tail on Blocked.
    let task = Task::new("feat-h", "mock").with_failure_limit(1);
    let id = task.id;
    let mut store = Store::default();
    seed(&mut store, id, &["tried oauth", "stuck on refresh"]);
    let mut sup = supervised(task, vec![error(id, "x")]);
    sup.tick(&mut store);
    assert_eq!(
        sup.task().summary.as_deref(),
        Some("agent: tried oauth\nagent: stuck on refresh")
    );

    // A handwritten summary is never overwritten.
    let task2 = Task::new("feat-h2", "mock")
        .with_failure_limit(1)
        .with_summary("human note");
    let id2 = task2.id;
    seed(&mut store, id2, &["other work"]);
    let mut sup2 = supervised(task2, vec![error(id2, "y")]);
    sup2.tick(&mut store);
    assert_eq!(sup2.task().summary.as_deref(), Some("human note"));
}

#[test]
fn seam_handoff_snapshot() {
    let (sup, id) = supervisor_with_prompt("hello");
    assert_eq!(
        SupervisedTask::handoff(&sup),
        Some(TaskHandoff {
            parent: id,
            slug: "feat-x".into(),
            agent_ref: "mock".into(),
            summary: None,
        })
    );
}

#[test]
fn idle_reports_success_hits_but_never_unblocks() {
    // Idle on a healthy task records one success hit.
    let (mut sup, id) = supervisor_with_prompt("hello");
    let mut store = Store::default();
    sup.tick(&mut store);
    assert!(sup.drain_successes().is_empty());
    // Swap backend via a fresh supervisor on the same task id.
    let task = sup.task().clone();
    let mut sup2 = supervised(task, vec![AgentEvent::Status(id, AgentStatus::Idle)]);
    sup2.tick(&mut store);
    assert_eq!(sup2.drain_successes(), vec![id]);
    assert_eq!(sup2.task().status, TaskStatus::Active);
    // Idle on a Blocked task reports nothing (no silent un-block).
    let mut btask = Task::new("feat-b", "mock").with_failure_limit(1);
    btask.note_failure();
    assert_eq!(btask.status, TaskStatus::Blocked);
    let bid = btask.id;
    let mut bsup = supervised(btask, vec![AgentEvent::Status(bid, AgentStatus::Idle)]);
    bsup.tick(&mut store);
    assert!(bsup.drain_successes().is_empty());
    assert_eq!(bsup.task().status, TaskStatus::Blocked);
}

#[test]
fn inbox_chain_error_success_error_stays_quiet() {
    // Limit 2: error, success, error must not block at the sweep.
    let task = Task::new("wt-mix", "mock");
    let id = task.id;
    let mut inbox: FleetInbox<MockSupervisor, FleetSweeper> = FleetInbox::new();
    inbox.register_sweeper(FleetSweeper::new());
    inbox.register_task(supervised(
        task,
        vec![
            error(id, "x"),
            AgentEvent::Status(id, AgentStatus::Idle),
            error(id, "y"),
        ],
    ));
    inbox.bind_new("wt-mix", "s1");
    let mut store = Store::default();
    inbox.poll_fleet(&mut store, 1);
    inbox.poll_fleet(&mut store, 30);
    assert!(store.errors.is_empty(), "unexpected: {:?}", store.errors);
    assert!(!store.is_blocked_slug("wt-mix"));
}

#[test]
fn sweeper_chain_tracks_sweeps_and_applies() {
    let mut sw = FleetSweeper::new();
    let id = TaskId::new();
    // Fresh: silent.
    sw.track_task(id);
    assert!(sw.sweep().is_empty());
    // Two errors: blocked, surfaced as an error entry.
    sw.note_task_error(&id);
    sw.note_task_error(&id);
    let actions = sw.sweep();
    assert_eq!(actions, vec![SweepAction::Blocked(id)]);
    let mut store = Store::default();
    apply_sweep(&mut store, &actions);
    assert_eq!(store.errors.len(), 1);
    assert!(store.errors[0].contains("blocked"));
    // Untracked: silent again.
    sw.untrack_task(&id);
    assert!(sw.sweep().is_empty());
}

#[test]
fn sweeper_reclaim_surfaces_retry_hint() {
    let mut store = Store::default();
    apply_sweep(&mut store, &[SweepAction::Reclaim(TaskId::new())]);
    assert!(store.errors[0].contains("reclaim"));
}

#[test]
fn success_resets_streak_through_adapter() {
    let mut sw = FleetSweeper::new();
    let id = TaskId::new();
    sw.track_task_with_limit(id, 2);
    sw.note_task_error(&id);
    sw.note_task_success(&id);
    sw.note_task_error(&id);
    assert!(
        sw.sweep().is_empty(),
        "error→success→error stays under budget"
    );
    sw.note_task_error(&id);
    assert_eq!(sw.sweep(), vec![SweepAction::Blocked(id)]);
}

#[test]
fn full_track_carries_deadline_through_adapter() {
    // Deadline path needs time travel the adapter cannot inject, so
    // assert the track call itself is accepted and silent when fresh.
    let mut sw = FleetSweeper::new();
    let id = TaskId::new();
    sw.track_task_full(id, 2, Some(3600));
    assert!(sw.sweep().is_empty());
    sw.untrack_task(&id);
    assert!(sw.sweep().is_empty());
}

type Log = Arc<Mutex<Vec<String>>>;

/// A task that writes one message at each tick and notes what it is told.
struct Logged {
    id: TaskId,
    owned_slug: Option<String>,
    limit: u8,
    ticks: usize,
    talks: bool,
    hits: usize,
    log: Log,
}

impl Logged {
    fn new(slug: Option<&str>, log: &Log) -> Self {
        Self {
            id: TaskId::new(),
            owned_slug: slug.map(str::to_string),
            limit: 2,
            ticks: 0,
            talks: false,
            hits: 0,
            log: Arc::clone(log),
        }
    }

    fn talking() -> Self {
        Self {
            talks: true,
            ..Self::new(None, &Log::default())
        }
    }
}

impl SupervisedTask for Logged {
    fn task_id(&self) -> TaskId {
        self.id
    }

    fn slug(&self) -> Option<&str> {
        self.owned_slug.as_deref()
    }

    fn failure_limit(&self) -> u8 {
        self.limit
    }

    fn max_runtime_secs(&self) -> Option<u64> {
        None
    }

    fn tick(&mut self, store: &mut Store) {
        self.ticks += 1;
        if self.talks {
            let id = format!("{}-{}", self.id.to_text(), self.ticks);
            store.push_unified(message(&id, self.id, Role::Agent, "tick"));
        }
    }

    fn drain_errors(&mut self) -> Vec<TaskId> {
        let out = vec![self.id; self.hits];
        self.hits = 0;
        out
    }

    fn drain_successes(&mut self) -> Vec<TaskId> {
        Vec::new()
    }

    fn retry_reset(&mut self) {}

    fn handoff(&self) -> Option<TaskHandoff> {
        None
    }

    fn bind_session(&mut self, sid: &str) {
        self.log.lock().unwrap().push(format!("bind:{sid}"));
    }

    fn unbind_session(&mut self, sid: &str) {
        self.log.lock().unwrap().push(format!("unbind:{sid}"));
    }

    fn usage_samples(&self) -> Vec<UsageSample> {
        Vec::new()
    }
}

/// A sweeper with a fixed answer, which notes what it is told.
#[derive(Default)]
struct LoggedSweeper {
    log: Log,
    actions: Vec<SweepAction>,
    notes: Arc<Mutex<Vec<TaskId>>>,
    limits: Arc<Mutex<Vec<(TaskId, u8)>>>,
}

impl TaskSweeper for LoggedSweeper {
    fn track_task(&mut self, task: TaskId) {
        self.track_task_with_limit(task, 2);
    }

    fn track_task_with_limit(&mut self, task: TaskId, limit: u8) {
        self.limits.lock().unwrap().push((task, limit));
        let line = format!("track:{}", task.to_text());
        self.log.lock().unwrap().push(line);
    }

    fn track_task_full(&mut self, task: TaskId, limit: u8, _max: Option<u64>) {
        self.track_task_with_limit(task, limit);
    }

    fn untrack_task(&mut self, task: &TaskId) {
        let line = format!("untrack:{}", task.to_text());
        self.log.lock().unwrap().push(line);
    }

    fn note_task_error(&mut self, task: &TaskId) {
        self.notes.lock().unwrap().push(*task);
    }

    fn note_task_success(&mut self, _task: &TaskId) {}

    fn note_heartbeat(&mut self, _task: &TaskId) {}

    fn sweep(&self) -> Vec<SweepAction> {
        self.actions.clone()
    }
}

#[test]
fn drain_fleet_ticks_every_task() {
    let mut store = Store::default();
    let mut fleet = vec![Logged::talking(), Logged::talking()];
    drain_fleet(&mut fleet, &mut store);
    assert_eq!(store.transcripts.len(), 2);
    // Empty fleet writes nothing.
    let mut none: Vec<Logged> = vec![];
    drain_fleet(&mut none, &mut store);
    assert_eq!(store.transcripts.len(), 2);
}

#[test]
fn apply_sweep_surfaces_both_actions() {
    let mut store = Store::default();
    let sw = LoggedSweeper::default();
    apply_sweep(&mut store, &sw.sweep());
    assert!(store.errors.is_empty());
    let id = TaskId::new();
    apply_sweep(
        &mut store,
        &[SweepAction::Reclaim(id), SweepAction::Blocked(id)],
    );
    assert_eq!(store.errors.len(), 2);
}

#[test]
fn bind_new_session_matches_slug_only() {
    let log = Log::default();
    let mut fleet = vec![Logged::new(Some("wt-a"), &log), Logged::new(None, &log)];
    let mut sweeper = Some(LoggedSweeper {
        log: Arc::clone(&log),
        ..Default::default()
    });
    bind_new_session(&mut fleet, &mut sweeper, "wt-a", "s1");
    // Root scope never binds, even with matching tasks present.
    bind_new_session(&mut fleet, &mut sweeper, "", "s-root");
    let got = log.lock().unwrap().clone();
    assert_eq!(got.len(), 2);
    assert_eq!(got[0], "bind:s1");
    assert!(got[1].starts_with("track:"));
}

#[test]
fn release_sessions_unbinds_and_untracks() {
    let mut store = Store::default();
    let task = store.task_for_session("s1");
    let log = Log::default();
    let mut owner = Logged::new(Some("wt-a"), &log);
    owner.id = task;
    let mut fleet = vec![owner];
    let mut sweeper = Some(LoggedSweeper {
        log: Arc::clone(&log),
        ..Default::default()
    });
    release_sessions(&mut fleet, &mut sweeper, &store, &["s1".to_string()]);
    // Releasing an unknown session still unbinds, never crashes.
    release_sessions(&mut fleet, &mut sweeper, &store, &["nope".to_string()]);
    let got = log.lock().unwrap().clone();
    assert_eq!(
        got,
        vec![
            "unbind:s1".to_string(),
            format!("untrack:{}", task.to_text()),
            "unbind:nope".to_string(),
        ]
    );
}

#[test]
fn inbox_registers_drains_and_sweeps() {
    let mut inbox: FleetInbox<Logged, LoggedSweeper> = FleetInbox::new();
    assert_eq!(inbox.task_count(), 0);
    let mut store = Store::default();
    // Empty inbox polls are silent no-ops.
    inbox.poll_fleet(&mut store, 30);
    assert!(store.transcripts.is_empty() && store.errors.is_empty());

    inbox.register_task(Logged::talking());
    assert_eq!(inbox.task_count(), 1);
    inbox.poll_fleet(&mut store, 1);
    assert_eq!(store.transcripts.len(), 1);

    // Sweep path: stub action surfaces as an error entry on tick 30.
    let id = TaskId::new();
    inbox.register_sweeper(LoggedSweeper {
        actions: vec![SweepAction::Blocked(id)],
        ..Default::default()
    });
    inbox.poll_fleet(&mut store, 30);
    assert_eq!(store.errors.len(), 1);
    // Off-cadence ticks skip the sweeper.
    inbox.poll_fleet(&mut store, 31);
    assert_eq!(store.errors.len(), 1);
}

#[test]
fn inbox_binds_and_releases_by_scope() {
    let mut inbox: FleetInbox<Logged, LoggedSweeper> = FleetInbox::new();
    let log = Log::default();
    inbox.register_task(Logged::new(Some("wt-a"), &log));
    let mut store = Store::default();
    store.task_for_session("s1");
    inbox.bind_new("wt-a", "s1");
    inbox.bind_new("", "s-root");
    inbox.release(&store, &["s1".to_string()]);
    let got = log.lock().unwrap().clone();
    assert!(got.contains(&"bind:s1".to_string()));
    assert!(!got.iter().any(|l| l == "bind:s-root"));
    assert!(got.contains(&"unbind:s1".to_string()));
}

#[test]
fn poll_fleet_forwards_backend_errors_to_sweeper() {
    let mut inbox: FleetInbox<Logged, LoggedSweeper> = FleetInbox::new();
    let mut task = Logged::new(None, &Log::default());
    task.hits = 2;
    let id = task.id;
    inbox.register_task(task);
    let notes: Arc<Mutex<Vec<TaskId>>> = Default::default();
    inbox.register_sweeper(LoggedSweeper {
        notes: Arc::clone(&notes),
        ..Default::default()
    });
    let mut store = Store::default();
    inbox.poll_fleet(&mut store, 1);
    assert_eq!(*notes.lock().unwrap(), vec![id, id]);
    // Drained: a second poll forwards nothing new.
    inbox.poll_fleet(&mut store, 1);
    assert_eq!(notes.lock().unwrap().len(), 2);
}

#[test]
fn bind_new_forwards_failure_limit() {
    let mut inbox: FleetInbox<Logged, LoggedSweeper> = FleetInbox::new();
    let mut task = Logged::new(Some("wt-lim"), &Log::default());
    task.limit = 5;
    let id = task.id;
    inbox.register_task(task);
    let limits: Arc<Mutex<Vec<(TaskId, u8)>>> = Default::default();
    inbox.register_sweeper(LoggedSweeper {
        limits: Arc::clone(&limits),
        ..Default::default()
    });
    inbox.bind_new("wt-lim", "s1");
    assert_eq!(*limits.lock().unwrap(), vec![(id, 5)]);
}

#[test]
fn one_slug_has_one_task() {
    let mut inbox: FleetInbox<Logged, LoggedSweeper> = FleetInbox::new();
    let log = Log::default();
    assert!(inbox.register_task(Logged::new(Some("wt-a"), &log)));
    assert!(!inbox.register_task(Logged::new(Some("wt-a"), &log)));
    assert!(inbox.register_task(Logged::new(None, &log)));
    assert!(inbox.register_task(Logged::new(None, &log)));
    assert_eq!(inbox.task_count(), 3);
    assert!(inbox.has_slug("wt-a"));
    assert!(!inbox.has_slug("wt-b"));
}

#[derive(Debug, Default)]
struct FakeInner {
    written: Vec<u8>,
    outputs: VecDeque<Vec<u8>>,
    alive: bool,
    killed: bool,
    answers: bool,
}

#[derive(Clone, Default)]
struct FakeHandle {
    inner: Arc<Mutex<FakeInner>>,
}

impl FakeHandle {
    fn alive() -> Self {
        Self {
            inner: Arc::new(Mutex::new(FakeInner {
                alive: true,
                ..FakeInner::default()
            })),
        }
    }

    fn shell(&self) -> FakeShell {
        FakeShell {
            inner: Arc::clone(&self.inner),
        }
    }

    fn feed(&self, text: &str) {
        self.inner
            .lock()
            .unwrap()
            .outputs
            .push_back(text.as_bytes().to_vec());
    }

    fn kill_shell(&self) {
        self.inner.lock().unwrap().alive = false;
    }
}

struct FakeShell {
    inner: Arc<Mutex<FakeInner>>,
}

impl ShellChannel for FakeShell {
    fn write_bytes(&mut self, data: &[u8]) -> Result<(), Failure> {
        let mut g = self.inner.lock().unwrap();
        g.written.extend_from_slice(data);
        if g.answers {
            // Answer every prompt like a CLI would (with ANSI colors).
            g.outputs.push_back(b"\x1b[32mdone-it\x1b[0m\n".to_vec());
        }
        Ok(())
    }
    fn read_available(&mut self) -> Vec<u8> {
        self.inner
            .lock()
            .unwrap()
            .outputs
            .drain(..)
            .flatten()
            .collect()
    }
    fn resize(&mut self, _cols: u16, _rows: u16) -> Result<(), Failure> {
        Ok(())
    }
    fn is_alive(&mut self) -> bool {
        self.inner.lock().unwrap().alive
    }
    fn kill(&mut self) -> Result<(), Failure> {
        let mut g = self.inner.lock().unwrap();
        g.alive = false;
        g.killed = true;
        Ok(())
    }
}

fn attached() -> (TerminalAdapter, FakeHandle, TaskId) {
    let mut ad = TerminalAdapter::new();
    let task = TaskId::new();
    let handle = FakeHandle::alive();
    ad.attach(task, Box::new(handle.shell()));
    (ad, handle, task)
}

#[test]
fn spawn_needs_an_attached_shell() {
    let mut ad = TerminalAdapter::new();
    assert!(ad.spawn(TaskId::new(), "hi").is_err());
    assert!(ad.mark_done(&TaskId::new()).is_err());
    assert!(ad.prompt(&TaskId::new(), "x").is_err());
    assert!(ad.abort(&TaskId::new()).is_err());
}

#[test]
fn prompt_writes_shell_and_queues_events() {
    let (mut ad, handle, task) = attached();
    ad.spawn(task, "hello").unwrap();
    assert_eq!(handle.inner.lock().unwrap().written, b"hello\n");
    let evs = ad.poll();
    assert!(evs.contains(&AgentEvent::Status(task, AgentStatus::Working)));
    assert!(evs.iter().any(|e| matches!(
        e,
        AgentEvent::Message(m) if m.task == task && m.role == Role::User && m.text == "hello"
    )));
}

#[test]
fn prompt_is_one_line_of_bytes() {
    assert_eq!(prompt_line("grün"), "grün\n".as_bytes());
}

#[test]
fn output_becomes_stripped_agent_message() {
    let (mut ad, handle, _task) = attached();
    ad.spawn(_task, "hi").unwrap();
    let _ = ad.poll();
    handle.feed("\x1b[32mdone\x1b[0m\n");
    let evs = ad.poll();
    let texts: Vec<&str> = evs
        .iter()
        .filter_map(|e| match e {
            AgentEvent::Message(m) if m.role == Role::Agent => Some(m.text.as_str()),
            _ => None,
        })
        .collect();
    assert_eq!(texts, vec!["done\n"]);
}

#[test]
fn dead_shell_reports_done_and_abort_idles() {
    let (mut ad, handle, task) = attached();
    ad.spawn(task, "hi").unwrap();
    let _ = ad.poll();
    handle.kill_shell();
    let evs = ad.poll();
    assert!(evs.contains(&AgentEvent::Status(task, AgentStatus::Done)));

    let (mut ad, handle, task) = attached();
    ad.spawn(task, "hi").unwrap();
    let _ = ad.poll();
    ad.abort(&task).unwrap();
    assert!(handle.inner.lock().unwrap().killed);
    let evs = ad.poll();
    // abort() queues Idle first; the dead shell then also reports Done.
    assert!(evs.contains(&AgentEvent::Status(task, AgentStatus::Idle)));
    assert!(evs.contains(&AgentEvent::Status(task, AgentStatus::Done)));
}

#[test]
fn mark_done_overrides_live_shell_once() {
    let (mut ad, _handle, task) = attached();
    ad.spawn(task, "hi").unwrap();
    let _ = ad.poll();
    ad.mark_done(&task).unwrap();
    let evs = ad.poll();
    assert!(evs.contains(&AgentEvent::Status(task, AgentStatus::Done)));
    // One-shot: next poll falls back to the heuristic.
    let evs = ad.poll();
    assert!(evs.contains(&AgentEvent::Status(task, AgentStatus::Working)));
}

fn host() -> Box<dyn WorkspaceProvider> {
    Box::new(MockWorkspace::new())
}

#[test]
fn mock_task_drains_prompt_into_transcript() {
    let mut inbox: Fleet = FleetInbox::new();
    let id = open_host_task(&mut inbox, "wt-a", "mock", "hello", host()).unwrap();
    assert_eq!(inbox.task_count(), 1);
    assert!(inbox.has_sweeper());
    let mut store = Store::default();
    inbox.poll_fleet(&mut store, 1);
    let msgs = store.transcripts.get(&id).cloned().unwrap_or_default();
    assert_eq!(msgs.len(), 1);
    assert_eq!(msgs[0].text, "hello");
}

#[test]
fn unknown_agent_is_rejected() {
    let mut inbox: Fleet = FleetInbox::new();
    assert!(open_host_task(&mut inbox, "wt-a", "codex", "hi", host()).is_err());
    assert_eq!(inbox.task_count(), 0);
}

#[test]
fn child_task_flows_with_handoff_context() {
    let mut inbox: Fleet = FleetInbox::new();
    let parent = Task::new("wt-p", "mock")
        .with_summary("did X, stuck on Y")
        .with_failure_limit(3);
    let pid = parent.id;
    let cid = open_child_task(
        &mut inbox,
        &parent,
        "wt-c",
        "mock",
        "continue",
        "/tmp",
        host(),
    )
    .unwrap();
    assert_ne!(cid, pid);
    assert_eq!(inbox.task_count(), 1);
    // The child's prompt drains under its own fresh id.
    let mut store = Store::default();
    inbox.poll_fleet(&mut store, 1);
    let msgs = store.transcripts.get(&cid).cloned().unwrap_or_default();
    assert_eq!(msgs.len(), 1);
    assert_eq!(msgs[0].text, "continue");
    let handoff = inbox.handoff_of("wt-c").unwrap();
    assert_eq!(handoff.parent, cid);
    assert_eq!(handoff.summary.as_deref(), Some("did X, stuck on Y"));
}

/// Provider handing out scripted shells (no pty, no network).
struct FakeProvider {
    handle: FakeHandle,
}

impl WorkspaceProvider for FakeProvider {
    fn exec(&mut self, _cmd: &[&str], _cwd: &str) -> Result<ExecOut, Failure> {
        Err(Failure::because("no exec in fake"))
    }

    fn shell(&mut self, _cwd: &str) -> Result<Box<dyn ShellChannel>, Failure> {
        Ok(Box::new(self.handle.shell()))
    }
}

/// Provider that records where its shells are opened.
struct Recorder {
    handle: FakeHandle,
    dirs: Arc<Mutex<Vec<String>>>,
}

impl WorkspaceProvider for Recorder {
    fn exec(&mut self, _cmd: &[&str], _cwd: &str) -> Result<ExecOut, Failure> {
        Err(Failure::because("no exec here"))
    }

    fn shell(&mut self, cwd: &str) -> Result<Box<dyn ShellChannel>, Failure> {
        self.dirs.lock().unwrap().push(cwd.to_string());
        Ok(Box::new(self.handle.shell()))
    }
}

#[test]
fn opened_shell_stands_in_its_directory_and_has_the_prompt() {
    let mut inbox: Fleet = FleetInbox::new();
    let dirs = Arc::new(Mutex::new(Vec::new()));
    let place = |handle: &FakeHandle| -> Box<dyn WorkspaceProvider> {
        Box::new(Recorder {
            handle: handle.clone(),
            dirs: Arc::clone(&dirs),
        })
    };
    let (a, b, c) = (FakeHandle::alive(), FakeHandle::alive(), FakeHandle::alive());
    open_task_with(&mut inbox, "wt-a", "terminal", "go", "/work/a", place(&a)).unwrap();
    open_host_task(&mut inbox, "wt-b", "terminal", "on", place(&b)).unwrap();
    open_terminal_task(&mut inbox, Task::new("wt-c", "codex"), "up", "/work/c", place(&c)).unwrap();
    assert_eq!(*dirs.lock().unwrap(), vec!["/work/a", "/tmp", "/work/c"]);
    assert_eq!(a.inner.lock().unwrap().written, b"go\n");
    assert_eq!(b.inner.lock().unwrap().written, b"on\n");
    assert_eq!(c.inner.lock().unwrap().written, b"up\n");
}

#[test]
fn terminal_task_needs_a_shell() {
    let mut inbox: Fleet = FleetInbox::new();
    let err = open_terminal_task(&mut inbox, Task::new("wt-a", "codex"), "go", "/tmp", host())
        .unwrap_err();
    assert_eq!(err.message, "shell not supported by this provider");
    assert_eq!(inbox.task_count(), 0);
    let refused = start_terminal(TaskId::new(), Err(Failure::because("gone")), "go");
    assert!(matches!(refused, Err(f) if f.message == "gone"));
}

#[test]
fn fan_out_one_prompt_to_two_tasks() {
    let mut inbox: Fleet = FleetInbox::new();
    let a = open_host_task(&mut inbox, "wt-a", "mock", "same prompt", host()).unwrap();
    let b = open_host_task(&mut inbox, "wt-b", "mock", "same prompt", host()).unwrap();
    assert_ne!(a, b);
    // Sessions created later bind by slug; sweeper tracks both.
    inbox.bind_new("wt-a", "s1");
    inbox.bind_new("wt-b", "s2");
    let mut store = Store::default();
    inbox.poll_fleet(&mut store, 1);
    for id in [a, b] {
        let msgs = store.transcripts.get(&id).cloned().unwrap_or_default();
        assert_eq!(msgs.len(), 1);
        assert_eq!(msgs[0].text, "same prompt");
    }
    // Sweeper installed once, still quiet for fresh tasks.
    inbox.poll_fleet(&mut store, 30);
    assert!(store.errors.is_empty());
}

#[test]
fn duplicate_slug_open_fails_without_side_effects() {
    let mut inbox: Fleet = FleetInbox::new();
    open_host_task(&mut inbox, "wt-a", "mock", "first", host()).unwrap();
    assert_eq!(inbox.task_count(), 1);
    let err = open_host_task(&mut inbox, "wt-a", "mock", "second", host()).unwrap_err();
    assert!(err.message.contains("already open"));
    assert_eq!(inbox.task_count(), 1);
    // A fresh slug still opens.
    open_host_task(&mut inbox, "wt-b", "mock", "other", host()).unwrap();
    assert_eq!(inbox.task_count(), 2);
}

#[test]
fn terminal_task_flows_through_fake_shell() {
    let mut inbox: Fleet = FleetInbox::new();
    let handle = FakeHandle::alive();
    handle.inner.lock().unwrap().answers = true;
    let ws: Box<dyn WorkspaceProvider> = Box::new(FakeProvider { handle });
    // Shell failure surfaces instead of registering half a task.
    let mut bad_ws: Box<dyn WorkspaceProvider> = Box::new(MockWorkspace::new());
    assert!(bad_ws.shell("/tmp").is_err());
    let bad: Box<dyn WorkspaceProvider> = Box::new(MockWorkspace::new());
    assert!(open_task_with(&mut inbox, "wt-t", "terminal", "do it", "/tmp", bad).is_err());
    assert_eq!(inbox.task_count(), 0);
    let id = open_task_with(&mut inbox, "wt-t", "terminal", "do it", "/tmp", ws).unwrap();
    let mut store = Store::default();
    inbox.poll_fleet(&mut store, 1);
    let msgs = store.transcripts.get(&id).cloned().unwrap_or_default();
    assert!(msgs
        .iter()
        .any(|m| m.role == Role::User && m.text == "do it"));
    let agent_text: Vec<&str> = msgs
        .iter()
        .filter(|m| m.role == Role::Agent)
        .map(|m| m.text.as_str())
        .collect();
    assert_eq!(agent_text, vec!["done-it\n"]);
}

#[test]
fn retry_clears_the_mark_with_the_task() {
    let mut fleet: Fleet = FleetInbox::new();
    let mut store = Store::default();
    let id = open_host_task(&mut fleet, "wt-a", "mock", "go", host()).unwrap();
    store.mark_blocked(id, "wt-a".into());
    store.mark_blocked(TaskId(7), "wt-b".into());
    assert!(!retry(&mut fleet, &mut store, "wt-b"));
    assert!(store.is_blocked_slug("wt-b"));
    assert!(retry(&mut fleet, &mut store, "wt-a"));
    assert!(!store.is_blocked_slug("wt-a"));
    assert!(store.is_blocked_slug("wt-b"));
}
