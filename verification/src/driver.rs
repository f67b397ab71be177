//! Opening tasks: a worktree, an agent and a prompt become a running task.
use crate::agent;
use crate::agent::{AgentBackend, AgentEvent, EventModel, MockAgent, OpencodeAdapter, StatusModel};
use crate::fleet;
use crate::fleet::{FleetInbox, SupervisedTask};
use crate::outside;
use crate::outside::Failure;
use crate::provider::{ShellChannel, WorkspaceProvider};
use crate::store::Store;
use crate::supervisor::{Progress, Supervisor};
use crate::sweeper::FleetSweeper;
use crate::task::{Task, TaskModel};
use crate::terminal;
use crate::terminal::{Attached, Shell, TerminalAdapter, TerminalModel};
use crate::text;
use crate::transcript::TaskId;
use vstd::prelude::*;
use vstd::string::*;

verus! {

/// One of the agents that a task can have.
pub enum AnyAgent {
    Mock(MockAgent),
    Opencode(OpencodeAdapter),
    Terminal(TerminalAdapter),
}

impl AgentBackend for AnyAgent {
    open spec fn spawned(
        was: AnyAgent,
        now: AnyAgent,
        task: TaskId,
        prompt: Seq<char>,
        fault: Option<Seq<char>>,
    ) -> bool {
        match (was, now) {
            (AnyAgent::Mock(a), AnyAgent::Mock(b)) => MockAgent::spawned(a, b, task, prompt, fault),
            (AnyAgent::Opencode(a), AnyAgent::Opencode(b)) => OpencodeAdapter::spawned(
                a,
                b,
                task,
                prompt,
                fault,
            ),
            (AnyAgent::Terminal(a), AnyAgent::Terminal(b)) => TerminalAdapter::spawned(
                a,
                b,
                task,
                prompt,
                fault,
            ),
            _ => false,
        }
    }

    open spec fn prompted(
        was: AnyAgent,
        now: AnyAgent,
        task: TaskId,
        text: Seq<char>,
        fault: Option<Seq<char>>,
    ) -> bool {
        match (was, now) {
            (AnyAgent::Mock(a), AnyAgent::Mock(b)) => MockAgent::prompted(a, b, task, text, fault),
            (AnyAgent::Opencode(a), AnyAgent::Opencode(b)) => OpencodeAdapter::prompted(
                a,
                b,
                task,
                text,
                fault,
            ),
            (AnyAgent::Terminal(a), AnyAgent::Terminal(b)) => TerminalAdapter::prompted(
                a,
                b,
                task,
                text,
                fault,
            ),
            _ => false,
        }
    }

    open spec fn aborted(was: AnyAgent, now: AnyAgent, task: TaskId, fault: Option<Seq<char>>) -> bool {
        match (was, now) {
            (AnyAgent::Mock(a), AnyAgent::Mock(b)) => MockAgent::aborted(a, b, task, fault),
            (AnyAgent::Opencode(a), AnyAgent::Opencode(b)) => OpencodeAdapter::aborted(
                a,
                b,
                task,
                fault,
            ),
            (AnyAgent::Terminal(a), AnyAgent::Terminal(b)) => TerminalAdapter::aborted(
                a,
                b,
                task,
                fault,
            ),
            _ => false,
        }
    }

    open spec fn polled(was: AnyAgent, now: AnyAgent, events: Seq<EventModel>) -> bool {
        match (was, now) {
            (AnyAgent::Mock(a), AnyAgent::Mock(b)) => MockAgent::polled(a, b, events),
            (AnyAgent::Opencode(a), AnyAgent::Opencode(b)) => OpencodeAdapter::polled(a, b, events),
            (AnyAgent::Terminal(a), AnyAgent::Terminal(b)) => TerminalAdapter::polled(a, b, events),
            _ => false,
        }
    }

    open spec fn collected(was: AnyAgent, store: Store, now: AnyAgent, events: Seq<EventModel>) -> bool {
        match (was, now) {
            (AnyAgent::Mock(a), AnyAgent::Mock(b)) => MockAgent::collected(a, store, b, events),
            (AnyAgent::Opencode(a), AnyAgent::Opencode(b)) => OpencodeAdapter::collected(
                a,
                store,
                b,
                events,
            ),
            (AnyAgent::Terminal(a), AnyAgent::Terminal(b)) => TerminalAdapter::collected(
                a,
                store,
                b,
                events,
            ),
            _ => false,
        }
    }

    open spec fn bound(was: AnyAgent, now: AnyAgent, task: TaskId, sid: Seq<char>) -> bool {
        match (was, now) {
            (AnyAgent::Mock(a), AnyAgent::Mock(b)) => MockAgent::bound(a, b, task, sid),
            (AnyAgent::Opencode(a), AnyAgent::Opencode(b)) => OpencodeAdapter::bound(
                a,
                b,
                task,
                sid,
            ),
            (AnyAgent::Terminal(a), AnyAgent::Terminal(b)) => TerminalAdapter::bound(
                a,
                b,
                task,
                sid,
            ),
            _ => false,
        }
    }

    open spec fn unbound(was: AnyAgent, now: AnyAgent, sid: Seq<char>) -> bool {
        match (was, now) {
            (AnyAgent::Mock(a), AnyAgent::Mock(b)) => MockAgent::unbound(a, b, sid),
            (AnyAgent::Opencode(a), AnyAgent::Opencode(b)) => OpencodeAdapter::unbound(a, b, sid),
            (AnyAgent::Terminal(a), AnyAgent::Terminal(b)) => TerminalAdapter::unbound(a, b, sid),
            _ => false,
        }
    }

    fn spawn(&mut self, task: TaskId, prompt: &str) -> (r: Result<(), Failure>) {
        match self {
            AnyAgent::Mock(a) => a.spawn(task, prompt),
            AnyAgent::Opencode(a) => a.spawn(task, prompt),
            AnyAgent::Terminal(a) => a.spawn(task, prompt),
        }
    }

    fn prompt(&mut self, task: &TaskId, text: &str) -> (r: Result<(), Failure>) {
        match self {
            AnyAgent::Mock(a) => a.prompt(task, text),
            AnyAgent::Opencode(a) => a.prompt(task, text),
            AnyAgent::Terminal(a) => a.prompt(task, text),
        }
    }

    fn abort(&mut self, task: &TaskId) -> (r: Result<(), Failure>) {
        match self {
            AnyAgent::Mock(a) => a.abort(task),
            AnyAgent::Opencode(a) => a.abort(task),
            AnyAgent::Terminal(a) => a.abort(task),
        }
    }

    fn poll(&mut self) -> (out: Vec<AgentEvent>) {
        match self {
            AnyAgent::Mock(a) => a.poll(),
            AnyAgent::Opencode(a) => a.poll(),
            AnyAgent::Terminal(a) => a.poll(),
        }
    }

    fn collect(&mut self, store: &Store) -> (out: Vec<AgentEvent>) {
        match self {
            AnyAgent::Mock(a) => a.collect(store),
            AnyAgent::Opencode(a) => a.collect(store),
            AnyAgent::Terminal(a) => a.collect(store),
        }
    }

    fn bind_session(&mut self, task: TaskId, session_id: &str) {
        match self {
            AnyAgent::Mock(a) => a.bind_session(task, session_id),
            AnyAgent::Opencode(a) => a.bind_session(task, session_id),
            AnyAgent::Terminal(a) => a.bind_session(task, session_id),
        }
    }

    fn unbind_session(&mut self, session_id: &str) {
        match self {
            AnyAgent::Mock(a) => a.unbind_session(session_id),
            AnyAgent::Opencode(a) => a.unbind_session(session_id),
            AnyAgent::Terminal(a) => a.unbind_session(session_id),
        }
    }
}

/// A task with any agent in any place.
pub type AnyTask = Supervisor<AnyAgent, Box<dyn WorkspaceProvider>>;

/// The tasks of all worktrees.
pub type Fleet = FleetInbox<AnyTask, FleetSweeper>;

/// Where a task is opened.
pub struct Place<W> {
    pub ws: W,
}

/// Any place.
pub type AnyPlace = Place<Box<dyn WorkspaceProvider>>;

/// There is a sweeper: the one before, or a new one that watches nothing.
pub open spec fn sweeper_ready(was: Option<FleetSweeper>, now: Option<FleetSweeper>) -> bool {
    match was {
        Some(_) => now == was,
        None => now matches Some(s) && s@ == Map::<
            TaskId,
            crate::dispatcher::TaskMeta,
        >::empty(),
    }
}

/// The error for a worktree that has a task.
pub open spec fn already_open(slug: Seq<char>) -> Seq<char> {
    "task already open for slug "@ + outside::debug_of(slug)
}

/// The error for an agent that is not known.
pub open spec fn unknown_agent(agent_ref: Seq<char>) -> Seq<char> {
    "unknown agent_ref "@ + outside::debug_of(agent_ref) + " (mock|opencode|terminal)"@
}

/// A terminal with one shell in which nothing has happened.
pub open spec fn one_shell(task: TaskId) -> TerminalModel {
    TerminalModel { tasks: seq![task], queued: Seq::empty(), done: Set::empty(), seq: 0 }
}

/// A place opened a shell in a directory, coming into the state `after`.
pub open spec fn gave_shell(place: AnyPlace, cwd: Seq<char>, shell: Shell, after: int) -> bool {
    place.ws.opens(cwd, Ok(shell.channel.state()), after)
}

/// A place opened no shell in a directory, and `why` is the reason.
pub open spec fn gave_none(place: AnyPlace, cwd: Seq<char>, why: Seq<char>) -> bool {
    exists|after: int| #[trigger] place.ws.opens(cwd, Err(why), after)
}

/// A terminal with this shell alone, after the prompt was sent to it with this
/// outcome.
pub open spec fn prompted_with(
    t: TerminalAdapter,
    shell: Shell,
    task: TaskId,
    prompt: Seq<char>,
    fault: Option<Seq<char>>,
) -> bool {
    exists|seed: TerminalAdapter|
        {
            &&& seed@ == one_shell(task)
            &&& seed.channels()[task] == shell
            &&& #[trigger] TerminalAdapter::spawned(seed, t, task, prompt, fault)
        }
}

/// A shell did not take the prompt, and `why` is the reason.
pub open spec fn refused_prompt(shell: Shell, prompt: Seq<char>, why: Seq<char>) -> bool {
    exists|then: int| #[trigger]
        shell.channel.takes(terminal::line_of(prompt), Some(why), then)
}

/// A terminal whose shell a place opened in a directory, coming into the state
/// `after`; the prompt was sent to it, with this outcome.
pub open spec fn shell_started(
    t: TerminalAdapter,
    place: AnyPlace,
    after: int,
    cwd: Seq<char>,
    task: TaskId,
    prompt: Seq<char>,
    fault: Option<Seq<char>>,
) -> bool {
    exists|shell: Shell| #[trigger]
        gave_shell(place, cwd, shell, after) && prompted_with(t, shell, task, prompt, fault)
}

/// No shell came of a place and a directory, or one that did not take the
/// prompt, and `why` is the reason.
pub open spec fn shell_refused(
    place: AnyPlace,
    cwd: Seq<char>,
    prompt: Seq<char>,
    why: Seq<char>,
) -> bool {
    ||| gave_none(place, cwd, why)
    ||| exists|shell: Shell, after: int| #[trigger]
        gave_shell(place, cwd, shell, after) && refused_prompt(shell, prompt, why)
}

/// The agent of a new task and the place that it keeps: the mock has its
/// prompt; the adapter of the agent server waits for a session; the terminal
/// has a shell of the place, in the directory, that was sent the prompt.
pub open spec fn seeded(
    opened: AnyTask,
    place: AnyPlace,
    cwd: Seq<char>,
    agent_ref: Seq<char>,
    task: TaskId,
    prompt: Seq<char>,
) -> bool {
    match opened.backend {
        AnyAgent::Mock(m) => {
            &&& opened.ws == place.ws
            &&& agent_ref == "mock"@
            &&& m.statuses() == Map::<TaskId, StatusModel>::empty().insert(
                task,
                StatusModel::Working,
            )
            &&& m.queued() == MockAgent::with_prompt(Seq::empty(), task, 0, prompt)
        },
        AnyAgent::Opencode(o) => opened.ws == place.ws && agent_ref == "opencode"@ && o.is_new(),
        AnyAgent::Terminal(t) => {
            &&& agent_ref == "terminal"@
            &&& exists|fault: Option<Seq<char>>| #[trigger]
                shell_started(t, place, opened.ws.state(), cwd, task, prompt, fault)
        },
    }
}

/// What opening a task did. A worktree has one task at most. The mock and the
/// adapter always open, a terminal where the place gives it a shell in the
/// directory, any other agent never.
pub open spec fn task_opened(
    was: Fleet,
    now: Fleet,
    task: TaskModel,
    prompt: Seq<char>,
    cwd: Seq<char>,
    place: AnyPlace,
    r: Result<TaskId, Failure>,
) -> bool {
    if fleet::owned(was.tasks@, task.slug) {
        r matches Err(e) && e@ == already_open(task.slug) && now == was
    } else {
        &&& sweeper_ready(was.sweeper, now.sweeper)
        &&& match r {
            Ok(id) => {
                &&& id == task.id
                &&& now.tasks@.len() == was.tasks@.len() + 1
                &&& now.tasks@.drop_last() == was.tasks@
                &&& now.tasks@.last().progress() == (Progress {
                    task,
                    errors: Seq::empty(),
                    successes: Seq::empty(),
                    metrics: Seq::empty(),
                })
                &&& seeded(
                    now.tasks@.last(),
                    place,
                    cwd,
                    task.agent_ref,
                    id,
                    prompt,
                )
            },
            Err(e) => {
                &&& now.tasks == was.tasks
                &&& task.agent_ref != "mock"@
                &&& task.agent_ref != "opencode"@
                &&& if task.agent_ref == "terminal"@ {
                    gave_none(place, cwd, e@)
                } else {
                    e@ == unknown_agent(task.agent_ref)
                }
            },
        }
    }
}

fn one_terminal(id: TaskId, shell: Shell) -> (adapter: TerminalAdapter)
    ensures
        adapter@ == one_shell(id),
        adapter.channels()[id] == shell,
{
    let mut adapter = TerminalAdapter::new();
    adapter.attach_shell(id, shell);
    proof {
        let tasks = adapter@.tasks;
        let none = Seq::<TaskId>::empty();
        assert(tasks.to_set() == none.to_set().insert(id));
        assert(tasks.to_set().contains(id));
        assert forall|i: int| 0 <= i < tasks.len() implies #[trigger] tasks[i] == id by {
            assert(tasks.contains(tasks[i]));
            assert(tasks.to_set().contains(tasks[i]));
            assert(!none.contains(tasks[i]));
        }
        if tasks.len() >= 2 {
            assert(tasks[0] == tasks[1]);
        }
        assert(tasks =~= seq![id]);
    }
    adapter
}

/// The terminal of a task by what came of opening its shell: the shell is sent
/// the prompt, and whatever goes wrong is handed on.
pub fn start_terminal(
    id: TaskId,
    opened: Result<Box<dyn ShellChannel>, Failure>,
    prompt: &str,
) -> (r: Result<TerminalAdapter, Failure>)
    ensures
        match opened {
            Err(e) => r matches Err(f) && f@ == e@,
            Ok(shell) => {
                let given = Attached { channel: shell };
                match r {
                    Ok(t) => t@ == one_shell(id).prompted(id, prompt@) && prompted_with(
                        t,
                        given,
                        id,
                        prompt@,
                        None,
                    ),
                    Err(f) => refused_prompt(given, prompt@, f@),
                }
            },
        },
{
    let shell = match opened {
        Ok(shell) => Attached { channel: shell },
        Err(e) => {
            return Err(e);
        },
    };
    let ghost given = shell;
    let mut t = one_terminal(id, shell);
    let ghost seed = t;
    proof {
        assert(seed@.tasks[0] == id);
        assert(seed@.tasks.contains(id));
    }
    match t.spawn(id, prompt) {
        Ok(_) => {
            assert(TerminalAdapter::spawned(seed, t, id, prompt@, None));
            assert(prompted_with(t, given, id, prompt@, None));
            Ok(t)
        },
        Err(e) => {
            assert(given.channel.takes(
                terminal::line_of(prompt@),
                Some(e@),
                t.channels()[id].channel.state(),
            ));
            assert(refused_prompt(given, prompt@, e@));
            Err(e)
        },
    }
}

fn build_agent(task: &Task, cwd: &str, ws: &mut Box<dyn WorkspaceProvider>) -> (r: Result<
    AnyAgent,
    Failure,
>)
    ensures
        match r {
            Ok(AnyAgent::Mock(a)) => task@.agent_ref == "mock"@ && a.statuses() == Map::<
                TaskId,
                StatusModel,
            >::empty() && a.queued() == Seq::<EventModel>::empty() && *final(ws) == *old(ws),
            Ok(AnyAgent::Opencode(a)) => task@.agent_ref == "opencode"@ && a.is_new() && *final(ws)
                == *old(ws),
            Ok(AnyAgent::Terminal(a)) => {
                &&& task@.agent_ref == "terminal"@
                &&& a@ == one_shell(task.id)
                &&& old(ws).opens(
                    cwd@,
                    Ok(a.channels()[task.id].channel.state()),
                    final(ws).state(),
                )
            },
            Err(e) => {
                &&& task@.agent_ref != "mock"@
                &&& task@.agent_ref != "opencode"@
                &&& if task@.agent_ref == "terminal"@ {
                    old(ws).opens(cwd@, Err(e@), final(ws).state())
                } else {
                    e@ == unknown_agent(task@.agent_ref)
                }
            },
        },
{
    let name = task.agent_ref.as_str();
    if text::same(name, "mock") {
        return Ok(AnyAgent::Mock(MockAgent::new()));
    }
    if text::same(name, "opencode") {
        return Ok(AnyAgent::Opencode(OpencodeAdapter::new()));
    }
    if text::same(name, "terminal") {
        let shell = match ws.shell(cwd) {
            Ok(shell) => shell,
            Err(e) => {
                return Err(e);
            },
        };
        let shell = Attached { channel: shell };
        let adapter = one_terminal(task.id, shell);
        return Ok(AnyAgent::Terminal(adapter));
    }
    let mut message = "unknown agent_ref ".to_owned();
    message.append(outside::debug_text(name).as_str());
    message.append(" (mock|opencode|terminal)");
    Err(Failure { message })
}

fn open_in(inbox: &mut Fleet, task: Task, prompt: &str, cwd: &str, place: AnyPlace) -> (r: Result<TaskId, Failure>)
    ensures
        task_opened(*old(inbox), *final(inbox), task@, prompt@, cwd@, place, r),
{
    if inbox.has_slug(task.slug.as_str()) {
        return Err(
            Failure::because_of(
                "task already open for slug ",
                outside::debug_text(task.slug.as_str()).as_str(),
            ),
        );
    }
    if !inbox.has_sweeper() {
        inbox.register_sweeper(FleetSweeper::new());
    }
    let ghost given = place;
    let mut ws = place.ws;
    let id = task.id;
    let mut backend = match build_agent(&task, cwd, &mut ws) {
        Ok(b) => b,
        Err(e) => {
            proof {
                if task@.agent_ref == "terminal"@ {
                    assert(given.ws.opens(cwd@, Err(e@), ws.state()));
                    assert(gave_none(given, cwd@, e@));
                }
            }
            return Err(e);
        },
    };
    let ghost seed = backend;
    let spawned = backend.spawn(id, prompt);
    let ghost started = backend;
    proof {
        if let (AnyAgent::Terminal(a), AnyAgent::Terminal(t)) = (seed, started) {
            assert(TerminalAdapter::spawned(a, t, id, prompt@, agent::fault(spawned)));
            assert(prompted_with(t, a.channels()[id], id, prompt@, agent::fault(spawned)));
            assert(gave_shell(given, cwd@, a.channels()[id], ws.state()));
            assert(shell_started(
                t,
                given,
                ws.state(),
                cwd@,
                id,
                prompt@,
                agent::fault(spawned),
            ));
        }
    }
    let ghost tasks = inbox.tasks@;
    let ghost model = task@;
    let sup = Supervisor::new(task, backend, ws);
    assert(sup.worktree() == Some(model.slug));
    inbox.register_task(sup);
    assert(inbox.tasks@.drop_last() =~= tasks);
    Ok(id)
}

/// Opens a task: it is registered with its agent, which gets the prompt where
/// it takes one.
pub fn open_registered_task(
    inbox: &mut Fleet,
    task: Task,
    prompt: &str,
    cwd: &str,
    ws: Box<dyn WorkspaceProvider>,
) -> (r: Result<TaskId, Failure>)
    ensures
        ({
            let place = Place { ws };
            task_opened(*old(inbox), *final(inbox), task@, prompt@, cwd@, place, r)
        }),
{
    let place = Place { ws };
    open_in(inbox, task, prompt, cwd, place)
}

fn open_fresh(
    inbox: &mut Fleet,
    slug: &str,
    agent_ref: &str,
    prompt: &str,
    cwd: &str,
    place: AnyPlace,
) -> (r: Result<TaskId, Failure>)
    ensures
        exists|id: TaskId| #[trigger]
            task_opened(
                *old(inbox),
                *final(inbox),
                TaskModel::fresh(id, slug@, agent_ref@),
                prompt@,
                cwd@,
                place,
                r,
            ),
{
    let task = Task::new(slug, agent_ref);
    let ghost id = task@.id;
    let ghost given = place;
    let r = open_in(inbox, task, prompt, cwd, place);
    assert(task_opened(
        *old(inbox),
        *inbox,
        TaskModel::fresh(id, slug@, agent_ref@),
        prompt@,
        cwd@,
        given,
        r,
    ));
    r
}

/// Opens a task in any place. `cwd` is the directory of a terminal's shell.
/// The identity of the task is random.
pub fn open_task_with(
    inbox: &mut Fleet,
    slug: &str,
    agent_ref: &str,
    prompt: &str,
    cwd: &str,
    ws: Box<dyn WorkspaceProvider>,
) -> (r: Result<TaskId, Failure>)
    ensures
        ({
            let place = Place { ws };
            exists|id: TaskId| #[trigger]
                task_opened(
                    *old(inbox),
                    *final(inbox),
                    TaskModel::fresh(id, slug@, agent_ref@),
                    prompt@,
                    cwd@,
                    place,
                    r,
                )
        }),
{
    let place = Place { ws };
    open_fresh(inbox, slug, agent_ref, prompt, cwd, place)
}

/// Opens a task on the host, with its shell in `/tmp`.
pub fn open_host_task(
    inbox: &mut Fleet,
    slug: &str,
    agent_ref: &str,
    prompt: &str,
    host: Box<dyn WorkspaceProvider>,
) -> (r: Result<TaskId, Failure>)
    ensures
        ({
            let place = Place { ws: host };
            exists|id: TaskId| #[trigger]
                task_opened(
                    *old(inbox),
                    *final(inbox),
                    TaskModel::fresh(id, slug@, agent_ref@),
                    prompt@,
                    "/tmp"@,
                    place,
                    r,
                )
        }),
{
    let place = Place { ws: host };
    open_fresh(inbox, slug, agent_ref, prompt, "/tmp", place)
}

/// Opens a task that continues another, in its own worktree: a full budget,
/// the same limits and context.
pub fn open_child_task(
    inbox: &mut Fleet,
    parent: &Task,
    slug: &str,
    agent_ref: &str,
    prompt: &str,
    cwd: &str,
    ws: Box<dyn WorkspaceProvider>,
) -> (r: Result<TaskId, Failure>)
    ensures
        ({
            let place = Place { ws };
            exists|id: TaskId| #[trigger]
                task_opened(
                    *old(inbox),
                    *final(inbox),
                    parent@.continued(id, slug@, agent_ref@),
                    prompt@,
                    cwd@,
                    place,
                    r,
                )
        }),
{
    let task = parent.child(slug, agent_ref);
    let ghost id = task@.id;
    let place = Place { ws };
    let ghost given = place;
    let r = open_in(inbox, task, prompt, cwd, place);
    assert(task_opened(
        *old(inbox),
        *inbox,
        parent@.continued(id, slug@, agent_ref@),
        prompt@,
        cwd@,
        given,
        r,
    ));
    r
}

/// Opens a task whose agent is a program in a terminal, whatever it is called.
/// It is registered only where its shell could be opened and took the prompt.
pub fn open_terminal_task(
    inbox: &mut Fleet,
    task: Task,
    prompt: &str,
    cwd: &str,
    ws: Box<dyn WorkspaceProvider>,
) -> (r: Result<TaskId, Failure>)
    ensures
        ({
            let place = Place { ws };
            if fleet::owned(old(inbox).tasks@, task@.slug) {
                r matches Err(e) && e@ == already_open(task@.slug) && *final(inbox) == *old(inbox)
            } else {
                &&& sweeper_ready(old(inbox).sweeper, final(inbox).sweeper)
                &&& match r {
                    Ok(id) => {
                        &&& id == task.id
                        &&& final(inbox).tasks@.len() == old(inbox).tasks@.len() + 1
                        &&& final(inbox).tasks@.drop_last() == old(inbox).tasks@
                        &&& final(inbox).tasks@.last().progress() == (Progress {
                            task: task@,
                            errors: Seq::empty(),
                            successes: Seq::empty(),
                            metrics: Seq::empty(),
                        })
                        &&& final(inbox).tasks@.last().backend matches AnyAgent::Terminal(t) && t@
                            == one_shell(id).prompted(id, prompt@) && shell_started(
                            t,
                            place,
                            final(inbox).tasks@.last().ws.state(),
                            cwd@,
                            id,
                            prompt@,
                            None,
                        )
                    },
                    Err(e) => final(inbox).tasks == old(inbox).tasks && shell_refused(
                        place,
                        cwd@,
                        prompt@,
                        e@,
                    ),
                }
            }
        }),
{
    if inbox.has_slug(task.slug.as_str()) {
        return Err(
            Failure::because_of(
                "task already open for slug ",
                outside::debug_text(task.slug.as_str()).as_str(),
            ),
        );
    }
    if !inbox.has_sweeper() {
        inbox.register_sweeper(FleetSweeper::new());
    }
    let place = Place { ws };
    let ghost given = place;
    let mut ws = place.ws;
    let id = task.id;
    let opened = ws.shell(cwd);
    let ghost outcome = opened;
    let adapter = match start_terminal(id, opened, prompt) {
        Ok(t) => t,
        Err(e) => {
            proof {
                match outcome {
                    Ok(shell) => {
                        let s = Attached { channel: shell };
                        assert(gave_shell(given, cwd@, s, ws.state()));
                    },
                    Err(_) => {
                        assert(given.ws.opens(cwd@, Err(e@), ws.state()));
                    },
                }
                assert(shell_refused(given, cwd@, prompt@, e@));
            }
            return Err(e);
        },
    };
    proof {
        let s = Attached { channel: outcome->Ok_0 };
        assert(gave_shell(given, cwd@, s, ws.state()));
        assert(shell_started(adapter, given, ws.state(), cwd@, id, prompt@, None));
    }
    let ghost tasks = inbox.tasks@;
    let ghost model = task@;
    let sup = Supervisor::new(task, AnyAgent::Terminal(adapter), ws);
    assert(sup.worktree() == Some(model.slug));
    inbox.register_task(sup);
    assert(inbox.tasks@.drop_last() =~= tasks);
    Ok(id)
}

/// Every worktree has one task at most.
pub open spec fn one_task_each(tasks: Seq<AnyTask>) -> bool {
    forall|i: int, j: int|
        0 <= i < j < tasks.len() ==> (#[trigger] tasks[i]).task.slug@ != (
        #[trigger] tasks[j]).task.slug@
}

/// Opening tasks keeps one task for each worktree.
pub proof fn opening_keeps_one_task_each(
    was: Fleet,
    now: Fleet,
    task: TaskModel,
    prompt: Seq<char>,
    cwd: Seq<char>,
    place: AnyPlace,
    r: Result<TaskId, Failure>,
)
    requires
        one_task_each(was.tasks@),
        task_opened(was, now, task, prompt, cwd, place, r),
    ensures
        one_task_each(now.tasks@),
{
    if r is Ok {
        let n = was.tasks@.len() as int;
        assert forall|i: int, j: int| 0 <= i < j < now.tasks@.len() implies (
        #[trigger] now.tasks@[i]).task.slug@ != (#[trigger] now.tasks@[j]).task.slug@ by {
            assert(now.tasks@.drop_last()[i] == was.tasks@[i]);
            if j < n {
                assert(now.tasks@.drop_last()[j] == was.tasks@[j]);
            } else {
                assert(now.tasks@[j].progress().task.slug == task.slug);
                assert(was.tasks@[i].worktree() != Some(task.slug));
            }
        }
    }
}

/// No two tasks have one identity.
pub open spec fn ids_differ(tasks: Seq<AnyTask>) -> bool {
    forall|i: int, j: int|
        0 <= i < j < tasks.len() ==> (#[trigger] tasks[i]).task.id != (#[trigger] tasks[j]).task.id
}

/// Opening a task under an identity that no open task has keeps the identities
/// of all open tasks apart.
pub proof fn opening_keeps_ids_apart(
    was: Fleet,
    now: Fleet,
    task: TaskModel,
    prompt: Seq<char>,
    cwd: Seq<char>,
    place: AnyPlace,
    r: Result<TaskId, Failure>,
)
    requires
        ids_differ(was.tasks@),
        forall|i: int| 0 <= i < was.tasks@.len() ==> (#[trigger] was.tasks@[i]).task.id != task.id,
        task_opened(was, now, task, prompt, cwd, place, r),
    ensures
        ids_differ(now.tasks@),
{
    if r is Ok {
        let n = was.tasks@.len() as int;
        assert forall|i: int, j: int| 0 <= i < j < now.tasks@.len() implies (
        #[trigger] now.tasks@[i]).task.id != (#[trigger] now.tasks@[j]).task.id by {
            assert(now.tasks@.drop_last()[i] == was.tasks@[i]);
            if j < n {
                assert(now.tasks@.drop_last()[j] == was.tasks@[j]);
            } else {
                assert(now.tasks@[j].progress().task.id == task.id);
            }
        }
    }
}

/// What came of starting the task of a worktree again: the task is reset and
/// watched afresh, and the worktree's mark goes with it. Without such a task
/// nothing changes.
pub open spec fn retried(
    was: (Fleet, Store),
    now: (Fleet, Store),
    slug: Seq<char>,
    r: bool,
) -> bool {
    &&& r == fleet::owned(was.0.tasks@, slug)
    &&& if r {
        &&& exists|i: int|
            fleet::owns_first(was.0.tasks@, slug, i) && #[trigger] fleet::task_retried(
                (was.0.tasks@, was.0.sweeper),
                (now.0.tasks@, now.0.sweeper),
                i,
            )
        &&& now.1 == (Store { blocked: now.1.blocked, ..was.1 })
        &&& now.1.blocked@ == Map::new(
            |t: TaskId| was.1.blocked@.dom().contains(t) && was.1.blocked@[t]@ != slug,
            |t: TaskId| was.1.blocked@[t],
        )
        &&& !now.1.has_blocked(slug)
    } else {
        now == was
    }
}

/// Starts the stopped task of a worktree again. False where it has none.
pub fn retry(fleet: &mut Fleet, store: &mut Store, slug: &str) -> (r: bool)
    ensures
        retried((*old(fleet), *old(store)), (*final(fleet), *final(store)), slug@, r),
{
    let r = fleet.retry_task(slug);
    if r {
        store.clear_blocked_by_slug(slug);
    }
    r
}

/// A worktree whose task is open gives no second one, and a failed attempt
/// leaves all tasks as they are.
pub proof fn second_task_is_refused(
    was: Fleet,
    mid: Fleet,
    now: Fleet,
    first: TaskModel,
    second: TaskModel,
    prompt: Seq<char>,
    again: Seq<char>,
    cwd: Seq<char>,
    elsewhere: Seq<char>,
    place: AnyPlace,
    other: AnyPlace,
    id: TaskId,
    r: Result<TaskId, Failure>,
)
    requires
        task_opened(was, mid, first, prompt, cwd, place, Ok::<TaskId, Failure>(id)),
        task_opened(mid, now, second, again, elsewhere, other, r),
        first.slug == second.slug,
    ensures
        r is Err,
        now == mid,
{
    let last = mid.tasks@.last();
    assert(last.progress().task.slug == first.slug);
    assert(mid.tasks@[mid.tasks@.len() - 1].worktree() == Some(first.slug));
}

/// A task that was opened is the last of the fleet, as it was given, with
/// nothing told yet; all others stay. A worktree that has a task gets no
/// second one, and an agent that is not known opens none.
pub proof fn opened_task_joins_the_fleet(
    was: Fleet,
    now: Fleet,
    task: TaskModel,
    prompt: Seq<char>,
    cwd: Seq<char>,
    place: AnyPlace,
    r: Result<TaskId, Failure>,
)
    requires
        task_opened(was, now, task, prompt, cwd, place, r),
    ensures
        r matches Ok(id) ==> {
            &&& id == task.id
            &&& now.tasks@.len() == was.tasks@.len() + 1
            &&& forall|i: int|
                0 <= i < was.tasks@.len() ==> #[trigger] now.tasks@[i] == was.tasks@[i]
            &&& now.tasks@.last().task@ == task
            &&& now.tasks@.last().error_hits@.len() == 0
            &&& now.tasks@.last().success_hits@.len() == 0
            &&& now.sweeper is Some
        },
        r is Err ==> now.tasks == was.tasks,
        (exists|i: int|
            0 <= i < was.tasks@.len() && (#[trigger] was.tasks@[i]).task.slug@ == task.slug)
            ==> r is Err,
        task.agent_ref != "mock"@ && task.agent_ref != "opencode"@ && task.agent_ref != "terminal"@
            ==> r is Err,
{
    if exists|i: int|
        0 <= i < was.tasks@.len() && (#[trigger] was.tasks@[i]).task.slug@ == task.slug {
        let i = choose|i: int|
            0 <= i < was.tasks@.len() && (#[trigger] was.tasks@[i]).task.slug@ == task.slug;
        assert(was.tasks@[i].worktree() == Some(task.slug));
    }
    if let Ok(id) = r {
        assert forall|i: int| 0 <= i < was.tasks@.len() implies #[trigger] now.tasks@[i]
            == was.tasks@[i] by {
            assert(now.tasks@.drop_last()[i] == now.tasks@[i]);
        }
    }
}

/// A mock agent is opened with its prompt: the turn's start is queued, and
/// behind it the words.
pub proof fn mock_task_starts_with_its_prompt(
    was: Fleet,
    now: Fleet,
    task: TaskModel,
    prompt: Seq<char>,
    cwd: Seq<char>,
    place: AnyPlace,
    id: TaskId,
    m: MockAgent,
)
    requires
        task_opened(was, now, task, prompt, cwd, place, Ok::<TaskId, Failure>(id)),
        now.tasks@.last().backend == AnyAgent::Mock(m),
    ensures
        task.agent_ref == "mock"@,
        m.statuses().dom().contains(id) && m.statuses()[id] is Working,
        m.queued().len() == 2,
        m.queued()[0] == EventModel::Status(id, StatusModel::Working),
        m.queued()[1] is Message && m.queued()[1]->Message_0.text == prompt
            && m.queued()[1]->Message_0.task == id,
{
}

/// Trying again works on the first task of the worktree and clears its
/// failures; no mark of the worktree stays, and the marks of others do. Where
/// the worktree has no task nothing happens.
pub proof fn retry_clears_the_worktree(
    was: (Fleet, Store),
    now: (Fleet, Store),
    slug: Seq<char>,
    r: bool,
    t: TaskId,
)
    requires
        retried(was, now, slug, r),
    ensures
        r <==> exists|i: int|
            0 <= i < was.0.tasks@.len() && (#[trigger] was.0.tasks@[i]).task.slug@ == slug,
        !r ==> now == was,
        r ==> exists|i: int|
            {
                &&& 0 <= i < was.0.tasks@.len()
                &&& (#[trigger] was.0.tasks@[i]).task.slug@ == slug
                &&& now.0.tasks@[i].task@.failure_count == 0
                &&& now.0.tasks@[i].task@.status == crate::task::TaskStatus::Active
                &&& now.0.tasks@[i].task@.id == was.0.tasks@[i].task@.id
                &&& forall|k: int|
                    0 <= k < was.0.tasks@.len() && k != i ==> #[trigger] now.0.tasks@[k]
                        == was.0.tasks@[k]
            },
        r ==> now.0.tasks@.len() == was.0.tasks@.len(),
        r && now.1.blocked@.dom().contains(t) ==> now.1.blocked@[t]@ != slug,
        r && was.1.blocked@.dom().contains(t) && was.1.blocked@[t]@ != slug
            ==> now.1.blocked@.dom().contains(t) && now.1.blocked@[t] == was.1.blocked@[t],
{
    if exists|i: int|
        0 <= i < was.0.tasks@.len() && (#[trigger] was.0.tasks@[i]).task.slug@ == slug {
        let i = choose|i: int|
            0 <= i < was.0.tasks@.len() && (#[trigger] was.0.tasks@[i]).task.slug@ == slug;
        assert(was.0.tasks@[i].worktree() == Some(slug));
    }
    if r {
        let i = choose|i: int|
            fleet::owns_first(was.0.tasks@, slug, i) && #[trigger] fleet::task_retried(
                (was.0.tasks@, was.0.sweeper),
                (now.0.tasks@, now.0.sweeper),
                i,
            );
        assert(was.0.tasks@[i].task.slug@ == slug);
        assert(now.0.tasks@[i].progress().task == now.0.tasks@[i].task@);
    }
}

/// The task that is tried again is the first of its worktree, and it is
/// watched from the start: no error of before counts.
pub proof fn retry_takes_the_first_task(
    was: (Fleet, Store),
    now: (Fleet, Store),
    slug: Seq<char>,
) -> (i: int)
    requires
        retried(was, now, slug, true),
    ensures
        0 <= i < was.0.tasks@.len(),
        was.0.tasks@[i].task.slug@ == slug,
        forall|j: int| 0 <= j < i ==> (#[trigger] was.0.tasks@[j]).task.slug@ != slug,
        now.0.tasks@[i].task@ == was.0.tasks@[i].task@.retried(),
        was.0.sweeper is Some ==> now.0.sweeper is Some && now.0.sweeper->Some_0@.dom().contains(
            was.0.tasks@[i].task.id,
        ) && now.0.sweeper->Some_0@[was.0.tasks@[i].task.id].errors == 0,
{
    let i = choose|i: int|
        fleet::owns_first(was.0.tasks@, slug, i) && #[trigger] fleet::task_retried(
            (was.0.tasks@, was.0.sweeper),
            (now.0.tasks@, now.0.sweeper),
            i,
        );
    let a = was.0.tasks@[i];
    let b = now.0.tasks@[i];
    assert(a.worktree() == Some(slug));
    assert forall|j: int| 0 <= j < i implies (#[trigger] was.0.tasks@[j]).task.slug@ != slug by {
        assert(was.0.tasks@[j].worktree() != Some(slug));
    }
    assert(b.progress().task == a.task@.retried());
    if was.0.sweeper is Some {
        let mid = choose|mid: Option<FleetSweeper>|
            fleet::unfollowed(was.0.sweeper, mid, b.id()) && #[trigger] fleet::followed(
                mid,
                now.0.sweeper,
                b,
            );
        assert(b.task@.id == a.task@.id);
        crate::sweeper::retried_task_starts_clean(
            was.0.sweeper->Some_0,
            mid->Some_0,
            now.0.sweeper->Some_0,
            b.id(),
            b.budget(),
            b.time_limit(),
        );
    }
    i
}

} // verus!
