//! Any program in a terminal as an agent: what it prints is its transcript,
//! and it works as long as its shell lives.
use crate::agent;
use crate::agent::{AgentBackend, AgentEvent, AgentStatus, EventModel, StatusModel};
use crate::outside;
use crate::outside::Failure;
use crate::provider;
use crate::provider::ShellChannel;
use crate::sorted_map;
use crate::store::Store;
use crate::text;
use crate::transcript::{Role, TaskId, TaskMap, UnifiedMessage};
use std::collections::VecDeque;
use vstd::prelude::*;
use vstd::string::*;

verus! {

/// What a task is attached to.
pub struct Attached<C> {
    pub channel: C,
}

/// The shell of a task.
pub type Shell = Attached<Box<dyn ShellChannel>>;

/// Programs in terminals, one shell for each task.
pub struct TerminalAdapter {
    shells: TaskMap<Shell>,
    queue: VecDeque<AgentEvent>,
    done: TaskMap<()>,
    seq: u64,
}

/// The number behind `n`; it starts over behind the last one.
pub open spec fn next_seq(n: u64) -> u64 {
    if n < u64::MAX {
        (n + 1) as u64
    } else {
        0
    }
}

/// What a program printed, as text without terminal escapes.
pub open spec fn printed(raw: Seq<u8>) -> Seq<char> {
    provider::plain_from(outside::utf8_lossy(raw), 0)
}

/// There is something to read in what a program printed.
pub open spec fn says_something(raw: Seq<u8>) -> bool {
    raw.len() > 0 && text::trim(printed(raw), text::blank()).len() > 0
}

/// The message of what a task's program printed.
pub open spec fn output_event(task: TaskId, raw: Seq<u8>, n: u64) -> EventModel {
    EventModel::Message(
        agent::plain_message(
            agent::message_id(task, "-a"@, n as nat),
            task,
            Role::Agent,
            printed(raw),
        ),
    )
}

/// The messages of what the programs of some tasks printed, behind message
/// `seq`, and the number of the last one.
pub open spec fn output_events(tasks: Seq<TaskId>, raws: Seq<Seq<u8>>, seq: u64) -> (
    Seq<EventModel>,
    u64,
)
    decreases raws.len(),
{
    if raws.len() == 0 {
        (Seq::empty(), seq)
    } else {
        let (evs, n) = output_events(tasks.drop_last(), raws.drop_last(), seq);
        if says_something(raws.last()) {
            (evs.push(output_event(tasks.last(), raws.last(), next_seq(n))), next_seq(n))
        } else {
            (evs, n)
        }
    }
}

/// What a program is doing: done if it was said to be or its shell is gone.
pub open spec fn life_status(done: bool, alive: bool) -> StatusModel {
    if done || !alive {
        StatusModel::Done
    } else {
        StatusModel::Working
    }
}

/// What the programs of some tasks are doing.
pub open spec fn life_events(tasks: Seq<TaskId>, done: Set<TaskId>, alive: Seq<bool>) -> Seq<
    EventModel,
> {
    Seq::new(
        tasks.len(),
        |i: int| EventModel::Status(tasks[i], life_status(done.contains(tasks[i]), alive[i])),
    )
}

/// What a [`TerminalAdapter`] holds, but for the shells themselves.
pub struct TerminalModel {
    /// The tasks with a shell, in the order of their identities.
    pub tasks: Seq<TaskId>,
    pub queued: Seq<EventModel>,
    /// The tasks that were said to be done.
    pub done: Set<TaskId>,
    /// The number of the last message.
    pub seq: u64,
}

impl View for TerminalAdapter {
    type V = TerminalModel;

    closed spec fn view(&self) -> TerminalModel {
        TerminalModel {
            tasks: self.shells.keys(),
            queued: agent::events(self.queue@),
            done: self.done@.dom(),
            seq: self.seq,
        }
    }
}

impl TerminalModel {
    /// After a round in which the programs printed `raws`, and those of tasks
    /// not yet done live or not.
    pub open spec fn polled(self, raws: Seq<Seq<u8>>) -> TerminalModel {
        TerminalModel {
            queued: Seq::empty(),
            done: self.done.difference(self.tasks.to_set()),
            seq: output_events(self.tasks, raws, self.seq).1,
            ..self
        }
    }

    /// What is reported then: what was queued, the messages, the statuses.
    pub open spec fn report(self, raws: Seq<Seq<u8>>, alive: Seq<bool>) -> Seq<EventModel> {
        self.queued + output_events(self.tasks, raws, self.seq).0 + life_events(
            self.tasks,
            self.done,
            alive,
        )
    }

    /// After a prompt was sent.
    pub open spec fn prompted(self, task: TaskId, text: Seq<char>) -> TerminalModel {
        TerminalModel {
            queued: self.queued.push(EventModel::Status(task, StatusModel::Working)).push(
                EventModel::Message(
                    agent::plain_message(
                        agent::message_id(task, "-u"@, next_seq(self.seq) as nat),
                        task,
                        Role::User,
                        text,
                    ),
                ),
            ),
            seq: next_seq(self.seq),
            ..self
        }
    }

    /// After a shell was ended.
    pub open spec fn aborted(self, task: TaskId) -> TerminalModel {
        TerminalModel {
            queued: self.queued.push(EventModel::Status(task, StatusModel::Idle)),
            ..self
        }
    }
}

impl TerminalAdapter {
    /// The shells of the tasks.
    pub closed spec fn channels(&self) -> Map<TaskId, Shell> {
        self.shells@
    }
}

/// A task has got a shell, in place of the one before. The tasks stay in the
/// order of their identities.
pub open spec fn attached(
    was: TerminalAdapter,
    now: TerminalAdapter,
    task: TaskId,
    shell: Shell,
) -> bool {
    &&& now@.tasks.to_set() == was@.tasks.to_set().insert(task)
    &&& now@.tasks.no_duplicates()
    &&& sorted_map::increasing::<TaskId>(now@.tasks)
    &&& now@ == (TerminalModel { tasks: now@.tasks, ..was@ })
    &&& now.channels() == was.channels().insert(task, shell)
}

/// No shell but that of `task` was touched.
pub open spec fn touched(was: TerminalAdapter, now: TerminalAdapter, task: TaskId) -> bool {
    now.channels() == was.channels().insert(task, now.channels()[task])
}

/// The bytes were sent to the shell of a task, with this outcome.
pub open spec fn wrote(
    was: TerminalAdapter,
    now: TerminalAdapter,
    task: TaskId,
    data: Seq<u8>,
    fault: Option<Seq<char>>,
) -> bool {
    &&& touched(was, now, task)
    &&& was.channels()[task].channel.takes(data, fault, now.channels()[task].channel.state())
}

/// The shell of a task was ended, with this outcome.
pub open spec fn killed(
    was: TerminalAdapter,
    now: TerminalAdapter,
    task: TaskId,
    fault: Option<Seq<char>>,
) -> bool {
    &&& touched(was, now, task)
    &&& was.channels()[task].channel.ends(fault, now.channels()[task].channel.state())
}

/// The output of every shell was read.
pub open spec fn all_read(
    tasks: Seq<TaskId>,
    was: Map<TaskId, Shell>,
    now: Map<TaskId, Shell>,
    raws: Seq<Seq<u8>>,
) -> bool {
    &&& raws.len() == tasks.len()
    &&& now.dom() == was.dom()
    &&& forall|i: int|
        0 <= i < tasks.len() ==> was[tasks[i]].channel.gives(#[trigger] raws[i], now[tasks[i]].channel.state())
}

/// Every shell was asked whether it runs, but for those of tasks that were
/// said to be done.
pub open spec fn all_asked(
    tasks: Seq<TaskId>,
    done: Set<TaskId>,
    was: Map<TaskId, Shell>,
    now: Map<TaskId, Shell>,
    alive: Seq<bool>,
) -> bool {
    &&& alive.len() == tasks.len()
    &&& now.dom() == was.dom()
    &&& forall|i: int|
        0 <= i < tasks.len() ==> if done.contains(#[trigger] tasks[i]) {
            now[tasks[i]] == was[tasks[i]]
        } else {
            was[tasks[i]].channel.lives(alive[i], now[tasks[i]].channel.state())
        }
}

/// The bytes of a prompt: its text and a line feed.
pub open spec fn line_of(text: Seq<char>) -> Seq<u8> {
    vstd::utf8::encode_utf8(text).push(10)
}

/// The error for a task without a shell.
pub open spec fn no_shell(task: TaskId) -> Seq<char> {
    "no shell attached for "@ + text::dec(task.0 as nat)
}

/// What is typed into a shell for a prompt: the prompt and a line feed.
pub fn prompt_line(text: &str) -> (line: Vec<u8>)
    ensures
        line@ == line_of(text@),
{
    let mut line = text.as_bytes_vec();
    line.push(10);
    line
}

impl Default for TerminalAdapter {
    fn default() -> (a: TerminalAdapter)
        ensures
            a@ == (TerminalModel {
                tasks: Seq::empty(),
                queued: Seq::empty(),
                done: Set::empty(),
                seq: 0,
            }),
            a.channels() == Map::<TaskId, Shell>::empty(),
    {
        TerminalAdapter::new()
    }
}

impl TerminalAdapter {
    /// An adapter without shells.
    pub fn new() -> (a: TerminalAdapter)
        ensures
            a@ == (TerminalModel {
                tasks: Seq::empty(),
                queued: Seq::empty(),
                done: Set::empty(),
                seq: 0,
            }),
            a.channels() == Map::<TaskId, Shell>::empty(),
    {
        let a = TerminalAdapter {
            shells: TaskMap::new(),
            queue: VecDeque::new(),
            done: TaskMap::new(),
            seq: 0,
        };
        assert(a@.tasks =~= Seq::empty());
        assert(a@.queued =~= Seq::empty());
        assert(a@.done =~= Set::empty());
        a
    }

    /// Gives a task its shell, in place of the one before.
    pub fn attach(&mut self, task: TaskId, shell: Box<dyn ShellChannel>)
        ensures
            ({
                let given = Attached { channel: shell };
                attached(*old(self), *final(self), task, given)
            }),
    {
        let shell = Attached { channel: shell };
        self.attach_shell(task, shell);
    }

    pub(crate) fn attach_shell(&mut self, task: TaskId, shell: Shell)
        ensures
            attached(*old(self), *final(self), task, shell),
    {
        self.shells.insert(task, shell);
        let n: usize = self.shells.len();
        proof {
            assert(self@.tasks.to_set() =~= self.shells@.dom());
            assert(old(self)@.tasks.to_set() =~= old(self).shells@.dom());
        }
    }

    /// Says that a task is done, though its shell may live: the next round
    /// reports so, once.
    pub fn mark_done(&mut self, task: &TaskId) -> (r: Result<(), Failure>)
        ensures
            old(self)@.tasks.contains(*task) ==> r is Ok && final(self)@ == (TerminalModel {
                done: old(self)@.done.insert(*task),
                ..old(self)@
            }),
            !old(self)@.tasks.contains(*task) ==> agent::fault(r) == Some(
                agent::unknown_task(*task),
            ) && final(self)@ == old(self)@,
            final(self).channels() == old(self).channels(),
    {
        if !self.shells.contains_key(task) {
            return Err(agent::unknown_task_error(task));
        }
        self.done.insert(*task, ());
        assert(self@.done =~= old(self)@.done.insert(*task));
        Ok(())
    }

    fn enqueue(&mut self, ev: AgentEvent)
        ensures
            final(self)@ == (TerminalModel { queued: old(self)@.queued.push(ev@), ..old(self)@ }),
            final(self).channels() == old(self).channels(),
    {
        self.queue.push_back(ev);
        assert(self@.queued =~= old(self)@.queued.push(ev@));
    }

    fn next_id(&mut self, task: TaskId, mark: &str) -> (id: String)
        ensures
            id@ == agent::message_id(task, mark@, next_seq(old(self)@.seq) as nat),
            final(self)@ == (TerminalModel { seq: next_seq(old(self)@.seq), ..old(self)@ }),
            final(self).shells == old(self).shells,
            final(self).done == old(self).done,
            final(self).queue == old(self).queue,
    {
        self.seq = if self.seq < u64::MAX {
            self.seq + 1
        } else {
            0
        };
        agent::message_name(task, mark, self.seq)
    }

    /// A prompt that went to the shell of its task: the task works, and the
    /// prompt is a message of its user.
    pub fn on_prompt(&mut self, task: TaskId, text: &str)
        ensures
            final(self)@ == old(self)@.prompted(task, text@),
            final(self).channels() == old(self).channels(),
    {
        let id = self.next_id(task, "-u");
        self.enqueue(AgentEvent::Status(task, AgentStatus::Working));
        self.enqueue(
            AgentEvent::Message(
                UnifiedMessage {
                    id,
                    task,
                    role: Role::User,
                    text: text.to_owned(),
                    tool: None,
                    ts: 0,
                },
            ),
        );
    }

    /// Where the shell of a task stands, if it has one.
    fn place_of(&self, task: &TaskId) -> (r: Option<usize>)
        ensures
            match r {
                Some(i) => i < self.shells.entries().len() && self@.tasks[i as int] == *task
                    && self@.tasks.contains(*task),
                None => !self@.tasks.contains(*task),
            },
    {
        let n: usize = self.shells.len();
        let mut i: usize = 0;
        while i < n
            invariant
                i <= n == self.shells.entries().len(),
                forall|k: int| 0 <= k < i ==> #[trigger] self@.tasks[k] != *task,
            decreases n - i,
        {
            assert(self@.tasks[i as int] == self.shells.entries()[i as int].0);
            if *self.shells.key_at(i) == *task {
                assert(self@.tasks.contains(*task));
                return Some(i);
            }
            i += 1;
        }
        None
    }

    fn write_to(&mut self, i: usize, line: &Vec<u8>) -> (r: Result<(), Failure>)
        requires
            i < old(self)@.tasks.len(),
        ensures
            final(self)@ == old(self)@,
            wrote(*old(self), *final(self), old(self)@.tasks[i as int], line@, agent::fault(r)),
    {
        let ghost was = self.shells.entries();
        let (task, mut shell) = self.shells.take_at(i);
        let r = shell.channel.write_bytes(line.as_slice());
        proof {
            put_back(was, i as int, task, shell);
        }
        self.shells.put_at(i, task, shell);
        assert(self@.tasks =~= old(self)@.tasks);
        assert(old(self)@.tasks[i as int] == task);
        r
    }

    fn kill_at(&mut self, i: usize) -> (r: Result<(), Failure>)
        requires
            i < old(self)@.tasks.len(),
        ensures
            final(self)@ == old(self)@,
            killed(*old(self), *final(self), old(self)@.tasks[i as int], agent::fault(r)),
    {
        let ghost was = self.shells.entries();
        let (task, mut shell) = self.shells.take_at(i);
        let r = shell.channel.kill();
        proof {
            put_back(was, i as int, task, shell);
        }
        self.shells.put_at(i, task, shell);
        assert(self@.tasks =~= old(self)@.tasks);
        assert(old(self)@.tasks[i as int] == task);
        r
    }

    fn read_at(&mut self, i: usize) -> (raw: Vec<u8>)
        requires
            i < old(self)@.tasks.len(),
        ensures
            final(self)@ == old(self)@,
            touched(*old(self), *final(self), old(self)@.tasks[i as int]),
            old(self).channels()[old(self)@.tasks[i as int]].channel.gives(
                raw@,
                final(self).channels()[old(self)@.tasks[i as int]].channel.state(),
            ),
    {
        let ghost was = self.shells.entries();
        let (task, mut shell) = self.shells.take_at(i);
        let raw = shell.channel.read_available();
        proof {
            put_back(was, i as int, task, shell);
        }
        self.shells.put_at(i, task, shell);
        assert(self@.tasks =~= old(self)@.tasks);
        assert(old(self)@.tasks[i as int] == task);
        raw
    }

    fn alive_at(&mut self, i: usize) -> (alive: bool)
        requires
            i < old(self)@.tasks.len(),
        ensures
            final(self)@ == old(self)@,
            touched(*old(self), *final(self), old(self)@.tasks[i as int]),
            old(self).channels()[old(self)@.tasks[i as int]].channel.lives(
                alive,
                final(self).channels()[old(self)@.tasks[i as int]].channel.state(),
            ),
    {
        let ghost was = self.shells.entries();
        let (task, mut shell) = self.shells.take_at(i);
        let alive = shell.channel.is_alive();
        proof {
            put_back(was, i as int, task, shell);
        }
        self.shells.put_at(i, task, shell);
        assert(self@.tasks =~= old(self)@.tasks);
        assert(old(self)@.tasks[i as int] == task);
        alive
    }

    fn send_prompt(&mut self, task: TaskId, text: &str) -> (r: Result<(), Failure>)
        ensures
            TerminalAdapter::spawned(*old(self), *final(self), task, text@, agent::fault(r)),
    {
        let i: usize = match self.place_of(&task) {
            Some(i) => i,
            None => {
                return Err(Failure::because_of("no shell attached for ", task.to_text().as_str()));
            },
        };
        let line = prompt_line(text);
        match self.write_to(i, &line) {
            Ok(_) => {},
            Err(e) => {
                return Err(e);
            },
        }
        self.on_prompt(task, text);
        Ok(())
    }

    /// What the program of a task printed becomes a message, unless there is
    /// nothing to read in it.
    pub fn on_output(&mut self, task: TaskId, raw: &Vec<u8>)
        ensures
            final(self)@ == (if says_something(raw@) {
                TerminalModel {
                    queued: old(self)@.queued.push(
                        output_event(task, raw@, next_seq(old(self)@.seq)),
                    ),
                    seq: next_seq(old(self)@.seq),
                    ..old(self)@
                }
            } else {
                old(self)@
            }),
            final(self).channels() == old(self).channels(),
    {
        if raw.len() == 0 {
            return;
        }
        let plain = provider::strip_ansi(outside::lossy_text(raw.as_slice()).as_str());
        if text::trimmed(plain.as_str()).as_str().is_empty() {
            return;
        }
        let id = self.next_id(task, "-a");
        self.enqueue(
            AgentEvent::Message(
                UnifiedMessage { id, task, role: Role::Agent, text: plain, tool: None, ts: 0 },
            ),
        );
    }

    fn read_all(&mut self) -> (raws: Vec<Vec<u8>>)
        ensures
            all_read(
                old(self)@.tasks,
                old(self).channels(),
                final(self).channels(),
                bytes_of(raws@),
            ),
            sorted_map::increasing::<TaskId>(old(self)@.tasks),
            final(self)@ == old(self)@,
    {
        let n: usize = self.shells.len();
        let ghost tasks = self@.tasks;
        let mut raws: Vec<Vec<u8>> = Vec::new();
        let mut i: usize = 0;
        while i < n
            invariant
                i <= n == tasks.len(),
                tasks == old(self)@.tasks,
                tasks.no_duplicates(),
                self@ == old(self)@,
                self.channels().dom() == old(self).channels().dom(),
                forall|k: int| 0 <= k < n ==> old(self).channels().dom().contains(#[trigger] tasks[k]),
                raws@.len() == i,
                forall|k: int|
                    0 <= k < i ==> old(self).channels()[tasks[k]].channel.gives(
                        (#[trigger] raws@[k])@,
                        self.channels()[tasks[k]].channel.state(),
                    ),
                forall|k: int|
                    i <= k < n ==> self.channels()[#[trigger] tasks[k]] == old(
                        self,
                    ).channels()[tasks[k]],
            decreases n - i,
        {
            let ghost before = *self;
            let raw = self.read_at(i);
            raws.push(raw);
            proof {
                assert(self.channels().dom() =~= old(self).channels().dom());
                assert forall|k: int| 0 <= k < n && k != i implies self.channels()[#[trigger] tasks[k]]
                    == before.channels()[tasks[k]] by {
                    assert(tasks[k] != tasks[i as int]);
                }
            }
            i += 1;
        }
        assert forall|k: int| 0 <= k < n implies old(self).channels()[tasks[k]].channel.gives(
            #[trigger] bytes_of(raws@)[k],
            self.channels()[tasks[k]].channel.state(),
        ) by {
            assert(bytes_of(raws@)[k] == raws@[k]@);
        }
        raws
    }

    fn report_output(&mut self, raws: &Vec<Vec<u8>>)
        requires
            raws@.len() == old(self)@.tasks.len(),
        ensures
            ({
                let out = output_events(old(self)@.tasks, bytes_of(raws@), old(self)@.seq);
                final(self)@ == (TerminalModel {
                    queued: old(self)@.queued + out.0,
                    seq: out.1,
                    ..old(self)@
                })
            }),
            final(self).channels() == old(self).channels(),
    {
        let ghost tasks = self@.tasks;
        let ghost all = bytes_of(raws@);
        let ghost seq = self.seq;
        let n: usize = self.shells.len();
        let mut i: usize = 0;
        assert(tasks.take(0) =~= Seq::empty());
        assert(all.take(0) =~= Seq::empty());
        assert(self@.queued + output_events(tasks.take(0), all.take(0), seq).0 =~= self@.queued);
        while i < n
            invariant
                i <= n == tasks.len() == raws@.len() == self.shells.entries().len(),
                all == bytes_of(raws@),
                tasks == old(self)@.tasks,
                self.channels() == old(self).channels(),
                self@ == (TerminalModel {
                    queued: old(self)@.queued + output_events(
                        tasks.take(i as int),
                        all.take(i as int),
                        seq,
                    ).0,
                    seq: output_events(tasks.take(i as int), all.take(i as int), seq).1,
                    ..old(self)@
                }),
            decreases n - i,
        {
            assert(tasks.take(i + 1).drop_last() =~= tasks.take(i as int));
            assert(all.take(i + 1).drop_last() =~= all.take(i as int));
            let task = *self.shells.key_at(i);
            assert(tasks[i as int] == task);
            let ghost before = self@.queued;
            self.on_output(task, &raws[i]);
            proof {
                let out = output_events(tasks.take(i + 1), all.take(i + 1), seq);
                assert(self@.queued =~= old(self)@.queued + out.0);
                assert(self@.tasks.len() == self.shells.entries().len());
            }
            i += 1;
        }
        assert(tasks.take(n as int) =~= tasks);
        assert(all.take(n as int) =~= all);
    }

    fn report_life(&mut self) -> (alive: Ghost<Seq<bool>>)
        ensures
            all_asked(
                old(self)@.tasks,
                old(self)@.done,
                old(self).channels(),
                final(self).channels(),
                alive@,
            ),
            final(self)@ == (TerminalModel {
                queued: old(self)@.queued + life_events(
                    old(self)@.tasks,
                    old(self)@.done,
                    alive@,
                ),
                done: old(self)@.done.difference(old(self)@.tasks.to_set()),
                ..old(self)@
            }),
    {
        let ghost tasks = self@.tasks;
        let ghost done = self@.done;
        let ghost mut lives: Seq<bool> = Seq::empty();
        let n: usize = self.shells.len();
        let mut i: usize = 0;
        assert(self@.queued + life_events(tasks.take(0), done, lives) =~= self@.queued);
        assert(done.difference(tasks.take(0).to_set()) =~= done);
        assert(tasks.no_duplicates());
        while i < n
            invariant
                i <= n == tasks.len() == self.shells.entries().len(),
                tasks == old(self)@.tasks,
                done == old(self)@.done,
                tasks.no_duplicates(),
                lives.len() == i,
                self.channels().dom() == old(self).channels().dom(),
                forall|k: int| 0 <= k < n ==> old(self).channels().dom().contains(#[trigger] tasks[k]),
                forall|k: int|
                    0 <= k < i ==> if done.contains(#[trigger] tasks[k]) {
                        self.channels()[tasks[k]] == old(self).channels()[tasks[k]]
                    } else {
                        old(self).channels()[tasks[k]].channel.lives(
                            lives[k],
                            self.channels()[tasks[k]].channel.state(),
                        )
                    },
                forall|k: int|
                    i <= k < n ==> self.channels()[#[trigger] tasks[k]] == old(
                        self,
                    ).channels()[tasks[k]],
                self@ == (TerminalModel {
                    queued: old(self)@.queued + life_events(tasks.take(i as int), done, lives),
                    done: done.difference(tasks.take(i as int).to_set()),
                    ..old(self)@
                }),
            decreases n - i,
        {
            let task = *self.shells.key_at(i);
            assert(tasks[i as int] == task);
            let ghost before = self@;
            let ghost then = self.channels();
            proof {
                assert(!tasks.take(i as int).contains(task)) by {
                    if tasks.take(i as int).contains(task) {
                        let k = choose|k: int|
                            0 <= k < i && tasks.take(i as int)[k] == task;
                        assert(tasks[k] == tasks[i as int]);
                    }
                }
                assert(self.done@.dom().contains(task) == done.contains(task));
            }
            let was_done = self.done.remove(&task).is_some();
            assert(self@.done =~= before.done.remove(task));
            let alive = if was_done {
                true
            } else {
                self.alive_at(i)
            };
            let status = if was_done || !alive {
                AgentStatus::Done
            } else {
                AgentStatus::Working
            };
            assert(status@ == life_status(done.contains(task), alive));
            self.enqueue(AgentEvent::Status(task, status));
            proof {
                let now = lives.push(alive);
                let more = tasks.take(i + 1);
                assert(life_events(more, done, now) =~= life_events(
                    tasks.take(i as int),
                    done,
                    lives,
                ).push(EventModel::Status(task, status@)));
                assert(self@.queued =~= old(self)@.queued + life_events(more, done, now));
                assert forall|t: TaskId| more.contains(t) == (tasks.take(i as int).contains(t) || t
                    == task) by {
                    assert(more[i as int] == task);
                    if tasks.take(i as int).contains(t) {
                        let k = choose|k: int| 0 <= k < i && tasks.take(i as int)[k] == t;
                        assert(more[k] == t);
                    }
                    if more.contains(t) && t != task {
                        let k = choose|k: int| 0 <= k < more.len() && more[k] == t;
                        assert(tasks.take(i as int)[k] == t);
                    }
                }
                assert(self@.done =~= done.difference(more.to_set()));
                assert(self.channels().dom() =~= old(self).channels().dom());
                assert forall|k: int| 0 <= k < n && k != i implies self.channels()[#[trigger] tasks[k]]
                    == then[tasks[k]] by {
                    assert(tasks[k] != tasks[i as int]);
                }
                lives = now;
                assert(self@.tasks.len() == self.shells.entries().len());
            }
            i += 1;
        }
        assert(tasks.take(n as int) =~= tasks);
        Ghost(lives)
    }
}

/// The bytes of some outputs.
pub open spec fn bytes_of(v: Seq<Vec<u8>>) -> Seq<Seq<u8>> {
    v.map_values(|b: Vec<u8>| b@)
}

proof fn put_back<V>(was: Seq<(TaskId, V)>, i: int, task: TaskId, v: V)
    requires
        0 <= i < was.len(),
        was[i].0 == task,
        sorted_map::increasing::<TaskId>(sorted_map::keys_of(was)),
    ensures
        was.remove(i).insert(i, (task, v)) == was.update(i, (task, v)),
        sorted_map::keys_of(was.update(i, (task, v))) == sorted_map::keys_of(was),
        sorted_map::increasing::<TaskId>(
            sorted_map::keys_of(was.remove(i).insert(i, (task, v))),
        ),
        sorted_map::map_of(was)[task] == was[i].1,
        sorted_map::map_of(was.remove(i).insert(i, (task, v))) == sorted_map::map_of(was).insert(
            task,
            v,
        ),
{
    sorted_map::increasing_distinct::<TaskId>(sorted_map::keys_of(was));
    sorted_map::map_of_at(was, i);
    TaskMap::<V>::set_entry(was, i, v);
    assert(was.remove(i).insert(i, (task, v)) =~= was.update(i, (task, v)));
    assert(sorted_map::keys_of(was.update(i, (task, v))) =~= sorted_map::keys_of(was));
}

impl AgentBackend for TerminalAdapter {
    open spec fn spawned(
        was: TerminalAdapter,
        now: TerminalAdapter,
        task: TaskId,
        prompt: Seq<char>,
        fault: Option<Seq<char>>,
    ) -> bool {
        &&& if was@.tasks.contains(task) {
            wrote(was, now, task, line_of(prompt), fault)
        } else {
            fault == Some(no_shell(task)) && now.channels() == was.channels()
        }
        &&& now@ == (if fault is None {
            was@.prompted(task, prompt)
        } else {
            was@
        })
    }

    open spec fn prompted(
        was: TerminalAdapter,
        now: TerminalAdapter,
        task: TaskId,
        text: Seq<char>,
        fault: Option<Seq<char>>,
    ) -> bool {
        TerminalAdapter::spawned(was, now, task, text, fault)
    }

    open spec fn aborted(
        was: TerminalAdapter,
        now: TerminalAdapter,
        task: TaskId,
        fault: Option<Seq<char>>,
    ) -> bool {
        &&& if was@.tasks.contains(task) {
            killed(was, now, task, fault)
        } else {
            fault == Some(agent::unknown_task(task)) && now.channels() == was.channels()
        }
        &&& now@ == (if fault is None {
            was@.aborted(task)
        } else {
            was@
        })
    }

    open spec fn polled(was: TerminalAdapter, now: TerminalAdapter, events: Seq<EventModel>) -> bool {
        exists|raws: Seq<Seq<u8>>, alive: Seq<bool>, read: Map<TaskId, Shell>|
            {
                &&& sorted_map::increasing::<TaskId>(was@.tasks)
                &&& #[trigger] all_read(was@.tasks, was.channels(), read, raws)
                &&& #[trigger] all_asked(was@.tasks, was@.done, read, now.channels(), alive)
                &&& events == was@.report(raws, alive)
                &&& now@ == was@.polled(raws)
            }
    }

    open spec fn collected(
        was: TerminalAdapter,
        store: Store,
        now: TerminalAdapter,
        events: Seq<EventModel>,
    ) -> bool {
        TerminalAdapter::polled(was, now, events)
    }

    open spec fn bound(was: TerminalAdapter, now: TerminalAdapter, task: TaskId, sid: Seq<char>) -> bool {
        now == was
    }

    open spec fn unbound(was: TerminalAdapter, now: TerminalAdapter, sid: Seq<char>) -> bool {
        now == was
    }

    fn spawn(&mut self, task: TaskId, prompt: &str) -> (r: Result<(), Failure>) {
        self.send_prompt(task, prompt)
    }

    fn prompt(&mut self, task: &TaskId, text: &str) -> (r: Result<(), Failure>) {
        self.send_prompt(*task, text)
    }

    fn abort(&mut self, task: &TaskId) -> (r: Result<(), Failure>) {
        let i: usize = match self.place_of(task) {
            Some(i) => i,
            None => {
                return Err(agent::unknown_task_error(task));
            },
        };
        match self.kill_at(i) {
            Ok(_) => {},
            Err(e) => {
                return Err(e);
            },
        }
        self.enqueue(AgentEvent::Status(*task, AgentStatus::Idle));
        Ok(())
    }

    fn poll(&mut self) -> (out: Vec<AgentEvent>) {
        let ghost was = self@;
        let raws = self.read_all();
        let ghost read = self.channels();
        self.report_output(&raws);
        let alive = self.report_life();
        let mut queue: VecDeque<AgentEvent> = VecDeque::new();
        std::mem::swap(&mut queue, &mut self.queue);
        let out = agent::drained(queue);
        proof {
            let all = bytes_of(raws@);
            assert(self@.queued =~= Seq::empty());
            assert(agent::events(out@) =~= was.report(all, alive@));
            assert(self@ == was.polled(all));
            assert(all_read(was.tasks, old(self).channels(), read, all));
            assert(all_asked(was.tasks, was.done, read, self.channels(), alive@));
        }
        out
    }

    fn collect(&mut self, store: &Store) -> (out: Vec<AgentEvent>) {
        self.poll()
    }

    fn bind_session(&mut self, task: TaskId, session_id: &str) {
    }

    fn unbind_session(&mut self, session_id: &str) {
    }
}

/// A task that was said to be done is reported as done in the next round, and
/// once: the round after goes by its shell again.
pub proof fn done_is_said_once(m: TerminalModel, raws: Seq<Seq<u8>>, task: TaskId)
    requires
        m.tasks.contains(task),
        m.done.contains(task),
    ensures
        !m.polled(raws).done.contains(task),
        forall|alive: Seq<bool>| #[trigger]
            m.report(raws, alive).contains(EventModel::Status(task, StatusModel::Done)),
{
    let k = choose|k: int| 0 <= k < m.tasks.len() && m.tasks[k] == task;
    assert forall|alive: Seq<bool>| #[trigger]
        m.report(raws, alive).contains(EventModel::Status(task, StatusModel::Done)) by {
        let head = m.queued + output_events(m.tasks, raws, m.seq).0;
        let life = life_events(m.tasks, m.done, alive);
        assert(life[k] == EventModel::Status(task, StatusModel::Done));
        assert(m.report(raws, alive)[head.len() + k] == life[k]);
    }
}

/// What a poll reports of shells: what was queued; then a message for each
/// shell that printed something, in the order of the tasks; then one status
/// for each task, done where its turn was over or its shell is gone and
/// working otherwise.
pub proof fn poll_reports_queue_output_and_life(
    m: TerminalModel,
    raws: Seq<Seq<u8>>,
    alive: Seq<bool>,
)
    requires
        raws.len() == m.tasks.len(),
        alive.len() == m.tasks.len(),
    ensures
        ({
            let spoke = Seq::new(raws.len(), |i: int| i).filter(
                |i: int| raws[i].len() > 0 && text::trim(printed(raws[i]), text::blank()).len() > 0,
            );
            let q = m.queued.len() as int;
            let n = spoke.len() as int;
            let out = m.report(raws, alive);
            &&& out.len() == q + n + m.tasks.len()
            &&& out.take(q) == m.queued
            &&& forall|k: int|
                0 <= k < n ==> {
                    let at = #[trigger] spoke[k];
                    &&& 0 <= at < raws.len()
                    &&& out[q + k] is Message
                    &&& out[q + k]->Message_0.task == m.tasks[at]
                    &&& out[q + k]->Message_0.text == printed(raws[at])
                    &&& out[q + k]->Message_0.role == Role::Agent
                }
            &&& forall|i: int|
                0 <= i < m.tasks.len() ==> {
                    let e = #[trigger] out[q + n + i];
                    &&& e is Status
                    &&& e->Status_0 == m.tasks[i]
                    &&& m.done.contains(m.tasks[i]) || !alive[i] ==> e->Status_1 is Done
                    &&& !m.done.contains(m.tasks[i]) && alive[i] ==> e->Status_1 is Working
                }
        }),
{
    output_is_told_in_turn(m.tasks, raws, m.seq);
    let out = m.report(raws, alive);
    let told = output_events(m.tasks, raws, m.seq).0;
    let life = life_events(m.tasks, m.done, alive);
    let q = m.queued.len() as int;
    assert(out.take(q) =~= m.queued);
    let spoke = Seq::new(raws.len(), |i: int| i).filter(
        |i: int| raws[i].len() > 0 && text::trim(printed(raws[i]), text::blank()).len() > 0,
    );
    assert forall|k: int| 0 <= k < spoke.len() implies {
        let at = #[trigger] spoke[k];
        &&& 0 <= at < raws.len()
        &&& out[q + k] is Message
        &&& out[q + k]->Message_0.task == m.tasks[at]
        &&& out[q + k]->Message_0.text == printed(raws[at])
        &&& out[q + k]->Message_0.role == Role::Agent
    } by {
        assert(out[q + k] == told[k]);
    }
    assert forall|i: int| 0 <= i < m.tasks.len() implies {
        let e = #[trigger] out[q + spoke.len() + i];
        &&& e is Status
        &&& e->Status_0 == m.tasks[i]
        &&& m.done.contains(m.tasks[i]) || !alive[i] ==> e->Status_1 is Done
        &&& !m.done.contains(m.tasks[i]) && alive[i] ==> e->Status_1 is Working
    } by {
        assert(out[q + spoke.len() + i] == life[i]);
    }
}

proof fn output_is_told_in_turn(tasks: Seq<TaskId>, raws: Seq<Seq<u8>>, seq: u64)
    requires
        raws.len() == tasks.len(),
    ensures
        ({
            let spoke = Seq::new(raws.len(), |i: int| i).filter(
                |i: int| raws[i].len() > 0 && text::trim(printed(raws[i]), text::blank()).len() > 0,
            );
            let told = output_events(tasks, raws, seq).0;
            &&& told.len() == spoke.len()
            &&& forall|k: int|
                0 <= k < told.len() ==> {
                    let at = #[trigger] spoke[k];
                    &&& 0 <= at < raws.len()
                    &&& told[k] is Message
                    &&& told[k]->Message_0.task == tasks[at]
                    &&& told[k]->Message_0.text == printed(raws[at])
                    &&& told[k]->Message_0.role == Role::Agent
                }
        }),
    decreases raws.len(),
{
    reveal(Seq::filter);
    let p = |i: int| raws[i].len() > 0 && text::trim(printed(raws[i]), text::blank()).len() > 0;
    let all = Seq::new(raws.len(), |i: int| i);
    if raws.len() > 0 {
        let rt = tasks.drop_last();
        let rr = raws.drop_last();
        output_is_told_in_turn(rt, rr, seq);
        let q = |i: int| rr[i].len() > 0 && text::trim(printed(rr[i]), text::blank()).len() > 0;
        let part = Seq::new(rr.len(), |i: int| i);
        assert(all.drop_last() =~= part);
        assert forall|i: int| 0 <= i < part.len() implies p(#[trigger] part[i]) == q(part[i]) by {
            assert(rr[i] == raws[i]);
        }
        same_places(part, p, q);
        let was = output_events(rt, rr, seq).0;
        let told = output_events(tasks, raws, seq).0;
        let before = part.filter(q);
        let spoke = all.filter(p);
        assert(all.last() == raws.len() - 1);
        assert(raws[raws.len() - 1] == raws.last());
        assert(tasks[tasks.len() - 1] == tasks.last());
        assert forall|k: int| 0 <= k < told.len() implies {
            let at = #[trigger] spoke[k];
            &&& 0 <= at < raws.len()
            &&& told[k] is Message
            &&& told[k]->Message_0.task == tasks[at]
            &&& told[k]->Message_0.text == printed(raws[at])
            &&& told[k]->Message_0.role == Role::Agent
        } by {
            if k < was.len() {
                let at = before[k];
                assert(spoke[k] == at);
                assert(told[k] == was[k]);
                assert(rt[at] == tasks[at]);
                assert(rr[at] == raws[at]);
            }
        }
    }
}

proof fn same_places(s: Seq<int>, p: spec_fn(int) -> bool, q: spec_fn(int) -> bool)
    requires
        forall|i: int| 0 <= i < s.len() ==> p(#[trigger] s[i]) == q(s[i]),
    ensures
        s.filter(p) == s.filter(q),
    decreases s.len(),
{
    reveal(Seq::filter);
    if s.len() > 0 {
        let rest = s.drop_last();
        assert forall|i: int| 0 <= i < rest.len() implies p(#[trigger] rest[i]) == q(rest[i]) by {
            assert(rest[i] == s[i]);
        }
        same_places(rest, p, q);
        assert(s.last() == s[s.len() - 1]);
    }
}

/// What a poll was told is not told again, tasks whose turn was over start the
/// next turn open, and the number goes up by one for each message.
pub proof fn poll_clears_what_it_told(m: TerminalModel, raws: Seq<Seq<u8>>)
    requires
        raws.len() == m.tasks.len(),
        m.seq + raws.len() < u64::MAX,
    ensures
        m.polled(raws).queued.len() == 0,
        m.polled(raws).tasks == m.tasks,
        forall|i: int|
            0 <= i < m.tasks.len() ==> !m.polled(raws).done.contains(#[trigger] m.tasks[i]),
        forall|t: TaskId|
            m.done.contains(t) && !m.tasks.contains(t) ==> #[trigger] m.polled(raws).done.contains(
                t,
            ),
        forall|t: TaskId| #[trigger] m.polled(raws).done.contains(t) ==> m.done.contains(t),
        m.polled(raws).seq == m.seq + output_events(m.tasks, raws, m.seq).0.len(),
{
    numbers_go_up(m.tasks, raws, m.seq);
    assert forall|i: int| 0 <= i < m.tasks.len() implies !m.polled(raws).done.contains(
        #[trigger] m.tasks[i],
    ) by {
        assert(m.tasks.to_set().contains(m.tasks[i]));
    }
}

proof fn numbers_go_up(tasks: Seq<TaskId>, raws: Seq<Seq<u8>>, seq: u64)
    requires
        raws.len() == tasks.len(),
        seq + raws.len() < u64::MAX,
    ensures
        output_events(tasks, raws, seq).1 == seq + output_events(tasks, raws, seq).0.len(),
        output_events(tasks, raws, seq).0.len() <= raws.len(),
    decreases raws.len(),
{
    if raws.len() > 0 {
        numbers_go_up(tasks.drop_last(), raws.drop_last(), seq);
    }
}

/// A prompt is typed into the shell as a line, and told as the turn's start
/// and then the words; ending a turn is told as idle. Both are told last.
pub proof fn prompts_and_aborts_are_told(m: TerminalModel, task: TaskId, words: Seq<char>)
    ensures
        ({
            let q = m.queued.len() as int;
            let p = m.prompted(task, words);
            let a = m.aborted(task);
            &&& p.queued.len() == q + 2
            &&& p.queued.take(q) == m.queued
            &&& p.queued[q] == EventModel::Status(task, StatusModel::Working)
            &&& p.queued[q + 1] is Message
            &&& p.queued[q + 1]->Message_0.task == task
            &&& p.queued[q + 1]->Message_0.text == words
            &&& p.queued[q + 1]->Message_0.role == Role::User
            &&& p.tasks == m.tasks && p.done == m.done
            &&& a.queued.len() == q + 1
            &&& a.queued.take(q) == m.queued
            &&& a.queued[q] == EventModel::Status(task, StatusModel::Idle)
            &&& a.tasks == m.tasks && a.done == m.done
            &&& line_of(words).len() > 0 && line_of(words).last() == 10
            &&& line_of(words).drop_last() == vstd::utf8::encode_utf8(words)
        }),
{
    let q = m.queued.len() as int;
    assert(m.prompted(task, words).queued.take(q) =~= m.queued);
    assert(m.aborted(task).queued.take(q) =~= m.queued);
    assert(line_of(words).drop_last() =~= vstd::utf8::encode_utf8(words));
}

} // verus!
