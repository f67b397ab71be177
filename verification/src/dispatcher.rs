//! Periodic sweep over running tasks: which to take back, which to block.
use crate::clock::{Clock, Moment};
use crate::task;
use crate::task::{Task, DEFAULT_FAILURE_LIMIT};
use crate::transcript::{TaskId, TaskMap};
use vstd::prelude::*;

verus! {

/// Seconds from one sweep to the next.
pub const DISPATCH_INTERVAL_SECS: u64 = 60;

/// What should be done about a task.
#[derive(Debug, Clone, Copy, PartialEq, Eq, Structural)]
pub enum DispatcherAction {
    /// Overdue or silent for too long: take it back.
    Reclaim(TaskId),
    /// Retry budget spent: stop it.
    Blocked(TaskId),
}

/// What is known of a tracked task.
#[derive(Debug, Clone, Copy)]
pub struct TaskMeta {
    pub deadline: Option<Moment>,
    pub errors: u32,
    pub limit: u8,
    pub last_beat: Moment,
}

impl TaskMeta {
    /// A task tracked since `now`.
    pub open spec fn fresh(now: Moment, limit: u8, max_runtime_secs: Option<u64>) -> TaskMeta {
        TaskMeta {
            deadline: match max_runtime_secs {
                Some(s) => Some(now.after(s)),
                None => None,
            },
            errors: 0,
            limit: task::at_least_one(limit),
            last_beat: now,
        }
    }

    /// After one more error.
    pub open spec fn with_error(self) -> TaskMeta {
        TaskMeta {
            errors: if self.errors < u32::MAX {
                (self.errors + 1) as u32
            } else {
                u32::MAX
            },
            ..self
        }
    }

    /// After a sign of life.
    pub open spec fn with_beat(self, now: Moment) -> TaskMeta {
        TaskMeta { last_beat: now, ..self }
    }

    /// After a success.
    pub open spec fn with_success(self, now: Moment) -> TaskMeta {
        TaskMeta { errors: 0, last_beat: now, ..self }
    }

    /// The retry budget is spent.
    pub open spec fn spent(self) -> bool {
        self.errors >= self.limit
    }

    /// The deadline has passed, or no sign of life came for two sweeps.
    pub open spec fn overdue(self, now: Moment) -> bool {
        ||| self.deadline matches Some(d) && now.nanos >= d.nanos
        ||| now.nanos_since(self.last_beat) > 2 * DISPATCH_INTERVAL_SECS * 1000000000
    }

    /// What a sweep at `now` says of the task: a spent budget comes first.
    pub open spec fn action(self, id: TaskId, now: Moment) -> Option<DispatcherAction> {
        if self.spent() {
            Some(DispatcherAction::Blocked(id))
        } else if self.overdue(now) {
            Some(DispatcherAction::Reclaim(id))
        } else {
            None
        }
    }
}

/// The actions for a list of tasks, in its order.
pub open spec fn actions(entries: Seq<(TaskId, TaskMeta)>, now: Moment) -> Seq<DispatcherAction>
    decreases entries.len(),
{
    if entries.len() == 0 {
        Seq::empty()
    } else {
        let rest = actions(entries.drop_last(), now);
        match entries.last().1.action(entries.last().0, now) {
            Some(a) => rest.push(a),
            None => rest,
        }
    }
}

/// Tracks running tasks. It acts on nothing itself: a sweep only reports.
#[derive(Debug)]
pub struct Dispatcher {
    clock: Clock,
    tasks: TaskMap<TaskMeta>,
}

impl View for Dispatcher {
    type V = Map<TaskId, TaskMeta>;

    closed spec fn view(&self) -> Map<TaskId, TaskMeta> {
        self.tasks@
    }
}

impl Default for Dispatcher {
    fn default() -> (d: Dispatcher)
        ensures
            d@ == Map::<TaskId, TaskMeta>::empty(),
    {
        Dispatcher::new()
    }
}

impl Dispatcher {
    /// The tracked tasks in the order of their identities.
    pub closed spec fn in_order(&self) -> Seq<(TaskId, TaskMeta)> {
        self.tasks.entries()
    }

    /// A dispatcher that tracks nothing.
    pub fn new() -> (d: Dispatcher)
        ensures
            d@ == Map::<TaskId, TaskMeta>::empty(),
    {
        Dispatcher { clock: Clock::start(), tasks: TaskMap::new() }
    }

    /// The present moment on the dispatcher's clock.
    pub fn now(&self) -> (m: Moment)
        ensures
            m.in_range(),
    {
        self.clock.now()
    }

    /// Tracks a task with its budget and deadline, from now on.
    pub fn track(&mut self, task: &Task)
        ensures
            exists|now: Moment|
                now.in_range() && final(self)@ == #[trigger] enlisted(
                    old(self)@,
                    now,
                    task.id,
                    task.failure_limit,
                    task.max_runtime_secs,
                ),
    {
        self.track_full(task.id, task.failure_limit, task.max_runtime_secs);
    }

    /// Tracks a task with the default budget and no deadline, from now on.
    pub fn track_id(&mut self, id: TaskId)
        ensures
            exists|now: Moment|
                now.in_range() && final(self)@ == #[trigger] enlisted(
                    old(self)@,
                    now,
                    id,
                    DEFAULT_FAILURE_LIMIT,
                    None,
                ),
    {
        self.track_full(id, DEFAULT_FAILURE_LIMIT, None);
    }

    /// Tracks a task with a budget and no deadline, from now on.
    pub fn track_id_with_limit(&mut self, id: TaskId, limit: u8)
        ensures
            exists|now: Moment|
                now.in_range() && final(self)@ == #[trigger] enlisted(
                    old(self)@,
                    now,
                    id,
                    limit,
                    None,
                ),
    {
        self.track_full(id, limit, None);
    }

    /// Tracks a task with a budget and a deadline, from now on. A task that
    /// is tracked already stays as it is, with its errors.
    pub fn track_full(&mut self, id: TaskId, limit: u8, max_runtime_secs: Option<u64>)
        ensures
            exists|now: Moment|
                now.in_range() && final(self)@ == #[trigger] enlisted(
                    old(self)@,
                    now,
                    id,
                    limit,
                    max_runtime_secs,
                ),
    {
        let now = self.clock.now();
        self.track_at(now, id, limit, max_runtime_secs);
    }

    /// Tracks a task from the given moment on.
    pub fn track_at(&mut self, now: Moment, id: TaskId, limit: u8, max_runtime_secs: Option<u64>)
        requires
            now.in_range(),
        ensures
            final(self)@ == enlisted(old(self)@, now, id, limit, max_runtime_secs),
    {
        if self.tasks.contains_key(&id) {
            return;
        }
        let deadline = match max_runtime_secs {
            Some(s) => Some(now.plus_secs(s)),
            None => None,
        };
        let limit: u8 = if limit == 0 {
            1
        } else {
            limit
        };
        self.tasks.insert(id, TaskMeta { deadline, errors: 0, limit, last_beat: now });
    }

    /// Stops tracking a task.
    pub fn untrack(&mut self, task: &TaskId)
        ensures
            final(self)@ == old(self)@.remove(*task),
    {
        self.tasks.remove(task);
    }

    /// Records a sign of life now. Unknown tasks are ignored.
    pub fn note_heartbeat(&mut self, task: &TaskId)
        ensures
            exists|now: Moment|
                now.in_range() && final(self)@ == #[trigger] beaten(old(self)@, now, *task),
    {
        let now = self.clock.now();
        self.heartbeat_at(now, task);
    }

    /// Records a sign of life at the given moment.
    pub fn heartbeat_at(&mut self, now: Moment, task: &TaskId)
        ensures
            final(self)@ == beaten(old(self)@, now, *task),
    {
        let found = match self.tasks.get(task) {
            Some(m) => Some(*m),
            None => None,
        };
        if let Some(m) = found {
            self.tasks.insert(
                *task,
                TaskMeta { deadline: m.deadline, errors: m.errors, limit: m.limit, last_beat: now },
            );
        }
    }

    /// Records an error. Unknown tasks are ignored.
    pub fn note_error(&mut self, task: &TaskId)
        ensures
            final(self)@ == erred(old(self)@, *task),
    {
        let found = match self.tasks.get(task) {
            Some(m) => Some(*m),
            None => None,
        };
        if let Some(m) = found {
            let errors: u32 = m.errors.saturating_add(1);
            self.tasks.insert(
                *task,
                TaskMeta { deadline: m.deadline, errors, limit: m.limit, last_beat: m.last_beat },
            );
        }
    }

    /// Records a success now: the error count starts over. Unknown tasks are
    /// ignored.
    pub fn note_success(&mut self, task: &TaskId)
        ensures
            exists|now: Moment|
                now.in_range() && final(self)@ == #[trigger] succeeded(old(self)@, now, *task),
    {
        let now = self.clock.now();
        self.success_at(now, task);
    }

    /// Records a success at the given moment.
    pub fn success_at(&mut self, now: Moment, task: &TaskId)
        ensures
            final(self)@ == succeeded(old(self)@, now, *task),
    {
        let found = match self.tasks.get(task) {
            Some(m) => Some(*m),
            None => None,
        };
        if let Some(m) = found {
            self.tasks.insert(
                *task,
                TaskMeta { deadline: m.deadline, errors: 0, limit: m.limit, last_beat: now },
            );
        }
    }

    /// Sweeps now.
    pub fn sweep(&self) -> (out: Vec<DispatcherAction>)
        ensures
            exists|now: Moment|
                now.in_range() && out@ == #[trigger] actions(self.in_order(), now),
            sweeps(self@, self.in_order()),
    {
        let now = self.clock.now();
        self.sweep_at(now)
    }

    /// Sweeps at the given moment: every task whose budget is spent, or that
    /// is overdue, in the order of identities.
    pub fn sweep_at(&self, now: Moment) -> (out: Vec<DispatcherAction>)
        ensures
            out@ == actions(self.in_order(), now),
            sweeps(self@, self.in_order()),
    {
        let n: usize = self.tasks.len();
        let ghost all = self.in_order();
        let mut out: Vec<DispatcherAction> = Vec::new();
        let mut i: usize = 0;
        let patience: u128 = 120_000_000_000;
        while i < n
            invariant
                i <= n == all.len(),
                all == self.tasks.entries(),
                patience == 2 * DISPATCH_INTERVAL_SECS * 1000000000,
                out@ == actions(all.take(i as int), now),
            decreases n - i,
        {
            assert(all.take(i + 1).drop_last() =~= all.take(i as int));
            let id = *self.tasks.key_at(i);
            let m = *self.tasks.value_at(i);
            let late = match m.deadline {
                Some(d) => now.nanos >= d.nanos,
                None => false,
            };
            let silent: u128 = now.nanos.saturating_sub(m.last_beat.nanos);
            if m.errors >= m.limit as u32 {
                out.push(DispatcherAction::Blocked(id));
            } else if late || silent > patience {
                out.push(DispatcherAction::Reclaim(id));
            }
            i += 1;
        }
        assert(all.take(all.len() as int) =~= all);
        proof {
            assert forall|id: TaskId| self@.dom().contains(id) implies exists|i: int|
                0 <= i < all.len() && (#[trigger] all[i]).0 == id by {
                let keys = self.tasks.keys();
                assert(keys.contains(id));
                let i = choose|i: int| 0 <= i < keys.len() && keys[i] == id;
                assert(all[i].0 == id);
            }
            assert forall|i: int, j: int| 0 <= i < j < all.len() implies (#[trigger] all[i]).0.0 < (
            #[trigger] all[j]).0.0 by {
                let keys = self.tasks.keys();
                assert(keys[i] == all[i].0 && keys[j] == all[j].0);
            }
        }
        out
    }
}

/// `entries` are the tracked tasks `tasks`, each once, in the order of their
/// identities.
pub open spec fn sweeps(tasks: Map<TaskId, TaskMeta>, entries: Seq<(TaskId, TaskMeta)>) -> bool {
    &&& forall|i: int|
        0 <= i < entries.len() ==> tasks.dom().contains((#[trigger] entries[i]).0)
            && tasks[entries[i].0] == entries[i].1
    &&& forall|i: int, j: int|
        0 <= i < j < entries.len() ==> (#[trigger] entries[i]).0.0 < (#[trigger] entries[j]).0.0
    &&& forall|id: TaskId|
        tasks.dom().contains(id) ==> exists|i: int|
            0 <= i < entries.len() && (#[trigger] entries[i]).0 == id
}

/// After tracking `id` from `now` on: a task already tracked stays as it is.
pub open spec fn enlisted(
    tasks: Map<TaskId, TaskMeta>,
    now: Moment,
    id: TaskId,
    limit: u8,
    max_runtime_secs: Option<u64>,
) -> Map<TaskId, TaskMeta> {
    if tasks.dom().contains(id) {
        tasks
    } else {
        tasks.insert(id, TaskMeta::fresh(now, limit, max_runtime_secs))
    }
}

/// After a sign of life of `id`.
pub open spec fn beaten(tasks: Map<TaskId, TaskMeta>, now: Moment, id: TaskId) -> Map<
    TaskId,
    TaskMeta,
> {
    if tasks.dom().contains(id) {
        tasks.insert(id, tasks[id].with_beat(now))
    } else {
        tasks
    }
}

/// After an error of `id`.
pub open spec fn erred(tasks: Map<TaskId, TaskMeta>, id: TaskId) -> Map<TaskId, TaskMeta> {
    if tasks.dom().contains(id) {
        tasks.insert(id, tasks[id].with_error())
    } else {
        tasks
    }
}

/// After a success of `id`.
pub open spec fn succeeded(tasks: Map<TaskId, TaskMeta>, now: Moment, id: TaskId) -> Map<
    TaskId,
    TaskMeta,
> {
    if tasks.dom().contains(id) {
        tasks.insert(id, tasks[id].with_success(now))
    } else {
        tasks
    }
}

/// A sweep reports exactly the tracked tasks that call for an action, each
/// with that action.
pub proof fn sweep_reports_each_task(
    tasks: Map<TaskId, TaskMeta>,
    entries: Seq<(TaskId, TaskMeta)>,
    now: Moment,
    a: DispatcherAction,
)
    requires
        sweeps(tasks, entries),
    ensures
        actions(entries, now).contains(a) <==> exists|id: TaskId|
            #[trigger] tasks.dom().contains(id) && tasks[id].action(id, now) == Some(a),
{
    actions_are_the_entries(entries, now, a);
    if actions(entries, now).contains(a) {
        let i = choose|i: int|
            0 <= i < entries.len() && (#[trigger] entries[i]).1.action(entries[i].0, now) == Some(a);
        assert(tasks.dom().contains(entries[i].0));
    }
    if exists|id: TaskId|
        #[trigger] tasks.dom().contains(id) && tasks[id].action(id, now) == Some(a) {
        let id = choose|id: TaskId|
            #[trigger] tasks.dom().contains(id) && tasks[id].action(id, now) == Some(a);
        let i = choose|i: int| 0 <= i < entries.len() && (#[trigger] entries[i]).0 == id;
        assert(entries[i].1.action(entries[i].0, now) == Some(a));
    }
}

proof fn actions_are_the_entries(
    entries: Seq<(TaskId, TaskMeta)>,
    now: Moment,
    a: DispatcherAction,
)
    ensures
        actions(entries, now).contains(a) <==> exists|i: int|
            0 <= i < entries.len() && (#[trigger] entries[i]).1.action(entries[i].0, now) == Some(
                a,
            ),
    decreases entries.len(),
{
    if entries.len() > 0 {
        let rest = entries.drop_last();
        let last = entries.last();
        actions_are_the_entries(rest, now, a);
        let got = actions(rest, now);
        if actions(entries, now).contains(a) {
            let k = choose|k: int|
                0 <= k < actions(entries, now).len() && actions(entries, now)[k] == a;
            if k < got.len() {
                assert(got[k] == a);
                let i = choose|i: int|
                    0 <= i < rest.len() && (#[trigger] rest[i]).1.action(rest[i].0, now) == Some(a);
                assert(entries[i] == rest[i]);
            } else {
                assert(entries[entries.len() - 1].1.action(entries[entries.len() - 1].0, now) == Some(a));
            }
        }
        if exists|i: int|
            0 <= i < entries.len() && (#[trigger] entries[i]).1.action(entries[i].0, now) == Some(
                a,
            ) {
            let i = choose|i: int|
                0 <= i < entries.len() && (#[trigger] entries[i]).1.action(entries[i].0, now)
                    == Some(a);
            if i < rest.len() {
                assert(rest[i] == entries[i]);
                assert(got.contains(a));
                let k = choose|k: int| 0 <= k < got.len() && got[k] == a;
                assert(actions(entries, now)[k] == a);
            } else {
                assert(actions(entries, now)[got.len() as int] == a);
            }
        }
    }
}

/// A task that was tracked just now calls for no action: not before its
/// deadline, and not before two sweeps have gone by.
pub proof fn fresh_task_has_no_action(
    now: Moment,
    later: Moment,
    id: TaskId,
    limit: u8,
    secs: Option<u64>,
)
    requires
        now.in_range(),
        now.nanos <= later.nanos <= now.nanos + 2 * DISPATCH_INTERVAL_SECS * 1000000000,
        secs matches Some(s) ==> later.nanos < now.nanos + s * 1000000000,
    ensures
        TaskMeta::fresh(now, limit, secs).action(id, later) is None,
{
    if let Some(s) = secs {
        assert(s * 1000000000 <= 18446744073709551615 * 1000000000) by (nonlinear_arith)
            requires
                s <= 18446744073709551615,
        ;
        assert(now.after(s).nanos == now.nanos + s * 1000000000);
    }
}

/// A task past its deadline, or silent for more than two sweeps, with budget
/// left, is reclaimed.
pub proof fn overdue_task_is_reclaimed(m: TaskMeta, id: TaskId, now: Moment)
    requires
        !m.spent(),
        m.overdue(now),
    ensures
        m.action(id, now) == Some(DispatcherAction::Reclaim(id)),
{
}

/// A spent budget wins over being overdue, at any time.
pub proof fn spent_budget_blocks(m: TaskMeta, id: TaskId, now: Moment)
    requires
        m.spent(),
    ensures
        m.action(id, now) == Some(DispatcherAction::Blocked(id)),
{
}

/// An error after a success after an error leaves a budget of two or more
/// unspent, however many errors came before.
pub proof fn success_resets_the_streak(
    tasks: Map<TaskId, TaskMeta>,
    id: TaskId,
    now: Moment,
)
    requires
        tasks.dom().contains(id),
        tasks[id].limit >= 2,
    ensures
        !erred(succeeded(erred(tasks, id), now, id), id)[id].spent(),
{
}

/// Tracking a task again keeps its errors; only untracking it first makes a
/// fresh start.
pub proof fn retrack_keeps_errors(
    tasks: Map<TaskId, TaskMeta>,
    id: TaskId,
    now: Moment,
    limit: u8,
    secs: Option<u64>,
)
    requires
        tasks.dom().contains(id),
    ensures
        enlisted(tasks, now, id, limit, secs) == tasks,
        enlisted(tasks.remove(id), now, id, limit, secs)[id] == TaskMeta::fresh(now, limit, secs),
{
}

/// What happens to one task leaves every other task as it is.
pub proof fn other_tasks_are_untouched(
    tasks: Map<TaskId, TaskMeta>,
    id: TaskId,
    other: TaskId,
    now: Moment,
    limit: u8,
    secs: Option<u64>,
)
    requires
        id != other,
        tasks.dom().contains(other),
    ensures
        enlisted(tasks, now, id, limit, secs)[other] == tasks[other],
        beaten(tasks, now, id)[other] == tasks[other],
        erred(tasks, id)[other] == tasks[other],
        succeeded(tasks, now, id)[other] == tasks[other],
        tasks.remove(id)[other] == tasks[other],
{
}

/// A task no longer tracked is in no sweep.
pub proof fn untracked_task_is_silent(
    tasks: Map<TaskId, TaskMeta>,
    entries: Seq<(TaskId, TaskMeta)>,
    id: TaskId,
    now: Moment,
)
    requires
        sweeps(tasks.remove(id), entries),
    ensures
        !actions(entries, now).contains(DispatcherAction::Reclaim(id)),
        !actions(entries, now).contains(DispatcherAction::Blocked(id)),
{
    sweep_reports_each_task(tasks.remove(id), entries, now, DispatcherAction::Reclaim(id));
    sweep_reports_each_task(tasks.remove(id), entries, now, DispatcherAction::Blocked(id));
}

/// A watched task is called off for errors once they reach its limit, whatever
/// the time; otherwise it is reclaimed where its deadline has come or it has
/// given no sign for more than two minutes; otherwise nothing is said of it.
pub proof fn watch_acts_on_errors_then_time(m: TaskMeta, id: TaskId, now: Moment)
    ensures
        m.errors >= m.limit <==> m.action(id, now) == Some(DispatcherAction::Blocked(id)),
        m.errors < m.limit && (m.deadline matches Some(d) && now.nanos >= d.nanos) ==> m.action(
            id,
            now,
        ) == Some(DispatcherAction::Reclaim(id)),
        m.errors < m.limit && now.nanos > m.last_beat.nanos + 120 * 1000000000 ==> m.action(id, now) == Some(DispatcherAction::Reclaim(id)),
        m.errors < m.limit && (m.deadline matches Some(d) ==> now.nanos < d.nanos) && now.nanos
            <= m.last_beat.nanos + 120 * 1000000000 ==> m.action(id, now) is None,
{
}

/// A sweep tells what is to be done of each task, in the order of the tasks:
/// what it tells of two lists of tasks, one behind the other, is what it tells
/// of the first and then of the second.
pub proof fn sweeps_add_up(
    a: Seq<(TaskId, TaskMeta)>,
    b: Seq<(TaskId, TaskMeta)>,
    id: TaskId,
    m: TaskMeta,
    now: Moment,
)
    ensures
        actions(a + b, now) == actions(a, now) + actions(b, now),
        m.action(id, now) is None ==> actions(seq![(id, m)], now).len() == 0,
        m.action(id, now) matches Some(x) ==> actions(seq![(id, m)], now) == seq![x],
    decreases b.len(),
{
    reveal_with_fuel(actions, 2);
    assert(seq![(id, m)].drop_last() =~= Seq::empty());
    if m.action(id, now) is Some {
        assert(actions(seq![(id, m)], now) =~= seq![m.action(id, now)->Some_0]);
    }
    if b.len() == 0 {
        assert(a + b =~= a);
        assert(actions(a, now) + actions(b, now) =~= actions(a, now));
    } else {
        assert((a + b).drop_last() =~= a + b.drop_last());
        sweeps_add_up(a, b.drop_last(), id, m, now);
        assert(actions(a + b, now) =~= actions(a, now) + actions(b, now));
    }
}

/// What is noted of a watched task: it starts without errors, with at least
/// one allowed, a deadline that many seconds ahead where it has one, and the
/// moment as its last sign. An error counts once, a sign moves only the last
/// sign, and a success clears the errors and is a sign too.
pub proof fn watch_notes_what_happens(
    tasks: Map<TaskId, TaskMeta>,
    id: TaskId,
    now: Moment,
    limit: u8,
    secs: Option<u64>,
)
    requires
        now.in_range(),
    ensures
        !tasks.dom().contains(id) ==> {
            let m = enlisted(tasks, now, id, limit, secs)[id];
            &&& enlisted(tasks, now, id, limit, secs).dom() == tasks.dom().insert(id)
            &&& m.errors == 0
            &&& m.last_beat == now
            &&& limit > 0 ==> m.limit == limit
            &&& limit == 0 ==> m.limit == 1
            &&& secs is None ==> m.deadline is None
            &&& secs matches Some(s) ==> (m.deadline matches Some(d) && d.nanos == now.nanos + s
                * 1000000000)
        },
        !tasks.dom().contains(id) ==> beaten(tasks, now, id) == tasks && erred(tasks, id) == tasks
            && succeeded(tasks, now, id) == tasks,
        tasks.dom().contains(id) ==> {
            let m = tasks[id];
            let e = erred(tasks, id)[id];
            let b = beaten(tasks, now, id)[id];
            let s = succeeded(tasks, now, id)[id];
            &&& m.errors < u32::MAX ==> e.errors == m.errors + 1
            &&& e.limit == m.limit && e.deadline == m.deadline && e.last_beat == m.last_beat
            &&& b.last_beat == now && b.errors == m.errors && b.limit == m.limit && b.deadline
                == m.deadline
            &&& s.last_beat == now && s.errors == 0 && s.limit == m.limit && s.deadline
                == m.deadline
        },
{
}

/// Errors are counted up to the largest number there is.
pub proof fn errors_stay_at_the_largest(m: TaskMeta)
    ensures
        m.with_error().errors >= m.errors,
        m.errors == u32::MAX ==> m.with_error().errors == u32::MAX,
{
}

} // verus!
