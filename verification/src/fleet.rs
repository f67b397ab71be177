//! The tasks that run, and the sweep that watches over them.
use crate::agent;
use crate::agent::{SampleModel, UsageSample};
use crate::runtime;
use crate::store;
use crate::store::Store;
use crate::text;
use crate::transcript::TaskId;
use vstd::prelude::*;
use vstd::string::*;

verus! {

/// What a sweep says of a task.
#[derive(Debug, Clone, Copy, PartialEq, Eq, Structural)]
pub enum SweepAction {
    /// Overdue or silent for too long: take it back.
    Reclaim(TaskId),
    /// Retry budget spent: stop it.
    Blocked(TaskId),
}

/// The text of an optional string slice.
pub open spec fn opt_slice(s: Option<&str>) -> Option<Seq<char>> {
    match s {
        Some(t) => Some(t@),
        None => None,
    }
}

/// What a task hands to the one that continues it.
#[derive(Debug, Clone, PartialEq, Eq)]
pub struct TaskHandoff {
    pub parent: TaskId,
    pub slug: String,
    pub agent_ref: String,
    pub summary: Option<String>,
}

/// What a [`TaskHandoff`] holds.
pub struct HandoffModel {
    pub parent: TaskId,
    pub slug: Seq<char>,
    pub agent_ref: Seq<char>,
    pub summary: Option<Seq<char>>,
}

impl View for TaskHandoff {
    type V = HandoffModel;

    open spec fn view(&self) -> HandoffModel {
        HandoffModel {
            parent: self.parent,
            slug: self.slug@,
            agent_ref: self.agent_ref@,
            summary: text::opt_text(self.summary),
        }
    }
}

/// What an optional handoff holds.
pub open spec fn opt_handoff(h: Option<TaskHandoff>) -> Option<HandoffModel> {
    match h {
        Some(t) => Some(t@),
        None => None,
    }
}

/// A running task. What each call does is stated by the task itself, as a
/// relation between its state before and after. Where it
/// states none, nothing is promised.
pub trait SupervisedTask: Send + Sized {
    /// The identity of the task.
    open spec fn id(&self) -> TaskId {
        arbitrary()
    }

    /// The worktree of the task; one without is bound to no session.
    open spec fn worktree(&self) -> Option<Seq<char>> {
        None
    }

    /// The errors that block the task.
    open spec fn budget(&self) -> u8 {
        2
    }

    /// The seconds after which the task is taken back.
    open spec fn time_limit(&self) -> Option<u64> {
        None
    }

    /// What the task hands on.
    open spec fn handed_on(&self) -> Option<HandoffModel> {
        None
    }

    /// What the task has used.
    open spec fn used(&self) -> Seq<SampleModel> {
        Seq::empty()
    }

    /// Taking in what has happened.
    open spec fn ticked(was: Self, store_was: Store, now: Self, store_now: Store) -> bool {
        true
    }

    /// Handing out the errors since the last time.
    open spec fn errors_drained(was: Self, now: Self, hits: Seq<TaskId>) -> bool {
        true
    }

    /// Handing out the successes since the last time.
    open spec fn successes_drained(was: Self, now: Self, hits: Seq<TaskId>) -> bool {
        true
    }

    /// A manual retry.
    open spec fn reset(was: Self, now: Self) -> bool {
        true
    }

    /// Learning which session feeds the task.
    open spec fn bound(was: Self, now: Self, sid: Seq<char>) -> bool {
        true
    }

    /// Forgetting a session.
    open spec fn unbound(was: Self, now: Self, sid: Seq<char>) -> bool {
        true
    }

    /// The identity of the task.
    fn task_id(&self) -> (r: TaskId)
        ensures
            r == self.id(),
    ;

    /// The worktree of the task.
    fn slug(&self) -> (r: Option<&str>)
        ensures
            opt_slice(r) == self.worktree(),
    ;

    /// The errors that block the task.
    fn failure_limit(&self) -> (r: u8)
        ensures
            r == self.budget(),
    ;

    /// The seconds after which the task is taken back.
    fn max_runtime_secs(&self) -> (r: Option<u64>)
        ensures
            r == self.time_limit(),
    ;

    /// Takes in what has happened, without waiting.
    fn tick(&mut self, store: &mut Store)
        ensures
            Self::ticked(*old(self), *old(store), *final(self), *final(store)),
    ;

    /// The errors since the last call, one for each.
    fn drain_errors(&mut self) -> (hits: Vec<TaskId>)
        ensures
            Self::errors_drained(*old(self), *final(self), hits@),
    ;

    /// The successes since the last call, one for each.
    fn drain_successes(&mut self) -> (hits: Vec<TaskId>)
        ensures
            Self::successes_drained(*old(self), *final(self), hits@),
    ;

    /// Manual retry.
    fn retry_reset(&mut self)
        ensures
            Self::reset(*old(self), *final(self)),
    ;

    /// What the task hands to the one that continues it.
    fn handoff(&self) -> (h: Option<TaskHandoff>)
        ensures
            opt_handoff(h) == self.handed_on(),
    ;

    /// Tells which session feeds the task.
    fn bind_session(&mut self, session_id: &str)
        ensures
            Self::bound(*old(self), *final(self), session_id@),
    ;

    /// Tells that a session is gone.
    fn unbind_session(&mut self, session_id: &str)
        ensures
            Self::unbound(*old(self), *final(self), session_id@),
    ;

    /// What the task has used.
    fn usage_samples(&self) -> (v: Vec<UsageSample>)
        ensures
            agent::samples(v@) == self.used(),
    ;
}

/// Watches over running tasks. What each call does is stated by the sweeper
/// itself, as a relation between its state before and after. Where it
/// states none, nothing is promised.
pub trait TaskSweeper: Send + Sized {
    /// Watching a task with the default budget.
    open spec fn watches(was: Self, now: Self, task: TaskId) -> bool {
        true
    }

    /// Watching a task with a budget.
    open spec fn watches_with_limit(was: Self, now: Self, task: TaskId, limit: u8) -> bool {
        true
    }

    /// Watching a task with a budget and a time limit.
    open spec fn watches_full(was: Self, now: Self, task: TaskId, limit: u8, max_runtime_secs: Option<u64>) -> bool {
        true
    }

    /// Forgetting a task.
    open spec fn forgets(was: Self, now: Self, task: TaskId) -> bool {
        true
    }

    /// An error of a task.
    open spec fn takes_error(was: Self, now: Self, task: TaskId) -> bool {
        true
    }

    /// A success of a task.
    open spec fn takes_success(was: Self, now: Self, task: TaskId) -> bool {
        true
    }

    /// A sign of life of a task.
    open spec fn takes_beat(was: Self, now: Self, task: TaskId) -> bool {
        true
    }

    /// What a sweep may say.
    open spec fn reports(&self, actions: Seq<SweepAction>) -> bool {
        true
    }

    /// Watches a task with the default budget.
    fn track_task(&mut self, task: TaskId)
        ensures
            Self::watches(*old(self), *final(self), task),
    ;

    /// Watches a task with a budget.
    fn track_task_with_limit(&mut self, task: TaskId, limit: u8)
        ensures
            Self::watches_with_limit(*old(self), *final(self), task, limit),
    ;

    /// Watches a task with a budget and a time limit.
    fn track_task_full(&mut self, task: TaskId, limit: u8, max_runtime_secs: Option<u64>)
        ensures
            Self::watches_full(*old(self), *final(self), task, limit, max_runtime_secs),
    ;

    /// Forgets a task.
    fn untrack_task(&mut self, task: &TaskId)
        ensures
            Self::forgets(*old(self), *final(self), *task),
    ;

    /// Records an error.
    fn note_task_error(&mut self, task: &TaskId)
        ensures
            Self::takes_error(*old(self), *final(self), *task),
    ;

    /// Records a success.
    fn note_task_success(&mut self, task: &TaskId)
        ensures
            Self::takes_success(*old(self), *final(self), *task),
    ;

    /// Records a sign of life.
    fn note_heartbeat(&mut self, task: &TaskId)
        ensures
            Self::takes_beat(*old(self), *final(self), *task),
    ;

    /// What should be done about the tasks.
    fn sweep(&self) -> (actions: Vec<SweepAction>)
        ensures
            self.reports(actions@),
    ;
}

/// How an action is shown.
pub open spec fn shown(a: SweepAction) -> Seq<char> {
    match a {
        SweepAction::Reclaim(id) => "fleet: reclaim "@ + text::dec(id.0 as nat)
            + " (overdue/stale, will retry)"@,
        SweepAction::Blocked(id) => "fleet: blocked "@ + text::dec(id.0 as nat)
            + " (2 errors, needs a human look)"@,
    }
}

fn show(a: &SweepAction) -> (s: String)
    ensures
        s@ == shown(*a),
{
    match a {
        SweepAction::Reclaim(id) => {
            let mut s = "fleet: reclaim ".to_owned();
            s.append(id.to_text().as_str());
            s.append(" (overdue/stale, will retry)");
            s
        },
        SweepAction::Blocked(id) => {
            let mut s = "fleet: blocked ".to_owned();
            s.append(id.to_text().as_str());
            s.append(" (2 errors, needs a human look)");
            s
        },
    }
}

/// The errors that are shown after some actions: one for each, and of all the
/// last twenty.
pub open spec fn errors_after(errors: Seq<Seq<char>>, actions: Seq<SweepAction>) -> Seq<Seq<char>>
    decreases actions.len(),
{
    if actions.len() == 0 {
        errors
    } else {
        store::last_of(errors_after(errors, actions.drop_last()).push(shown(actions.last())), 20)
    }
}

/// Shows every action as an error, so that none gets lost.
pub fn apply_sweep(store: &mut Store, actions: &[SweepAction])
    ensures
        *final(store) == (Store { errors: final(store).errors, ..*old(store) }),
        text::texts(final(store).errors@) == errors_after(
            text::texts(old(store).errors@),
            actions@,
        ),
{
    let ghost before = text::texts(store.errors@);
    let mut i: usize = 0;
    assert(actions@.take(0) =~= Seq::empty());
    while i < actions.len()
        invariant
            i <= actions@.len(),
            *store == (Store { errors: store.errors, ..*old(store) }),
            text::texts(store.errors@) == errors_after(before, actions@.take(i as int)),
        decreases actions@.len() - i,
    {
        assert(actions@.take(i + 1).drop_last() =~= actions@.take(i as int));
        let ghost was = store.errors@;
        let msg = show(&actions[i]);
        store.push_error(msg);
        assert(text::texts(was.push(msg)) =~= text::texts(was).push(msg@));
        assert(text::texts(store::last_of(was.push(msg), 20)) =~= store::last_of(
            text::texts(was.push(msg)),
            20,
        ));
        i += 1;
    }
    assert(actions@.take(actions@.len() as int) =~= actions@);
}

/// Every task has taken in what happened, one after the other.
pub open spec fn all_ticked<T: SupervisedTask>(
    was: Seq<T>,
    store_was: Store,
    now: Seq<T>,
    store_now: Store,
) -> bool
    decreases was.len(),
{
    if was.len() == 0 {
        now.len() == 0 && store_now == store_was
    } else {
        &&& now.len() == was.len()
        &&& exists|mid: Store|
            all_ticked(was.drop_last(), store_was, now.drop_last(), mid) && #[trigger] T::ticked(
                was.last(),
                mid,
                now.last(),
                store_now,
            )
    }
}

/// Lets every task take in what has happened.
pub fn drain_fleet<T: SupervisedTask>(fleet: &mut Vec<T>, store: &mut Store)
    ensures
        all_ticked(old(fleet)@, *old(store), final(fleet)@, *final(store)),
{
    let ghost was = fleet@;
    let n: usize = fleet.len();
    let mut i: usize = 0;
    assert(was.take(0) =~= Seq::empty());
    assert(fleet@.take(0) =~= Seq::empty());
    while i < n
        invariant
            i <= n == was.len() == fleet@.len(),
            fleet@.skip(i as int) == was.skip(i as int),
            all_ticked(was.take(i as int), *old(store), fleet@.take(i as int), *store),
        decreases n - i,
    {
        let ghost done = fleet@.take(i as int);
        let ghost mid = *store;
        assert(fleet@.skip(i as int)[0] == was.skip(i as int)[0]);
        fleet[i].tick(store);
        proof {
            assert(was.take(i + 1).drop_last() =~= was.take(i as int));
            assert(fleet@.take(i + 1).drop_last() =~= done);
            assert(was.take(i + 1).last() == was[i as int]);
            assert(fleet@.take(i + 1).last() == fleet@[i as int]);
            assert(T::ticked(was[i as int], mid, fleet@[i as int], *store));
            assert forall|k: int| i + 1 <= k < n implies fleet@[k] == was[k] by {
                assert(was.skip(i as int)[k - i] == was[k]);
            }
            assert(fleet@.skip(i + 1) =~= was.skip(i + 1));
        }
        i += 1;
    }
    assert(was.take(n as int) =~= was);
    assert(fleet@.take(n as int) =~= fleet@);
}

/// The errors of every task have been handed out.
pub open spec fn all_errors_drained<T: SupervisedTask>(
    was: Seq<T>,
    now: Seq<T>,
    hits: Seq<TaskId>,
) -> bool
    decreases was.len(),
{
    if was.len() == 0 {
        now.len() == 0 && hits.len() == 0
    } else {
        &&& now.len() == was.len()
        &&& exists|before: Seq<TaskId>, last: Seq<TaskId>|
            hits == before + last && all_errors_drained(was.drop_last(), now.drop_last(), before)
                && #[trigger] errors_behind(was.last(), now.last(), before, last)
    }
}

/// `last` are the errors of a task, behind those of the tasks before it.
pub open spec fn errors_behind<T: SupervisedTask>(
    was: T,
    now: T,
    before: Seq<TaskId>,
    last: Seq<TaskId>,
) -> bool {
    T::errors_drained(was, now, last)
}

fn drain_all_errors<T: SupervisedTask>(fleet: &mut Vec<T>) -> (hits: Vec<TaskId>)
    ensures
        all_errors_drained(old(fleet)@, final(fleet)@, hits@),
{
    let ghost was = fleet@;
    let n: usize = fleet.len();
    let mut hits: Vec<TaskId> = Vec::new();
    let mut i: usize = 0;
    assert(was.take(0) =~= Seq::empty());
    assert(fleet@.take(0) =~= Seq::empty());
    while i < n
        invariant
            i <= n == was.len() == fleet@.len(),
            fleet@.skip(i as int) == was.skip(i as int),
            all_errors_drained(was.take(i as int), fleet@.take(i as int), hits@),
        decreases n - i,
    {
        let ghost done = fleet@.take(i as int);
        let ghost before = hits@;
        assert(fleet@.skip(i as int)[0] == was.skip(i as int)[0]);
        let mut last = fleet[i].drain_errors();
        let ghost mine = last@;
        hits.append(&mut last);
        proof {
            assert(was.take(i + 1).drop_last() =~= was.take(i as int));
            assert(fleet@.take(i + 1).drop_last() =~= done);
            assert(was.take(i + 1).last() == was[i as int]);
            assert(fleet@.take(i + 1).last() == fleet@[i as int]);
            assert(hits@ =~= before + mine);
            assert(errors_behind(was[i as int], fleet@[i as int], before, mine));
            assert forall|k: int| i + 1 <= k < n implies fleet@[k] == was[k] by {
                assert(was.skip(i as int)[k - i] == was[k]);
            }
            assert(fleet@.skip(i + 1) =~= was.skip(i + 1));
        }
        i += 1;
    }
    assert(was.take(n as int) =~= was);
    assert(fleet@.take(n as int) =~= fleet@);
    hits
}

/// The successes of every task have been handed out.
pub open spec fn all_successes_drained<T: SupervisedTask>(
    was: Seq<T>,
    now: Seq<T>,
    hits: Seq<TaskId>,
) -> bool
    decreases was.len(),
{
    if was.len() == 0 {
        now.len() == 0 && hits.len() == 0
    } else {
        &&& now.len() == was.len()
        &&& exists|before: Seq<TaskId>, last: Seq<TaskId>|
            hits == before + last && all_successes_drained(was.drop_last(), now.drop_last(), before)
                && #[trigger] successes_behind(was.last(), now.last(), before, last)
    }
}

/// `last` are the successes of a task, behind those of the tasks before it.
pub open spec fn successes_behind<T: SupervisedTask>(
    was: T,
    now: T,
    before: Seq<TaskId>,
    last: Seq<TaskId>,
) -> bool {
    T::successes_drained(was, now, last)
}

fn drain_all_successes<T: SupervisedTask>(fleet: &mut Vec<T>) -> (hits: Vec<TaskId>)
    ensures
        all_successes_drained(old(fleet)@, final(fleet)@, hits@),
{
    let ghost was = fleet@;
    let n: usize = fleet.len();
    let mut hits: Vec<TaskId> = Vec::new();
    let mut i: usize = 0;
    assert(was.take(0) =~= Seq::empty());
    assert(fleet@.take(0) =~= Seq::empty());
    while i < n
        invariant
            i <= n == was.len() == fleet@.len(),
            fleet@.skip(i as int) == was.skip(i as int),
            all_successes_drained(was.take(i as int), fleet@.take(i as int), hits@),
        decreases n - i,
    {
        let ghost done = fleet@.take(i as int);
        let ghost before = hits@;
        assert(fleet@.skip(i as int)[0] == was.skip(i as int)[0]);
        let mut last = fleet[i].drain_successes();
        let ghost mine = last@;
        hits.append(&mut last);
        proof {
            assert(was.take(i + 1).drop_last() =~= was.take(i as int));
            assert(fleet@.take(i + 1).drop_last() =~= done);
            assert(was.take(i + 1).last() == was[i as int]);
            assert(fleet@.take(i + 1).last() == fleet@[i as int]);
            assert(hits@ =~= before + mine);
            assert(successes_behind(was[i as int], fleet@[i as int], before, mine));
            assert forall|k: int| i + 1 <= k < n implies fleet@[k] == was[k] by {
                assert(was.skip(i as int)[k - i] == was[k]);
            }
            assert(fleet@.skip(i + 1) =~= was.skip(i + 1));
        }
        i += 1;
    }
    assert(was.take(n as int) =~= was);
    assert(fleet@.take(n as int) =~= fleet@);
    hits
}

/// A sweeper after errors, one after the other.
pub open spec fn errors_taken<S: TaskSweeper>(was: S, now: S, hits: Seq<TaskId>) -> bool
    decreases hits.len(),
{
    if hits.len() == 0 {
        now == was
    } else {
        exists|mid: S|
            errors_taken(was, mid, hits.drop_last()) && #[trigger] S::takes_error(
                mid,
                now,
                hits.last(),
            )
    }
}

/// A sweeper after successes, one after the other.
pub open spec fn successes_taken<S: TaskSweeper>(was: S, now: S, hits: Seq<TaskId>) -> bool
    decreases hits.len(),
{
    if hits.len() == 0 {
        now == was
    } else {
        exists|mid: S|
            successes_taken(was, mid, hits.drop_last()) && #[trigger] S::takes_success(
                mid,
                now,
                hits.last(),
            )
    }
}

/// A sweeper that has forgotten the tasks which some actions block.
pub open spec fn blocked_forgotten<S: TaskSweeper>(was: S, now: S, actions: Seq<SweepAction>) -> bool
    decreases actions.len(),
{
    if actions.len() == 0 {
        now == was
    } else {
        match actions.last() {
            SweepAction::Reclaim(_) => blocked_forgotten(was, now, actions.drop_last()),
            SweepAction::Blocked(id) => exists|mid: S|
                blocked_forgotten(was, mid, actions.drop_last()) && #[trigger] S::forgets(
                    mid,
                    now,
                    id,
                ),
        }
    }
}

/// The worktree of the first task from `i` on with an identity; an empty name
/// where there is none.
pub open spec fn worktree_from<T: SupervisedTask>(tasks: Seq<T>, i: int, id: TaskId) -> Seq<char>
    decreases tasks.len() - i,
{
    if i < 0 || i >= tasks.len() {
        Seq::empty()
    } else if tasks[i].id() == id {
        match tasks[i].worktree() {
            Some(s) => s,
            None => Seq::empty(),
        }
    } else {
        worktree_from(tasks, i + 1, id)
    }
}

fn worktree_of<T: SupervisedTask>(tasks: &Vec<T>, id: TaskId) -> (s: String)
    ensures
        s@ == worktree_from(tasks@, 0, id),
{
    let mut i: usize = 0;
    while i < tasks.len()
        invariant
            i <= tasks@.len(),
            worktree_from(tasks@, 0, id) == worktree_from(tasks@, i as int, id),
        decreases tasks@.len() - i,
    {
        if tasks[i].task_id() == id {
            return match tasks[i].slug() {
                Some(s) => s.to_owned(),
                None => {
                    let s = String::new();
                    assert(s@ =~= Seq::empty());
                    s
                },
            };
        }
        i += 1;
    }
    let s = String::new();
    assert(s@ =~= Seq::empty());
    s
}

/// The stopped tasks with their worktrees.
pub open spec fn blocked_of(m: Map<TaskId, String>) -> Map<TaskId, Seq<char>> {
    m.map_values(|s: String| s@)
}

/// The stopped tasks after some actions.
pub open spec fn blocked_after<T: SupervisedTask>(
    blocked: Map<TaskId, Seq<char>>,
    tasks: Seq<T>,
    actions: Seq<SweepAction>,
) -> Map<TaskId, Seq<char>>
    decreases actions.len(),
{
    if actions.len() == 0 {
        blocked
    } else {
        let rest = blocked_after(blocked, tasks, actions.drop_last());
        match actions.last() {
            SweepAction::Reclaim(_) => rest,
            SweepAction::Blocked(id) => rest.insert(id, worktree_from(tasks, 0, id)),
        }
    }
}

/// A sweep was done: every action is shown, and a task whose budget is spent
/// is stopped and watched no longer.
pub open spec fn swept<T: SupervisedTask, S: TaskSweeper>(
    tasks: Seq<T>,
    was: S,
    store_was: Store,
    now: S,
    store_now: Store,
    actions: Seq<SweepAction>,
) -> bool {
    &&& was.reports(actions)
    &&& store_now == (Store { errors: store_now.errors, blocked: store_now.blocked, ..store_was })
    &&& text::texts(store_now.errors@) == errors_after(text::texts(store_was.errors@), actions)
    &&& blocked_of(store_now.blocked@) == blocked_after(
        blocked_of(store_was.blocked@),
        tasks,
        actions,
    )
    &&& blocked_forgotten(was, now, actions)
}

fn sweep_fleet<T: SupervisedTask, S: TaskSweeper>(tasks: &Vec<T>, sweeper: &mut S, store: &mut Store)
    ensures
        exists|actions: Seq<SweepAction>| #[trigger]
            swept(tasks@, *old(sweeper), *old(store), *final(sweeper), *final(store), actions),
{
    let actions = sweeper.sweep();
    apply_sweep(store, actions.as_slice());
    let ghost before = blocked_of(store.blocked@);
    let ghost errors = store.errors;
    let mut i: usize = 0;
    assert(actions@.take(0) =~= Seq::empty());
    while i < actions.len()
        invariant
            i <= actions@.len(),
            store.errors == errors,
            *store == (Store { errors: store.errors, blocked: store.blocked, ..*old(store) }),
            blocked_of(store.blocked@) == blocked_after(before, tasks@, actions@.take(i as int)),
            blocked_forgotten(*old(sweeper), *sweeper, actions@.take(i as int)),
        decreases actions@.len() - i,
    {
        assert(actions@.take(i + 1).drop_last() =~= actions@.take(i as int));
        if let SweepAction::Blocked(id) = actions[i] {
            let slug = worktree_of(tasks, id);
            let ghost was = store.blocked@;
            let ghost name = slug@;
            store.mark_blocked(id, slug);
            assert(blocked_of(store.blocked@) =~= blocked_of(was).insert(id, name));
            let ghost mid = *sweeper;
            sweeper.untrack_task(&id);
            assert(S::forgets(mid, *sweeper, id));
        }
        i += 1;
    }
    assert(actions@.take(actions@.len() as int) =~= actions@);
    assert(swept(tasks@, *old(sweeper), *old(store), *sweeper, *store, actions@));
}

/// What a round of the fleet does: the tasks take in what happened, their
/// errors and then their successes go to the sweeper, and where it is time a
/// sweep follows.
pub open spec fn fleet_polled<T: SupervisedTask, S: TaskSweeper>(
    was: (Seq<T>, Option<S>, Store),
    now: (Seq<T>, Option<S>, Store),
    tick: u64,
    steps: PollSteps<T, S>,
) -> bool {
    &&& all_ticked(was.0, was.2, steps.ticked, steps.store)
    &&& all_errors_drained(steps.ticked, steps.drained, steps.errors)
    &&& all_successes_drained(steps.drained, now.0, steps.successes)
    &&& match was.1 {
        None => now.1 is None && now.2 == steps.store,
        Some(sweeper) => {
            &&& now.1 is Some
            &&& errors_taken(sweeper, steps.warned, steps.errors)
            &&& successes_taken(steps.warned, steps.told, steps.successes)
            &&& if tick % 30 == 0 {
                swept(now.0, steps.told, steps.store, now.1->0, now.2, steps.actions)
            } else {
                now.1 == Some(steps.told) && now.2 == steps.store
            }
        },
    }
}

/// What comes between the steps of a round.
pub struct PollSteps<T, S> {
    /// The tasks after they took in what happened.
    pub ticked: Seq<T>,
    /// The mirrored state then.
    pub store: Store,
    /// The tasks after their errors were handed out.
    pub drained: Seq<T>,
    pub errors: Seq<TaskId>,
    pub successes: Seq<TaskId>,
    /// The sweeper after the errors.
    pub warned: S,
    /// The sweeper after the successes.
    pub told: S,
    pub actions: Seq<SweepAction>,
}

/// The registered tasks and their sweeper.
pub struct FleetInbox<T, S> {
    pub tasks: Vec<T>,
    pub sweeper: Option<S>,
}

/// The first task of a worktree is the one at `i`.
pub open spec fn owns_first<T: SupervisedTask>(tasks: Seq<T>, slug: Seq<char>, i: int) -> bool {
    &&& 0 <= i < tasks.len()
    &&& tasks[i].worktree() == Some(slug)
    &&& forall|j: int| 0 <= j < i ==> (#[trigger] tasks[j]).worktree() != Some(slug)
}

/// Some task has the worktree.
pub open spec fn owned<T: SupervisedTask>(tasks: Seq<T>, slug: Seq<char>) -> bool {
    exists|i: int| 0 <= i < tasks.len() && (#[trigger] tasks[i]).worktree() == Some(slug)
}

/// A sweeper, if there is one, watches a task with its limits.
pub open spec fn followed<T: SupervisedTask, S: TaskSweeper>(
    was: Option<S>,
    now: Option<S>,
    task: T,
) -> bool {
    match (was, now) {
        (Some(a), Some(b)) => S::watches_full(a, b, task.id(), task.budget(), task.time_limit()),
        (None, None) => true,
        _ => false,
    }
}

/// What a new session in a worktree means for one task.
pub open spec fn task_bound<T: SupervisedTask, S: TaskSweeper>(
    was: T,
    sweeper_was: Option<S>,
    now: T,
    sweeper_now: Option<S>,
    scope: Seq<char>,
    sid: Seq<char>,
) -> bool {
    if was.worktree() == Some(scope) {
        T::bound(was, now, sid) && followed(sweeper_was, sweeper_now, now)
    } else {
        now == was && sweeper_now == sweeper_was
    }
}

/// What a new session in a worktree means for all tasks.
pub open spec fn tasks_bound<T: SupervisedTask, S: TaskSweeper>(
    was: Seq<T>,
    sweeper_was: Option<S>,
    now: Seq<T>,
    sweeper_now: Option<S>,
    scope: Seq<char>,
    sid: Seq<char>,
) -> bool
    decreases was.len(),
{
    if was.len() == 0 {
        now.len() == 0 && sweeper_now == sweeper_was
    } else {
        &&& now.len() == was.len()
        &&& exists|mid: Option<S>|
            tasks_bound(was.drop_last(), sweeper_was, now.drop_last(), mid, scope, sid)
                && #[trigger] task_bound(was.last(), mid, now.last(), sweeper_now, scope, sid)
    }
}

/// Binds a new session to the tasks of its worktree, and has them watched.
/// A session of the repository itself belongs to no task.
pub fn bind_new_session<T: SupervisedTask, S: TaskSweeper>(
    fleet: &mut Vec<T>,
    sweeper: &mut Option<S>,
    scope: &str,
    session_id: &str,
)
    ensures
        scope@.len() == 0 ==> *final(fleet) == *old(fleet) && *final(sweeper) == *old(sweeper),
        scope@.len() > 0 ==> tasks_bound(
            old(fleet)@,
            *old(sweeper),
            final(fleet)@,
            *final(sweeper),
            scope@,
            session_id@,
        ),
{
    if scope.is_empty() {
        return;
    }
    let ghost was = fleet@;
    let n: usize = fleet.len();
    let mut i: usize = 0;
    assert(was.take(0) =~= Seq::empty());
    assert(fleet@.take(0) =~= Seq::empty());
    while i < n
        invariant
            i <= n == was.len() == fleet@.len(),
            fleet@.skip(i as int) == was.skip(i as int),
            tasks_bound(
                was.take(i as int),
                *old(sweeper),
                fleet@.take(i as int),
                *sweeper,
                scope@,
                session_id@,
            ),
        decreases n - i,
    {
        let ghost done = fleet@.take(i as int);
        let ghost mid = *sweeper;
        assert(fleet@.skip(i as int)[0] == was.skip(i as int)[0]);
        let mine = match fleet[i].slug() {
            Some(s) => text::same(s, scope),
            None => false,
        };
        if mine {
            fleet[i].bind_session(session_id);
            if let Some(sw) = sweeper {
                sw.track_task_full(
                    fleet[i].task_id(),
                    fleet[i].failure_limit(),
                    fleet[i].max_runtime_secs(),
                );
            }
        }
        proof {
            assert(was.take(i + 1).drop_last() =~= was.take(i as int));
            assert(fleet@.take(i + 1).drop_last() =~= done);
            assert(was.take(i + 1).last() == was[i as int]);
            assert(fleet@.take(i + 1).last() == fleet@[i as int]);
            assert(task_bound(
                was[i as int],
                mid,
                fleet@[i as int],
                *sweeper,
                scope@,
                session_id@,
            ));
            assert forall|k: int| i + 1 <= k < n implies fleet@[k] == was[k] by {
                assert(was.skip(i as int)[k - i] == was[k]);
            }
            assert(fleet@.skip(i + 1) =~= was.skip(i + 1));
        }
        i += 1;
    }
    assert(was.take(n as int) =~= was);
    assert(fleet@.take(n as int) =~= fleet@);
}

/// A sweeper, if there is one, forgets a task.
pub open spec fn unfollowed<S: TaskSweeper>(was: Option<S>, now: Option<S>, task: TaskId) -> bool {
    match (was, now) {
        (Some(a), Some(b)) => S::forgets(a, b, task),
        (None, None) => true,
        _ => false,
    }
}

/// What the end of one session means: every task forgets the session, and the
/// sweeper forgets the session's task.
pub open spec fn session_released<T: SupervisedTask, S: TaskSweeper>(
    was: (Seq<T>, Option<S>),
    now: (Seq<T>, Option<S>),
    store: Store,
    sid: Seq<char>,
) -> bool {
    &&& now.0.len() == was.0.len()
    &&& forall|i: int| 0 <= i < was.0.len() ==> T::unbound(was.0[i], #[trigger] now.0[i], sid)
    &&& if store.session_task@.dom().contains(sid) {
        unfollowed(was.1, now.1, store.session_task@[sid])
    } else {
        now.1 == was.1
    }
}

/// What the end of some sessions means, one after the other.
pub open spec fn sessions_released<T: SupervisedTask, S: TaskSweeper>(
    was: (Seq<T>, Option<S>),
    now: (Seq<T>, Option<S>),
    store: Store,
    sids: Seq<Seq<char>>,
) -> bool
    decreases sids.len(),
{
    if sids.len() == 0 {
        now == was
    } else {
        exists|mid: (Seq<T>, Option<S>)|
            sessions_released(was, mid, store, sids.drop_last()) && #[trigger] session_released(
                mid,
                now,
                store,
                sids.last(),
            )
    }
}

fn release_one<T: SupervisedTask, S: TaskSweeper>(
    fleet: &mut Vec<T>,
    sweeper: &mut Option<S>,
    store: &Store,
    sid: &str,
)
    ensures
        session_released(
            (old(fleet)@, *old(sweeper)),
            (final(fleet)@, *final(sweeper)),
            *store,
            sid@,
        ),
{
    let ghost was = fleet@;
    let n: usize = fleet.len();
    let mut i: usize = 0;
    while i < n
        invariant
            i <= n == was.len() == fleet@.len(),
            forall|k: int| i <= k < n ==> #[trigger] fleet@[k] == was[k],
            forall|k: int| 0 <= k < i ==> T::unbound(was[k], #[trigger] fleet@[k], sid@),
        decreases n - i,
    {
        assert(fleet@[i as int] == was[i as int]);
        fleet[i].unbind_session(sid);
        i += 1;
    }
    if let Some(task) = store.session_task.get(sid) {
        if let Some(sw) = sweeper {
            sw.untrack_task(task);
        }
    }
}

/// Ends some sessions: every task forgets each session, and the sweeper
/// forgets the sessions' tasks.
pub fn release_sessions<T: SupervisedTask, S: TaskSweeper>(
    fleet: &mut Vec<T>,
    sweeper: &mut Option<S>,
    store: &Store,
    sids: &[String],
)
    ensures
        sessions_released(
            (old(fleet)@, *old(sweeper)),
            (final(fleet)@, *final(sweeper)),
            *store,
            text::texts(sids@),
        ),
{
    let ghost start = (fleet@, *sweeper);
    let ghost all = text::texts(sids@);
    let mut i: usize = 0;
    assert(all.take(0) =~= Seq::empty());
    while i < sids.len()
        invariant
            i <= sids@.len(),
            all == text::texts(sids@),
            sessions_released(start, (fleet@, *sweeper), *store, all.take(i as int)),
        decreases sids@.len() - i,
    {
        let ghost mid = (fleet@, *sweeper);
        assert(all.take(i + 1).drop_last() =~= all.take(i as int));
        assert(all.take(i + 1).last() == sids@[i as int]@);
        release_one(fleet, sweeper, store, sids[i].as_str());
        assert(session_released(mid, (fleet@, *sweeper), *store, sids@[i as int]@));
        i += 1;
    }
    assert(all.take(all.len() as int) =~= all);
}

/// What all tasks have used, one after the other.
pub open spec fn all_used<T: SupervisedTask>(tasks: Seq<T>) -> Seq<SampleModel>
    decreases tasks.len(),
{
    if tasks.len() == 0 {
        Seq::empty()
    } else {
        all_used(tasks.drop_last()) + tasks.last().used()
    }
}

/// What a manual retry of the task at `i` does: it is reset, and watched
/// afresh.
pub open spec fn task_retried<T: SupervisedTask, S: TaskSweeper>(
    was: (Seq<T>, Option<S>),
    now: (Seq<T>, Option<S>),
    i: int,
) -> bool {
    &&& now.0.len() == was.0.len()
    &&& forall|k: int| 0 <= k < was.0.len() && k != i ==> #[trigger] now.0[k] == was.0[k]
    &&& T::reset(was.0[i], now.0[i])
    &&& exists|mid: Option<S>|
        unfollowed(was.1, mid, now.0[i].id()) && #[trigger] followed(mid, now.1, now.0[i])
}

impl<T: SupervisedTask, S: TaskSweeper> FleetInbox<T, S> {
    /// An inbox without tasks and without a sweeper.
    pub fn new() -> (f: Self)
        ensures
            f.tasks@ == Seq::<T>::empty(),
            f.sweeper is None,
    {
        FleetInbox { tasks: Vec::new(), sweeper: None }
    }

    /// Takes in a task, unless there is one for its worktree.
    pub fn register_task(&mut self, task: T) -> (r: bool)
        ensures
            final(self).sweeper == old(self).sweeper,
            r == !(task.worktree() matches Some(s) && owned(old(self).tasks@, s)),
            final(self).tasks@ == (if r {
                old(self).tasks@.push(task)
            } else {
                old(self).tasks@
            }),
    {
        let taken = match task.slug() {
            Some(s) => self.has_slug(s),
            None => false,
        };
        if taken {
            return false;
        }
        self.tasks.push(task);
        true
    }

    fn find(&self, slug: &str) -> (r: Option<usize>)
        ensures
            match r {
                Some(i) => owns_first(self.tasks@, slug@, i as int),
                None => !owned(self.tasks@, slug@),
            },
    {
        let mut i: usize = 0;
        while i < self.tasks.len()
            invariant
                i <= self.tasks@.len(),
                forall|j: int|
                    0 <= j < i ==> (#[trigger] self.tasks@[j]).worktree() != Some(slug@),
            decreases self.tasks@.len() - i,
        {
            let mine = match self.tasks[i].slug() {
                Some(s) => text::same(s, slug),
                None => false,
            };
            if mine {
                return Some(i);
            }
            i += 1;
        }
        None
    }

    /// Whether there is a task for a worktree.
    pub fn has_slug(&self, slug: &str) -> (r: bool)
        ensures
            r == owned(self.tasks@, slug@),
    {
        self.find(slug).is_some()
    }

    /// Takes in a sweeper, in place of the one before.
    pub fn register_sweeper(&mut self, sweeper: S)
        ensures
            final(self).tasks == old(self).tasks,
            final(self).sweeper == Some(sweeper),
    {
        self.sweeper = Some(sweeper);
    }

    /// Whether there is a sweeper.
    pub fn has_sweeper(&self) -> (r: bool)
        ensures
            r == self.sweeper is Some,
    {
        self.sweeper.is_some()
    }

    /// The number of tasks.
    pub fn task_count(&self) -> (n: usize)
        ensures
            n == self.tasks@.len(),
    {
        self.tasks.len()
    }

    /// One round: the tasks take in what happened, their errors and then
    /// their successes go to the sweeper, and every thirtieth round a sweep
    /// follows.
    pub fn poll_fleet(&mut self, store: &mut Store, tick: u64)
        ensures
            exists|steps: PollSteps<T, S>| #[trigger]
                fleet_polled(
                    (old(self).tasks@, old(self).sweeper, *old(store)),
                    (final(self).tasks@, final(self).sweeper, *final(store)),
                    tick,
                    steps,
                ),
    {
        let ghost start = (self.tasks@, self.sweeper, *store);
        drain_fleet(&mut self.tasks, store);
        let ghost ticked = self.tasks@;
        let ghost mid = *store;
        let errors = drain_all_errors(&mut self.tasks);
        let ghost drained = self.tasks@;
        let successes = drain_all_successes(&mut self.tasks);
        let mut sweeper: Option<S> = None;
        std::mem::swap(&mut sweeper, &mut self.sweeper);
        match sweeper {
            Some(mut sw) => {
                let ghost first = sw;
                note_errors(&mut sw, &errors);
                let ghost warned = sw;
                note_successes(&mut sw, &successes);
                let ghost told = sw;
                if runtime::sweep_due(tick) {
                    sweep_fleet(&self.tasks, &mut sw, store);
                    let ghost actions = choose|actions: Seq<SweepAction>| #[trigger]
                        swept(self.tasks@, told, mid, sw, *store, actions);
                    self.sweeper = Some(sw);
                    assert(fleet_polled(
                        start,
                        (self.tasks@, self.sweeper, *store),
                        tick,
                        PollSteps {
                            ticked,
                            store: mid,
                            drained,
                            errors: errors@,
                            successes: successes@,
                            warned,
                            told,
                            actions,
                        },
                    ));
                } else {
                    self.sweeper = Some(sw);
                    assert(fleet_polled(
                        start,
                        (self.tasks@, self.sweeper, *store),
                        tick,
                        PollSteps {
                            ticked,
                            store: mid,
                            drained,
                            errors: errors@,
                            successes: successes@,
                            warned,
                            told,
                            actions: Seq::empty(),
                        },
                    ));
                }
            },
            None => {
                assert(fleet_polled(
                    start,
                    (self.tasks@, self.sweeper, *store),
                    tick,
                    PollSteps {
                        ticked,
                        store: mid,
                        drained,
                        errors: errors@,
                        successes: successes@,
                        warned: arbitrary(),
                        told: arbitrary(),
                        actions: Seq::empty(),
                    },
                ));
            },
        }
    }

    /// Binds a new session to the tasks of its worktree, and has them
    /// watched. A session of the repository itself belongs to no task.
    pub fn bind_new(&mut self, scope: &str, session_id: &str)
        ensures
            scope@.len() == 0 ==> *final(self) == *old(self),
            scope@.len() > 0 ==> tasks_bound(
                old(self).tasks@,
                old(self).sweeper,
                final(self).tasks@,
                final(self).sweeper,
                scope@,
                session_id@,
            ),
    {
        bind_new_session(&mut self.tasks, &mut self.sweeper, scope, session_id);
    }

    /// Ends some sessions.
    pub fn release(&mut self, store: &Store, sids: &[String])
        ensures
            sessions_released(
                (old(self).tasks@, old(self).sweeper),
                (final(self).tasks@, final(self).sweeper),
                *store,
                text::texts(sids@),
            ),
    {
        release_sessions(&mut self.tasks, &mut self.sweeper, store, sids);
    }

    /// Manual retry of the task of a worktree: its budget is full again and
    /// it is watched afresh. False where there is no such task.
    pub fn retry_task(&mut self, slug: &str) -> (r: bool)
        ensures
            r == owned(old(self).tasks@, slug@),
            !r ==> *final(self) == *old(self),
            r ==> exists|i: int|
                owns_first(old(self).tasks@, slug@, i) && #[trigger] task_retried(
                    (old(self).tasks@, old(self).sweeper),
                    (final(self).tasks@, final(self).sweeper),
                    i,
                ),
    {
        let i: usize = match self.find(slug) {
            Some(i) => i,
            None => {
                return false;
            },
        };
        assert(self.tasks@[i as int].worktree() == Some(slug@));
        let ghost was = (self.tasks@, self.sweeper);
        self.tasks[i].retry_reset();
        let id = self.tasks[i].task_id();
        if let Some(sw) = &mut self.sweeper {
            sw.untrack_task(&id);
        }
        let ghost mid = self.sweeper;
        if let Some(sw) = &mut self.sweeper {
            sw.track_task_full(
                id,
                self.tasks[i].failure_limit(),
                self.tasks[i].max_runtime_secs(),
            );
        }
        proof {
            let now = (self.tasks@, self.sweeper);
            assert(unfollowed(was.1, mid, now.0[i as int].id()));
            assert(followed(mid, now.1, now.0[i as int]));
            assert(task_retried(was, now, i as int));
        }
        true
    }

    /// What all tasks have used.
    pub fn collect_usage(&self) -> (v: Vec<UsageSample>)
        ensures
            agent::samples(v@) == all_used(self.tasks@),
    {
        let ghost all = self.tasks@;
        let mut v: Vec<UsageSample> = Vec::new();
        let mut i: usize = 0;
        assert(all.take(0) =~= Seq::empty());
        assert(agent::samples(v@) =~= Seq::empty());
        while i < self.tasks.len()
            invariant
                i <= self.tasks@.len(),
                all == self.tasks@,
                agent::samples(v@) == all_used(all.take(i as int)),
            decreases self.tasks@.len() - i,
        {
            assert(all.take(i + 1).drop_last() =~= all.take(i as int));
            let mut more = self.tasks[i].usage_samples();
            let ghost was = v@;
            let ghost mine = more@;
            v.append(&mut more);
            assert(agent::samples(v@) =~= agent::samples(was) + agent::samples(mine));
            i += 1;
        }
        assert(all.take(all.len() as int) =~= all);
        v
    }

    /// What the task of a worktree hands to the one that continues it.
    pub fn handoff_of(&self, slug: &str) -> (h: Option<TaskHandoff>)
        ensures
            owned(self.tasks@, slug@) ==> exists|i: int| #[trigger]
                owns_first(self.tasks@, slug@, i) && opt_handoff(h) == self.tasks@[i].handed_on(),
            !owned(self.tasks@, slug@) ==> h is None,
    {
        match self.find(slug) {
            Some(i) => self.tasks[i].handoff(),
            None => None,
        }
    }
}

fn note_errors<S: TaskSweeper>(sweeper: &mut S, hits: &Vec<TaskId>)
    ensures
        errors_taken(*old(sweeper), *final(sweeper), hits@),
{
    let mut i: usize = 0;
    assert(hits@.take(0) =~= Seq::empty());
    while i < hits.len()
        invariant
            i <= hits@.len(),
            errors_taken(*old(sweeper), *sweeper, hits@.take(i as int)),
        decreases hits@.len() - i,
    {
        let ghost mid = *sweeper;
        assert(hits@.take(i + 1).drop_last() =~= hits@.take(i as int));
        sweeper.note_task_error(&hits[i]);
        assert(S::takes_error(mid, *sweeper, hits@.take(i + 1).last()));
        i += 1;
    }
    assert(hits@.take(hits@.len() as int) =~= hits@);
}

fn note_successes<S: TaskSweeper>(sweeper: &mut S, hits: &Vec<TaskId>)
    ensures
        successes_taken(*old(sweeper), *final(sweeper), hits@),
{
    let mut i: usize = 0;
    assert(hits@.take(0) =~= Seq::empty());
    while i < hits.len()
        invariant
            i <= hits@.len(),
            successes_taken(*old(sweeper), *sweeper, hits@.take(i as int)),
        decreases hits@.len() - i,
    {
        let ghost mid = *sweeper;
        assert(hits@.take(i + 1).drop_last() =~= hits@.take(i as int));
        sweeper.note_task_success(&hits[i]);
        assert(S::takes_success(mid, *sweeper, hits@.take(i + 1).last()));
        i += 1;
    }
    assert(hits@.take(hits@.len() as int) =~= hits@);
}

/// A round ticks every task once, in order, each on the store that the one
/// before it left.
pub proof fn round_ticks_every_task<T: SupervisedTask>(
    was: Seq<T>,
    store_was: Store,
    now: Seq<T>,
    store_now: Store,
) -> (stores: Seq<Store>)
    requires
        all_ticked(was, store_was, now, store_now),
    ensures
        now.len() == was.len(),
        stores.len() == was.len() + 1,
        stores[0] == store_was,
        stores.last() == store_now,
        forall|i: int|
            #![trigger stores[i]]
            0 <= i < was.len() ==> T::ticked(was[i], stores[i], now[i], stores[i + 1]),
    decreases was.len(),
{
    if was.len() == 0 {
        seq![store_was]
    } else {
        let mid = choose|mid: Store|
            all_ticked(was.drop_last(), store_was, now.drop_last(), mid) && #[trigger] T::ticked(
                was.last(),
                mid,
                now.last(),
                store_now,
            );
        let before = round_ticks_every_task(was.drop_last(), store_was, now.drop_last(), mid);
        let stores = before.push(store_now);
        assert forall|i: int|
            #![trigger stores[i]]
            0 <= i < was.len() implies T::ticked(was[i], stores[i], now[i], stores[i + 1]) by {
            if i < was.len() - 1 {
                assert(stores[i] == before[i]);
                assert(was.drop_last()[i] == was[i]);
                assert(now.drop_last()[i] == now[i]);
                assert(stores[i + 1] == before[i + 1]);
            }
        }
        stores
    }
}

/// The errors of a round are those of every task, one task after the other.
pub proof fn round_gathers_every_error<T: SupervisedTask>(
    was: Seq<T>,
    now: Seq<T>,
    hits: Seq<TaskId>,
) -> (parts: Seq<Seq<TaskId>>)
    requires
        all_errors_drained(was, now, hits),
    ensures
        now.len() == was.len(),
        parts.len() == was.len(),
        hits == parts.flatten(),
        forall|i: int|
            #![trigger parts[i]]
            0 <= i < was.len() ==> T::errors_drained(was[i], now[i], parts[i]),
    decreases was.len(),
{
    if was.len() == 0 {
        let parts = Seq::<Seq<TaskId>>::empty();
        assert(hits =~= parts.flatten());
        parts
    } else {
        let (before, last) = choose|before: Seq<TaskId>, last: Seq<TaskId>|
            hits == before + last && all_errors_drained(was.drop_last(), now.drop_last(), before)
                && #[trigger] errors_behind(was.last(), now.last(), before, last);
        let first = round_gathers_every_error(was.drop_last(), now.drop_last(), before);
        let parts = first.push(last);
        first.lemma_flatten_and_flatten_alt_are_equivalent();
        parts.lemma_flatten_and_flatten_alt_are_equivalent();
        assert(parts.drop_last() =~= first);
        assert forall|i: int|
            #![trigger parts[i]]
            0 <= i < was.len() implies T::errors_drained(was[i], now[i], parts[i]) by {
            if i < was.len() - 1 {
                assert(parts[i] == first[i]);
                assert(was.drop_last()[i] == was[i]);
                assert(now.drop_last()[i] == now[i]);
            }
        }
        parts
    }
}

/// The successes of a round are those of every task, one task after the other.
pub proof fn round_gathers_every_success<T: SupervisedTask>(
    was: Seq<T>,
    now: Seq<T>,
    hits: Seq<TaskId>,
) -> (parts: Seq<Seq<TaskId>>)
    requires
        all_successes_drained(was, now, hits),
    ensures
        now.len() == was.len(),
        parts.len() == was.len(),
        hits == parts.flatten(),
        forall|i: int|
            #![trigger parts[i]]
            0 <= i < was.len() ==> T::successes_drained(was[i], now[i], parts[i]),
    decreases was.len(),
{
    if was.len() == 0 {
        let parts = Seq::<Seq<TaskId>>::empty();
        assert(hits =~= parts.flatten());
        parts
    } else {
        let (before, last) = choose|before: Seq<TaskId>, last: Seq<TaskId>|
            hits == before + last && all_successes_drained(
                was.drop_last(),
                now.drop_last(),
                before,
            ) && #[trigger] successes_behind(was.last(), now.last(), before, last);
        let first = round_gathers_every_success(was.drop_last(), now.drop_last(), before);
        let parts = first.push(last);
        first.lemma_flatten_and_flatten_alt_are_equivalent();
        parts.lemma_flatten_and_flatten_alt_are_equivalent();
        assert(parts.drop_last() =~= first);
        assert forall|i: int|
            #![trigger parts[i]]
            0 <= i < was.len() implies T::successes_drained(was[i], now[i], parts[i]) by {
            if i < was.len() - 1 {
                assert(parts[i] == first[i]);
                assert(was.drop_last()[i] == was[i]);
                assert(now.drop_last()[i] == now[i]);
            }
        }
        parts
    }
}

/// Every error is told to the sweeper, by one call each, in order.
pub proof fn sweeper_hears_every_error<S: TaskSweeper>(
    was: S,
    now: S,
    hits: Seq<TaskId>,
) -> (states: Seq<S>)
    requires
        errors_taken(was, now, hits),
    ensures
        states.len() == hits.len() + 1,
        states[0] == was,
        states.last() == now,
        forall|i: int|
            #![trigger states[i]]
            0 <= i < hits.len() ==> S::takes_error(states[i], states[i + 1], hits[i]),
    decreases hits.len(),
{
    if hits.len() == 0 {
        seq![was]
    } else {
        let mid = choose|mid: S|
            errors_taken(was, mid, hits.drop_last()) && #[trigger] S::takes_error(
                mid,
                now,
                hits.last(),
            );
        let before = sweeper_hears_every_error(was, mid, hits.drop_last());
        let states = before.push(now);
        assert forall|i: int|
            #![trigger states[i]]
            0 <= i < hits.len() implies S::takes_error(states[i], states[i + 1], hits[i]) by {
            if i < hits.len() - 1 {
                assert(states[i] == before[i]);
                assert(states[i + 1] == before[i + 1]);
                assert(hits.drop_last()[i] == hits[i]);
            }
        }
        states
    }
}

/// Every success is told to the sweeper, by one call each, in order.
pub proof fn sweeper_hears_every_success<S: TaskSweeper>(
    was: S,
    now: S,
    hits: Seq<TaskId>,
) -> (states: Seq<S>)
    requires
        successes_taken(was, now, hits),
    ensures
        states.len() == hits.len() + 1,
        states[0] == was,
        states.last() == now,
        forall|i: int|
            #![trigger states[i]]
            0 <= i < hits.len() ==> S::takes_success(states[i], states[i + 1], hits[i]),
    decreases hits.len(),
{
    if hits.len() == 0 {
        seq![was]
    } else {
        let mid = choose|mid: S|
            successes_taken(was, mid, hits.drop_last()) && #[trigger] S::takes_success(
                mid,
                now,
                hits.last(),
            );
        let before = sweeper_hears_every_success(was, mid, hits.drop_last());
        let states = before.push(now);
        assert forall|i: int|
            #![trigger states[i]]
            0 <= i < hits.len() implies S::takes_success(states[i], states[i + 1], hits[i]) by {
            if i < hits.len() - 1 {
                assert(states[i] == before[i]);
                assert(states[i + 1] == before[i + 1]);
                assert(hits.drop_last()[i] == hits[i]);
            }
        }
        states
    }
}

/// A sweep shows every action, in order, behind what was shown, and of all
/// that the last twenty stay.
pub proof fn sweep_shows_every_action(errors: Seq<Seq<char>>, actions: Seq<SweepAction>)
    requires
        errors.len() <= 20,
    ensures
        ({
            let all = errors + actions.map_values(|a: SweepAction| shown(a));
            let now = errors_after(errors, actions);
            &&& now.len() == if all.len() <= 20 {
                all.len() as int
            } else {
                20
            }
            &&& forall|i: int|
                0 <= i < now.len() ==> #[trigger] now[i] == all[all.len() - now.len() + i]
        }),
    decreases actions.len(),
{
    let f = |a: SweepAction| shown(a);
    let all = errors + actions.map_values(f);
    let now = errors_after(errors, actions);
    if actions.len() == 0 {
        assert(all =~= errors);
    } else {
        let rest = actions.drop_last();
        sweep_shows_every_action(errors, rest);
        let mid = errors_after(errors, rest);
        let part = errors + rest.map_values(f);
        assert(all =~= part.push(shown(actions.last())));
        let long = mid.push(shown(actions.last()));
        assert forall|i: int| 0 <= i < now.len() implies #[trigger] now[i] == all[all.len()
            - now.len() + i] by {
            let k = long.len() - now.len() + i;
            assert(now[i] == long[k]);
            if k < mid.len() {
                assert(mid[k] == part[part.len() - mid.len() + k]);
            }
        }
    }
}

/// What is shown of an action names its task, and tells a task that is called
/// off from one that is tried again.
pub proof fn shown_actions_name_the_task(id: TaskId)
    ensures
        shown(SweepAction::Reclaim(id)) == "fleet: reclaim "@ + text::dec(id.0 as nat)
            + " (overdue/stale, will retry)"@,
        shown(SweepAction::Blocked(id)) == "fleet: blocked "@ + text::dec(id.0 as nat)
            + " (2 errors, needs a human look)"@,
{
}

/// After a sweep exactly those tasks are marked that were before or were
/// called off now; a task called off is marked with the worktree of the first
/// task of that identity, and a task that is tried again is not marked by it.
pub proof fn sweep_marks_what_it_calls_off<T: SupervisedTask>(
    blocked: Map<TaskId, Seq<char>>,
    tasks: Seq<T>,
    actions: Seq<SweepAction>,
    id: TaskId,
)
    ensures
        blocked_after(blocked, tasks, actions).dom().contains(id) <==> blocked.dom().contains(id)
            || actions.contains(SweepAction::Blocked(id)),
        actions.contains(SweepAction::Blocked(id)) ==> blocked_after(
            blocked,
            tasks,
            actions,
        )[id] == worktree_from(tasks, 0, id),
        blocked.dom().contains(id) && !actions.contains(SweepAction::Blocked(id))
            ==> blocked_after(blocked, tasks, actions)[id] == blocked[id],
    decreases actions.len(),
{
    if actions.len() > 0 {
        let rest = actions.drop_last();
        sweep_marks_what_it_calls_off(blocked, tasks, rest, id);
        let b = SweepAction::Blocked(id);
        if rest.contains(b) {
            let i = choose|i: int| 0 <= i < rest.len() && rest[i] == b;
            assert(actions[i] == b);
        }
        if actions.contains(b) {
            let i = choose|i: int| 0 <= i < actions.len() && actions[i] == b;
            if i < rest.len() {
                assert(rest[i] == b);
            }
        }
        assert(actions[actions.len() - 1] == actions.last());
    }
}

/// The worktree of an identity is that of the first task which has it, and
/// there is none where no task has it.
pub proof fn worktree_is_the_first_tasks<T: SupervisedTask>(tasks: Seq<T>, at: int, id: TaskId)
    ensures
        0 <= at < tasks.len() && tasks[at].id() == id && (forall|j: int|
            0 <= j < at ==> (#[trigger] tasks[j]).id() != id) ==> worktree_from(tasks, 0, id) == (
        match tasks[at].worktree() {
            Some(s) => s,
            None => Seq::empty(),
        }),
        (forall|j: int| 0 <= j < tasks.len() ==> (#[trigger] tasks[j]).id() != id)
            ==> worktree_from(tasks, 0, id).len() == 0,
{
    if forall|j: int| 0 <= j < tasks.len() ==> (#[trigger] tasks[j]).id() != id {
        no_worktree_from(tasks, 0, id);
    }
    if 0 <= at < tasks.len() && tasks[at].id() == id && (forall|j: int|
        0 <= j < at ==> (#[trigger] tasks[j]).id() != id) {
        first_worktree_from(tasks, 0, at, id);
    }
}

proof fn no_worktree_from<T: SupervisedTask>(tasks: Seq<T>, i: int, id: TaskId)
    requires
        0 <= i,
        forall|j: int| 0 <= j < tasks.len() ==> (#[trigger] tasks[j]).id() != id,
    ensures
        worktree_from(tasks, i, id).len() == 0,
    decreases tasks.len() - i,
{
    if i < tasks.len() {
        no_worktree_from(tasks, i + 1, id);
    }
}

proof fn first_worktree_from<T: SupervisedTask>(tasks: Seq<T>, i: int, at: int, id: TaskId)
    requires
        0 <= i <= at < tasks.len(),
        tasks[at].id() == id,
        forall|j: int| 0 <= j < at ==> (#[trigger] tasks[j]).id() != id,
    ensures
        worktree_from(tasks, i, id) == (match tasks[at].worktree() {
            Some(s) => s,
            None => Seq::empty(),
        }),
    decreases at - i,
{
    if i < at {
        assert(tasks[i].id() != id);
        first_worktree_from(tasks, i + 1, at, id);
    }
}

/// A session that was opened in a scope is bound to every task whose worktree
/// is that scope, and to no other.
pub proof fn binding_reaches_the_scope<T: SupervisedTask, S: TaskSweeper>(
    was: Seq<T>,
    sweeper_was: Option<S>,
    now: Seq<T>,
    sweeper_now: Option<S>,
    scope: Seq<char>,
    sid: Seq<char>,
)
    requires
        tasks_bound(was, sweeper_was, now, sweeper_now, scope, sid),
    ensures
        now.len() == was.len(),
        forall|i: int|
            #![trigger now[i]]
            0 <= i < was.len() && was[i].worktree() == Some(scope) ==> T::bound(
                was[i],
                now[i],
                sid,
            ),
        forall|i: int|
            #![trigger now[i]]
            0 <= i < was.len() && was[i].worktree() != Some(scope) ==> now[i] == was[i],
        (forall|i: int| 0 <= i < was.len() ==> (#[trigger] was[i]).worktree() != Some(scope))
            ==> sweeper_now == sweeper_was,
    decreases was.len(),
{
    if was.len() > 0 {
        let mid = choose|mid: Option<S>|
            tasks_bound(was.drop_last(), sweeper_was, now.drop_last(), mid, scope, sid)
                && #[trigger] task_bound(was.last(), mid, now.last(), sweeper_now, scope, sid);
        binding_reaches_the_scope(was.drop_last(), sweeper_was, now.drop_last(), mid, scope, sid);
        let n = was.len() - 1;
        assert(was[n] == was.last() && now[n] == now.last());
        assert forall|i: int| 0 <= i < n implies was.drop_last()[i] == #[trigger] was[i] by {}
        assert forall|i: int| 0 <= i < n implies now.drop_last()[i] == #[trigger] now[i] by {}
        assert forall|i: int|
            #![trigger now[i]]
            0 <= i < was.len() && was[i].worktree() == Some(scope) implies T::bound(
            was[i],
            now[i],
            sid,
        ) by {
            if i < n {
                assert(was.drop_last()[i] == was[i]);
                assert(now.drop_last()[i] == now[i]);
            }
        }
        assert forall|i: int|
            #![trigger now[i]]
            0 <= i < was.len() && was[i].worktree() != Some(scope) implies now[i] == was[i] by {
            if i < n {
                assert(was.drop_last()[i] == was[i]);
                assert(now.drop_last()[i] == now[i]);
            }
        }
        if forall|i: int| 0 <= i < was.len() ==> (#[trigger] was[i]).worktree() != Some(scope) {
            assert forall|i: int| 0 <= i < was.drop_last().len() implies (
            #[trigger] was.drop_last()[i]).worktree() != Some(scope) by {
                assert(was.drop_last()[i] == was[i]);
            }
            assert(was[n].worktree() != Some(scope));
        }
    }
}

/// A released session is taken from every task; the sweeper forgets the
/// session's task, where it has one, and nothing else.
pub proof fn release_reaches_every_task<T: SupervisedTask, S: TaskSweeper>(
    was: (Seq<T>, Option<S>),
    now: (Seq<T>, Option<S>),
    store: Store,
    sid: Seq<char>,
)
    requires
        sessions_released(was, now, store, seq![sid]),
    ensures
        now.0.len() == was.0.len(),
        forall|i: int|
            0 <= i < was.0.len() ==> T::unbound(was.0[i], #[trigger] now.0[i], sid),
        !store.session_task@.dom().contains(sid) ==> now.1 == was.1,
        store.session_task@.dom().contains(sid) ==> match (was.1, now.1) {
            (Some(a), Some(b)) => S::forgets(a, b, store.session_task@[sid]),
            (None, None) => true,
            _ => false,
        },
{
    reveal_with_fuel(sessions_released, 2);
    assert(seq![sid].drop_last() =~= Seq::empty());
    assert(seq![sid].last() == sid);
    let mid = choose|mid: (Seq<T>, Option<S>)|
        sessions_released(was, mid, store, seq![sid].drop_last()) && #[trigger] session_released(
            mid,
            now,
            store,
            seq![sid].last(),
        );
    assert(mid == was);
}

/// Releasing some sessions and then some more is releasing all of them.
pub proof fn releases_add_up<T: SupervisedTask, S: TaskSweeper>(
    was: (Seq<T>, Option<S>),
    now: (Seq<T>, Option<S>),
    store: Store,
    a: Seq<Seq<char>>,
    b: Seq<Seq<char>>,
)
    ensures
        sessions_released(was, now, store, a + b) <==> exists|mid: (Seq<T>, Option<S>)|
            #[trigger] sessions_released(was, mid, store, a) && sessions_released(
                mid,
                now,
                store,
                b,
            ),
    decreases b.len(),
{
    if b.len() == 0 {
        assert(a + b =~= a);
        if sessions_released(was, now, store, a) {
            assert(sessions_released(now, now, store, b));
        }
    } else {
        let rest = b.drop_last();
        let all = a + b;
        assert(all.drop_last() =~= a + rest);
        assert(all.last() == b.last());
        if sessions_released(was, now, store, all) {
            let y = choose|y: (Seq<T>, Option<S>)|
                sessions_released(was, y, store, all.drop_last()) && #[trigger] session_released(
                    y,
                    now,
                    store,
                    all.last(),
                );
            releases_add_up(was, y, store, a, rest);
            let mid = choose|mid: (Seq<T>, Option<S>)| #[trigger]
                sessions_released(was, mid, store, a) && sessions_released(mid, y, store, rest);
            assert(session_released(y, now, store, b.last()));
            assert(sessions_released(mid, now, store, b));
        }
        if exists|mid: (Seq<T>, Option<S>)| #[trigger]
            sessions_released(was, mid, store, a) && sessions_released(mid, now, store, b) {
            let mid = choose|mid: (Seq<T>, Option<S>)| #[trigger]
                sessions_released(was, mid, store, a) && sessions_released(mid, now, store, b);
            let y = choose|y: (Seq<T>, Option<S>)|
                sessions_released(mid, y, store, rest) && #[trigger] session_released(
                    y,
                    now,
                    store,
                    b.last(),
                );
            releases_add_up(was, y, store, a, rest);
            assert(session_released(y, now, store, all.last()));
        }
    }
}

/// The measurements of a fleet are those of every task, one task after the
/// other.
pub proof fn fleet_uses_what_its_tasks_use<T: SupervisedTask>(tasks: Seq<T>)
    ensures
        all_used(tasks) == tasks.map_values(|t: T| t.used()).flatten(),
    decreases tasks.len(),
{
    let f = |t: T| t.used();
    let all = tasks.map_values(f);
    all.lemma_flatten_and_flatten_alt_are_equivalent();
    if tasks.len() == 0 {
        assert(all.flatten_alt() =~= Seq::empty());
    } else {
        let rest = tasks.drop_last();
        fleet_uses_what_its_tasks_use(rest);
        rest.map_values(f).lemma_flatten_and_flatten_alt_are_equivalent();
        assert(all.drop_last() =~= rest.map_values(f));
    }
}

/// A round sweeps only on every thirtieth tick and only with a sweeper; on any
/// other nothing is shown or marked beyond what the tasks themselves did.
pub proof fn rounds_sweep_every_thirtieth_tick<T: SupervisedTask, S: TaskSweeper>(
    was: (Seq<T>, Option<S>, Store),
    now: (Seq<T>, Option<S>, Store),
    tick: u64,
    steps: PollSteps<T, S>,
)
    requires
        fleet_polled(was, now, tick, steps),
    ensures
        now.0.len() == was.0.len(),
        was.1 is None || tick % 30 != 0 ==> now.2 == steps.store,
        was.1 is None <==> now.1 is None,
        was.1 is Some && tick % 30 == 0 ==> steps.told.reports(steps.actions) && (forall|id: TaskId|
            steps.actions.contains(SweepAction::Blocked(id))
                ==> #[trigger] now.2.blocked@.dom().contains(id)),
{
    let a = round_ticks_every_task(was.0, was.2, steps.ticked, steps.store);
    let b = round_gathers_every_error(steps.ticked, steps.drained, steps.errors);
    let c = round_gathers_every_success(steps.drained, now.0, steps.successes);
    if was.1 is Some && tick % 30 == 0 {
        assert forall|id: TaskId|
            steps.actions.contains(
                SweepAction::Blocked(id),
            ) implies #[trigger] now.2.blocked@.dom().contains(id) by {
            sweep_marks_what_it_calls_off(
                blocked_of(steps.store.blocked@),
                now.0,
                steps.actions,
                id,
            );
            assert(blocked_of(now.2.blocked@).dom().contains(id));
        }
    }
}

} // verus!
