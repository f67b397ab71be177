//! The dispatcher as the sweeper of a fleet.
use crate::clock::Moment;
use crate::dispatcher;
use crate::dispatcher::{Dispatcher, DispatcherAction, TaskMeta};
use crate::fleet;
use crate::fleet::{SweepAction, TaskSweeper};
use crate::task::DEFAULT_FAILURE_LIMIT;
use crate::transcript::TaskId;
use vstd::prelude::*;

verus! {

/// A dispatcher as the sweeper of a fleet.
#[derive(Debug)]
pub struct FleetSweeper {
    inner: Dispatcher,
}

impl View for FleetSweeper {
    type V = Map<TaskId, TaskMeta>;

    closed spec fn view(&self) -> Map<TaskId, TaskMeta> {
        self.inner@
    }
}

/// What an action of the dispatcher is to the fleet.
pub open spec fn as_sweep(a: DispatcherAction) -> SweepAction {
    match a {
        DispatcherAction::Reclaim(id) => SweepAction::Reclaim(id),
        DispatcherAction::Blocked(id) => SweepAction::Blocked(id),
    }
}

/// What actions of the dispatcher are to the fleet.
pub open spec fn as_sweeps(v: Seq<DispatcherAction>) -> Seq<SweepAction> {
    v.map_values(|a: DispatcherAction| as_sweep(a))
}

/// What a sweep at `now` over some tasks, each once and in the order of their
/// identities, may say.
pub open spec fn swept_at(
    tasks: Map<TaskId, TaskMeta>,
    entries: Seq<(TaskId, TaskMeta)>,
    now: Moment,
    actions: Seq<SweepAction>,
) -> bool {
    &&& now.in_range()
    &&& dispatcher::sweeps(tasks, entries)
    &&& actions == as_sweeps(dispatcher::actions(entries, now))
}

impl Default for FleetSweeper {
    fn default() -> (s: FleetSweeper)
        ensures
            s@ == Map::<TaskId, TaskMeta>::empty(),
    {
        FleetSweeper::new()
    }
}

impl FleetSweeper {
    /// A sweeper that watches nothing.
    pub fn new() -> (s: FleetSweeper)
        ensures
            s@ == Map::<TaskId, TaskMeta>::empty(),
    {
        FleetSweeper { inner: Dispatcher::new() }
    }
}

impl TaskSweeper for FleetSweeper {
    open spec fn watches(was: FleetSweeper, now: FleetSweeper, task: TaskId) -> bool {
        FleetSweeper::watches_full(was, now, task, DEFAULT_FAILURE_LIMIT, None)
    }

    open spec fn watches_with_limit(was: FleetSweeper, now: FleetSweeper, task: TaskId, limit: u8) -> bool {
        FleetSweeper::watches_full(was, now, task, limit, None)
    }

    open spec fn watches_full(
        was: FleetSweeper,
        now: FleetSweeper,
        task: TaskId,
        limit: u8,
        max_runtime_secs: Option<u64>,
    ) -> bool {
        exists|at: Moment|
            at.in_range() && now@ == #[trigger] dispatcher::enlisted(
                was@,
                at,
                task,
                limit,
                max_runtime_secs,
            )
    }

    open spec fn forgets(was: FleetSweeper, now: FleetSweeper, task: TaskId) -> bool {
        now@ == was@.remove(task)
    }

    open spec fn takes_error(was: FleetSweeper, now: FleetSweeper, task: TaskId) -> bool {
        now@ == dispatcher::erred(was@, task)
    }

    open spec fn takes_success(was: FleetSweeper, now: FleetSweeper, task: TaskId) -> bool {
        exists|at: Moment|
            at.in_range() && now@ == #[trigger] dispatcher::succeeded(was@, at, task)
    }

    open spec fn takes_beat(was: FleetSweeper, now: FleetSweeper, task: TaskId) -> bool {
        exists|at: Moment|
            at.in_range() && now@ == #[trigger] dispatcher::beaten(was@, at, task)
    }

    open spec fn reports(&self, actions: Seq<SweepAction>) -> bool {
        exists|entries: Seq<(TaskId, TaskMeta)>, now: Moment| #[trigger]
            swept_at(self@, entries, now, actions)
    }

    fn track_task(&mut self, task: TaskId) {
        let ghost was = self.inner@;
        self.inner.track_id(task);
        proof {
            let at = choose|at: Moment|
                at.in_range() && self.inner@ == #[trigger] dispatcher::enlisted(was, at, task, DEFAULT_FAILURE_LIMIT, None);
            assert(self@ == dispatcher::enlisted(old(self)@, at, task, DEFAULT_FAILURE_LIMIT, None));
        }
    }

    fn track_task_with_limit(&mut self, task: TaskId, limit: u8) {
        let ghost was = self.inner@;
        self.inner.track_id_with_limit(task, limit);
        proof {
            let at = choose|at: Moment|
                at.in_range() && self.inner@ == #[trigger] dispatcher::enlisted(was, at, task, limit, None);
            assert(self@ == dispatcher::enlisted(old(self)@, at, task, limit, None));
        }
    }

    fn track_task_full(&mut self, task: TaskId, limit: u8, max_runtime_secs: Option<u64>) {
        let ghost was = self.inner@;
        self.inner.track_full(task, limit, max_runtime_secs);
        proof {
            let at = choose|at: Moment|
                at.in_range() && self.inner@ == #[trigger] dispatcher::enlisted(was, at, task, limit, max_runtime_secs);
            assert(self@ == dispatcher::enlisted(old(self)@, at, task, limit, max_runtime_secs));
        }
    }

    fn untrack_task(&mut self, task: &TaskId) {
        self.inner.untrack(task);
    }

    fn note_task_error(&mut self, task: &TaskId) {
        self.inner.note_error(task);
    }

    fn note_task_success(&mut self, task: &TaskId) {
        let ghost was = self.inner@;
        self.inner.note_success(task);
        proof {
            let at = choose|at: Moment|
                at.in_range() && self.inner@ == #[trigger] dispatcher::succeeded(was, at, *task);
            assert(self@ == dispatcher::succeeded(old(self)@, at, *task));
        }
    }

    fn note_heartbeat(&mut self, task: &TaskId) {
        let ghost was = self.inner@;
        self.inner.note_heartbeat(task);
        proof {
            let at = choose|at: Moment|
                at.in_range() && self.inner@ == #[trigger] dispatcher::beaten(was, at, *task);
            assert(self@ == dispatcher::beaten(old(self)@, at, *task));
        }
    }

    fn sweep(&self) -> (actions: Vec<SweepAction>) {
        let found = self.inner.sweep();
        let ghost now = choose|now: Moment|
            now.in_range() && found@ == #[trigger] dispatcher::actions(self.inner.in_order(), now);
        let mut out: Vec<SweepAction> = Vec::new();
        let mut i: usize = 0;
        assert(out@ =~= as_sweeps(found@.take(0)));
        while i < found.len()
            invariant
                i <= found@.len(),
                out@ == as_sweeps(found@.take(i as int)),
            decreases found@.len() - i,
        {
            let a = match found[i] {
                DispatcherAction::Reclaim(id) => SweepAction::Reclaim(id),
                DispatcherAction::Blocked(id) => SweepAction::Blocked(id),
            };
            out.push(a);
            assert(out@ =~= as_sweeps(found@.take(i + 1)));
            i += 1;
        }
        assert(found@.take(found@.len() as int) =~= found@);
        assert(swept_at(self@, self.inner.in_order(), now, out@));
        out
    }
}

proof fn forgetting_keeps_absent(
    was: FleetSweeper,
    now: FleetSweeper,
    actions: Seq<SweepAction>,
    id: TaskId,
)
    requires
        fleet::blocked_forgotten(was, now, actions),
        !was@.dom().contains(id),
    ensures
        !now@.dom().contains(id),
    decreases actions.len(),
{
    if actions.len() > 0 {
        match actions.last() {
            SweepAction::Reclaim(_) => forgetting_keeps_absent(was, now, actions.drop_last(), id),
            SweepAction::Blocked(b) => {
                let mid = choose|mid: FleetSweeper|
                    fleet::blocked_forgotten(was, mid, actions.drop_last())
                        && #[trigger] FleetSweeper::forgets(mid, now, b);
                forgetting_keeps_absent(was, mid, actions.drop_last(), id);
            },
        }
    }
}

proof fn blocked_is_forgotten(
    was: FleetSweeper,
    now: FleetSweeper,
    actions: Seq<SweepAction>,
    id: TaskId,
)
    requires
        fleet::blocked_forgotten(was, now, actions),
        actions.contains(SweepAction::Blocked(id)),
    ensures
        !now@.dom().contains(id),
    decreases actions.len(),
{
    let rest = actions.drop_last();
    let k = choose|k: int| 0 <= k < actions.len() && actions[k] == SweepAction::Blocked(id);
    if k < rest.len() {
        assert(rest[k] == SweepAction::Blocked(id));
    }
    match actions.last() {
        SweepAction::Reclaim(_) => blocked_is_forgotten(was, now, rest, id),
        SweepAction::Blocked(b) => {
            let mid = choose|mid: FleetSweeper|
                fleet::blocked_forgotten(was, mid, rest) && #[trigger] FleetSweeper::forgets(
                    mid,
                    now,
                    b,
                );
            if b != id {
                blocked_is_forgotten(was, mid, rest, id);
            }
        },
    }
}

/// A task that is not watched is in no sweep.
pub proof fn unwatched_task_is_silent(s: FleetSweeper, actions: Seq<SweepAction>, id: TaskId)
    requires
        s.reports(actions),
        !s@.dom().contains(id),
    ensures
        !actions.contains(SweepAction::Blocked(id)),
        !actions.contains(SweepAction::Reclaim(id)),
{
    let (entries, now) = choose|entries: Seq<(TaskId, TaskMeta)>, now: Moment| #[trigger]
        swept_at(s@, entries, now, actions);
    let found = dispatcher::actions(entries, now);
    assert(s@.remove(id) =~= s@);
    dispatcher::untracked_task_is_silent(s@, entries, id, now);
    if actions.contains(SweepAction::Blocked(id)) {
        let k = choose|k: int| 0 <= k < actions.len() && actions[k] == SweepAction::Blocked(id);
        assert(as_sweep(found[k]) == actions[k]);
        assert(found[k] == DispatcherAction::Blocked(id));
        assert(found.contains(DispatcherAction::Blocked(id)));
    }
    if actions.contains(SweepAction::Reclaim(id)) {
        let k = choose|k: int| 0 <= k < actions.len() && actions[k] == SweepAction::Reclaim(id);
        assert(as_sweep(found[k]) == actions[k]);
        assert(found[k] == DispatcherAction::Reclaim(id));
        assert(found.contains(DispatcherAction::Reclaim(id)));
    }
}

/// Once a sweep of the fleet has stopped a task, the next one does not speak
/// of it again.
pub proof fn stopped_task_is_reported_once<T: fleet::SupervisedTask>(
    tasks: Seq<T>,
    was: FleetSweeper,
    store_was: crate::store::Store,
    now: FleetSweeper,
    store_now: crate::store::Store,
    actions: Seq<SweepAction>,
    next: Seq<SweepAction>,
    id: TaskId,
)
    requires
        fleet::swept(tasks, was, store_was, now, store_now, actions),
        actions.contains(SweepAction::Blocked(id)),
        now.reports(next),
    ensures
        !next.contains(SweepAction::Blocked(id)),
        !next.contains(SweepAction::Reclaim(id)),
{
    blocked_is_forgotten(was, now, actions, id);
    unwatched_task_is_silent(now, next, id);
}

/// A success that comes after an error clears it: the sweep that follows does
/// not stop the task.
pub proof fn success_outweighs_the_round(
    was: FleetSweeper,
    warned: FleetSweeper,
    told: FleetSweeper,
    id: TaskId,
    actions: Seq<SweepAction>,
)
    requires
        was@.dom().contains(id),
        was@[id].limit > 0,
        FleetSweeper::takes_error(was, warned, id),
        FleetSweeper::takes_success(warned, told, id),
        told.reports(actions),
    ensures
        !actions.contains(SweepAction::Blocked(id)),
{
    let (entries, now) = choose|entries: Seq<(TaskId, TaskMeta)>, now: Moment| #[trigger]
        swept_at(told@, entries, now, actions);
    let found = dispatcher::actions(entries, now);
    if actions.contains(SweepAction::Blocked(id)) {
        let k = choose|k: int| 0 <= k < actions.len() && actions[k] == SweepAction::Blocked(id);
        assert(as_sweep(found[k]) == actions[k]);
        assert(found[k] == DispatcherAction::Blocked(id));
        assert(found.contains(DispatcherAction::Blocked(id)));
        dispatcher::sweep_reports_each_task(told@, entries, now, DispatcherAction::Blocked(id));
        let other = choose|other: TaskId| #[trigger]
            told@.dom().contains(other) && told@[other].action(other, now) == Some(
                DispatcherAction::Blocked(id),
            );
        assert(other == id);
    }
}

/// Errors are counted by task: after some were taken, a watched task has as
/// many more as there were of it, and nothing else of it has changed.
pub proof fn errors_count_by_task(
    was: FleetSweeper,
    now: FleetSweeper,
    hits: Seq<TaskId>,
    id: TaskId,
)
    requires
        fleet::errors_taken(was, now, hits),
        was@.dom().contains(id),
        was@[id].errors + hits.len() <= u32::MAX,
    ensures
        now@.dom() == was@.dom(),
        now@[id].errors == was@[id].errors + hits.filter(|h: TaskId| h == id).len(),
        now@[id].limit == was@[id].limit,
        now@[id].deadline == was@[id].deadline,
        now@[id].last_beat == was@[id].last_beat,
        hits.filter(|h: TaskId| h == id).len() <= hits.len(),
    decreases hits.len(),
{
    reveal(Seq::filter);
    if hits.len() > 0 {
        let mid = choose|mid: FleetSweeper|
            fleet::errors_taken(was, mid, hits.drop_last())
                && #[trigger] FleetSweeper::takes_error(mid, now, hits.last());
        errors_count_by_task(was, mid, hits.drop_last(), id);
        assert(now@.dom() =~= was@.dom());
    }
}

/// A success among those taken clears the errors of its task; a task without
/// one keeps what it had.
pub proof fn successes_clear_by_task(
    was: FleetSweeper,
    now: FleetSweeper,
    hits: Seq<TaskId>,
    id: TaskId,
)
    requires
        fleet::successes_taken(was, now, hits),
        was@.dom().contains(id),
    ensures
        now@.dom() == was@.dom(),
        hits.contains(id) ==> now@[id].errors == 0,
        !hits.contains(id) ==> now@[id] == was@[id],
        now@[id].limit == was@[id].limit,
        now@[id].deadline == was@[id].deadline,
    decreases hits.len(),
{
    if hits.len() > 0 {
        let rest = hits.drop_last();
        let mid = choose|mid: FleetSweeper|
            fleet::successes_taken(was, mid, rest) && #[trigger] FleetSweeper::takes_success(
                mid,
                now,
                hits.last(),
            );
        successes_clear_by_task(was, mid, rest, id);
        assert(now@.dom() =~= was@.dom());
        if rest.contains(id) {
            let i = choose|i: int| 0 <= i < rest.len() && rest[i] == id;
            assert(hits[i] == id);
        }
        if hits.contains(id) {
            let i = choose|i: int| 0 <= i < hits.len() && hits[i] == id;
            if i < rest.len() {
                assert(rest[i] == id);
            }
        }
        assert(hits[hits.len() - 1] == hits.last());
    }
}

/// A task that is tried again is watched from the start: without errors, and
/// with its own limit.
pub proof fn retried_task_starts_clean(
    was: FleetSweeper,
    mid: FleetSweeper,
    now: FleetSweeper,
    id: TaskId,
    limit: u8,
    secs: Option<u64>,
)
    requires
        FleetSweeper::forgets(was, mid, id),
        FleetSweeper::watches_full(mid, now, id, limit, secs),
    ensures
        now@.dom().contains(id),
        now@[id].errors == 0,
        limit > 0 ==> now@[id].limit == limit,
        secs is None <==> now@[id].deadline is None,
        forall|other: TaskId|
            other != id && was@.dom().contains(other) ==> #[trigger] now@.dom().contains(other)
                && now@[other] == was@[other],
{
}

/// What a sweep reports of a task that is watched: it is called off exactly
/// where its errors have reached its limit, and never both called off and
/// tried again.
pub proof fn reports_follow_the_errors(s: FleetSweeper, actions: Seq<SweepAction>, id: TaskId)
    requires
        s.reports(actions),
        s@.dom().contains(id),
    ensures
        actions.contains(SweepAction::Blocked(id)) <==> s@[id].errors >= s@[id].limit,
        actions.contains(SweepAction::Reclaim(id)) ==> s@[id].errors < s@[id].limit,
{
    let (entries, now) = choose|entries: Seq<(TaskId, TaskMeta)>, now: Moment| #[trigger]
        swept_at(s@, entries, now, actions);
    let told = dispatcher::actions(entries, now);
    let b = DispatcherAction::Blocked(id);
    let r = DispatcherAction::Reclaim(id);
    dispatcher::sweep_reports_each_task(s@, entries, now, b);
    dispatcher::sweep_reports_each_task(s@, entries, now, r);
    if actions.contains(SweepAction::Blocked(id)) {
        let i = choose|i: int| 0 <= i < actions.len() && actions[i] == SweepAction::Blocked(id);
        assert(told[i] == b);
        assert(told.contains(b));
    }
    if actions.contains(SweepAction::Reclaim(id)) {
        let i = choose|i: int| 0 <= i < actions.len() && actions[i] == SweepAction::Reclaim(id);
        assert(told[i] == r);
        assert(told.contains(r));
    }
    if s@[id].errors >= s@[id].limit {
        assert(s@[id].action(id, now) == Some(b));
        assert(told.contains(b));
        let i = choose|i: int| 0 <= i < told.len() && told[i] == b;
        assert(actions[i] == SweepAction::Blocked(id));
    }
}

/// Tasks that a session was bound to are watched from then on, and no task
/// that was watched is lost by it.
pub proof fn bound_tasks_are_watched<T: fleet::SupervisedTask>(
    was: Seq<T>,
    before: FleetSweeper,
    now: Seq<T>,
    after: FleetSweeper,
    scope: Seq<char>,
    sid: Seq<char>,
)
    requires
        fleet::tasks_bound(was, Some(before), now, Some(after), scope, sid),
    ensures
        now.len() == was.len(),
        forall|i: int|
            #![trigger now[i]]
            0 <= i < was.len() && was[i].worktree() == Some(scope) ==> after@.dom().contains(
                now[i].id(),
            ),
        forall|id: TaskId|
            before@.dom().contains(id) ==> #[trigger] after@.dom().contains(id) && after@[id]
                == before@[id],
    decreases was.len(),
{
    if was.len() > 0 {
        let mid = choose|mid: Option<FleetSweeper>|
            fleet::tasks_bound(was.drop_last(), Some(before), now.drop_last(), mid, scope, sid)
                && #[trigger] fleet::task_bound(
                was.last(),
                mid,
                now.last(),
                Some(after),
                scope,
                sid,
            );
        let m = mid->Some_0;
        assert(mid == Some(m));
        bound_tasks_are_watched(was.drop_last(), before, now.drop_last(), m, scope, sid);
        let n = was.len() - 1;
        assert(was[n] == was.last() && now[n] == now.last());
        assert forall|i: int|
            #![trigger now[i]]
            0 <= i < was.len() && was[i].worktree() == Some(scope) implies after@.dom().contains(
            now[i].id(),
        ) by {
            if i < n {
                assert(was.drop_last()[i] == was[i]);
                assert(now.drop_last()[i] == now[i]);
                assert(m@.dom().contains(now[i].id()));
            }
        }
    }
}

} // verus!
