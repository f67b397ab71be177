//! The desk of the window: containers, runs that wait for one, and agents.
use crate::bars;
use crate::composer::Composer;
use crate::container::{BoxModel, BoxReport, ContainerReport, ContainerState};
use crate::driver::Fleet;
use crate::fleet;
use crate::fleet::SupervisedTask;
use crate::runtime::Command;
use crate::session::WorktreeRecord;
use crate::sorted_map::StrMap;
use crate::store::Store;
use crate::text;
use crate::transcript::TaskId;
use vstd::prelude::*;
use vstd::string::*;

verus! {

/// Rounds of the window between two looks at what is installed.
pub const SLOW_REFRESH_EVERY_POLLS: u64 = 375;

/// A task that waits for its container.
#[derive(Debug, Clone, PartialEq, Eq)]
pub struct PendingRun {
    pub agent: String,
    pub prompt: String,
    pub path: String,
}

/// What a [`PendingRun`] holds.
pub struct RunModel {
    pub agent: Seq<char>,
    pub prompt: Seq<char>,
    pub path: Seq<char>,
}

impl View for PendingRun {
    type V = RunModel;

    open spec fn view(&self) -> RunModel {
        RunModel { agent: self.agent@, prompt: self.prompt@, path: self.path@ }
    }
}

/// What is known of containers and agents.
pub struct Desk {
    /// Containers can be had on this machine.
    pub vm_available: bool,
    /// The state of each worktree's container.
    pub vm_states: StrMap<ContainerState>,
    /// The tasks that wait for a container, by worktree.
    pub pending_runs: StrMap<PendingRun>,
    /// The rounds since the window was opened.
    pub polls: u64,
    /// The agents, in the order of their names.
    pub agent_names: Vec<String>,
    /// Whether the program of each is there.
    pub agent_ok: StrMap<bool>,
    /// Whether the keychain has all keys that an agent wants; nothing for an
    /// agent that wants none.
    pub agent_env: StrMap<bool>,
}

/// What some reports hold.
pub open spec fn reports_of(v: Seq<ContainerReport>) -> Seq<BoxReport> {
    v.map_values(|r: ContainerReport| r@)
}

/// The states of containers.
pub open spec fn states_of(m: Map<Seq<char>, ContainerState>) -> Map<Seq<char>, BoxModel> {
    m.map_values(|s: ContainerState| s@)
}

/// The runs that wait.
pub open spec fn runs_of(m: Map<Seq<char>, PendingRun>) -> Map<Seq<char>, RunModel> {
    m.map_values(|r: PendingRun| r@)
}

/// The states after some reports: the last one of each worktree counts.
pub open spec fn states_after(states: Map<Seq<char>, BoxModel>, reports: Seq<BoxReport>) -> Map<
    Seq<char>,
    BoxModel,
>
    decreases reports.len(),
{
    if reports.len() == 0 {
        states
    } else {
        states_after(states, reports.drop_last()).insert(
            reports.last().slug,
            reports.last().state,
        )
    }
}

/// The runs that some reports let begin: those whose container runs now.
pub open spec fn runs_begun(pending: Map<Seq<char>, RunModel>, reports: Seq<BoxReport>) -> Seq<
    (Seq<char>, RunModel),
>
    decreases reports.len(),
{
    if reports.len() == 0 {
        Seq::empty()
    } else {
        let rest = runs_begun(pending, reports.drop_last());
        let r = reports.last();
        if r.state is Running && pending.dom().contains(r.slug) {
            rest.push((r.slug, pending[r.slug]))
        } else {
            rest
        }
    }
}

/// Some report says that the container of a worktree runs, or that it failed.
pub open spec fn settled(reports: Seq<BoxReport>, slug: Seq<char>) -> bool {
    exists|i: int|
        0 <= i < reports.len() && (#[trigger] reports[i]).slug == slug && (
        reports[i].state is Running || reports[i].state is Error)
}

/// The runs that still wait after some reports.
pub open spec fn still_waiting(pending: Map<Seq<char>, RunModel>, reports: Seq<BoxReport>) -> Map<
    Seq<char>,
    RunModel,
> {
    Map::new(
        |k: Seq<char>| pending.dom().contains(k) && !settled(reports, k),
        |k: Seq<char>| pending[k],
    )
}

/// What some runs hold.
pub open spec fn begun_of(v: Seq<(String, PendingRun)>) -> Seq<(Seq<char>, RunModel)> {
    v.map_values(|r: (String, PendingRun)| (r.0@, r.1@))
}

/// What pressing Run on a worktree asks for.
#[derive(Debug, Clone, PartialEq, Eq)]
pub enum RunStep {
    /// Nothing, and why.
    Refused(String),
    /// Start the agent: the container runs.
    Spawn { agent: String, prompt: String },
    /// Wake the container; the task waits.
    Unpause,
    /// Bring the container up; the task waits.
    Ensure,
}

/// What selecting a worktree does to its container.
#[derive(Debug, Clone, PartialEq, Eq)]
pub enum Wake {
    Nothing,
    Ensure(String),
    Unpause(String),
}

/// What selecting a worktree asks for.
pub struct SelectPlan {
    pub command: Command,
    pub wake: Wake,
    /// The worktrees whose containers may sleep, with their directories.
    pub pause: Vec<(String, String)>,
}

impl Default for Desk {
    fn default() -> (d: Desk)
        ensures
            d.is_new(),
    {
        Desk::new()
    }
}

impl Desk {
    /// Nothing is known.
    pub open spec fn is_new(&self) -> bool {
        &&& !self.vm_available
        &&& self.vm_states@ == Map::<Seq<char>, ContainerState>::empty()
        &&& self.pending_runs@ == Map::<Seq<char>, PendingRun>::empty()
        &&& self.polls == 0
        &&& self.agent_names@ == Seq::<String>::empty()
        &&& self.agent_ok@ == Map::<Seq<char>, bool>::empty()
        &&& self.agent_env@ == Map::<Seq<char>, bool>::empty()
    }

    /// A desk on which nothing is known.
    pub fn new() -> (d: Desk)
        ensures
            d.is_new(),
    {
        Desk {
            vm_available: false,
            vm_states: StrMap::new(),
            pending_runs: StrMap::new(),
            polls: 0,
            agent_names: Vec::new(),
            agent_ok: StrMap::new(),
            agent_env: StrMap::new(),
        }
    }

    fn take_report(&mut self, rep: ContainerReport, begun: &mut Vec<(String, PendingRun)>)
        ensures
            *final(self) == (Desk { vm_states: final(self).vm_states, ..*old(self) }),
            states_of(final(self).vm_states@) == states_of(old(self).vm_states@).insert(
                rep.slug@,
                rep.state@,
            ),
            begun_of(final(begun)@) == (if rep.state is Running
                && old(self).pending_runs@.dom().contains(rep.slug@) {
                begun_of(old(begun)@).push((rep.slug@, old(self).pending_runs@[rep.slug@]@))
            } else {
                begun_of(old(begun)@)
            }),
    {
        if matches!(&rep.state, ContainerState::Running) {
            if let Some(run) = self.pending_runs.get(rep.slug.as_str()) {
                let r = (
                    rep.slug.clone(),
                    PendingRun {
                        agent: run.agent.clone(),
                        prompt: run.prompt.clone(),
                        path: run.path.clone(),
                    },
                );
                let ghost was = begun@;
                begun.push(r);
                assert(begun_of(begun@) =~= begun_of(was).push((r.0@, r.1@)));
            }
        }
        let ghost was = self.vm_states@;
        let ContainerReport { slug, state } = rep;
        let ghost key = slug@;
        self.vm_states.insert(slug, state);
        assert(states_of(self.vm_states@) =~= states_of(was).insert(key, state@));
    }

    fn drop_settled(&mut self, settled_slugs: &Vec<String>, Ghost(reports): Ghost<Seq<BoxReport>>)
        requires
            forall|k: Seq<char>| #[trigger]
                text::texts(settled_slugs@).contains(k) <==> settled(reports, k),
        ensures
            *final(self) == (Desk { pending_runs: final(self).pending_runs, ..*old(self) }),
            runs_of(final(self).pending_runs@) == still_waiting(
                runs_of(old(self).pending_runs@),
                reports,
            ),
    {
        let ghost all = text::texts(settled_slugs@);
        let ghost was = self.pending_runs@;
        let mut i: usize = 0;
        assert(self.pending_runs@ =~= was.remove_keys(all.take(0).to_set()));
        while i < settled_slugs.len()
            invariant
                i <= settled_slugs@.len(),
                all == text::texts(settled_slugs@),
                *self == (Desk { pending_runs: self.pending_runs, ..*old(self) }),
                self.pending_runs@ == was.remove_keys(all.take(i as int).to_set()),
            decreases settled_slugs@.len() - i,
        {
            self.pending_runs.remove(settled_slugs[i].as_str());
            proof {
                let some = all.take(i as int);
                let more = all.take(i + 1);
                let key = all[i as int];
                assert(key == settled_slugs@[i as int]@);
                assert forall|k: Seq<char>| more.contains(k) == (some.contains(k) || k == key) by {
                    assert(more[i as int] == key);
                    if some.contains(k) {
                        let j = choose|j: int| 0 <= j < some.len() && some[j] == k;
                        assert(more[j] == k);
                    }
                    if more.contains(k) && k != key {
                        let j = choose|j: int| 0 <= j < more.len() && more[j] == k;
                        assert(some[j] == k);
                    }
                }
                assert(self.pending_runs@ =~= was.remove_keys(more.to_set()));
            }
            i += 1;
        }
        assert(all.take(all.len() as int) =~= all);
        assert(runs_of(self.pending_runs@) =~= still_waiting(runs_of(was), reports));
    }

    /// Takes in what the container worker reports: the states are recorded, a
    /// run whose container runs now can begin and waits no longer, and one
    /// whose container failed is given up. Returns the runs that begin.
    pub fn on_reports(&mut self, reports: Vec<ContainerReport>) -> (begun: Vec<
        (String, PendingRun),
    >)
        ensures
            *final(self) == (Desk {
                vm_states: final(self).vm_states,
                pending_runs: final(self).pending_runs,
                ..*old(self)
            }),
            states_of(final(self).vm_states@) == states_after(
                states_of(old(self).vm_states@),
                reports_of(reports@),
            ),
            begun_of(begun@) == runs_begun(
                runs_of(old(self).pending_runs@),
                reports_of(reports@),
            ),
            runs_of(final(self).pending_runs@) == still_waiting(
                runs_of(old(self).pending_runs@),
                reports_of(reports@),
            ),
    {
        let ghost all = reports_of(reports@);
        let ghost pending = runs_of(self.pending_runs@);
        let ghost states = states_of(self.vm_states@);
        let mut begun: Vec<(String, PendingRun)> = Vec::new();
        let mut gone: Vec<String> = Vec::new();
        let n: usize = reports.len();
        let mut i: usize = 0;
        assert(all.take(0) =~= Seq::empty());
        assert(begun_of(begun@) =~= Seq::empty());
        while i < n
            invariant
                i <= n == reports@.len(),
                all == reports_of(reports@),
                pending == runs_of(old(self).pending_runs@),
                states == states_of(old(self).vm_states@),
                *self == (Desk { vm_states: self.vm_states, ..*old(self) }),
                states_of(self.vm_states@) == states_after(states, all.take(i as int)),
                begun_of(begun@) == runs_begun(pending, all.take(i as int)),
                forall|k: Seq<char>| #[trigger]
                    text::texts(gone@).contains(k) <==> settled(all.take(i as int), k),
            decreases n - i,
        {
            let ghost some = all.take(i as int);
            let ghost more = all.take(i + 1);
            assert(more.drop_last() =~= some);
            let rep = ContainerReport {
                slug: reports[i].slug.clone(),
                state: copy_state(&reports[i].state),
            };
            assert(more.last() == rep@);
            let over = matches!(&rep.state, ContainerState::Running | ContainerState::Error(_));
            let slug = rep.slug.clone();
            let ghost model = rep@;
            self.take_report(rep, &mut begun);
            let ghost was = gone@;
            if over {
                gone.push(slug);
            }
            proof {
                assert forall|k: Seq<char>| #[trigger] text::texts(gone@).contains(k) <==> settled(
                    more,
                    k,
                ) by {
                    let before = text::texts(was);
                    let now = text::texts(gone@);
                    if now.contains(k) {
                        let j = choose|j: int| 0 <= j < now.len() && now[j] == k;
                        if j < before.len() {
                            assert(before[j] == k);
                            assert(before.contains(k));
                            let x = choose|x: int|
                                0 <= x < some.len() && (#[trigger] some[x]).slug == k && (
                                some[x].state is Running || some[x].state is Error);
                            assert(more[x] == some[x]);
                        } else {
                            assert(more[i as int] == model);
                        }
                    }
                    if settled(more, k) {
                        let x = choose|x: int|
                            0 <= x < more.len() && (#[trigger] more[x]).slug == k && (
                            more[x].state is Running || more[x].state is Error);
                        if x < some.len() {
                            assert(some[x] == more[x]);
                            assert(settled(some, k));
                            assert(before.contains(k));
                            let j = choose|j: int| 0 <= j < before.len() && before[j] == k;
                            assert(now[j] == k);
                        } else {
                            assert(now[now.len() - 1] == k);
                        }
                    }
                }
            }
            i += 1;
        }
        assert(all.take(n as int) =~= all);
        self.drop_settled(&gone, Ghost(all));
        begun
    }

    /// Counts a round. Returns whether it is time to look at what is
    /// installed.
    pub fn on_poll(&mut self) -> (slow: bool)
        requires
            old(self).polls < u64::MAX,
        ensures
            *final(self) == (Desk { polls: (old(self).polls + 1) as u64, ..*old(self) }),
            slow == (final(self).polls % SLOW_REFRESH_EVERY_POLLS == 0),
            slow == ((old(self).polls + 1) % 375 == 0),
    {
        self.polls = self.polls + 1;
        self.polls % SLOW_REFRESH_EVERY_POLLS == 0
    }

    /// Takes in which agents there are, and whether their programs and keys
    /// are there.
    pub fn refresh_agents(&mut self, names: Vec<String>, ok: StrMap<bool>, env: StrMap<bool>)
        ensures
            *final(self) == (Desk {
                agent_names: names,
                agent_ok: ok,
                agent_env: env,
                ..*old(self)
            }),
    {
        self.agent_names = names;
        self.agent_ok = ok;
        self.agent_env = env;
    }

    /// The agent that a task is started with is at place `i`.
    pub open spec fn runs_with(&self, i: int) -> bool {
        &&& 0 <= i < self.agent_names@.len()
        &&& bars::is_present(self.agent_ok@, text::texts(self.agent_names@)[i])
        &&& forall|j: int|
            0 <= j < i ==> !bars::is_present(
                self.agent_ok@,
                #[trigger] text::texts(self.agent_names@)[j],
            )
    }

    /// Some agent's program is there.
    pub open spec fn has_agent(&self) -> bool {
        exists|i: int| #[trigger] self.runs_with(i)
    }

    /// Why a task cannot be run now: no containers, no prompt, no agent, or
    /// the worktree has a task. They are looked at in this order.
    pub open spec fn refusal(&self, slug: Seq<char>, typed: Seq<char>, has_task: bool) -> Option<
        Seq<char>,
    > {
        let head = "run "@ + slug + ": "@;
        if !self.vm_available {
            Some(head + "podman unavailable — Host mode"@)
        } else if text::trim(typed, text::blank()).len() == 0 {
            Some(head + "empty prompt — fill the composer first"@)
        } else if !self.has_agent() {
            Some(head + "no agent binary found on PATH"@)
        } else if has_task {
            Some(head + "task already open"@)
        } else {
            None
        }
    }

    /// The container of a worktree is in a state.
    pub open spec fn state_at(&self, slug: Seq<char>) -> Option<BoxModel> {
        if self.vm_states@.dom().contains(slug) {
            Some(self.vm_states@[slug]@)
        } else {
            None
        }
    }

    /// Runs an agent in a worktree with what was typed. Where the container
    /// runs the agent is started now; else the run waits while the container
    /// is woken or brought up. What was begun in the composer is forgotten,
    /// so that a note is never taken for a prompt.
    pub fn run_worktree_agent(
        &mut self,
        composer: &mut Composer,
        slug: &str,
        path: &str,
        typed: &str,
        has_task: bool,
    ) -> (s: RunStep)
        ensures
            match old(self).refusal(slug@, typed@, has_task) {
                Some(why) => {
                    &&& s matches RunStep::Refused(m) && m@ == why
                    &&& *final(self) == *old(self)
                    &&& *final(composer) == *old(composer)
                },
                None => {
                    &&& final(composer)@ == old(composer)@.cleared()
                    &&& exists|i: int| #[trigger]
                        old(self).runs_with(i) && run_begun(
                            *old(self),
                            *final(self),
                            slug@,
                            RunModel {
                                agent: text::texts(old(self).agent_names@)[i],
                                prompt: text::trim(typed@, text::blank()),
                                path: path@,
                            },
                            s,
                        )
                },
            },
    {
        let mut why = "run ".to_owned();
        why.append(slug);
        why.append(": ");
        if !self.vm_available {
            why.append("podman unavailable — Host mode");
            return RunStep::Refused(why);
        }
        let prompt = text::trimmed(typed);
        if prompt.as_str().is_empty() {
            why.append("empty prompt — fill the composer first");
            return RunStep::Refused(why);
        }
        let agent = match bars::pick_run_agent(&self.agent_names, &self.agent_ok) {
            Some(a) => a,
            None => {
                why.append("no agent binary found on PATH");
                assert(!self.has_agent());
                return RunStep::Refused(why);
            },
        };
        let ghost chosen = choose|i: int|
            0 <= i < self.agent_names@.len() && #[trigger] text::texts(self.agent_names@)[i]
                == agent@ && bars::is_present(self.agent_ok@, agent@) && forall|j: int|
                0 <= j < i ==> !bars::is_present(
                    self.agent_ok@,
                    #[trigger] text::texts(self.agent_names@)[j],
                );
        assert(self.runs_with(chosen));
        if has_task {
            why.append("task already open");
            return RunStep::Refused(why);
        }
        composer.cancel();
        let ghost run = RunModel { agent: agent@, prompt: prompt@, path: path@ };
        let (running, paused) = match self.vm_states.get(slug) {
            Some(ContainerState::Running) => (true, false),
            Some(ContainerState::Paused) => (false, true),
            _ => (false, false),
        };
        if running {
            let s = RunStep::Spawn { agent, prompt };
            assert(run_begun(*old(self), *self, slug@, run, s));
            return s;
        }
        let ghost was = self.pending_runs@;
        let waiting = PendingRun { agent, prompt, path: path.to_owned() };
        self.pending_runs.insert(slug.to_owned(), waiting);
        assert(runs_of(self.pending_runs@) =~= runs_of(was).insert(slug@, run));
        let s = if paused {
            RunStep::Unpause
        } else {
            RunStep::Ensure
        };
        assert(run_begun(*old(self), *self, slug@, run, s));
        s
    }

    /// The container of another worktree may sleep: it runs, no task of the
    /// worktree was stopped or is open, and none of its sessions works.
    pub open spec fn may_sleep(
        &self,
        store: Store,
        tasks: Set<Seq<char>>,
        chosen: Seq<char>,
        other: Seq<char>,
    ) -> bool {
        &&& other != chosen
        &&& self.state_at(other) matches Some(BoxModel::Running)
        &&& !store.has_blocked(other)
        &&& !tasks.contains(other)
        &&& !scope_works(store, other)
    }

    /// Those of some worktrees whose containers may sleep, with their
    /// directories.
    pub open spec fn sleepers(
        &self,
        store: Store,
        tasks: Set<Seq<char>>,
        chosen: Seq<char>,
        worktrees: Seq<(Seq<char>, WorktreeRecord)>,
    ) -> Seq<(Seq<char>, Seq<char>)>
        decreases worktrees.len(),
    {
        if worktrees.len() == 0 {
            Seq::empty()
        } else {
            let rest = self.sleepers(store, tasks, chosen, worktrees.drop_last());
            let (slug, w) = worktrees.last();
            if self.may_sleep(store, tasks, chosen, slug) {
                rest.push((slug, w.path@))
            } else {
                rest
            }
        }
    }

    /// What selecting a worktree asks for: its container is woken or brought
    /// up, and those of idle worktrees may sleep. An unknown worktree is only
    /// selected.
    pub fn select_worktree(&self, store: &Store, fleet: &Fleet, slug: &str) -> (p: SelectPlan)
        ensures
            p.command matches Command::SelectWorktree { slug: s } && s@ == slug@,
            store.worktrees@.dom().contains(slug@) ==> {
                &&& bars::pairs_of(p.pause@) == self.sleepers(
                    *store,
                    with_task(*fleet),
                    slug@,
                    store.worktrees.entries(),
                )
                &&& match self.state_at(slug@) {
                    Some(BoxModel::Running) => p.wake is Nothing,
                    Some(BoxModel::Paused) => p.wake matches Wake::Unpause(d) && d@
                        == store.worktrees@[slug@].path@,
                    _ => p.wake matches Wake::Ensure(d) && d@ == store.worktrees@[slug@].path@,
                }
            },
            !store.worktrees@.dom().contains(slug@) ==> p.wake is Nothing && p.pause@.len() == 0,
    {
        let command = Command::SelectWorktree { slug: slug.to_owned() };
        let path = match store.worktrees.get(slug) {
            Some(w) => w.path.clone(),
            None => {
                return SelectPlan { command, wake: Wake::Nothing, pause: Vec::new() };
            },
        };
        let wake = match self.vm_states.get(slug) {
            Some(ContainerState::Running) => Wake::Nothing,
            Some(ContainerState::Paused) => Wake::Unpause(path),
            _ => Wake::Ensure(path),
        };
        let pause = self.list_sleepers(store, fleet, slug);
        SelectPlan { command, wake, pause }
    }

    fn list_sleepers(&self, store: &Store, fleet: &Fleet, slug: &str) -> (out: Vec<
        (String, String),
    >)
        ensures
            bars::pairs_of(out@) == self.sleepers(
                *store,
                with_task(*fleet),
                slug@,
                store.worktrees.entries(),
            ),
    {
        let n: usize = store.worktrees.len();
        let ghost all = store.worktrees.entries();
        let mut out: Vec<(String, String)> = Vec::new();
        let mut i: usize = 0;
        assert(all.take(0) =~= Seq::empty());
        assert(bars::pairs_of(out@) =~= Seq::empty());
        while i < n
            invariant
                i <= n == all.len(),
                all == store.worktrees.entries(),
                bars::pairs_of(out@) == self.sleepers(
                    *store,
                    with_task(*fleet),
                    slug@,
                    all.take(i as int),
                ),
            decreases n - i,
        {
            assert(all.take(i + 1).drop_last() =~= all.take(i as int));
            let other = store.worktrees.key_at(i);
            let running = match self.vm_states.get(other.as_str()) {
                Some(ContainerState::Running) => true,
                _ => false,
            };
            if !text::same(other.as_str(), slug) && running && !store.is_blocked_slug(
                other.as_str(),
            ) && !fleet.has_slug(other.as_str()) && !any_works(store, other.as_str()) {
                let ghost was = out@;
                let pair = (other.clone(), store.worktrees.value_at(i).path.clone());
                out.push(pair);
                assert(bars::pairs_of(out@) =~= bars::pairs_of(was).push((pair.0@, pair.1@)));
            }
            i += 1;
        }
        assert(all.take(all.len() as int) =~= all);
        out
    }
}

fn copy_state(s: &ContainerState) -> (r: ContainerState)
    ensures
        r@ == s@,
{
    match s {
        ContainerState::Missing => ContainerState::Missing,
        ContainerState::Pulling => ContainerState::Pulling,
        ContainerState::Running => ContainerState::Running,
        ContainerState::Paused => ContainerState::Paused,
        ContainerState::Stopped => ContainerState::Stopped,
        ContainerState::Error(e) => ContainerState::Error(e.clone()),
    }
}

/// What became of a run: it begins where the container runs, else it waits.
pub open spec fn run_begun(was: Desk, now: Desk, slug: Seq<char>, run: RunModel, s: RunStep) -> bool {
    match was.state_at(slug) {
        Some(BoxModel::Running) => {
            &&& now == was
            &&& s matches RunStep::Spawn { agent, prompt } && agent@ == run.agent && prompt@
                == run.prompt
        },
        state => {
            &&& now == (Desk { pending_runs: now.pending_runs, ..was })
            &&& runs_of(now.pending_runs@) == runs_of(was.pending_runs@).insert(slug, run)
            &&& if state matches Some(BoxModel::Paused) {
                s is Unpause
            } else {
                s is Ensure
            }
        },
    }
}

/// The worktrees with an open task.
pub open spec fn with_task(fleet: Fleet) -> Set<Seq<char>> {
    Set::new(|slug: Seq<char>| fleet::owned(fleet.tasks@, slug))
}

/// Some session of a scope works.
pub open spec fn scope_works(store: Store, scope: Seq<char>) -> bool {
    exists|sid: Seq<char>| #[trigger]
        store.sessions@.dom().contains(sid) && store.scope(sid) == scope && store.works(sid)
}

fn any_works(store: &Store, scope: &str) -> (r: bool)
    ensures
        r == scope_works(*store, scope@),
{
    let n: usize = store.sessions.len();
    let ghost all = store.sessions.entries();
    let mut i: usize = 0;
    while i < n
        invariant
            i <= n == all.len(),
            all == store.sessions.entries(),
            forall|k: int|
                0 <= k < n ==> store.sessions@.dom().contains((#[trigger] all[k]).0),
            forall|k: int|
                0 <= k < i ==> !(store.scope((#[trigger] all[k]).0) == scope@ && store.works(
                    all[k].0,
                )),
        decreases n - i,
    {
        let sid = store.sessions.key_at(i);
        assert(all[i as int].0 == sid@);
        if text::same(store.scope_of(sid.as_str()), scope) && store.is_working(sid.as_str()) {
            assert(store.sessions@.dom().contains(sid@));
            return true;
        }
        i += 1;
    }
    proof {
        if scope_works(*store, scope@) {
            let sid = choose|sid: Seq<char>| #[trigger]
                store.sessions@.dom().contains(sid) && store.scope(sid) == scope@ && store.works(
                    sid,
                );
            let k = choose|k: int| 0 <= k < n && store.sessions.keys()[k] == sid;
            assert(all[k].0 == sid);
        }
    }
    false
}

/// A run that begins waits no longer, so that no report begins it twice; and
/// a run begins only if it was waiting.
pub proof fn run_begins_once(
    pending: Map<Seq<char>, RunModel>,
    reports: Seq<BoxReport>,
    later: Seq<BoxReport>,
    i: int,
)
    requires
        0 <= i < runs_begun(pending, reports).len(),
    ensures
        pending.dom().contains(runs_begun(pending, reports)[i].0),
        runs_begun(pending, reports)[i].1 == pending[runs_begun(pending, reports)[i].0],
        !still_waiting(pending, reports).dom().contains(runs_begun(pending, reports)[i].0),
        forall|j: int|
            0 <= j < runs_begun(still_waiting(pending, reports), later).len() ==> (
            #[trigger] runs_begun(still_waiting(pending, reports), later)[j]).0 != runs_begun(
                pending,
                reports,
            )[i].0,
{
    let slug = runs_begun(pending, reports)[i].0;
    begun_was_waiting(pending, reports, i);
    let left = still_waiting(pending, reports);
    assert forall|j: int| 0 <= j < runs_begun(left, later).len() implies (#[trigger] runs_begun(
        left,
        later,
    )[j]).0 != slug by {
        begun_was_waiting(left, later, j);
    }
}

proof fn begun_was_waiting(pending: Map<Seq<char>, RunModel>, reports: Seq<BoxReport>, i: int)
    requires
        0 <= i < runs_begun(pending, reports).len(),
    ensures
        pending.dom().contains(runs_begun(pending, reports)[i].0),
        runs_begun(pending, reports)[i].1 == pending[runs_begun(pending, reports)[i].0],
        settled(reports, runs_begun(pending, reports)[i].0),
    decreases reports.len(),
{
    let rest = reports.drop_last();
    let got = runs_begun(pending, rest);
    if i < got.len() {
        begun_was_waiting(pending, rest, i);
        let x = choose|x: int|
            0 <= x < rest.len() && (#[trigger] rest[x]).slug == got[i].0 && (
            rest[x].state is Running || rest[x].state is Error);
        assert(reports[x] == rest[x]);
    } else {
        assert(reports[reports.len() - 1] == reports.last());
    }
}

/// The worktree that is selected never sleeps, nor does one with an open task
/// or a session that works.
pub proof fn busy_worktrees_stay_awake(
    d: Desk,
    store: Store,
    tasks: Set<Seq<char>>,
    chosen: Seq<char>,
    worktrees: Seq<(Seq<char>, WorktreeRecord)>,
    i: int,
)
    requires
        0 <= i < d.sleepers(store, tasks, chosen, worktrees).len(),
    ensures
        ({
            let slug = d.sleepers(store, tasks, chosen, worktrees)[i].0;
            slug != chosen && !tasks.contains(slug) && !scope_works(store, slug)
                && !store.has_blocked(slug)
        }),
    decreases worktrees.len(),
{
    let rest = worktrees.drop_last();
    if i < d.sleepers(store, tasks, chosen, rest).len() {
        busy_worktrees_stay_awake(d, store, tasks, chosen, rest, i);
    }
}

/// Of several reports on a worktree the last one holds, and a worktree that no
/// report names keeps the state it had.
pub proof fn last_report_holds(
    states: Map<Seq<char>, BoxModel>,
    reports: Seq<BoxReport>,
    slug: Seq<char>,
    at: int,
)
    ensures
        0 <= at < reports.len() && reports[at].slug == slug && (forall|j: int|
            at < j < reports.len() ==> (#[trigger] reports[j]).slug != slug) ==> states_after(
            states,
            reports,
        ).dom().contains(slug) && states_after(states, reports)[slug] == reports[at].state,
        (forall|j: int| 0 <= j < reports.len() ==> (#[trigger] reports[j]).slug != slug) ==> {
            &&& states_after(states, reports).dom().contains(slug) == states.dom().contains(slug)
            &&& states.dom().contains(slug) ==> states_after(states, reports)[slug] == states[slug]
        },
    decreases reports.len(),
{
    if reports.len() > 0 {
        let rest = reports.drop_last();
        let n = reports.len() - 1;
        assert(reports[n] == reports.last());
        last_report_holds(states, rest, slug, at);
        if 0 <= at < n && reports[at].slug == slug && (forall|j: int|
            at < j < reports.len() ==> (#[trigger] reports[j]).slug != slug) {
            assert(rest[at] == reports[at]);
            assert forall|j: int| at < j < rest.len() implies (#[trigger] rest[j]).slug != slug by {
                assert(rest[j] == reports[j]);
            }
            assert(reports[n].slug != slug);
        }
        if forall|j: int| 0 <= j < reports.len() ==> (#[trigger] reports[j]).slug != slug {
            assert forall|j: int| 0 <= j < rest.len() implies (#[trigger] rest[j]).slug != slug by {
                assert(rest[j] == reports[j]);
            }
            assert(reports[n].slug != slug);
        }
    }
}

/// A run begins for each report of a running box whose worktree waits for one,
/// in the order of the reports; what ran or failed waits no longer, and
/// everything else waits on.
pub proof fn running_boxes_begin_their_runs(
    pending: Map<Seq<char>, RunModel>,
    reports: Seq<BoxReport>,
    slug: Seq<char>,
)
    ensures
        runs_begun(pending, reports) == reports.filter(
            |r: BoxReport| r.state is Running && pending.dom().contains(r.slug),
        ).map_values(|r: BoxReport| (r.slug, pending[r.slug])),
        still_waiting(pending, reports).dom().contains(slug) <==> pending.dom().contains(slug) && (
        forall|i: int|
            0 <= i < reports.len() && (#[trigger] reports[i]).slug == slug
                ==> !(reports[i].state is Running) && !(reports[i].state is Error)),
        still_waiting(pending, reports).dom().contains(slug) ==> still_waiting(
            pending,
            reports,
        )[slug] == pending[slug],
    decreases reports.len(),
{
    reveal(Seq::filter);
    let p = |r: BoxReport| r.state is Running && pending.dom().contains(r.slug);
    let f = |r: BoxReport| (r.slug, pending[r.slug]);
    if reports.len() > 0 {
        let rest = reports.drop_last();
        running_boxes_begin_their_runs(pending, rest, slug);
        let some = rest.filter(p);
        assert(some.push(reports.last()).map_values(f) =~= some.map_values(f).push(
            f(reports.last()),
        ));
    }
    assert(runs_begun(pending, reports) =~= reports.filter(p).map_values(f));
}

/// The boxes that may sleep are those of the worktrees, in order, whose box
/// runs and that are neither chosen nor blocked nor have a task nor a session
/// at work.
pub proof fn idle_boxes_sleep(
    d: Desk,
    store: Store,
    tasks: Set<Seq<char>>,
    chosen: Seq<char>,
    worktrees: Seq<(Seq<char>, WorktreeRecord)>,
)
    ensures
        d.sleepers(store, tasks, chosen, worktrees) == worktrees.filter(
            |w: (Seq<char>, WorktreeRecord)|
                {
                    &&& w.0 != chosen
                    &&& d.vm_states@.dom().contains(w.0) && d.vm_states@[w.0]@ is Running
                    &&& !tasks.contains(w.0)
                    &&& !exists|t: TaskId| #[trigger]
                        store.blocked@.dom().contains(t) && store.blocked@[t]@ == w.0
                    &&& !exists|sid: Seq<char>| #[trigger]
                        store.sessions@.dom().contains(sid) && store.scope(sid) == w.0
                            && store.works(sid)
                },
        ).map_values(|w: (Seq<char>, WorktreeRecord)| (w.0, w.1.path@)),
    decreases worktrees.len(),
{
    reveal(Seq::filter);
    let p = |w: (Seq<char>, WorktreeRecord)|
        {
            &&& w.0 != chosen
            &&& d.vm_states@.dom().contains(w.0) && d.vm_states@[w.0]@ is Running
            &&& !tasks.contains(w.0)
            &&& !exists|t: TaskId| #[trigger]
                store.blocked@.dom().contains(t) && store.blocked@[t]@ == w.0
            &&& !exists|sid: Seq<char>| #[trigger]
                store.sessions@.dom().contains(sid) && store.scope(sid) == w.0 && store.works(sid)
        };
    let f = |w: (Seq<char>, WorktreeRecord)| (w.0, w.1.path@);
    if worktrees.len() > 0 {
        idle_boxes_sleep(d, store, tasks, chosen, worktrees.drop_last());
        let some = worktrees.drop_last().filter(p);
        assert(some.push(worktrees.last()).map_values(f) =~= some.map_values(f).push(
            f(worktrees.last()),
        ));
    }
    assert(d.sleepers(store, tasks, chosen, worktrees) =~= worktrees.filter(p).map_values(f));
}

/// A run is refused where there are no boxes, nothing was typed, no agent was
/// found or the worktree has a task, and only then; what is wrong first in
/// that order is what is said.
pub proof fn runs_are_refused_for_a_reason(
    d: Desk,
    slug: Seq<char>,
    typed: Seq<char>,
    has_task: bool,
)
    ensures
        d.refusal(slug, typed, has_task) is None <==> d.vm_available && text::trim(
            typed,
            text::blank(),
        ).len() > 0 && d.has_agent() && !has_task,
        !d.vm_available ==> d.refusal(slug, typed, has_task) == Some(
            "run "@ + slug + ": "@ + "podman unavailable — Host mode"@,
        ),
        d.vm_available && text::trim(typed, text::blank()).len() == 0 ==> d.refusal(
            slug,
            typed,
            has_task,
        ) == Some("run "@ + slug + ": "@ + "empty prompt — fill the composer first"@),
        d.vm_available && text::trim(typed, text::blank()).len() > 0 && !d.has_agent()
            ==> d.refusal(slug, typed, has_task) == Some(
            "run "@ + slug + ": "@ + "no agent binary found on PATH"@,
        ),
        d.vm_available && text::trim(typed, text::blank()).len() > 0 && d.has_agent() && has_task
            ==> d.refusal(slug, typed, has_task) == Some(
            "run "@ + slug + ": "@ + "task already open"@,
        ),
{
}

/// A run in a box that runs starts at once with what was asked; otherwise it
/// waits under its worktree while the box is woken or made.
pub proof fn run_starts_or_waits(was: Desk, now: Desk, slug: Seq<char>, run: RunModel, s: RunStep)
    requires
        run_begun(was, now, slug, run, s),
    ensures
        ({
            let up = was.vm_states@.dom().contains(slug) && was.vm_states@[slug]@ is Running;
            let asleep = was.vm_states@.dom().contains(slug) && was.vm_states@[slug]@ is Paused;
            &&& up ==> now == was && s is Spawn && s->agent@ == run.agent && s->prompt@
                == run.prompt
            &&& !up ==> now.pending_runs@.dom().contains(slug) && now.pending_runs@[slug]@ == run
            &&& !up ==> forall|o: Seq<char>|
                o != slug && was.pending_runs@.dom().contains(o)
                    ==> #[trigger] now.pending_runs@.dom().contains(o) && now.pending_runs@[o]@
                    == was.pending_runs@[o]@
            &&& !up ==> (s is Unpause <==> asleep)
            &&& !up ==> (s is Ensure <==> !asleep)
            &&& now.vm_states == was.vm_states
        }),
{
    let up = was.vm_states@.dom().contains(slug) && was.vm_states@[slug]@ is Running;
    if !up {
        let a = runs_of(was.pending_runs@);
        let b = runs_of(now.pending_runs@);
        assert(b.dom().contains(slug) && b[slug] == run);
        assert forall|o: Seq<char>|
            o != slug && was.pending_runs@.dom().contains(
                o,
            ) implies #[trigger] now.pending_runs@.dom().contains(o) && now.pending_runs@[o]@
            == was.pending_runs@[o]@ by {
            assert(a.dom().contains(o));
            assert(b.dom().contains(o) && b[o] == a[o]);
        }
    }
}

/// A run takes the first agent in the list that was found.
pub proof fn runs_take_the_first_agent_found(d: Desk, i: int, j: int)
    requires
        d.runs_with(i),
        0 <= j < d.agent_names@.len(),
        d.agent_ok@.dom().contains(d.agent_names@[j]@) && d.agent_ok@[d.agent_names@[j]@],
    ensures
        i <= j,
        d.agent_ok@.dom().contains(d.agent_names@[i]@) && d.agent_ok@[d.agent_names@[i]@],
{
    assert(text::texts(d.agent_names@)[j] == d.agent_names@[j]@);
    assert(text::texts(d.agent_names@)[i] == d.agent_names@[i]@);
}

/// The worktrees with a task are those that a task of the fleet works in.
pub proof fn worktrees_with_a_task(fleet: Fleet, slug: Seq<char>)
    ensures
        with_task(fleet).contains(slug) <==> exists|i: int|
            0 <= i < fleet.tasks@.len() && (#[trigger] fleet.tasks@[i]).task.slug@ == slug,
{
    if exists|i: int|
        0 <= i < fleet.tasks@.len() && (#[trigger] fleet.tasks@[i]).task.slug@ == slug {
        let i = choose|i: int|
            0 <= i < fleet.tasks@.len() && (#[trigger] fleet.tasks@[i]).task.slug@ == slug;
        assert(fleet.tasks@[i].worktree() == Some(slug));
    }
    if fleet::owned(fleet.tasks@, slug) {
        let i = choose|i: int|
            0 <= i < fleet.tasks@.len() && (#[trigger] fleet.tasks@[i]).worktree() == Some(slug);
        assert(fleet.tasks@[i].task.slug@ == slug);
    }
}

} // verus!
