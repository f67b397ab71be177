//! One machine per workspace: boot it, wait for its shell server and its
//! mount, and keep what went wrong.
use crate::backend;
use crate::backend::{FaultModel, VmBackend, VmFault};
use crate::config::{SshInfo, SshModel, StateModel, VmConfig, VmHandle, VmState};
use crate::outside::Failure;
use crate::sorted_map::StrMap;
use crate::text;
use vstd::prelude::*;
use vstd::string::*;

verus! {

/// How long each stage may take, and how often it is looked at, in
/// milliseconds.
#[derive(Debug, Clone, Copy, PartialEq, Eq)]
pub struct VmTimeouts {
    pub boot: u64,
    pub ssh: u64,
    pub mount: u64,
    pub poll: u64,
}

impl Default for VmTimeouts {
    fn default() -> (t: VmTimeouts)
        ensures
            t == (VmTimeouts { boot: 30000, ssh: 20000, mount: 10000, poll: 500 }),
    {
        VmTimeouts { boot: 30000, ssh: 20000, mount: 10000, poll: 500 }
    }
}

impl VmTimeouts {
    /// Short times for trials.
    pub fn test() -> (t: VmTimeouts)
        ensures
            t == (VmTimeouts { boot: 200, ssh: 200, mount: 200, poll: 5 }),
    {
        VmTimeouts { boot: 200, ssh: 200, mount: 200, poll: 5 }
    }
}

/// A machine and what is known of it.
pub struct ManagedVm {
    pub handle: VmHandle,
    pub state: VmState,
}

/// What a [`ManagedVm`] holds.
pub struct ManagedModel {
    pub handle: Seq<char>,
    pub state: StateModel,
}

impl View for ManagedVm {
    type V = ManagedModel;

    open spec fn view(&self) -> ManagedModel {
        ManagedModel { handle: self.handle@, state: self.state@ }
    }
}

/// What comes next in bringing up a machine.
#[derive(Debug)]
pub enum EnsureStep {
    /// The machine can be used.
    Done(VmHandle),
    /// It cannot, and this is why. The reason is kept as its state.
    Failed(Failure),
    /// Wait so many milliseconds, then look whether the shell server answers.
    ProbeSsh(VmHandle, u64),
    /// Wait so many milliseconds, then look whether the mount is there.
    CheckMount(VmHandle, u64),
}

/// Machines by the path of their workspace. None is kept as missing.
struct Kept {
    vms: StrMap<ManagedVm>,
}

impl View for Kept {
    type V = Machines;

    closed spec fn view(&self) -> Machines {
        self.vms@.map_values(|m: ManagedVm| m@)
    }
}

impl Kept {
    #[verifier::type_invariant]
    spec fn none_missing(self) -> bool {
        forall|key: Seq<char>| #[trigger]
            self.vms@.dom().contains(key) ==> self.vms@[key].state@ != StateModel::Missing
    }

    fn new() -> (k: Kept)
        ensures
            k@ == Machines::empty(),
    {
        let k = Kept { vms: StrMap::new() };
        assert(k@ =~= Machines::empty());
        k
    }

    fn get(&self, key: &str) -> (r: Option<&ManagedVm>)
        ensures
            match r {
                Some(m) => self@.dom().contains(key@) && m@ == self@[key@] && m@.state
                    != StateModel::Missing,
                None => !self@.dom().contains(key@),
            },
    {
        proof {
            use_type_invariant(self);
        }
        self.vms.get(key)
    }

    fn put(&mut self, key: &str, m: ManagedVm)
        requires
            m@.state != StateModel::Missing,
        ensures
            final(self)@ == old(self)@.insert(key@, m@),
    {
        proof {
            use_type_invariant(&*self);
        }
        let mut vms: StrMap<ManagedVm> = StrMap::new();
        std::mem::swap(&mut vms, &mut self.vms);
        vms.insert(key.to_owned(), m);
        self.vms = vms;
        assert(self@ =~= old(self)@.insert(key@, m@));
    }

    fn remove(&mut self, key: &str)
        ensures
            final(self)@ == old(self)@.remove(key@),
    {
        proof {
            use_type_invariant(&*self);
        }
        let mut vms: StrMap<ManagedVm> = StrMap::new();
        std::mem::swap(&mut vms, &mut self.vms);
        vms.remove(key);
        self.vms = vms;
        assert(self@ =~= old(self)@.remove(key@));
    }
}

/// The machines of all workspaces, by the path of the workspace.
pub struct VmManager<B: VmBackend> {
    backend: B,
    kept: Kept,
    timeouts: VmTimeouts,
}

/// What is known of all machines.
pub type Machines = Map<Seq<char>, ManagedModel>;

/// After the machine of `key` has come into a state. One that is not known
/// yet has no name.
pub open spec fn with_state(m: Machines, key: Seq<char>, state: StateModel) -> Machines {
    m.insert(
        key,
        ManagedModel {
            handle: if m.dom().contains(key) {
                m[key].handle
            } else {
                Seq::empty()
            },
            state,
        },
    )
}

/// After an attempt to boot the machine of `key`.
pub open spec fn after_boot(
    m: Machines,
    key: Seq<char>,
    outcome: Result<Seq<char>, FaultModel>,
) -> Machines {
    match outcome {
        Ok(handle) => m.insert(key, ManagedModel { handle, state: StateModel::WaitingSsh }),
        Err(why) => with_state(m, key, StateModel::Error("boot failed: "@ + why.text())),
    }
}

/// After an attempt to stop the machine of `key`.
pub open spec fn after_stop(
    m: Machines,
    key: Seq<char>,
    outcome: Result<(), FaultModel>,
) -> Machines {
    match outcome {
        Ok(_) => m.remove(key),
        Err(why) => if why.unknown() {
            m.remove(key)
        } else {
            with_state(m, key, StateModel::Error("stop failed: "@ + why.text()))
        },
    }
}

impl<B: VmBackend> View for VmManager<B> {
    type V = Machines;

    closed spec fn view(&self) -> Machines {
        self.kept@
    }
}

impl<B: VmBackend> VmManager<B> {
    /// The time limits.
    pub closed spec fn limits(&self) -> VmTimeouts {
        self.timeouts
    }

    /// The backend.
    pub closed spec fn back(&self) -> B {
        self.backend
    }

    /// The machine of a workspace is not known, or the backend may say that
    /// it cannot be used.
    pub open spec fn may_boot(&self, key: Seq<char>) -> bool {
        self@.dom().contains(key) ==> exists|s: StateModel| #[trigger]
            self.back().is_in(self@[key].handle, s) && !s.usable()
    }

    /// A manager without machines, with the usual time limits.
    pub fn new(backend: B) -> (m: VmManager<B>)
        ensures
            m@ == Machines::empty(),
            m.back() == backend,
            m.limits() == (VmTimeouts { boot: 30000, ssh: 20000, mount: 10000, poll: 500 }),
    {
        VmManager::with_timeouts(backend, VmTimeouts::default())
    }

    /// A manager without machines.
    pub fn with_timeouts(backend: B, timeouts: VmTimeouts) -> (m: VmManager<B>)
        ensures
            m@ == Machines::empty(),
            m.back() == backend,
            m.limits() == timeouts,
    {
        let m = VmManager { backend, kept: Kept::new(), timeouts };
        assert(m@ =~= Machines::empty());
        m
    }

    /// The state of a workspace's machine; it is missing exactly where none
    /// is kept. A workspace is known by its canonical path.
    pub fn state_of_workspace(&self, key: &str) -> (s: VmState)
        ensures
            s@ == (if self@.dom().contains(key@) {
                self@[key@].state
            } else {
                StateModel::Missing
            }),
            (s@ == StateModel::Missing) == !self@.dom().contains(key@),
    {
        match self.kept.get(key) {
            Some(m) => m.state.copy(),
            None => VmState::Missing,
        }
    }

    /// Where the machine of a workspace answers, after one look. What a known
    /// machine answers is the backend's.
    pub fn ssh_info(&self, key: &str) -> (r: Result<SshInfo, Failure>)
        ensures
            !self@.dom().contains(key@) ==> (r matches Err(e) && e@ == "no vm for "@ + key@),
            self@.dom().contains(key@) ==> exists|outcome: Result<SshModel, FaultModel>| #[trigger]
                self.back().reached(self@[key@].handle, outcome) && match outcome {
                    Ok(i) => r matches Ok(j) && j@ == i,
                    Err(why) => r matches Err(f) && f@ == why.text(),
                },
    {
        match self.kept.get(key) {
            Some(m) => {
                let probe = self.backend.wait_ssh(&m.handle);
                assert(self.back().reached(self@[key@].handle, backend::ssh_outcome(probe)));
                match probe {
                    Ok(i) => Ok(i),
                    Err(e) => Err(Failure { message: e.message() }),
                }
            },
            None => Err(Failure::because_of("no vm for ", key)),
        }
    }

    fn set_state(&mut self, key: &str, state: VmState)
        requires
            state@ != StateModel::Missing,
        ensures
            final(self)@ == with_state(old(self)@, key@, state@),
            final(self).limits() == old(self).limits(),
            final(self).back() == old(self).back(),
    {
        let handle = match self.kept.get(key) {
            Some(m) => m.handle.copy(),
            None => VmHandle { id: String::new() },
        };
        self.kept.put(key, ManagedVm { handle, state });
        assert(self@ =~= with_state(old(self)@, key@, state@));
    }

    /// The machine of a workspace, where the backend says that it can be
    /// used as it is.
    fn usable(&self, key: &str) -> (r: Option<VmHandle>)
        ensures
            match r {
                Some(h) => {
                    &&& self@.dom().contains(key@)
                    &&& h@ == self@[key@].handle
                    &&& exists|s: StateModel| #[trigger] self.back().is_in(h@, s) && s.usable()
                },
                None => self.may_boot(key@),
            },
    {
        match self.kept.get(key) {
            Some(m) => {
                let state = self.backend.state_of(&m.handle);
                assert(self.back().is_in(self@[key@].handle, state@));
                if state.is_usable() {
                    Some(m.handle.copy())
                } else {
                    None
                }
            },
            None => None,
        }
    }

    /// Begins to bring up the machine of a workspace. One that can be used
    /// stays as it is; any other is booted, and what the backend says of
    /// that decides.
    pub fn ensure_boot(&mut self, key: &str, cfg: &VmConfig) -> (r: EnsureStep)
        ensures
            final(self).limits() == old(self).limits(),
            match r {
                EnsureStep::Done(h) => {
                    &&& old(self)@.dom().contains(key@)
                    &&& h@ == old(self)@[key@].handle
                    &&& exists|s: StateModel| #[trigger] old(self).back().is_in(h@, s) && s.usable()
                    &&& final(self)@ == old(self)@
                    &&& final(self).back() == old(self).back()
                },
                EnsureStep::ProbeSsh(h, ms) => {
                    &&& ms == 0
                    &&& old(self).may_boot(key@)
                    &&& B::booted(old(self).back(), final(self).back(), *cfg, Ok(h@))
                    &&& final(self)@ == after_boot(old(self)@, key@, Ok(h@))
                },
                EnsureStep::Failed(f) => {
                    &&& old(self).may_boot(key@)
                    &&& exists|why: FaultModel|
                        {
                            &&& f@ == "boot failed: "@ + why.text()
                            &&& B::booted(old(self).back(), final(self).back(), *cfg, Err(why))
                            &&& final(self)@ == #[trigger] after_boot(old(self)@, key@, Err(why))
                        }
                },
                EnsureStep::CheckMount(_, _) => false,
            },
    {
        if let Some(h) = self.usable(key) {
            return EnsureStep::Done(h);
        }
        self.set_state(key, VmState::PullingImage);
        self.set_state(key, VmState::Booting);
        let ghost marked = self@;
        let outcome = self.backend.boot(cfg);
        assert(self@ == marked);
        proof {
            match &outcome {
                Ok(h) => {
                    assert(after_boot(marked, key@, Ok(h@)) =~= after_boot(old(self)@, key@, Ok(h@)));
                },
                Err(e) => {
                    assert(after_boot(marked, key@, Err(e@)) =~= after_boot(
                        old(self)@,
                        key@,
                        Err(e@),
                    ));
                },
            }
        }
        self.on_boot(key, outcome)
    }

    /// Takes note of what came of a boot.
    pub fn on_boot(&mut self, key: &str, outcome: Result<VmHandle, VmFault>) -> (r: EnsureStep)
        ensures
            final(self).limits() == old(self).limits(),
            final(self).back() == old(self).back(),
            match outcome {
                Ok(h) => {
                    &&& final(self)@ == after_boot(old(self)@, key@, Ok(h@))
                    &&& r matches EnsureStep::ProbeSsh(g, ms) && g@ == h@ && ms == 0
                },
                Err(e) => {
                    &&& final(self)@ == after_boot(old(self)@, key@, Err(e@))
                    &&& r matches EnsureStep::Failed(f) && f@ == "boot failed: "@ + e@.text()
                },
            },
    {
        match outcome {
            Ok(h) => {
                let handle = h.copy();
                self.kept.put(
                    key,
                    ManagedVm { handle: h.copy(), state: VmState::WaitingSsh },
                );
                assert(self@ =~= after_boot(old(self)@, key@, Ok(h@)));
                EnsureStep::ProbeSsh(handle, 0)
            },
            Err(e) => {
                let f = Failure::because_of("boot failed: ", e.message().as_str());
                self.set_state(key, VmState::Error(f.message.clone()));
                EnsureStep::Failed(f)
            },
        }
    }

    /// One look at whether the shell server of a machine answers. The answer
    /// is the backend's.
    pub fn probe_ssh(&self, handle: &VmHandle) -> (r: Result<SshInfo, VmFault>)
        ensures
            self.back().reached(handle@, backend::ssh_outcome(r)),
    {
        self.backend.wait_ssh(handle)
    }

    /// Takes note of a look at the shell server, `elapsed` milliseconds after
    /// the boot: an answer leads to the mount, none to another look until
    /// the time is up.
    pub fn on_ssh(
        &mut self,
        key: &str,
        handle: VmHandle,
        probe: Result<SshInfo, VmFault>,
        elapsed: u64,
    ) -> (r: EnsureStep)
        ensures
            final(self).limits() == old(self).limits(),
            final(self).back() == old(self).back(),
            match probe {
                Ok(_) => {
                    &&& final(self)@ == with_state(old(self)@, key@, StateModel::Mounting)
                    &&& r matches EnsureStep::CheckMount(h, ms) && h@ == handle@ && ms == 0
                },
                Err(e) => if elapsed < old(self).limits().ssh {
                    &&& final(self)@ == old(self)@
                    &&& r matches EnsureStep::ProbeSsh(h, ms) && h@ == handle@ && ms == old(
                        self).limits().poll
                } else {
                    &&& final(self)@ == with_state(
                        old(self)@,
                        key@,
                        StateModel::Error("ssh timeout: "@ + e@.text()),
                    )
                    &&& r matches EnsureStep::Failed(f) && f@ == "ssh timeout: "@ + e@.text()
                },
            },
    {
        match probe {
            Ok(_) => {
                self.set_state(key, VmState::Mounting);
                EnsureStep::CheckMount(handle, 0)
            },
            Err(e) => {
                if elapsed < self.timeouts.ssh {
                    return EnsureStep::ProbeSsh(handle, self.timeouts.poll);
                }
                let f = Failure::because_of("ssh timeout: ", e.message().as_str());
                self.set_state(key, VmState::Error(f.message.clone()));
                EnsureStep::Failed(f)
            },
        }
    }

    /// Takes note of a look at the mount, `elapsed` milliseconds after the
    /// shell server answered.
    pub fn on_mount(
        &mut self,
        key: &str,
        handle: VmHandle,
        check: Result<(), Failure>,
        elapsed: u64,
    ) -> (r: EnsureStep)
        ensures
            final(self).limits() == old(self).limits(),
            final(self).back() == old(self).back(),
            match check {
                Ok(_) => {
                    &&& final(self)@ == with_state(old(self)@, key@, StateModel::Ready)
                    &&& r matches EnsureStep::Done(h) && h@ == handle@
                },
                Err(e) => if elapsed < old(self).limits().mount {
                    &&& final(self)@ == old(self)@
                    &&& r matches EnsureStep::CheckMount(h, ms) && h@ == handle@ && ms == old(
                        self).limits().poll
                } else {
                    &&& final(self)@ == with_state(
                        old(self)@,
                        key@,
                        StateModel::Error("mount failed: "@ + e@),
                    )
                    &&& r matches EnsureStep::Failed(f) && f@ == "mount failed: "@ + e@
                },
            },
    {
        match check {
            Ok(_) => {
                self.set_state(key, VmState::Ready);
                EnsureStep::Done(handle)
            },
            Err(e) => {
                if elapsed < self.timeouts.mount {
                    return EnsureStep::CheckMount(handle, self.timeouts.poll);
                }
                let f = Failure::because_of("mount failed: ", e.message.as_str());
                self.set_state(key, VmState::Error(f.message.clone()));
                EnsureStep::Failed(f)
            },
        }
    }

    /// Stops and forgets the machine of a workspace: false where there was
    /// none, or the backend had forgotten it already. What the backend says
    /// decides; a machine that it could not stop is kept with the reason.
    pub fn stop(&mut self, key: &str) -> (r: Result<bool, Failure>)
        ensures
            final(self).limits() == old(self).limits(),
            !old(self)@.dom().contains(key@) ==> r == Ok::<bool, Failure>(false) && final(self)@
                == old(self)@ && final(self).back() == old(self).back(),
            old(self)@.dom().contains(key@) ==> exists|outcome: Result<(), FaultModel>|
                {
                    &&& B::halted(
                        old(self).back(),
                        final(self).back(),
                        old(self)@[key@].handle,
                        outcome,
                    )
                    &&& final(self)@ == #[trigger] after_stop(old(self)@, key@, outcome)
                    &&& stop_answer(r, outcome)
                },
    {
        let handle = match self.kept.get(key) {
            Some(m) => m.handle.copy(),
            None => {
                return Ok(false);
            },
        };
        let ghost before = self@;
        let outcome = self.backend.stop(&handle);
        assert(self@ == before);
        self.on_stop(key, outcome)
    }

    /// Takes note of what came of stopping a machine.
    pub fn on_stop(&mut self, key: &str, outcome: Result<(), VmFault>) -> (r: Result<bool, Failure>)
        requires
            old(self)@.dom().contains(key@),
        ensures
            final(self).limits() == old(self).limits(),
            final(self).back() == old(self).back(),
            final(self)@ == after_stop(old(self)@, key@, backend::stop_outcome(outcome)),
            stop_answer(r, backend::stop_outcome(outcome)),
    {
        let fault = match outcome {
            Ok(_) => {
                self.kept.remove(key);
                assert(self@ =~= old(self)@.remove(key@));
                return Ok(true);
            },
            Err(e) => e,
        };
        if fault.is_unknown() {
            self.kept.remove(key);
            assert(self@ =~= old(self)@.remove(key@));
            return Ok(false);
        }
        let f = Failure::because_of("stop failed: ", fault.message().as_str());
        self.set_state(key, VmState::Error(f.message.clone()));
        Err(f)
    }
}

/// The answer to stopping a machine.
pub open spec fn stop_answer(r: Result<bool, Failure>, outcome: Result<(), FaultModel>) -> bool {
    match outcome {
        Ok(_) => r == Ok::<bool, Failure>(true),
        Err(why) => if why.unknown() {
            r == Ok::<bool, Failure>(false)
        } else {
            r matches Err(f) && f@ == "stop failed: "@ + why.text()
        },
    }
}

/// Bringing up or stopping one machine leaves every other as it is.
pub proof fn other_machines_are_untouched(
    m: Machines,
    key: Seq<char>,
    other: Seq<char>,
    state: StateModel,
    boot: Result<Seq<char>, FaultModel>,
    stop: Result<(), FaultModel>,
)
    requires
        key != other,
    ensures
        with_state(m, key, state).dom().contains(other) == m.dom().contains(other),
        after_boot(m, key, boot).dom().contains(other) == m.dom().contains(other),
        after_stop(m, key, stop).dom().contains(other) == m.dom().contains(other),
        m.dom().contains(other) ==> with_state(m, key, state)[other] == m[other],
        m.dom().contains(other) ==> after_boot(m, key, boot)[other] == m[other],
        m.dom().contains(other) ==> after_stop(m, key, stop)[other] == m[other],
{
}

/// What fails is kept: after a failed boot or stop the machine of the
/// workspace is known, also where none was before, and its state is the
/// reason.
pub proof fn failures_are_kept(m: Machines, key: Seq<char>, why: FaultModel)
    ensures
        after_boot(m, key, Err(why)).dom().contains(key),
        after_boot(m, key, Err(why))[key].state == StateModel::Error("boot failed: "@ + why.text()),
        !why.unknown() ==> after_stop(m, key, Err(why)).dom().contains(key) && after_stop(
            m,
            key,
            Err(why),
        )[key].state == StateModel::Error("stop failed: "@ + why.text()),
{
}

/// No machine is kept as missing.
pub open spec fn none_missing(m: Machines) -> bool {
    forall|key: Seq<char>| #[trigger] m.dom().contains(key) ==> m[key].state != StateModel::Missing
}

/// A machine is kept from its first boot until it is stopped, whatever comes
/// of the boot, and never as missing.
pub proof fn kept_from_boot_to_stop(
    m: Machines,
    key: Seq<char>,
    boot: Result<Seq<char>, FaultModel>,
    stop: Result<(), FaultModel>,
)
    requires
        none_missing(m),
    ensures
        none_missing(after_boot(m, key, boot)),
        none_missing(after_stop(m, key, stop)),
        after_boot(m, key, boot).dom().contains(key),
        stop is Ok ==> !after_stop(m, key, stop).dom().contains(key),
{
}

/// What becomes of a machine: one that booted waits under its handle, one that
/// did not is kept with what went wrong, and one that was stopped, or was not
/// known any more, is gone.
pub proof fn machines_follow_their_outcome(
    m: Machines,
    key: Seq<char>,
    handle: Seq<char>,
    why: FaultModel,
)
    ensures
        after_boot(m, key, Ok(handle)).dom() == m.dom().insert(key),
        after_boot(m, key, Ok(handle))[key].handle == handle,
        after_boot(m, key, Ok(handle))[key].state == StateModel::WaitingSsh,
        after_boot(m, key, Err(why))[key].state is Error,
        m.dom().contains(key) ==> after_boot(m, key, Err(why))[key].handle == m[key].handle,
        !after_stop(m, key, Ok(())).dom().contains(key),
        why.unknown() ==> !after_stop(m, key, Err(why)).dom().contains(key),
        !why.unknown() ==> after_stop(m, key, Err(why))[key].state is Error,
        m.dom().contains(key) && !why.unknown() ==> after_stop(m, key, Err(why))[key].handle
            == m[key].handle,
{
}

/// Stopping says whether there was anything to stop, and fails only where it
/// could not be stopped.
pub proof fn stopping_says_what_it_did(r: Result<bool, Failure>, outcome: Result<(), FaultModel>)
    requires
        stop_answer(r, outcome),
    ensures
        outcome is Ok ==> (r matches Ok(b) && b),
        (outcome matches Err(why) && why.unknown()) ==> (r matches Ok(b) && !b),
        (outcome matches Err(why) && !why.unknown()) ==> r is Err,
{
}

} // verus!
