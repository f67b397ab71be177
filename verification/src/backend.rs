//! Machine backends: the face that the manager sees, and one in memory.
use crate::config::{SshInfo, SshModel, StateModel, VmConfig, VmHandle, VmState};
use crate::sorted_map::StrMap;
use crate::text;
use vstd::prelude::*;
use vstd::string::*;

verus! {

/// What can be wrong with a machine.
#[derive(Debug, Clone, PartialEq, Eq)]
pub enum VmError {
    UnknownHandle(String),
    AlreadyStopped(String),
    Backend(String),
}

/// What a [`VmError`] holds.
pub enum ErrorModel {
    UnknownHandle(Seq<char>),
    AlreadyStopped(Seq<char>),
    Backend(Seq<char>),
}

impl View for VmError {
    type V = ErrorModel;

    open spec fn view(&self) -> ErrorModel {
        match self {
            VmError::UnknownHandle(id) => ErrorModel::UnknownHandle(id@),
            VmError::AlreadyStopped(id) => ErrorModel::AlreadyStopped(id@),
            VmError::Backend(what) => ErrorModel::Backend(what@),
        }
    }
}

impl ErrorModel {
    /// The error in words.
    pub open spec fn text(self) -> Seq<char> {
        match self {
            ErrorModel::UnknownHandle(id) => "unknown vm handle: "@ + id,
            ErrorModel::AlreadyStopped(id) => "vm "@ + id + " already stopped"@,
            ErrorModel::Backend(what) => "backend failure: "@ + what,
        }
    }
}

impl VmError {
    /// The error in words.
    pub fn message(&self) -> (s: String)
        ensures
            s@ == self@.text(),
    {
        match self {
            VmError::UnknownHandle(id) => {
                let mut s = "unknown vm handle: ".to_owned();
                s.append(id.as_str());
                s
            },
            VmError::AlreadyStopped(id) => {
                let mut s = "vm ".to_owned();
                s.append(id.as_str());
                s.append(" already stopped");
                s
            },
            VmError::Backend(what) => {
                let mut s = "backend failure: ".to_owned();
                s.append(what.as_str());
                s
            },
        }
    }
}

/// Why a backend refused: an error of the machine, or anything else.
#[derive(Debug, Clone, PartialEq, Eq)]
pub enum VmFault {
    Vm(VmError),
    Other(String),
}

/// What a [`VmFault`] holds.
pub enum FaultModel {
    Vm(ErrorModel),
    Other(Seq<char>),
}

impl View for VmFault {
    type V = FaultModel;

    open spec fn view(&self) -> FaultModel {
        match self {
            VmFault::Vm(e) => FaultModel::Vm(e@),
            VmFault::Other(why) => FaultModel::Other(why@),
        }
    }
}

impl FaultModel {
    /// The fault in words.
    pub open spec fn text(self) -> Seq<char> {
        match self {
            FaultModel::Vm(e) => e.text(),
            FaultModel::Other(why) => why,
        }
    }

    /// The backend does not know the machine.
    pub open spec fn unknown(self) -> bool {
        self matches FaultModel::Vm(e) && e is UnknownHandle
    }
}

impl VmFault {
    /// The fault in words.
    pub fn message(&self) -> (s: String)
        ensures
            s@ == self@.text(),
    {
        match self {
            VmFault::Vm(e) => e.message(),
            VmFault::Other(why) => why.clone(),
        }
    }

    /// Whether the backend does not know the machine.
    pub fn is_unknown(&self) -> (r: bool)
        ensures
            r == self@.unknown(),
    {
        matches!(self, VmFault::Vm(VmError::UnknownHandle(_)))
    }
}

/// An engine that runs machines. What each call does is stated by the engine
/// itself; where it states nothing, nothing is promised.
pub trait VmBackend: Send + Sized {
    /// Booting a machine; a success is the name of the machine.
    open spec fn booted(
        was: Self,
        now: Self,
        cfg: VmConfig,
        outcome: Result<Seq<char>, FaultModel>,
    ) -> bool {
        true
    }

    /// What one look at the shell server may give.
    open spec fn reached(&self, id: Seq<char>, outcome: Result<SshModel, FaultModel>) -> bool {
        true
    }

    /// What may be said of a machine's state.
    open spec fn is_in(&self, id: Seq<char>, state: StateModel) -> bool {
        true
    }

    /// Stopping a machine.
    open spec fn halted(
        was: Self,
        now: Self,
        id: Seq<char>,
        outcome: Result<(), FaultModel>,
    ) -> bool {
        true
    }

    /// Boots a machine.
    fn boot(&mut self, cfg: &VmConfig) -> (r: Result<VmHandle, VmFault>)
        ensures
            Self::booted(*old(self), *final(self), *cfg, boot_outcome(r)),
    ;

    /// One look at whether the shell server answers.
    fn wait_ssh(&self, handle: &VmHandle) -> (r: Result<SshInfo, VmFault>)
        ensures
            self.reached(handle@, ssh_outcome(r)),
    ;

    /// The state of a machine.
    fn state_of(&self, handle: &VmHandle) -> (s: VmState)
        ensures
            self.is_in(handle@, s@),
    ;

    /// Stops a machine.
    fn stop(&mut self, handle: &VmHandle) -> (r: Result<(), VmFault>)
        ensures
            Self::halted(*old(self), *final(self), handle@, stop_outcome(r)),
    ;
}

/// What came of a boot.
pub open spec fn boot_outcome(r: Result<VmHandle, VmFault>) -> Result<Seq<char>, FaultModel> {
    match r {
        Ok(h) => Ok(h@),
        Err(e) => Err(e@),
    }
}

/// What came of a look at the shell server.
pub open spec fn ssh_outcome(r: Result<SshInfo, VmFault>) -> Result<SshModel, FaultModel> {
    match r {
        Ok(i) => Ok(i@),
        Err(e) => Err(e@),
    }
}

/// What came of a stop.
pub open spec fn stop_outcome(r: Result<(), VmFault>) -> Result<(), FaultModel> {
    match r {
        Ok(_) => Ok(()),
        Err(e) => Err(e@),
    }
}

/// A backend in memory: machines are ready at once.
pub struct MockBackend {
    states: StrMap<VmState>,
    ports: StrMap<u16>,
    next_id: u64,
    next_port: u16,
}

/// The name of the `n`th machine.
pub open spec fn mock_id(n: u64) -> Seq<char> {
    "mock-vm-"@ + text::dec(n as nat)
}

/// Machines with different numbers have different names.
pub proof fn mock_ids_differ(a: u64, b: u64)
    requires
        a != b,
    ensures
        mock_id(a) != mock_id(b),
{
    if mock_id(a) == mock_id(b) {
        let k = "mock-vm-"@.len() as int;
        assert(mock_id(a).skip(k) =~= text::dec(a as nat));
        assert(mock_id(b).skip(k) =~= text::dec(b as nat));
        text::dec_injective(a as nat, b as nat);
    }
}

/// The number after `n`; the last is followed by 0.
pub open spec fn next_u64(n: u64) -> u64 {
    if n == u64::MAX {
        0
    } else {
        (n + 1) as u64
    }
}

/// The number after `n`; the last is followed by 0.
pub open spec fn next_u16(n: u16) -> u16 {
    if n == u16::MAX {
        0
    } else {
        (n + 1) as u16
    }
}

impl MockBackend {
    /// The state of a machine.
    pub closed spec fn state(&self, id: Seq<char>) -> StateModel {
        if self.states@.dom().contains(id) {
            self.states@[id]@
        } else {
            StateModel::Missing
        }
    }

    /// The port of a machine.
    pub closed spec fn port(&self, id: Seq<char>) -> Option<u16> {
        if self.ports@.dom().contains(id) {
            Some(self.ports@[id])
        } else {
            None
        }
    }

    /// The machine was booted at some time.
    pub closed spec fn knows(&self, id: Seq<char>) -> bool {
        self.states@.dom().contains(id)
    }

    /// The number of the next machine.
    pub closed spec fn upcoming(&self) -> u64 {
        self.next_id
    }

    /// The port of the next machine.
    pub closed spec fn upcoming_port(&self) -> u16 {
        self.next_port
    }

    /// A backend without machines.
    pub fn new() -> (b: MockBackend)
        ensures
            forall|id: Seq<char>| b.state(id) == StateModel::Missing,
            forall|id: Seq<char>| b.port(id) is None,
            forall|id: Seq<char>| !b.knows(id),
            b.upcoming() == 1,
            b.upcoming_port() == 4100,
    {
        MockBackend { states: StrMap::new(), ports: StrMap::new(), next_id: 1, next_port: 4100 }
    }
}

impl Default for MockBackend {
    fn default() -> (b: MockBackend)
        ensures
            forall|id: Seq<char>| !b.knows(id),
            b.upcoming() == 1,
            b.upcoming_port() == 4100,
    {
        MockBackend::new()
    }
}

impl VmBackend for MockBackend {
    open spec fn booted(
        was: Self,
        now: Self,
        cfg: VmConfig,
        outcome: Result<Seq<char>, FaultModel>,
    ) -> bool {
        let id = mock_id(was.upcoming());
        &&& outcome == Ok::<Seq<char>, FaultModel>(id)
        &&& now.upcoming() == next_u64(was.upcoming())
        &&& now.upcoming_port() == next_u16(was.upcoming_port())
        &&& now.knows(id)
        &&& now.state(id) == StateModel::Ready
        &&& now.port(id) == Some(was.upcoming_port())
        &&& forall|other: Seq<char>|
            other != id ==> #[trigger] now.state(other) == was.state(other) && now.port(other)
                == was.port(other) && now.knows(other) == was.knows(other)
    }

    open spec fn reached(&self, id: Seq<char>, outcome: Result<SshModel, FaultModel>) -> bool {
        outcome == (match self.port(id) {
            Some(p) => Ok::<SshModel, FaultModel>(
                SshModel { host: "127.0.0.1"@, port: p, user: "vm"@ },
            ),
            None => Err(FaultModel::Vm(ErrorModel::UnknownHandle(id))),
        })
    }

    open spec fn is_in(&self, id: Seq<char>, state: StateModel) -> bool {
        state == self.state(id)
    }

    open spec fn halted(
        was: Self,
        now: Self,
        id: Seq<char>,
        outcome: Result<(), FaultModel>,
    ) -> bool {
        if !was.knows(id) {
            &&& now == was
            &&& outcome == Err::<(), FaultModel>(FaultModel::Vm(ErrorModel::UnknownHandle(id)))
        } else if was.state(id).terminal() {
            &&& now == was
            &&& outcome == Err::<(), FaultModel>(FaultModel::Vm(ErrorModel::AlreadyStopped(id)))
        } else {
            &&& outcome == Ok::<(), FaultModel>(())
            &&& now.state(id) == StateModel::Stopped
            &&& now.upcoming() == was.upcoming()
            &&& now.upcoming_port() == was.upcoming_port()
            &&& forall|other: Seq<char>|
                #![trigger now.state(other)]
                #![trigger now.port(other)]
                #![trigger now.knows(other)]
                {
                    &&& other != id ==> now.state(other) == was.state(other)
                    &&& now.port(other) == was.port(other)
                    &&& now.knows(other) == was.knows(other)
                }
        }
    }

    /// Boots the next machine under the next port.
    fn boot(&mut self, cfg: &VmConfig) -> (r: Result<VmHandle, VmFault>) {
        let mut id = "mock-vm-".to_owned();
        id.append(text::decimal(self.next_id).as_str());
        let port: u16 = self.next_port;
        self.next_id = self.next_id.wrapping_add(1);
        self.next_port = self.next_port.wrapping_add(1);
        self.ports.insert(id.clone(), port);
        self.states.insert(id.clone(), VmState::Ready);
        Ok(VmHandle { id })
    }

    fn wait_ssh(&self, handle: &VmHandle) -> (r: Result<SshInfo, VmFault>) {
        match self.ports.get(handle.id.as_str()) {
            Some(p) => Ok(
                SshInfo { host: "127.0.0.1".to_owned(), port: *p, user: "vm".to_owned() },
            ),
            None => Err(VmFault::Vm(VmError::UnknownHandle(handle.id.clone()))),
        }
    }

    fn state_of(&self, handle: &VmHandle) -> (s: VmState) {
        match self.states.get(handle.id.as_str()) {
            Some(s) => s.copy(),
            None => VmState::Missing,
        }
    }

    /// Stops a machine that runs. Stopping it again is an error.
    fn stop(&mut self, handle: &VmHandle) -> (r: Result<(), VmFault>) {
        let terminal = match self.states.get(handle.id.as_str()) {
            None => {
                return Err(VmFault::Vm(VmError::UnknownHandle(handle.id.clone())));
            },
            Some(s) => s.is_terminal(),
        };
        if terminal {
            return Err(VmFault::Vm(VmError::AlreadyStopped(handle.id.clone())));
        }
        self.states.insert(handle.id.clone(), VmState::Stopped);
        Ok(())
    }
}

/// A machine that booted is ready and can be reached at a port of its own; one
/// that was halted is stopped and cannot be halted again; and no machine that
/// is not known can be reached or halted.
pub proof fn mock_machines_boot_and_halt(
    was: MockBackend,
    up: MockBackend,
    down: MockBackend,
    last: MockBackend,
    cfg: VmConfig,
    id: Seq<char>,
    ssh: Result<SshModel, FaultModel>,
    first: Result<(), FaultModel>,
    second: Result<(), FaultModel>,
)
    requires
        MockBackend::booted(was, up, cfg, Ok(id)),
        up.reached(id, ssh),
        MockBackend::halted(up, down, id, first),
        MockBackend::halted(down, last, id, second),
    ensures
        up.is_in(id, StateModel::Ready),
        ssh matches Ok(s) && s.port == was.upcoming_port() && s.host == "127.0.0.1"@ && s.user
            == "vm"@,
        first is Ok,
        down.is_in(id, StateModel::Stopped),
        second matches Err(why) && why is Vm && !why.unknown(),
        last == down,
{
    assert(down.knows(id) == up.knows(id));
}

/// A machine that is not known is an error of its own kind.
pub proof fn unknown_machines_are_told_apart(
    b: MockBackend,
    now: MockBackend,
    id: Seq<char>,
    outcome: Result<(), FaultModel>,
)
    requires
        !b.knows(id),
        MockBackend::halted(b, now, id, outcome),
    ensures
        outcome matches Err(why) && why.unknown(),
        now == b,
{
}

} // verus!
