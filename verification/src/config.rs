//! Guest machines: configuration, handles, endpoints and states.
use vstd::prelude::*;
use vstd::string::*;

verus! {

/// Reference to a machine image.
#[derive(Debug, Clone, PartialEq, Eq)]
pub struct ImageRef(pub String);

/// Network policy of a machine. Only `Open` is enforced.
#[derive(Debug, Clone, Copy, PartialEq, Eq, Structural)]
pub enum NetPolicy {
    Open,
    Balanced,
    Locked,
}

impl Default for NetPolicy {
    fn default() -> (p: NetPolicy)
        ensures
            p == NetPolicy::Open,
    {
        NetPolicy::Open
    }
}

/// How to boot the machine of a workspace.
#[derive(Debug, Clone)]
pub struct VmConfig {
    pub vcpu: u8,
    pub mem_mb: u32,
    pub image: ImageRef,
    /// Directory that the machine mounts.
    pub mount_repo: String,
    pub net: NetPolicy,
    /// Public key made for this boot.
    pub ssh_pubkey: String,
}

impl Default for VmConfig {
    fn default() -> (c: VmConfig)
        ensures
            c.vcpu == 2,
            c.mem_mb == 2048,
            c.image.0@ == "ade-ubuntu-24.04:v1"@,
            c.mount_repo@ == "."@,
            c.net == NetPolicy::Open,
            c.ssh_pubkey@ == Seq::<char>::empty(),
    {
        VmConfig {
            vcpu: 2,
            mem_mb: 2048,
            image: ImageRef("ade-ubuntu-24.04:v1".to_owned()),
            mount_repo: ".".to_owned(),
            net: NetPolicy::Open,
            ssh_pubkey: String::new(),
        }
    }
}

impl VmConfig {
    /// The configuration to boot for a directory, with a key for this boot.
    pub fn for_repo(mount_repo: &str, ssh_pubkey: &str) -> (c: VmConfig)
        ensures
            c.vcpu == 2,
            c.mem_mb == 2048,
            c.image.0@ == "ade-ubuntu-24.04:v1"@,
            c.mount_repo@ == mount_repo@,
            c.net == NetPolicy::Open,
            c.ssh_pubkey@ == ssh_pubkey@,
    {
        let mut c = VmConfig::default();
        c.mount_repo = mount_repo.to_owned();
        c.ssh_pubkey = ssh_pubkey.to_owned();
        c
    }
}

/// Handle of a booted machine.
#[derive(Debug, Clone, PartialEq, Eq, Hash)]
pub struct VmHandle {
    pub id: String,
}

impl View for VmHandle {
    type V = Seq<char>;

    open spec fn view(&self) -> Seq<char> {
        self.id@
    }
}

impl VmHandle {
    /// A copy of the handle.
    pub fn copy(&self) -> (h: VmHandle)
        ensures
            h@ == self@,
    {
        VmHandle { id: self.id.clone() }
    }
}

/// Where the shell server of a machine answers.
#[derive(Debug, Clone, PartialEq, Eq)]
pub struct SshInfo {
    pub host: String,
    pub port: u16,
    pub user: String,
}

/// What an [`SshInfo`] holds.
pub struct SshModel {
    pub host: Seq<char>,
    pub port: u16,
    pub user: Seq<char>,
}

impl View for SshInfo {
    type V = SshModel;

    open spec fn view(&self) -> SshModel {
        SshModel { host: self.host@, port: self.port, user: self.user@ }
    }
}

/// State of a machine, for badges and for the code that runs it.
#[derive(Debug, Clone, PartialEq, Eq)]
pub enum VmState {
    Missing,
    PullingImage,
    Booting,
    WaitingSsh,
    Mounting,
    Ready,
    Running,
    Stopped,
    Error(String),
}

/// What a [`VmState`] holds.
pub enum StateModel {
    Missing,
    PullingImage,
    Booting,
    WaitingSsh,
    Mounting,
    Ready,
    Running,
    Stopped,
    Error(Seq<char>),
}

impl View for VmState {
    type V = StateModel;

    open spec fn view(&self) -> StateModel {
        match self {
            VmState::Missing => StateModel::Missing,
            VmState::PullingImage => StateModel::PullingImage,
            VmState::Booting => StateModel::Booting,
            VmState::WaitingSsh => StateModel::WaitingSsh,
            VmState::Mounting => StateModel::Mounting,
            VmState::Ready => StateModel::Ready,
            VmState::Running => StateModel::Running,
            VmState::Stopped => StateModel::Stopped,
            VmState::Error(e) => StateModel::Error(e@),
        }
    }
}

impl StateModel {
    /// Nothing follows this state but a new boot.
    pub open spec fn terminal(self) -> bool {
        self is Stopped || self is Error
    }

    /// The machine can be used.
    pub open spec fn usable(self) -> bool {
        self is Ready || self is Running
    }
}

impl Default for VmState {
    fn default() -> (s: VmState)
        ensures
            s@ == StateModel::Missing,
    {
        VmState::Missing
    }
}

impl VmState {
    /// Whether nothing follows this state but a new boot.
    pub fn is_terminal(&self) -> (r: bool)
        ensures
            r == self@.terminal(),
    {
        matches!(self, VmState::Stopped | VmState::Error(_))
    }

    /// Whether the machine can be used.
    pub fn is_usable(&self) -> (r: bool)
        ensures
            r == self@.usable(),
    {
        matches!(self, VmState::Ready | VmState::Running)
    }

    /// A copy of the state.
    pub fn copy(&self) -> (s: VmState)
        ensures
            s@ == self@,
    {
        match self {
            VmState::Missing => VmState::Missing,
            VmState::PullingImage => VmState::PullingImage,
            VmState::Booting => VmState::Booting,
            VmState::WaitingSsh => VmState::WaitingSsh,
            VmState::Mounting => VmState::Mounting,
            VmState::Ready => VmState::Ready,
            VmState::Running => VmState::Running,
            VmState::Stopped => VmState::Stopped,
            VmState::Error(e) => VmState::Error(e.clone()),
        }
    }
}

/// A machine is over once it has stopped or failed, and of use once it is
/// ready or runs; never both.
pub proof fn machines_are_over_or_of_use(s: StateModel)
    ensures
        s.terminal() <==> s is Stopped || s is Error,
        s.usable() <==> s is Ready || s is Running,
        !(s.terminal() && s.usable()),
{
}

} // verus!
