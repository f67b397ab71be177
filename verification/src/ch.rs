//! Machines run by the Cloud Hypervisor daemon: assets, configuration, the
//! order of a boot and what the daemon reports.
use crate::backend;
use crate::backend::{ErrorModel, VmError};
use crate::config::{SshInfo, SshModel, StateModel, VmConfig, VmHandle, VmState};
use crate::image::ImageSpec;
use crate::outside;
use crate::outside::Failure;
use crate::paths;
use crate::sbx;
use crate::seed;
use crate::sorted_map::StrMap;
use crate::text;
use vstd::prelude::*;
use vstd::string::*;

verus! {

/// Address of the guest on its socket; 2 is the host.
pub const GUEST_CID: u32 = 3;

/// Port of the guest behind which its shell server answers.
pub const GUEST_SSH_PORT: u32 = 2222;

/// What the environment says of a file that machines need.
#[derive(Debug, Clone)]
pub struct AssetEnv {
    /// A local file.
    pub path: Option<String>,
    /// Whether it is there.
    pub path_exists: bool,
    /// Where it can be fetched.
    pub url: Option<String>,
    /// Its checksum.
    pub sha256: Option<String>,
}

/// Where a file that machines need comes from.
#[derive(Debug, Clone)]
pub enum AssetSource {
    Local(String),
    Download(ImageSpec),
}

/// The variables that speak of a file, and the name it is kept under.
pub struct AssetNames {
    pub what: Seq<char>,
    pub path_var: Seq<char>,
    pub url_var: Seq<char>,
    pub sha_var: Seq<char>,
    pub filename: Seq<char>,
}

/// How the kernel is found.
pub open spec fn kernel_names() -> AssetNames {
    AssetNames {
        what: "kernel"@,
        path_var: "ADE_VM_KERNEL"@,
        url_var: "ADE_VM_KERNEL_URL"@,
        sha_var: "ADE_VM_KERNEL_SHA256"@,
        filename: "vmlinux"@,
    }
}

/// How the image is found.
pub open spec fn image_names() -> AssetNames {
    AssetNames {
        what: "image"@,
        path_var: "ADE_VM_IMAGE"@,
        url_var: "ADE_VM_IMAGE_URL"@,
        sha_var: "ADE_VM_IMAGE_SHA256"@,
        filename: "rootfs.img"@,
    }
}

/// `r` is where a file comes from: a local file that is there, else a
/// download, else an error that says what to set.
pub open spec fn asset_found(
    n: AssetNames,
    env: AssetEnv,
    r: Result<AssetSource, Failure>,
) -> bool {
    match env.path {
        Some(p) => if env.path_exists {
            r matches Ok(AssetSource::Local(q)) && q@ == p@
        } else {
            r matches Err(f) && f@ == n.path_var + "="@ + p@
                + " missing; fix the path or unset it"@
        },
        None => match env.url {
            Some(u) => r matches Ok(AssetSource::Download(d)) && d.url@ == u@ && d.sha256@ == (
            match env.sha256 {
                Some(s) => s@,
                None => "skip"@,
            }) && d.filename@ == n.filename && d.max_time_secs == 600,
            None => r matches Err(f) && f@ == "no "@ + n.what + ": set "@ + n.path_var
                + " to a local file or "@ + n.url_var + "(+"@ + n.sha_var + ") to download"@,
        },
    }
}

/// Where a file that machines need comes from.
pub fn resolve_one(
    what: &str,
    path_var: &str,
    url_var: &str,
    sha_var: &str,
    filename: &str,
    env: &AssetEnv,
) -> (r: Result<AssetSource, Failure>)
    ensures
        asset_found(
            (AssetNames {
                what: what@,
                path_var: path_var@,
                url_var: url_var@,
                sha_var: sha_var@,
                filename: filename@,
            }),
            *env,
            r,
        ),
{
    if let Some(p) = &env.path {
        if env.path_exists {
            return Ok(AssetSource::Local(p.clone()));
        }
        let mut message = path_var.to_owned();
        message.append("=");
        message.append(p.as_str());
        message.append(" missing; fix the path or unset it");
        return Err(Failure { message });
    }
    match &env.url {
        Some(u) => {
            let sha256 = match &env.sha256 {
                Some(s) => s.clone(),
                None => "skip".to_owned(),
            };
            Ok(
                AssetSource::Download(
                    ImageSpec {
                        url: u.clone(),
                        sha256,
                        filename: filename.to_owned(),
                        max_time_secs: 600,
                    },
                ),
            )
        },
        None => {
            let mut message = "no ".to_owned();
            message.append(what);
            message.append(": set ");
            message.append(path_var);
            message.append(" to a local file or ");
            message.append(url_var);
            message.append("(+");
            message.append(sha_var);
            message.append(") to download");
            Err(Failure { message })
        },
    }
}

/// What comes next in finding the kernel and the image.
#[derive(Debug)]
pub enum AssetStep {
    /// Fetch this file, and add what came of it.
    Fetch(ImageSpec),
    /// Both are there.
    Found { kernel: String, image: String },
    /// One cannot be had, and this is why.
    Failed(Failure),
}

/// What is known of one file by its source and its download, if there was one:
/// where it is, why it cannot be had, or that it is to be fetched.
pub open spec fn asset_outcome(
    source: Result<AssetSource, Failure>,
    fetched: Option<Result<String, Failure>>,
) -> Option<Result<Seq<char>, Seq<char>>> {
    match source {
        Err(f) => Some(Err(f@)),
        Ok(AssetSource::Local(p)) => Some(Ok(p@)),
        Ok(AssetSource::Download(_)) => match fetched {
            Some(Ok(p)) => Some(Ok(p@)),
            Some(Err(f)) => Some(Err(f@)),
            None => None,
        },
    }
}

/// The download at place `i` of those that were made.
pub open spec fn download_at(fetched: Seq<Result<String, Failure>>, i: int) -> Option<
    Result<String, Failure>,
> {
    if i < fetched.len() {
        Some(fetched[i])
    } else {
        None
    }
}

/// `s` comes next by the sources of both files and the downloads made so far.
/// The image is looked at once the kernel is there.
pub open spec fn assets_next(
    kernel: Result<AssetSource, Failure>,
    image: Result<AssetSource, Failure>,
    fetched: Seq<Result<String, Failure>>,
    s: AssetStep,
) -> bool {
    let second: int = if kernel matches Ok(AssetSource::Download(_)) {
        1
    } else {
        0
    };
    match asset_outcome(kernel, download_at(fetched, 0)) {
        None => s matches AssetStep::Fetch(d) && kernel == Ok::<AssetSource, Failure>(
            AssetSource::Download(d),
        ),
        Some(Err(why)) => s matches AssetStep::Failed(f) && f@ == why,
        Some(Ok(k)) => match asset_outcome(image, download_at(fetched, second)) {
            None => s matches AssetStep::Fetch(d) && image == Ok::<AssetSource, Failure>(
                AssetSource::Download(d),
            ),
            Some(Err(why)) => s matches AssetStep::Failed(f) && f@ == why,
            Some(Ok(i)) => s matches AssetStep::Found { kernel, image } && kernel@ == k && image@
                == i,
        },
    }
}

/// What comes next in finding the kernel and the image; `fetched` is what came
/// of the downloads so far, in their order. The image is looked at once the
/// kernel is there, so the kernel's error comes first.
pub fn resolve_assets(
    kernel: &AssetEnv,
    image: &AssetEnv,
    fetched: &Vec<Result<String, Failure>>,
) -> (s: AssetStep)
    ensures
        exists|k: Result<AssetSource, Failure>, i: Result<AssetSource, Failure>|
            {
                &&& asset_found(kernel_names(), *kernel, k)
                &&& asset_found(image_names(), *image, i)
                &&& #[trigger] assets_next(k, i, fetched@, s)
            },
{
    let k = resolve_one(
        "kernel",
        "ADE_VM_KERNEL",
        "ADE_VM_KERNEL_URL",
        "ADE_VM_KERNEL_SHA256",
        "vmlinux",
        kernel,
    );
    let i = resolve_one(
        "image",
        "ADE_VM_IMAGE",
        "ADE_VM_IMAGE_URL",
        "ADE_VM_IMAGE_SHA256",
        "rootfs.img",
        image,
    );
    let ghost sources = (k, i);
    let second: usize = match &k {
        Ok(AssetSource::Download(_)) => 1,
        _ => 0,
    };
    let s = match asset_at(k, fetched, 0) {
        AssetAt::Fetch(d) => AssetStep::Fetch(d),
        AssetAt::Failed(f) => AssetStep::Failed(f),
        AssetAt::There(kernel) => match asset_at(i, fetched, second) {
            AssetAt::Fetch(d) => AssetStep::Fetch(d),
            AssetAt::Failed(f) => AssetStep::Failed(f),
            AssetAt::There(image) => AssetStep::Found { kernel, image },
        },
    };
    assert(assets_next(sources.0, sources.1, fetched@, s));
    s
}

enum AssetAt {
    There(String),
    Failed(Failure),
    Fetch(ImageSpec),
}

fn asset_at(
    source: Result<AssetSource, Failure>,
    fetched: &Vec<Result<String, Failure>>,
    i: usize,
) -> (a: AssetAt)
    ensures
        match asset_outcome(source, download_at(fetched@, i as int)) {
            None => a matches AssetAt::Fetch(d) && source == Ok::<AssetSource, Failure>(
                AssetSource::Download(d),
            ),
            Some(Err(why)) => a matches AssetAt::Failed(f) && f@ == why,
            Some(Ok(p)) => a matches AssetAt::There(q) && q@ == p,
        },
{
    match source {
        Err(f) => AssetAt::Failed(f),
        Ok(AssetSource::Local(p)) => AssetAt::There(p),
        Ok(AssetSource::Download(d)) => {
            if i < fetched.len() {
                match &fetched[i] {
                    Ok(p) => AssetAt::There(p.clone()),
                    Err(f) => AssetAt::Failed(Failure::because(f.message.as_str())),
                }
            } else {
                AssetAt::Fetch(d)
            }
        },
    }
}

/// The configuration of a machine as the daemon takes it.
#[derive(Debug, Clone, PartialEq, Eq)]
pub struct VmPayload {
    pub boot_vcpus: u8,
    /// Bytes of memory.
    pub memory_size: u64,
    pub kernel: String,
    pub cmdline: String,
    pub disks: Vec<String>,
    pub fs_tag: String,
    pub fs_socket: String,
    pub fs_num_queues: u64,
    pub fs_queue_size: u64,
    pub rng_src: String,
    pub vsock_cid: u32,
    /// Host socket of the guest's socket, where one is asked for.
    pub vsock_socket: Option<String>,
}

/// The configuration of a machine: its processors and memory, its kernel,
/// the image and the first-boot volume as disks, and the shared repository.
pub fn build_vm_config(
    cfg: &VmConfig,
    kernel: &str,
    image: &str,
    seed_iso: &str,
    virtiofs_sock: &str,
    vsock_sock: Option<&str>,
) -> (p: VmPayload)
    ensures
        p.boot_vcpus == cfg.vcpu,
        p.memory_size == cfg.mem_mb * 1024 * 1024,
        p.kernel@ == kernel@,
        p.cmdline@ == "console=hvc0 root=/dev/vda1 rw"@,
        text::texts(p.disks@) == seq![image@, seed_iso@],
        p.fs_tag@ == seed::fs_tag(),
        p.fs_socket@ == virtiofs_sock@,
        p.fs_num_queues == 1,
        p.fs_queue_size == 1024,
        p.rng_src@ == "/dev/urandom"@,
        p.vsock_cid == GUEST_CID,
        text::opt_text(p.vsock_socket) == (match vsock_sock {
            Some(s) => Some(s@),
            None => None,
        }),
{
    let mut disks: Vec<String> = Vec::new();
    disks.push(image.to_owned());
    disks.push(seed_iso.to_owned());
    assert(text::texts(disks@) =~= seq![image@, seed_iso@]);
    VmPayload {
        boot_vcpus: cfg.vcpu,
        memory_size: cfg.mem_mb as u64 * 1024 * 1024,
        kernel: kernel.to_owned(),
        cmdline: "console=hvc0 root=/dev/vda1 rw".to_owned(),
        disks,
        fs_tag: "workspace".to_owned(),
        fs_socket: virtiofs_sock.to_owned(),
        fs_num_queues: 1,
        fs_queue_size: 1024,
        rng_src: "/dev/urandom".to_owned(),
        vsock_cid: GUEST_CID,
        vsock_socket: match vsock_sock {
            Some(s) => Some(s.to_owned()),
            None => None,
        },
    }
}

/// The disks of a configuration in JSON.
pub open spec fn disks_json(disks: Seq<Seq<char>>) -> Seq<char>
    decreases disks.len(),
{
    if disks.len() == 0 {
        Seq::empty()
    } else {
        let sep = if disks.len() == 1 {
            Seq::empty()
        } else {
            ","@
        };
        disks_json(disks.drop_last()) + sep + "{\"path\":"@ + outside::json_quoted(disks.last())
            + "}"@
    }
}

/// A configuration in JSON, its keys in order.
pub open spec fn payload_json(p: VmPayload) -> Seq<char> {
    "{\"cpus\":{\"boot_vcpus\":"@ + text::dec(p.boot_vcpus as nat) + "},\"disks\":["@
        + disks_json(text::texts(p.disks@)) + "],\"fs\":[{\"num_queues\":"@ + text::dec(
        p.fs_num_queues as nat,
    ) + ",\"queue_size\":"@ + text::dec(p.fs_queue_size as nat) + ",\"socket\":"@
        + outside::json_quoted(p.fs_socket@) + ",\"tag\":"@ + outside::json_quoted(p.fs_tag@)
        + "}],\"memory\":{\"size\":"@ + text::dec(p.memory_size as nat)
        + "},\"payload\":{\"cmdline\":"@ + outside::json_quoted(p.cmdline@) + ",\"kernel\":"@
        + outside::json_quoted(p.kernel@) + "},\"rng\":{\"src\":"@ + outside::json_quoted(
        p.rng_src@,
    ) + "},\"vsock\":{\"cid\":"@ + text::dec(p.vsock_cid as nat) + (match p.vsock_socket {
        Some(s) => ",\"socket\":"@ + outside::json_quoted(s@),
        None => Seq::empty(),
    }) + "}}"@
}

impl VmPayload {
    fn disks_part(&self) -> (s: String)
        ensures
            s@ == disks_json(text::texts(self.disks@)),
    {
        let ghost all = text::texts(self.disks@);
        let mut s = String::new();
        let mut i: usize = 0;
        assert(all.take(0) =~= Seq::empty());
        while i < self.disks.len()
            invariant
                i <= self.disks@.len(),
                all == text::texts(self.disks@),
                s@ == disks_json(all.take(i as int)),
            decreases self.disks@.len() - i,
        {
            assert(all.take(i + 1).drop_last() =~= all.take(i as int));
            let ghost was = s@;
            if i > 0 {
                s.append(",");
            } else {
                assert(was =~= was + Seq::empty());
            }
            s.append("{\"path\":");
            s.append(outside::json_quote(self.disks[i].as_str()).as_str());
            s.append("}");
            assert(s@ =~= disks_json(all.take(i + 1)));
            i += 1;
        }
        assert(all.take(all.len() as int) =~= all);
        s
    }

    /// The configuration in JSON.
    pub fn to_json(&self) -> (s: String)
        ensures
            s@ == payload_json(*self),
    {
        let mut s = "{\"cpus\":{\"boot_vcpus\":".to_owned();
        s.append(text::decimal(self.boot_vcpus as u64).as_str());
        s.append("},\"disks\":[");
        s.append(self.disks_part().as_str());
        s.append("],\"fs\":[{\"num_queues\":");
        s.append(text::decimal(self.fs_num_queues).as_str());
        s.append(",\"queue_size\":");
        s.append(text::decimal(self.fs_queue_size).as_str());
        s.append(",\"socket\":");
        s.append(outside::json_quote(self.fs_socket.as_str()).as_str());
        s.append(",\"tag\":");
        s.append(outside::json_quote(self.fs_tag.as_str()).as_str());
        s.append("}],\"memory\":{\"size\":");
        s.append(text::decimal(self.memory_size).as_str());
        s.append("},\"payload\":{\"cmdline\":");
        s.append(outside::json_quote(self.cmdline.as_str()).as_str());
        s.append(",\"kernel\":");
        s.append(outside::json_quote(self.kernel.as_str()).as_str());
        s.append("},\"rng\":{\"src\":");
        s.append(outside::json_quote(self.rng_src.as_str()).as_str());
        s.append("},\"vsock\":{\"cid\":");
        s.append(text::decimal(self.vsock_cid as u64).as_str());
        let ghost before = s@;
        if let Some(sock) = &self.vsock_socket {
            s.append(",\"socket\":");
            s.append(outside::json_quote(sock.as_str()).as_str());
            assert(s@ =~= before + (",\"socket\":"@ + outside::json_quoted(sock@)));
        } else {
            assert(s@ =~= before + Seq::empty());
        }
        s.append("}}");
        s
    }
}

/// The state of a machine that the daemon reports as `state`.
pub open spec fn reported(state: Option<Seq<char>>) -> StateModel {
    match state {
        Some(s) => if s == "Running"@ {
            StateModel::Running
        } else if s == "Created"@ {
            StateModel::Booting
        } else if s == "Shutdown"@ {
            StateModel::Stopped
        } else {
            StateModel::Error("unexpected vm state: "@ + s)
        },
        None => StateModel::Error("vm.info has no state field"@),
    }
}

/// The state of a machine that the daemon reports as `state`.
pub fn reported_state(state: Option<&str>) -> (r: VmState)
    ensures
        r@ == reported(
            match state {
                Some(s) => Some(s@),
                None => None,
            },
        ),
{
    match state {
        Some(s) => if text::same(s, "Running") {
            VmState::Running
        } else if text::same(s, "Created") {
            VmState::Booting
        } else if text::same(s, "Shutdown") {
            VmState::Stopped
        } else {
            let mut why = "unexpected vm state: ".to_owned();
            why.append(s);
            VmState::Error(why)
        },
        None => VmState::Error("vm.info has no state field".to_owned()),
    }
}

/// The state of a machine by the daemon's description of it.
pub fn map_ch_state(body: &str) -> (r: VmState)
    ensures
        r@ == reported(outside::json_text(body@, "state"@)),
{
    match outside::json_text_field(body, "state") {
        Some(s) => reported_state(Some(s.as_str())),
        None => reported_state(None),
    }
}

/// Whether the daemon's description of a machine says that it has shut down.
pub fn has_shut_down(body: &str) -> (r: bool)
    ensures
        r == (outside::json_text(body@, "state"@) == Some("Shutdown"@)),
{
    match outside::json_text_field(body, "state") {
        Some(s) => text::same(s.as_str(), "Shutdown"),
        None => false,
    }
}

/// What to do while waiting for something.
#[derive(Debug, Clone, Copy, PartialEq, Eq, Structural)]
pub enum WaitNext {
    /// Wait so many milliseconds, then look again.
    Wait(u64),
    /// It has come.
    GoOn,
    /// It will not come.
    GiveUp,
}

/// What to do while waiting for the daemon's socket, by a look at it `elapsed`
/// milliseconds after the daemon was started.
pub fn socket_wait(elapsed: u64, there: bool) -> (n: WaitNext)
    ensures
        n == (if there {
            WaitNext::GoOn
        } else if elapsed < 10000 {
            WaitNext::Wait(100)
        } else {
            WaitNext::GiveUp
        }),
{
    if there {
        WaitNext::GoOn
    } else if elapsed < 10000 {
        WaitNext::Wait(100)
    } else {
        WaitNext::GiveUp
    }
}

/// What to do while waiting for a machine to shut down, `elapsed` milliseconds
/// after it was told to: it is looked at for a while, and ended in any case.
/// `info` is the daemon's answer to the look, where there was one.
pub fn shutdown_wait(elapsed: u64, info: Option<&str>) -> (n: WaitNext)
    ensures
        n == (if elapsed >= 10000 {
            WaitNext::GiveUp
        } else if info matches Some(body) && outside::json_text(body@, "state"@) == Some(
            "Shutdown"@,
        ) {
            WaitNext::GoOn
        } else {
            WaitNext::Wait(200)
        }),
{
    if elapsed >= 10000 {
        return WaitNext::GiveUp;
    }
    let down = match info {
        Some(body) => has_shut_down(body),
        None => false,
    };
    if down {
        WaitNext::GoOn
    } else {
        WaitNext::Wait(200)
    }
}

/// The stages of a boot, in their order.
#[derive(Debug, Clone, Copy, PartialEq, Eq, Structural)]
pub enum BootStage {
    /// Find the kernel and the image.
    Assets,
    /// Pack the first-boot volume.
    Seed,
    /// Start the file server.
    FileServer,
    /// Start the daemon.
    Daemon,
    /// Wait for the daemon's socket.
    Socket,
    /// Have the daemon create the machine.
    Create,
    /// Have the daemon boot it.
    Boot,
    /// Forward a port to the guest.
    Forward,
}

/// What comes after a stage of a boot.
#[derive(Debug, PartialEq, Eq)]
pub enum BootNext {
    /// The next stage.
    Stage(BootStage),
    /// The machine is up.
    Up,
    /// Clean up and fail: end the processes that run, remove the machine's
    /// directory.
    Abort { message: String, end_daemon: bool, end_file_server: bool },
}

impl BootStage {
    /// The stage after this one.
    pub open spec fn next(self) -> Option<BootStage> {
        match self {
            BootStage::Assets => Some(BootStage::Seed),
            BootStage::Seed => Some(BootStage::FileServer),
            BootStage::FileServer => Some(BootStage::Daemon),
            BootStage::Daemon => Some(BootStage::Socket),
            BootStage::Socket => Some(BootStage::Create),
            BootStage::Create => Some(BootStage::Boot),
            BootStage::Boot => Some(BootStage::Forward),
            BootStage::Forward => None,
        }
    }

    /// The place of a stage.
    pub open spec fn place(self) -> int {
        match self {
            BootStage::Assets => 0,
            BootStage::Seed => 1,
            BootStage::FileServer => 2,
            BootStage::Daemon => 3,
            BootStage::Socket => 4,
            BootStage::Create => 5,
            BootStage::Boot => 6,
            BootStage::Forward => 7,
        }
    }

    /// The error of a boot that fails here because of `why`.
    pub open spec fn failure(self, why: Seq<char>) -> Seq<char> {
        match self {
            BootStage::Assets => why,
            BootStage::Seed => "seed iso: "@ + why,
            BootStage::FileServer => "virtiofsd spawn: "@ + why,
            BootStage::Daemon => "cloud-hypervisor spawn: "@ + why,
            BootStage::Socket => "api socket never appeared"@,
            BootStage::Create => why,
            BootStage::Boot => why,
            BootStage::Forward => "vsock proxy: "@ + why,
        }
    }
}

/// What comes after a stage that succeeded, or failed because of `why`. A
/// boot that fails ends every process that an earlier stage has started.
pub fn boot_next(stage: BootStage, failure: Option<&str>) -> (n: BootNext)
    ensures
        match failure {
            None => match stage.next() {
                Some(s) => n == BootNext::Stage(s),
                None => n is Up,
            },
            Some(why) => n matches BootNext::Abort { message, end_daemon, end_file_server }
                && message@ == stage.failure(why@) && end_file_server == (stage.place()
                > BootStage::FileServer.place()) && end_daemon == (stage.place()
                > BootStage::Daemon.place()),
        },
{
    match failure {
        None => match stage {
            BootStage::Assets => BootNext::Stage(BootStage::Seed),
            BootStage::Seed => BootNext::Stage(BootStage::FileServer),
            BootStage::FileServer => BootNext::Stage(BootStage::Daemon),
            BootStage::Daemon => BootNext::Stage(BootStage::Socket),
            BootStage::Socket => BootNext::Stage(BootStage::Create),
            BootStage::Create => BootNext::Stage(BootStage::Boot),
            BootStage::Boot => BootNext::Stage(BootStage::Forward),
            BootStage::Forward => BootNext::Up,
        },
        Some(why) => {
            let mut message = match stage {
                BootStage::Assets => String::new(),
                BootStage::Seed => "seed iso: ".to_owned(),
                BootStage::FileServer => "virtiofsd spawn: ".to_owned(),
                BootStage::Daemon => "cloud-hypervisor spawn: ".to_owned(),
                BootStage::Socket => "api socket never appeared".to_owned(),
                BootStage::Create => String::new(),
                BootStage::Boot => String::new(),
                BootStage::Forward => "vsock proxy: ".to_owned(),
            };
            let (end_file_server, end_daemon) = match stage {
                BootStage::Assets => (false, false),
                BootStage::Seed => (false, false),
                BootStage::FileServer => (false, false),
                BootStage::Daemon => (true, false),
                BootStage::Socket => (true, true),
                BootStage::Create => (true, true),
                BootStage::Boot => (true, true),
                BootStage::Forward => (true, true),
            };
            if stage != BootStage::Socket {
                message.append(why);
            }
            assert(message@ =~= stage.failure(why@));
            BootNext::Abort { message, end_daemon, end_file_server }
        },
    }
}

/// The stages follow each other one by one, so a boot comes to its end.
pub proof fn boot_moves_on(stage: BootStage)
    ensures
        match stage.next() {
            Some(s) => s.place() == stage.place() + 1,
            None => stage.place() == 7,
        },
{
}

/// The files and commands of a boot.
#[derive(Debug, Clone, PartialEq, Eq)]
pub struct BootPlan {
    pub id: String,
    pub workdir: String,
    pub seed_dir: String,
    pub virtiofs_sock: String,
    pub api_sock: String,
    /// Arguments of the file server.
    pub virtiofsd_args: Vec<String>,
    /// Arguments of the daemon.
    pub ch_args: Vec<String>,
}

/// A machine that runs.
#[derive(Debug, Clone, PartialEq, Eq)]
pub struct ChVm {
    pub api_sock: String,
    pub ssh_port: u16,
}

/// What a [`ChVm`] holds.
pub struct ChVmModel {
    pub api_sock: Seq<char>,
    pub ssh_port: u16,
}

impl View for ChVm {
    type V = ChVmModel;

    open spec fn view(&self) -> ChVmModel {
        ChVmModel { api_sock: self.api_sock@, ssh_port: self.ssh_port }
    }
}

/// How to find out a machine's state.
#[derive(Debug, PartialEq, Eq)]
pub enum InfoQuery {
    /// It is known already.
    Known(VmState),
    /// Ask the daemon behind this socket.
    Ask(String),
}

/// The machines of the daemon.
pub struct CloudHypervisorBackend {
    ch_bin: String,
    virtiofsd_bin: String,
    vm_dir: String,
    vms: StrMap<ChVm>,
    stopped: StrMap<()>,
    next_id: u64,
}

/// What a [`CloudHypervisorBackend`] goes by.
pub struct ChModel {
    pub ch_bin: Seq<char>,
    pub virtiofsd_bin: Seq<char>,
    pub vm_dir: Seq<char>,
    pub vms: Map<Seq<char>, ChVmModel>,
    pub stopped: Set<Seq<char>>,
    pub next_id: u64,
}

impl View for CloudHypervisorBackend {
    type V = ChModel;

    closed spec fn view(&self) -> ChModel {
        ChModel {
            ch_bin: self.ch_bin@,
            virtiofsd_bin: self.virtiofsd_bin@,
            vm_dir: self.vm_dir@,
            vms: self.vms@.map_values(|v: ChVm| v@),
            stopped: self.stopped@.dom(),
            next_id: self.next_id,
        }
    }
}

impl CloudHypervisorBackend {
    /// Machines below `vm_dir`, with the programs under their usual names.
    pub fn new(vm_dir: String) -> (b: CloudHypervisorBackend)
        ensures
            b@ == (ChModel {
                ch_bin: "cloud-hypervisor"@,
                virtiofsd_bin: "virtiofsd"@,
                vm_dir: vm_dir@,
                vms: Map::empty(),
                stopped: Set::empty(),
                next_id: 1,
            }),
    {
        CloudHypervisorBackend::with_bins(
            "cloud-hypervisor".to_owned(),
            "virtiofsd".to_owned(),
            vm_dir,
        )
    }

    /// Machines below `vm_dir`, with the given programs.
    pub fn with_bins(ch_bin: String, virtiofsd_bin: String, vm_dir: String) -> (b:
        CloudHypervisorBackend)
        ensures
            b@ == (ChModel {
                ch_bin: ch_bin@,
                virtiofsd_bin: virtiofsd_bin@,
                vm_dir: vm_dir@,
                vms: Map::empty(),
                stopped: Set::empty(),
                next_id: 1,
            }),
    {
        let b = CloudHypervisorBackend {
            ch_bin,
            virtiofsd_bin,
            vm_dir,
            vms: StrMap::new(),
            stopped: StrMap::new(),
            next_id: 1,
        };
        assert(b@.vms =~= Map::empty());
        assert(b@.stopped =~= Set::empty());
        b
    }

    /// The daemon's program.
    pub fn ch_bin(&self) -> (b: &str)
        ensures
            b@ == self@.ch_bin,
    {
        self.ch_bin.as_str()
    }

    /// The file server's program.
    pub fn virtiofsd_bin(&self) -> (b: &str)
        ensures
            b@ == self@.virtiofsd_bin,
    {
        self.virtiofsd_bin.as_str()
    }

    /// The directory of all machines.
    pub fn vm_dir(&self) -> (d: &str)
        ensures
            d@ == self@.vm_dir,
    {
        self.vm_dir.as_str()
    }

    fn vm_id(&mut self, repo: &str) -> (id: String)
        ensures
            id@ == "ch-"@ + sbx::machine_base(repo@) + "-"@ + text::dec(old(self)@.next_id as nat),
            final(self)@ == (ChModel {
                next_id: backend::next_u64(old(self)@.next_id),
                ..old(self)@
            }),
    {
        let n: u64 = self.next_id;
        self.next_id = n.wrapping_add(1);
        let mut id = "ch-".to_owned();
        id.append(sbx::base_name(repo).as_str());
        id.append("-");
        id.append(text::decimal(n).as_str());
        id
    }

    /// The files and commands to boot the next machine.
    pub fn boot_plan(&mut self, cfg: &VmConfig) -> (p: BootPlan)
        ensures
            final(self)@ == (ChModel {
                next_id: backend::next_u64(old(self)@.next_id),
                ..old(self)@
            }),
            p.id@ == "ch-"@ + sbx::machine_base(cfg.mount_repo@) + "-"@ + text::dec(
                old(self)@.next_id as nat,
            ),
            p.workdir@ == paths::join(old(self)@.vm_dir, p.id@),
            p.seed_dir@ == paths::join(p.workdir@, "seed"@),
            p.virtiofs_sock@ == paths::join(p.workdir@, "virtiofs.sock"@),
            p.api_sock@ == paths::join(p.workdir@, "api.sock"@),
            text::texts(p.virtiofsd_args@) == seq![
                "--socket-path"@,
                p.virtiofs_sock@,
                "--shared-dir"@,
                cfg.mount_repo@,
            ],
            text::texts(p.ch_args@) == seq!["--api-socket"@, p.api_sock@],
    {
        let id = self.vm_id(cfg.mount_repo.as_str());
        let workdir = paths::joined(self.vm_dir.as_str(), id.as_str());
        let seed_dir = paths::joined(workdir.as_str(), "seed");
        let virtiofs_sock = paths::joined(workdir.as_str(), "virtiofs.sock");
        let api_sock = paths::joined(workdir.as_str(), "api.sock");
        let mut virtiofsd_args: Vec<String> = Vec::new();
        virtiofsd_args.push("--socket-path".to_owned());
        virtiofsd_args.push(virtiofs_sock.clone());
        virtiofsd_args.push("--shared-dir".to_owned());
        virtiofsd_args.push(cfg.mount_repo.clone());
        let mut ch_args: Vec<String> = Vec::new();
        ch_args.push("--api-socket".to_owned());
        ch_args.push(api_sock.clone());
        let p = BootPlan {
            id,
            workdir,
            seed_dir,
            virtiofs_sock,
            api_sock,
            virtiofsd_args,
            ch_args,
        };
        assert(text::texts(p.virtiofsd_args@) =~= seq![
            "--socket-path"@,
            p.virtiofs_sock@,
            "--shared-dir"@,
            cfg.mount_repo@,
        ]);
        assert(text::texts(p.ch_args@) =~= seq!["--api-socket"@, p.api_sock@]);
        p
    }

    /// Takes note of a machine that is up.
    pub fn on_up(&mut self, id: &str, api_sock: &str, ssh_port: u16) -> (h: VmHandle)
        ensures
            h@ == id@,
            final(self)@ == (ChModel {
                vms: old(self)@.vms.insert(
                    id@,
                    ChVmModel { api_sock: api_sock@, ssh_port },
                ),
                stopped: old(self)@.stopped.remove(id@),
                ..old(self)@
            }),
    {
        self.vms.insert(id.to_owned(), ChVm { api_sock: api_sock.to_owned(), ssh_port });
        self.stopped.remove(id);
        assert(self@.vms =~= old(self)@.vms.insert(
            id@,
            ChVmModel { api_sock: api_sock@, ssh_port },
        ));
        assert(self@.stopped =~= old(self)@.stopped.remove(id@));
        VmHandle { id: id.to_owned() }
    }

    /// The host port behind which a machine's shell server answers.
    pub fn ssh_port(&self, handle: &VmHandle) -> (r: Result<u16, VmError>)
        ensures
            match r {
                Ok(p) => self@.vms.dom().contains(handle@) && p == self@.vms[handle@].ssh_port,
                Err(e) => !self@.vms.dom().contains(handle@) && e@ == ErrorModel::UnknownHandle(
                    handle@,
                ),
            },
    {
        match self.vms.get(handle.id.as_str()) {
            Some(v) => Ok(v.ssh_port),
            None => Err(VmError::UnknownHandle(handle.id.clone())),
        }
    }

    /// What a look at that port says: `None` where it answered, else why not.
    pub fn on_probe(port: u16, failure: Option<&str>) -> (r: Result<SshInfo, Failure>)
        ensures
            match failure {
                None => r matches Ok(i) && i@ == (SshModel {
                    host: "127.0.0.1"@,
                    port,
                    user: "ubuntu"@,
                }),
                Some(why) => r matches Err(f) && f@ == "ssh proxy 127.0.0.1:"@ + text::dec(
                    port as nat,
                ) + " not ready: "@ + why@,
            },
    {
        match failure {
            None => Ok(
                SshInfo { host: "127.0.0.1".to_owned(), port, user: "ubuntu".to_owned() },
            ),
            Some(why) => {
                let mut message = "ssh proxy 127.0.0.1:".to_owned();
                message.append(text::decimal(port as u64).as_str());
                message.append(" not ready: ");
                message.append(why);
                Err(Failure { message })
            },
        }
    }

    /// How to find out a machine's state.
    pub fn state_query(&self, handle: &VmHandle) -> (q: InfoQuery)
        ensures
            if self@.stopped.contains(handle@) {
                q matches InfoQuery::Known(s) && s@ == StateModel::Stopped
            } else if !self@.vms.dom().contains(handle@) {
                q matches InfoQuery::Known(s) && s@ == StateModel::Missing
            } else {
                q matches InfoQuery::Ask(sock) && sock@ == self@.vms[handle@].api_sock
            },
    {
        if self.stopped.contains_key(handle.id.as_str()) {
            return InfoQuery::Known(VmState::Stopped);
        }
        match self.vms.get(handle.id.as_str()) {
            Some(v) => InfoQuery::Ask(v.api_sock.clone()),
            None => InfoQuery::Known(VmState::Missing),
        }
    }

    /// The state of a machine by the daemon's answer.
    pub fn state_from_info(answer: Result<String, Failure>) -> (s: VmState)
        ensures
            s@ == (match answer {
                Ok(body) => reported(outside::json_text(body@, "state"@)),
                Err(f) => StateModel::Error("vm.info: "@ + f@),
            }),
    {
        match answer {
            Ok(body) => map_ch_state(body.as_str()),
            Err(f) => {
                let mut why = "vm.info: ".to_owned();
                why.append(f.message.as_str());
                VmState::Error(why)
            },
        }
    }

    /// Takes a machine out to stop it.
    pub fn begin_stop(&mut self, handle: &VmHandle) -> (r: Result<ChVm, VmError>)
        ensures
            match r {
                Ok(v) => {
                    &&& !old(self)@.stopped.contains(handle@)
                    &&& old(self)@.vms.dom().contains(handle@)
                    &&& v@ == old(self)@.vms[handle@]
                    &&& final(self)@ == (ChModel {
                        vms: old(self)@.vms.remove(handle@),
                        ..old(self)@
                    })
                },
                Err(e) => {
                    &&& final(self)@ == old(self)@
                    &&& if old(self)@.stopped.contains(handle@) {
                        e@ == ErrorModel::AlreadyStopped(handle@)
                    } else {
                        !old(self)@.vms.dom().contains(handle@) && e@ == ErrorModel::UnknownHandle(
                            handle@,
                        )
                    }
                },
            },
    {
        if self.stopped.contains_key(handle.id.as_str()) {
            return Err(VmError::AlreadyStopped(handle.id.clone()));
        }
        match self.vms.remove(handle.id.as_str()) {
            Some(v) => {
                assert(self@.vms =~= old(self)@.vms.remove(handle@));
                Ok(v)
            },
            None => Err(VmError::UnknownHandle(handle.id.clone())),
        }
    }

    /// Takes note of a machine that was stopped.
    pub fn on_stopped(&mut self, handle: &VmHandle)
        ensures
            final(self)@ == (ChModel {
                stopped: old(self)@.stopped.insert(handle@),
                ..old(self)@
            }),
    {
        self.stopped.insert(handle.id.clone(), ());
        assert(self@.stopped =~= old(self)@.stopped.insert(handle@));
    }
}

/// The disks are written one after the other, with a comma between two.
pub proof fn disks_are_listed_in_turn(a: Seq<Seq<char>>, b: Seq<Seq<char>>, disk: Seq<char>)
    ensures
        disks_json(Seq::empty()).len() == 0,
        disks_json(seq![disk]) == "{\"path\":"@ + outside::json_quoted(disk) + "}"@,
        a.len() > 0 && b.len() > 0 ==> disks_json(a + b) == disks_json(a) + seq![','] + disks_json(
            b,
        ),
    decreases b.len(),
{
    reveal_with_fuel(disks_json, 2);
    reveal_strlit(",");
    assert(","@ =~= seq![',']);
    assert(seq![disk].drop_last() =~= Seq::empty());
    assert(disks_json(seq![disk]) =~= "{\"path\":"@ + outside::json_quoted(disk) + "}"@);
    if a.len() > 0 && b.len() > 0 {
        let all = a + b;
        assert(all.drop_last() =~= a + b.drop_last());
        assert(all.last() == b.last());
        if b.len() == 1 {
            assert(a + b.drop_last() =~= a);
            assert(b.drop_last() =~= Seq::empty());
            assert(disks_json(all) =~= disks_json(a) + seq![','] + disks_json(b));
        } else {
            disks_are_listed_in_turn(a, b.drop_last(), disk);
            assert(disks_json(all) =~= disks_json(a) + seq![','] + disks_json(b));
        }
    }
}

/// A file that is named is used, and is an error where it is not there; one
/// that is not is downloaded where an address is given, checked by its sum
/// where one is given; otherwise there is none.
pub proof fn assets_are_local_before_remote(
    n: AssetNames,
    env: AssetEnv,
    r: Result<AssetSource, Failure>,
)
    requires
        asset_found(n, env, r),
    ensures
        env.path is Some && env.path_exists ==> (r matches Ok(AssetSource::Local(q)) && q@
            == env.path->Some_0@),
        env.path is Some && !env.path_exists ==> r is Err,
        env.path is None && env.url is Some ==> (r matches Ok(AssetSource::Download(d)) && d.url@
            == env.url->Some_0@ && (env.sha256 matches Some(s) ==> d.sha256@ == s@)),
        env.path is None && env.url is None ==> r is Err,
{
}

/// Both files are needed: the first that fails ends it, each download is asked
/// for once and in order, and both are found only at the end.
pub proof fn assets_come_in_order(
    kernel: Result<AssetSource, Failure>,
    image: Result<AssetSource, Failure>,
    fetched: Seq<Result<String, Failure>>,
    s: AssetStep,
)
    requires
        assets_next(kernel, image, fetched, s),
    ensures
        kernel is Err ==> s is Failed,
        (kernel matches Ok(AssetSource::Local(_))) && image is Err ==> s is Failed,
        (kernel matches Ok(AssetSource::Download(d))) && fetched.len() == 0 ==> s is Fetch,
        (kernel matches Ok(AssetSource::Local(k))) && (image matches Ok(AssetSource::Download(_)))
            && fetched.len() == 0 ==> s is Fetch,
        s matches AssetStep::Found { kernel: k, image: i } ==> kernel is Ok && image is Ok && (
        kernel matches Ok(AssetSource::Local(p)) ==> p@ == k@) && (
        image matches Ok(AssetSource::Local(p)) ==> p@ == i@),
        fetched.len() > 0 && fetched[0] is Err && (kernel matches Ok(AssetSource::Download(_)))
            ==> s is Failed,
{
}

/// What a machine says of itself: running, still booting, or stopped; anything
/// else, and nothing, is an error.
pub proof fn machines_are_in_the_state_they_say(s: Seq<char>)
    ensures
        reported(Some("Running"@)) is Running,
        s != "Running"@ && s != "Created"@ && s != "Shutdown"@ ==> reported(Some(s)) is Error,
        reported(Some("Created"@)) is Booting,
        reported(Some("Shutdown"@)) is Stopped,
        reported(None) is Error,
{
    reveal_strlit("Running");
    reveal_strlit("Created");
    reveal_strlit("Shutdown");
    assert("Created"@[0] == 'C' && "Running"@[0] == 'R' && "Shutdown"@[0] == 'S');
}

/// A boot that fails tells why, under the step it failed at where the reason
/// alone does not say it; only a socket that never came has no reason.
pub proof fn failed_boots_tell_why(stage: BootStage, why: Seq<char>)
    ensures
        !(stage is Socket) ==> stage.failure(why).len() >= why.len() && stage.failure(why).skip(
            stage.failure(why).len() - why.len(),
        ) == why,
        stage is Seed ==> "seed iso: "@.is_prefix_of(stage.failure(why)),
        stage is FileServer ==> "virtiofsd spawn: "@.is_prefix_of(stage.failure(why)),
        stage is Daemon ==> "cloud-hypervisor spawn: "@.is_prefix_of(stage.failure(why)),
        stage is Forward ==> "vsock proxy: "@.is_prefix_of(stage.failure(why)),
        stage is Socket ==> stage.failure(why) == "api socket never appeared"@,
        stage is Assets || stage is Create || stage is Boot ==> stage.failure(why) == why,
{
    let f = stage.failure(why);
    if !(stage is Socket) {
        assert(f.skip(f.len() - why.len()) =~= why);
    }
    if stage is Seed {
        assert(f.subrange(0, "seed iso: "@.len() as int) =~= "seed iso: "@);
    }
    if stage is FileServer {
        assert(f.subrange(0, "virtiofsd spawn: "@.len() as int) =~= "virtiofsd spawn: "@);
    }
    if stage is Daemon {
        assert(f.subrange(0, "cloud-hypervisor spawn: "@.len() as int)
            =~= "cloud-hypervisor spawn: "@);
    }
    if stage is Forward {
        assert(f.subrange(0, "vsock proxy: "@.len() as int) =~= "vsock proxy: "@);
    }
}

} // verus!
