//! First-boot data of a guest machine.
use crate::paths;
use crate::text;
use vstd::prelude::*;
use vstd::string::*;

verus! {

/// Where the guest has the shared repository.
pub open spec fn guest_dir() -> Seq<char> {
    "/workspace"@
}

/// The tag under which the repository is shared.
pub open spec fn fs_tag() -> Seq<char> {
    "workspace"@
}

/// The user data of a guest: its user with the given key, its mount of
/// `fs_tag` at `guest_dir`, and its shell server behind a socket port.
pub open spec fn user_data_text(
    pubkey: Seq<char>,
    fs_tag: Seq<char>,
    guest_dir: Seq<char>,
    vsock_port: u32,
) -> Seq<char> {
    "#cloud-config\nusers:\n  - name: ubuntu\n    sudo: ALL=(ALL) NOPASSWD:ALL\n    shell: /bin/bash\n    ssh-authorized-keys:\n      - "@
        + pubkey
        + "\npackages:\n  - socat\n  - openssh-server\nmounts:\n  - ["@ + fs_tag + ", "@ + guest_dir
        + ", virtiofs, \"defaults\", \"0\", \"0\"]\nruncmd:\n  - [mkdir, -p, "@ + guest_dir
        + "]\n  - [mount, -t, virtiofs, "@ + fs_tag + ", "@ + guest_dir
        + "]\n  - [systemctl, enable, --now, ssh]\n  - [sh, -c, \"nohup socat VSOCK-LISTEN:"@
        + text::dec(vsock_port as nat)
        + ",fork TCP:localhost:22 >/var/log/ade-socat.log 2>&1 &\"]\n"@
}

/// The user data of a guest.
pub fn user_data(pubkey_openssh: &str, fs_tag: &str, guest_dir: &str, vsock_port: u32) -> (s: String)
    ensures
        s@ == user_data_text(pubkey_openssh@, fs_tag@, guest_dir@, vsock_port),
{
    let mut s =
        "#cloud-config\nusers:\n  - name: ubuntu\n    sudo: ALL=(ALL) NOPASSWD:ALL\n    shell: /bin/bash\n    ssh-authorized-keys:\n      - ".to_owned();
    s.append(pubkey_openssh);
    s.append("\npackages:\n  - socat\n  - openssh-server\nmounts:\n  - [");
    s.append(fs_tag);
    s.append(", ");
    s.append(guest_dir);
    s.append(", virtiofs, \"defaults\", \"0\", \"0\"]\nruncmd:\n  - [mkdir, -p, ");
    s.append(guest_dir);
    s.append("]\n  - [mount, -t, virtiofs, ");
    s.append(fs_tag);
    s.append(", ");
    s.append(guest_dir);
    s.append(
        "]\n  - [systemctl, enable, --now, ssh]\n  - [sh, -c, \"nohup socat VSOCK-LISTEN:",
    );
    s.append(text::decimal(vsock_port as u64).as_str());
    s.append(",fork TCP:localhost:22 >/var/log/ade-socat.log 2>&1 &\"]\n");
    s
}

/// The identity of a guest.
pub fn meta_data(instance_id: &str) -> (s: String)
    ensures
        s@ == "instance-id: "@ + instance_id@ + "\nlocal-hostname: ade-vm\n"@,
{
    let mut s = "instance-id: ".to_owned();
    s.append(instance_id);
    s.append("\nlocal-hostname: ade-vm\n");
    s
}

/// The files of a first-boot volume and how it is packed.
#[derive(Debug, Clone, PartialEq, Eq)]
pub struct SeedPlan {
    pub user_data_path: String,
    pub user_data: String,
    pub meta_data_path: String,
    pub meta_data: String,
    pub iso: String,
    /// Arguments of `genisoimage`.
    pub args: Vec<String>,
}

/// The first-boot volume of a guest in `dir`.
pub fn seed_plan(dir: &str, instance_id: &str, pubkey_openssh: &str, vsock_port: u32) -> (p:
    SeedPlan)
    ensures
        p.user_data_path@ == paths::join(dir@, "user-data"@),
        p.user_data@ == user_data_text(pubkey_openssh@, fs_tag(), guest_dir(), vsock_port),
        p.meta_data_path@ == paths::join(dir@, "meta-data"@),
        p.meta_data@ == "instance-id: "@ + instance_id@ + "\nlocal-hostname: ade-vm\n"@,
        p.iso@ == paths::join(dir@, "seed.iso"@),
        text::texts(p.args@) == seq![
            "-output"@,
            p.iso@,
            "-volid"@,
            "cidata"@,
            "-joliet"@,
            "-rock"@,
            p.user_data_path@,
            p.meta_data_path@,
        ],
{
    let user_data_path = paths::joined(dir, "user-data");
    let meta_data_path = paths::joined(dir, "meta-data");
    let iso = paths::joined(dir, "seed.iso");
    let mut args: Vec<String> = Vec::new();
    args.push("-output".to_owned());
    args.push(iso.clone());
    args.push("-volid".to_owned());
    args.push("cidata".to_owned());
    args.push("-joliet".to_owned());
    args.push("-rock".to_owned());
    args.push(user_data_path.clone());
    args.push(meta_data_path.clone());
    let p = SeedPlan {
        user_data_path,
        user_data: user_data(pubkey_openssh, "workspace", "/workspace", vsock_port),
        meta_data_path,
        meta_data: meta_data(instance_id),
        iso,
        args,
    };
    assert(text::texts(p.args@) =~= seq![
        "-output"@,
        p.iso@,
        "-volid"@,
        "cidata"@,
        "-joliet"@,
        "-rock"@,
        p.user_data_path@,
        p.meta_data_path@,
    ]);
    p
}

} // verus!
