//! Key pairs that live as long as one boot.
use crate::paths;
use crate::text;
use vstd::prelude::*;
use vstd::string::*;

verus! {

/// A key pair made for one boot, in a directory of its own.
#[derive(Debug)]
pub struct EphemeralKey {
    pubkey_openssh: String,
    priv_path: String,
    dir: String,
}

impl EphemeralKey {
    pub closed spec fn public_half(&self) -> Seq<char> {
        self.pubkey_openssh@
    }

    pub closed spec fn private_path(&self) -> Seq<char> {
        self.priv_path@
    }

    pub closed spec fn directory(&self) -> Seq<char> {
        self.dir@
    }

    /// The arguments with which `ssh-keygen` makes the pair in `dir`.
    pub fn keygen_args(dir: &str) -> (args: Vec<String>)
        ensures
            text::texts(args@) == seq![
                "-t"@,
                "ed25519"@,
                "-N"@,
                Seq::empty(),
                "-C"@,
                "ade-ephemeral"@,
                "-f"@,
                paths::join(dir@, "id_ed25519"@),
            ],
    {
        let mut args: Vec<String> = Vec::new();
        args.push("-t".to_owned());
        args.push("ed25519".to_owned());
        args.push("-N".to_owned());
        args.push(String::new());
        args.push("-C".to_owned());
        args.push("ade-ephemeral".to_owned());
        args.push("-f".to_owned());
        args.push(paths::joined(dir, "id_ed25519"));
        assert(text::texts(args@) =~= seq![
            "-t"@,
            "ed25519"@,
            "-N"@,
            Seq::empty(),
            "-C"@,
            "ade-ephemeral"@,
            "-f"@,
            paths::join(dir@, "id_ed25519"@),
        ]);
        args
    }

    /// The pair that was made in `dir`, whose public file reads `public`.
    pub fn from_parts(dir: &str, public: &str) -> (k: EphemeralKey)
        ensures
            k.public_half() == text::trim(public@, text::blank()),
            k.private_path() == paths::join(dir@, "id_ed25519"@),
            k.directory() == dir@,
    {
        EphemeralKey {
            pubkey_openssh: text::trimmed(public),
            priv_path: paths::joined(dir, "id_ed25519"),
            dir: dir.to_owned(),
        }
    }

    /// Where the private half lies.
    pub fn priv_path(&self) -> (p: &str)
        ensures
            p@ == self.private_path(),
    {
        self.priv_path.as_str()
    }

    /// The public half, as one line.
    pub fn pubkey_openssh(&self) -> (p: &str)
        ensures
            p@ == self.public_half(),
    {
        self.pubkey_openssh.as_str()
    }

    /// The directory to wipe once the pair is no longer needed.
    pub fn dir(&self) -> (p: &str)
        ensures
            p@ == self.directory(),
    {
        self.dir.as_str()
    }
}

} // verus!
