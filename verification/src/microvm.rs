//! Commands in a guest machine over its shell server.
use crate::config::{SshInfo, SshModel};
use crate::keys::EphemeralKey;
use crate::outside;
use crate::outside::Failure;
use crate::paths;
use crate::text;
use vstd::prelude::*;
use vstd::string::*;

verus! {

/// Where and as whom a guest is reached.
#[derive(Debug, Clone)]
pub struct SshTarget {
    pub host: String,
    pub port: u16,
    pub user: String,
    pub key_path: String,
}

/// What an [`SshTarget`] holds.
pub struct TargetModel {
    pub host: Seq<char>,
    pub port: u16,
    pub user: Seq<char>,
    pub key_path: Seq<char>,
}

impl View for SshTarget {
    type V = TargetModel;

    open spec fn view(&self) -> TargetModel {
        TargetModel {
            host: self.host@,
            port: self.port,
            user: self.user@,
            key_path: self.key_path@,
        }
    }
}

/// How a directory of the host is found in the guest.
#[derive(Debug, Clone)]
pub enum PathMapping {
    /// Under the same path.
    Identity,
    /// Below another directory.
    Mounted { host_root: String, guest_root: String },
}

/// What a [`PathMapping`] holds.
pub enum MappingModel {
    Identity,
    Mounted { host_root: Seq<char>, guest_root: Seq<char> },
}

impl View for PathMapping {
    type V = MappingModel;

    open spec fn view(&self) -> MappingModel {
        match self {
            PathMapping::Identity => MappingModel::Identity,
            PathMapping::Mounted { host_root, guest_root } => MappingModel::Mounted {
                host_root: host_root@,
                guest_root: guest_root@,
            },
        }
    }
}

impl MappingModel {
    /// Where the guest has `cwd`; `None` outside of what is mounted.
    pub open spec fn guest_dir(self, cwd: Seq<char>) -> Option<Seq<char>> {
        match self {
            MappingModel::Identity => Some(cwd),
            MappingModel::Mounted { host_root, guest_root } => match paths::below(cwd, host_root) {
                Some(rel) => Some(paths::join(guest_root, rel)),
                None => None,
            },
        }
    }
}

impl PathMapping {
    /// Where the guest has `cwd`.
    pub fn map(&self, cwd: &str) -> (r: Result<String, Failure>)
        ensures
            match r {
                Ok(d) => self@.guest_dir(cwd@) == Some(d@),
                Err(e) => self@ matches MappingModel::Mounted { host_root, guest_root }
                    && self@.guest_dir(cwd@) is None && e@ == "cwd "@ + cwd@
                    + " outside mounted "@ + host_root,
            },
    {
        match self {
            PathMapping::Identity => Ok(cwd.to_owned()),
            PathMapping::Mounted { host_root, guest_root } => {
                match paths::strip_prefix(cwd, host_root.as_str()) {
                    Some(rel) => Ok(paths::joined(guest_root.as_str(), rel.as_str())),
                    None => {
                        let mut message = "cwd ".to_owned();
                        message.append(cwd);
                        message.append(" outside mounted ");
                        message.append(host_root.as_str());
                        Err(Failure { message })
                    },
                }
            },
        }
    }
}

/// Commands in a booted guest.
#[derive(Debug)]
pub struct MicroVm {
    target: SshTarget,
    mapping: PathMapping,
    ssh_bin: String,
    connect_timeout_secs: u64,
    forwards: Vec<(u16, u16)>,
    key: Option<EphemeralKey>,
}

/// What a [`MicroVm`] goes by.
pub struct VmModel {
    pub target: TargetModel,
    pub mapping: MappingModel,
    pub ssh_bin: Seq<char>,
    pub connect_timeout_secs: u64,
    /// Port in the guest and port on the host.
    pub forwards: Seq<(u16, u16)>,
}

impl View for MicroVm {
    type V = VmModel;

    closed spec fn view(&self) -> VmModel {
        VmModel {
            target: self.target@,
            mapping: self.mapping@,
            ssh_bin: self.ssh_bin@,
            connect_timeout_secs: self.connect_timeout_secs,
            forwards: self.forwards@,
        }
    }
}

/// The options of every call of the shell client.
pub open spec fn ssh_options(m: VmModel) -> Seq<Seq<char>> {
    seq![
        "-i"@,
        m.target.key_path,
        "-o"@,
        "BatchMode=yes"@,
        "-o"@,
        "ConnectTimeout="@ + text::dec(m.connect_timeout_secs as nat),
        "-o"@,
        "StrictHostKeyChecking=no"@,
        "-o"@,
        "UserKnownHostsFile=/dev/null"@,
        "-p"@,
        text::dec(m.target.port as nat),
    ]
}

/// User and host.
pub open spec fn ssh_dest(m: VmModel) -> Seq<char> {
    m.target.user + "@"@ + m.target.host
}

/// The arguments that forward ports of the guest to the host.
pub open spec fn forward_args(forwards: Seq<(u16, u16)>) -> Seq<Seq<char>>
    decreases forwards.len(),
{
    if forwards.len() == 0 {
        Seq::empty()
    } else {
        let (guest, host) = forwards.last();
        forward_args(forwards.drop_last()).push("-L"@).push(
            text::dec(host as nat) + ":localhost:"@ + text::dec(guest as nat),
        )
    }
}

/// Assignments of an environment, each behind a blank, their values quoted.
pub open spec fn env_text(env: Seq<(&str, &str)>) -> Seq<char>
    decreases env.len(),
{
    if env.len() == 0 {
        Seq::empty()
    } else {
        env_text(env.drop_last()) + " "@ + env.last().0@ + "="@ + quoted(env.last().1@)
    }
}

/// Words of a command, each behind a blank and quoted.
pub open spec fn words_text(cmd: Seq<Seq<char>>) -> Seq<char>
    decreases cmd.len(),
{
    if cmd.len() == 0 {
        Seq::empty()
    } else {
        words_text(cmd.drop_last()) + " "@ + quoted(cmd.last())
    }
}

/// The line that runs `cmd` in `dir` with `env`.
pub open spec fn remote_line(
    dir: Seq<char>,
    env: Seq<(&str, &str)>,
    cmd: Seq<Seq<char>>,
) -> Seq<char> {
    "cd "@ + quoted(dir) + " &&"@ + (if env.len() == 0 {
        Seq::empty()
    } else {
        " env"@ + env_text(env)
    }) + words_text(cmd)
}

impl MicroVm {
    /// The key that is kept for the guest.
    pub closed spec fn kept_key(&self) -> Option<EphemeralKey> {
        self.key
    }

    /// Commands in the guest at `target`.
    pub fn new(target: SshTarget, mapping: PathMapping) -> (v: MicroVm)
        ensures
            v@ == (VmModel {
                target: target@,
                mapping: mapping@,
                ssh_bin: "ssh"@,
                connect_timeout_secs: 10,
                forwards: Seq::empty(),
            }),
            v.kept_key() is None,
    {
        let v = MicroVm {
            target,
            mapping,
            ssh_bin: "ssh".to_owned(),
            connect_timeout_secs: 10,
            forwards: Vec::new(),
            key: None,
        };
        assert(v.forwards@ =~= Seq::empty());
        v
    }

    /// Uses a key, and keeps it as long as it lives itself.
    pub fn attach_ephemeral(self, key: EphemeralKey) -> (v: MicroVm)
        ensures
            v@ == (VmModel {
                target: TargetModel { key_path: key.private_path(), ..self@.target },
                ..self@
            }),
            v.kept_key() == Some(key),
    {
        let mut v = self;
        v.target.key_path = key.priv_path().to_owned();
        v.key = Some(key);
        v
    }

    /// Uses another shell client.
    pub fn with_ssh_bin(self, bin: String) -> (v: MicroVm)
        ensures
            v@ == (VmModel { ssh_bin: bin@, ..self@ }),
            v.kept_key() == self.kept_key(),
    {
        let mut v = self;
        v.ssh_bin = bin;
        v
    }

    /// Forwards a port of the guest to the host in interactive shells.
    pub fn add_forward(&mut self, guest_port: u16, host_port: u16)
        ensures
            final(self)@ == (VmModel {
                forwards: old(self)@.forwards.push((guest_port, host_port)),
                ..old(self)@
            }),
            final(self).kept_key() == old(self).kept_key(),
    {
        self.forwards.push((guest_port, host_port));
    }

    /// The key that is kept for the guest; its files go with the guest.
    pub fn key(&self) -> (k: Option<&EphemeralKey>)
        ensures
            match k {
                Some(key) => self.kept_key() == Some(*key),
                None => self.kept_key() is None,
            },
    {
        self.key.as_ref()
    }

    /// The shell client to run.
    pub fn ssh_bin(&self) -> (b: &str)
        ensures
            b@ == self@.ssh_bin,
    {
        self.ssh_bin.as_str()
    }

    /// Where the guest answers.
    pub fn ssh_info(&self) -> (r: Option<SshInfo>)
        ensures
            r matches Some(i) && i@ == (SshModel {
                host: self@.target.host,
                port: self@.target.port,
                user: self@.target.user,
            }),
    {
        Some(
            SshInfo {
                host: self.target.host.clone(),
                port: self.target.port,
                user: self.target.user.clone(),
            },
        )
    }

    fn base_args(&self) -> (args: Vec<String>)
        ensures
            text::texts(args@) == ssh_options(self@),
    {
        let mut timeout = "ConnectTimeout=".to_owned();
        timeout.append(text::decimal(self.connect_timeout_secs).as_str());
        let mut args: Vec<String> = Vec::new();
        args.push("-i".to_owned());
        args.push(self.target.key_path.clone());
        args.push("-o".to_owned());
        args.push("BatchMode=yes".to_owned());
        args.push("-o".to_owned());
        args.push(timeout);
        args.push("-o".to_owned());
        args.push("StrictHostKeyChecking=no".to_owned());
        args.push("-o".to_owned());
        args.push("UserKnownHostsFile=/dev/null".to_owned());
        args.push("-p".to_owned());
        args.push(text::decimal(self.target.port as u64));
        assert(text::texts(args@) =~= ssh_options(self@));
        args
    }

    fn dest(&self) -> (d: String)
        ensures
            d@ == ssh_dest(self@),
    {
        let mut d = self.target.user.clone();
        d.append("@");
        d.append(self.target.host.as_str());
        d
    }

    /// The arguments of the shell client that run a command in the guest,
    /// with variables in its environment. The empty command is an error, and
    /// so is a directory that the guest does not have.
    pub fn exec_with_env(&self, cmd: &[&str], cwd: &str, env: &[(&str, &str)]) -> (r: Result<
        Vec<String>,
        Failure,
    >)
        ensures
            match r {
                Ok(argv) => {
                    &&& cmd@.len() > 0
                    &&& self@.mapping.guest_dir(cwd@) matches Some(dir) && text::texts(argv@)
                        == ssh_options(self@) + seq![
                        ssh_dest(self@),
                        remote_line(dir, env@, outside::slices(cmd@)),
                    ]
                },
                Err(e) => if cmd@.len() == 0 {
                    e@ == "exec: empty command"@
                } else {
                    self@.mapping matches MappingModel::Mounted { host_root, guest_root }
                        && self@.mapping.guest_dir(cwd@) is None && e@ == "cwd "@ + cwd@
                        + " outside mounted "@ + host_root
                },
            },
    {
        if cmd.len() == 0 {
            return Err(Failure::because("exec: empty command"));
        }
        let dir = match self.mapping.map(cwd) {
            Ok(d) => d,
            Err(e) => {
                return Err(e);
            },
        };
        let mut remote = "cd ".to_owned();
        remote.append(shell_quote(dir.as_str()).as_str());
        remote.append(" &&");
        let ghost lead = "cd "@ + quoted(dir@) + " &&"@;
        if env.len() > 0 {
            remote.append(" env");
            let mut i: usize = 0;
            assert(env@.take(0) =~= Seq::empty());
            assert(remote@ =~= lead + (" env"@ + env_text(env@.take(0))));
            while i < env.len()
                invariant
                    i <= env@.len(),
                    remote@ == lead + (" env"@ + env_text(env@.take(i as int))),
                decreases env@.len() - i,
            {
                assert(env@.take(i + 1).drop_last() =~= env@.take(i as int));
                let (k, v) = env[i];
                remote.append(" ");
                remote.append(k);
                remote.append("=");
                remote.append(shell_quote(v).as_str());
                assert(remote@ =~= lead + (" env"@ + env_text(env@.take(i + 1))));
                i += 1;
            }
            assert(env@.take(env@.len() as int) =~= env@);
        } else {
            assert(remote@ =~= lead + Seq::empty());
        }
        let ghost before = remote@;
        let ghost words = outside::slices(cmd@);
        let mut j: usize = 0;
        assert(words.take(0) =~= Seq::empty());
        assert(remote@ =~= before + words_text(words.take(0)));
        while j < cmd.len()
            invariant
                j <= cmd@.len(),
                words == outside::slices(cmd@),
                remote@ == before + words_text(words.take(j as int)),
            decreases cmd@.len() - j,
        {
            assert(words.take(j + 1).drop_last() =~= words.take(j as int));
            remote.append(" ");
            remote.append(shell_quote(cmd[j]).as_str());
            assert(remote@ =~= before + words_text(words.take(j + 1)));
            j += 1;
        }
        assert(words.take(words.len() as int) =~= words);
        assert(remote@ == remote_line(dir@, env@, words));
        let mut argv = self.base_args();
        argv.push(self.dest());
        argv.push(remote);
        assert(text::texts(argv@) =~= ssh_options(self@) + seq![
            ssh_dest(self@),
            remote_line(dir@, env@, words),
        ]);
        Ok(argv)
    }

    /// The arguments of the shell client for an interactive shell, with the
    /// forwarded ports.
    pub fn shell_args(&self) -> (argv: Vec<String>)
        ensures
            text::texts(argv@) == (ssh_options(self@) + forward_args(self@.forwards)).push(
                ssh_dest(self@),
            ),
    {
        let mut argv = self.base_args();
        let ghost options = ssh_options(self@);
        let mut i: usize = 0;
        assert(self.forwards@.take(0) =~= Seq::empty());
        assert(options + forward_args(self.forwards@.take(0)) =~= options);
        while i < self.forwards.len()
            invariant
                i <= self.forwards@.len(),
                text::texts(argv@) == options + forward_args(self.forwards@.take(i as int)),
            decreases self.forwards@.len() - i,
        {
            assert(self.forwards@.take(i + 1).drop_last() =~= self.forwards@.take(i as int));
            let (guest, host) = self.forwards[i];
            let mut spec = text::decimal(host as u64);
            spec.append(":localhost:");
            spec.append(text::decimal(guest as u64).as_str());
            let ghost was = text::texts(argv@);
            argv.push("-L".to_owned());
            argv.push(spec);
            assert(text::texts(argv@) =~= was.push("-L"@).push(spec@));
            assert(text::texts(argv@) =~= options + forward_args(self.forwards@.take(i + 1)));
            i += 1;
        }
        assert(self.forwards@.take(self.forwards@.len() as int) =~= self.forwards@);
        let ghost was = text::texts(argv@);
        argv.push(self.dest());
        assert(text::texts(argv@) =~= was.push(ssh_dest(self@)));
        argv
    }
}

/// Hands out host ports for previews, each once.
#[derive(Debug)]
pub struct PreviewPorts {
    next: u16,
}

impl PreviewPorts {
    /// The first port.
    pub const BASE: u16 = 4100;

    /// The last port.
    pub const CAP: u16 = 4199;

    /// The port that comes next.
    pub closed spec fn upcoming(&self) -> u16 {
        self.next
    }

    #[verifier::type_invariant]
    spec fn in_range(self) -> bool {
        4100 <= self.next <= 4200
    }

    /// Begins with the first port.
    pub fn new() -> (p: PreviewPorts)
        ensures
            p.upcoming() == 4100,
    {
        PreviewPorts { next: 4100 }
    }

    /// The next port, as long as there is one.
    pub fn allocate(&mut self) -> (r: Result<u16, Failure>)
        ensures
            match r {
                Ok(p) => 4100 <= p <= 4199 && p == old(self).upcoming() && final(self).upcoming()
                    == p + 1,
                Err(e) => old(self).upcoming() > 4199 && *final(self) == *old(self) && e@
                    == "preview ports exhausted (4100-4199)"@,
            },
    {
        proof {
            use_type_invariant(&*self);
        }
        if self.next > 4199 {
            return Err(Failure::because("preview ports exhausted (4100-4199)"));
        }
        let p: u16 = self.next;
        self.next = p + 1;
        Ok(p)
    }
}

impl Clone for PreviewPorts {
    fn clone(&self) -> (p: PreviewPorts)
        ensures
            p == *self,
    {
        proof {
            use_type_invariant(self);
        }
        PreviewPorts { next: self.next }
    }
}

impl Default for PreviewPorts {
    fn default() -> (p: PreviewPorts)
        ensures
            p.upcoming() == 4100,
    {
        PreviewPorts::new()
    }
}

/// A character that a shell takes as it stands.
pub open spec fn is_plain(c: char) -> bool {
    ||| 'a' <= c <= 'z'
    ||| 'A' <= c <= 'Z'
    ||| '0' <= c <= '9'
    ||| c == '-'
    ||| c == '_'
    ||| c == '.'
    ||| c == '/'
    ||| c == ':'
    ||| c == '='
    ||| c == '+'
    ||| c == ','
}

/// A character inside single quotes: a quote closes them, stands escaped and
/// opens them again.
pub open spec fn escaped(c: char) -> Seq<char> {
    if c == '\'' {
        seq!['\'', '\\', '\'', '\'']
    } else {
        seq![c]
    }
}

/// A text inside single quotes.
pub open spec fn escaped_all(s: Seq<char>) -> Seq<char>
    decreases s.len(),
{
    if s.len() == 0 {
        Seq::empty()
    } else {
        escaped(s[0]) + escaped_all(s.drop_first())
    }
}

/// All characters are plain.
pub open spec fn all_plain(s: Seq<char>) -> bool {
    forall|i: int| 0 <= i < s.len() ==> is_plain(#[trigger] s[i])
}

/// A text as one word of a shell command.
pub open spec fn quoted(s: Seq<char>) -> Seq<char> {
    if s.len() > 0 && all_plain(s) {
        s
    } else {
        seq!['\''] + escaped_all(s) + seq!['\'']
    }
}

fn plain(c: char) -> (r: bool)
    ensures
        r == is_plain(c),
{
    (c >= 'a' && c <= 'z') || (c >= 'A' && c <= 'Z') || (c >= '0' && c <= '9') || c == '-' || c
        == '_' || c == '.' || c == '/' || c == ':' || c == '=' || c == '+' || c == ','
}

/// A text as one word of a shell command: as it stands where that is safe,
/// else in single quotes.
pub fn shell_quote(s: &str) -> (r: String)
    ensures
        r@ == quoted(s@),
{
    let x = text::chars_of(s);
    let mut i: usize = 0;
    while i < x.len() && plain(x[i])
        invariant
            i <= x@.len(),
            x@ == s@,
            forall|j: int| 0 <= j < i ==> is_plain(#[trigger] x@[j]),
        decreases x@.len() - i,
    {
        i += 1;
    }
    if i > 0 && i == x.len() {
        return s.to_owned();
    }
    assert(i < x@.len() ==> !is_plain(x@[i as int]));
    let mut r = String::new();
    r.push('\'');
    assert(r@ =~= seq!['\'']);
    let mut k: usize = 0;
    assert(x@.skip(0) =~= s@);
    while k < x.len()
        invariant
            k <= x@.len(),
            x@ == s@,
            r@ + escaped_all(x@.skip(k as int)) == seq!['\''] + escaped_all(s@),
        decreases x@.len() - k,
    {
        let ghost was = r@;
        let ghost rest = escaped_all(x@.skip(k + 1));
        assert(x@.skip(k as int).drop_first() =~= x@.skip(k + 1));
        if x[k] == '\'' {
            r.push('\'');
            r.push('\\');
            r.push('\'');
            r.push('\'');
        } else {
            r.push(x[k]);
        }
        assert(r@ =~= was + escaped(x@[k as int]));
        assert(was + (escaped(x@[k as int]) + rest) =~= r@ + rest);
        k += 1;
    }
    assert(r@ + escaped_all(x@.skip(k as int)) =~= r@);
    r.push('\'');
    assert(r@ =~= seq!['\''] + escaped_all(s@) + seq!['\'']);
    r
}

/// The one word that a shell reads in `s`, beginning inside or outside of
/// single quotes: `None` where `s` is not a single word of plain characters,
/// escaped characters and quoted runs.
pub open spec fn shell_word(s: Seq<char>, inside: bool) -> Option<Seq<char>>
    decreases s.len(),
{
    if s.len() == 0 {
        if inside {
            None
        } else {
            Some(Seq::empty())
        }
    } else if s[0] == '\'' {
        shell_word(s.drop_first(), !inside)
    } else if !inside && s[0] == '\\' {
        if s.len() == 1 {
            None
        } else {
            prefixed(s[1], shell_word(s.skip(2), false))
        }
    } else if inside || is_plain(s[0]) {
        prefixed(s[0], shell_word(s.drop_first(), inside))
    } else {
        None
    }
}

/// `c` and then the word, where there is one.
pub open spec fn prefixed(c: char, word: Option<Seq<char>>) -> Option<Seq<char>> {
    match word {
        Some(w) => Some(seq![c] + w),
        None => None,
    }
}

/// A shell reads a quoted text as one word, and that word is the text.
pub proof fn quoting_round_trip(s: Seq<char>)
    ensures
        shell_word(quoted(s), false) == Some(s),
{
    if s.len() > 0 && all_plain(s) {
        plain_round_trip(s);
    } else {
        let q = quoted(s);
        assert(q.drop_first() =~= escaped_all(s) + seq!['\'']);
        escaped_round_trip(s);
    }
}

proof fn plain_round_trip(s: Seq<char>)
    requires
        all_plain(s),
    ensures
        shell_word(s, false) == Some(s),
    decreases s.len(),
{
    if s.len() > 0 {
        assert(is_plain(s[0]));
        assert forall|i: int| 0 <= i < s.drop_first().len() implies is_plain(
            #[trigger] s.drop_first()[i],
        ) by {
            assert(is_plain(s[i + 1]));
        }
        plain_round_trip(s.drop_first());
        assert(seq![s[0]] + s.drop_first() =~= s);
    } else {
        assert(s =~= Seq::empty());
    }
}

proof fn escaped_round_trip(s: Seq<char>)
    ensures
        shell_word(escaped_all(s) + seq!['\''], true) == Some(s),
    decreases s.len(),
{
    let end = seq!['\''];
    if s.len() == 0 {
        let q = escaped_all(s) + end;
        assert(q =~= end);
        assert(q.drop_first() =~= Seq::empty());
        assert(shell_word(q.drop_first(), false) == Some(Seq::<char>::empty()));
        assert(s =~= Seq::empty());
    } else {
        let rest = escaped_all(s.drop_first()) + end;
        let q = escaped_all(s) + end;
        escaped_round_trip(s.drop_first());
        assert(seq![s[0]] + s.drop_first() =~= s);
        if s[0] == '\'' {
            assert(q =~= seq!['\'', '\\', '\'', '\''] + rest);
            let q1 = q.drop_first();
            assert(q1 =~= seq!['\\', '\'', '\''] + rest);
            let q3 = q1.skip(2);
            assert(q3 =~= seq!['\''] + rest);
            assert(q3.drop_first() =~= rest);
            assert(shell_word(q3, false) == shell_word(rest, true));
            assert(shell_word(q1, false) == prefixed('\'', shell_word(q3, false)));
        } else {
            assert(q =~= seq![s[0]] + rest);
            assert(q.drop_first() =~= rest);
        }
    }
}

/// Quoting goes character by character, and only a quotation mark is written
/// otherwise than it is; a word of plain characters is written bare.
pub proof fn quoting_is_by_character(a: Seq<char>, b: Seq<char>, c: char)
    ensures
        escaped_all(Seq::empty()).len() == 0,
        escaped_all(a + b) == escaped_all(a) + escaped_all(b),
        c != '\'' ==> escaped_all(seq![c]) == seq![c],
        escaped_all(seq!['\'']) == seq!['\'', '\\', '\'', '\''],
        a.len() > 0 && all_plain(a) ==> quoted(a) == a,
        !(a.len() > 0 && all_plain(a)) ==> quoted(a)[0] == '\'' && quoted(a).last() == '\'',
    decreases a.len(),
{
    reveal_with_fuel(escaped_all, 2);
    assert(seq![c].drop_first() =~= Seq::empty());
    assert(seq!['\''].drop_first() =~= Seq::empty());
    assert(escaped_all(seq![c]) =~= escaped(c));
    assert(escaped_all(seq!['\'']) =~= escaped('\''));
    if a.len() == 0 {
        assert(a + b =~= b);
        assert(escaped_all(a) + escaped_all(b) =~= escaped_all(b));
    } else {
        assert((a + b).drop_first() =~= a.drop_first() + b);
        assert((a + b)[0] == a[0]);
        quoting_is_by_character(a.drop_first(), b, c);
        assert(escaped_all(a + b) =~= escaped_all(a) + escaped_all(b));
    }
}

/// The words of a command are quoted one by one, each behind a blank, and so
/// are the settings before it, each with its name.
pub proof fn command_words_are_quoted_in_turn(
    a: Seq<Seq<char>>,
    b: Seq<Seq<char>>,
    word: Seq<char>,
    x: Seq<(&str, &str)>,
    y: Seq<(&str, &str)>,
    v: (&str, &str),
)
    ensures
        words_text(Seq::empty()).len() == 0,
        words_text(a + b) == words_text(a) + words_text(b),
        words_text(seq![word]) == seq![' '] + quoted(word),
        env_text(Seq::empty()).len() == 0,
        env_text(x + y) == env_text(x) + env_text(y),
        env_text(seq![v]) == seq![' '] + v.0@ + seq!['='] + quoted(v.1@),
    decreases b.len() + y.len(),
{
    reveal_with_fuel(words_text, 2);
    reveal_with_fuel(env_text, 2);
    reveal_strlit(" ");
    reveal_strlit("=");
    assert(" "@ =~= seq![' ']);
    assert("="@ =~= seq!['=']);
    assert(seq![word].drop_last() =~= Seq::empty());
    assert(seq![v].drop_last() =~= Seq::empty());
    assert(words_text(seq![word]) =~= seq![' '] + quoted(word));
    assert(env_text(seq![v]) =~= seq![' '] + v.0@ + seq!['='] + quoted(v.1@));
    if b.len() == 0 {
        assert(a + b =~= a);
        assert(words_text(a) + words_text(b) =~= words_text(a));
    } else {
        assert((a + b).drop_last() =~= a + b.drop_last());
        command_words_are_quoted_in_turn(a, b.drop_last(), word, x, y, v);
        assert(words_text(a + b) =~= words_text(a) + words_text(b));
    }
    if y.len() == 0 {
        assert(x + y =~= x);
        assert(env_text(x) + env_text(y) =~= env_text(x));
    } else {
        assert((x + y).drop_last() =~= x + y.drop_last());
        command_words_are_quoted_in_turn(a, b, word, x, y.drop_last(), v);
        assert(env_text(x + y) =~= env_text(x) + env_text(y));
    }
}

/// Each forwarded port is asked for by its own pair of arguments, in order,
/// the host's port before the guest's.
pub proof fn ports_are_forwarded_in_turn(forwards: Seq<(u16, u16)>, i: int)
    ensures
        forward_args(forwards).len() == 2 * forwards.len(),
        0 <= i < forwards.len() ==> forward_args(forwards)[2 * i] == "-L"@ && forward_args(
            forwards,
        )[2 * i + 1] == text::dec(forwards[i].1 as nat) + ":localhost:"@ + text::dec(
            forwards[i].0 as nat,
        ),
    decreases forwards.len(),
{
    if forwards.len() > 0 {
        ports_are_forwarded_in_turn(forwards.drop_last(), i);
        if 0 <= i < forwards.len() - 1 {
            assert(forwards.drop_last()[i] == forwards[i]);
        } else {
            assert(forwards[forwards.len() - 1] == forwards.last());
        }
    }
}

/// A directory of the host is found in the guest by what lies below the
/// mounted root, under the guest's root, and not at all outside of it; without
/// a mount it is the same.
pub proof fn directories_map_below_the_mount(cwd: Seq<char>, host: Seq<char>, guest: Seq<char>)
    ensures
        MappingModel::Identity.guest_dir(cwd) == Some(cwd),
        paths::below(cwd, host) is None ==> (MappingModel::Mounted {
            host_root: host,
            guest_root: guest,
        }).guest_dir(cwd) is None,
        paths::below(cwd, host) matches Some(rel) ==> (MappingModel::Mounted {
            host_root: host,
            guest_root: guest,
        }).guest_dir(cwd) == Some(paths::join(guest, rel)),
{
}

/// A remote command first goes to its directory, then sets what is to be set,
/// then runs the words.
pub proof fn remote_commands_run_in_their_directory(
    dir: Seq<char>,
    env: Seq<(&str, &str)>,
    cmd: Seq<Seq<char>>,
)
    ensures
        env.len() == 0 ==> remote_line(dir, env, cmd) == "cd "@ + quoted(dir) + " &&"@
            + words_text(cmd),
        env.len() > 0 ==> remote_line(dir, env, cmd) == "cd "@ + quoted(dir) + " &&"@ + " env"@
            + env_text(env) + words_text(cmd),
{
    if env.len() == 0 {
        assert(remote_line(dir, env, cmd) =~= "cd "@ + quoted(dir) + " &&"@ + words_text(cmd));
    } else {
        assert(remote_line(dir, env, cmd) =~= "cd "@ + quoted(dir) + " &&"@ + " env"@ + env_text(
            env,
        ) + words_text(cmd));
    }
}

/// What is written bare means nothing to a shell: no blank, quote, sign of
/// expansion, redirection, or sign that ends a command is plain.
pub proof fn plain_means_nothing_to_a_shell(c: char)
    requires
        is_plain(c),
    ensures
        !text::is_space(c),
        c != '\'' && c != '"' && c != '\\' && c != '$' && c != '`' && c != '~',
        c != '*' && c != '?' && c != '[' && c != ']' && c != '{' && c != '}',
        c != '<' && c != '>' && c != '|' && c != '&' && c != ';' && c != '(' && c != ')',
        c != '#' && c != '!' && c != '^' && c != '%',
{
}

/// A machine is reached as its user at its host, with its key and at its port.
pub proof fn machines_are_reached_by_key_and_port(m: VmModel)
    ensures
        ssh_dest(m) == m.target.user + seq!['@'] + m.target.host,
        ssh_options(m)[0] == "-i"@ && ssh_options(m)[1] == m.target.key_path,
        ssh_options(m)[ssh_options(m).len() - 2] == "-p"@,
        ssh_options(m).last() == text::dec(m.target.port as nat),
        ssh_options(m).contains("ConnectTimeout="@ + text::dec(m.connect_timeout_secs as nat)),
{
    reveal_strlit("@");
    assert("@"@ =~= seq!['@']);
    assert(ssh_options(m)[5] == "ConnectTimeout="@ + text::dec(m.connect_timeout_secs as nat));
}

} // verus!
