//! Machines run by the `sbx` command: names, arguments and what its table
//! says.
use crate::backend::{ErrorModel, VmError};
use crate::config::{SshInfo, SshModel, StateModel, VmHandle, VmState};
use crate::outside;
use crate::outside::Failure;
use crate::paths;
use crate::sorted_map::StrMap;
use crate::text;
use vstd::prelude::*;
use vstd::string::*;

verus! {

/// A basic Latin letter or digit.
pub open spec fn is_alnum(c: char) -> bool {
    ('a' <= c <= 'z') || ('A' <= c <= 'Z') || ('0' <= c <= '9')
}

/// Everything but letters and digits becomes a dash.
pub open spec fn dashed(s: Seq<char>) -> Seq<char> {
    s.map_values(
        |c: char|
            if is_alnum(c) {
                c
            } else {
                '-'
            },
    )
}

/// The name of a directory as part of a machine's name: small letters,
/// digits and inner dashes; `ws` where nothing is left.
pub open spec fn machine_base(repo: Seq<char>) -> Seq<char> {
    let name = match paths::name_of(repo) {
        Some(n) => n,
        None => "ws"@,
    };
    let base = text::small_all(text::trim(dashed(name), text::only('-')));
    if base.len() == 0 {
        "ws"@
    } else {
        base
    }
}

/// A text with dashes for everything but letters and digits.
pub(crate) fn with_dashes(s: &str) -> (plain: String)
    ensures
        plain@ == dashed(s@),
{
    let c = text::chars_of(s);
    let mut plain = String::new();
    let mut i: usize = 0;
    while i < c.len()
        invariant
            i <= c@.len(),
            plain@ == dashed(c@.take(i as int)),
        decreases c@.len() - i,
    {
        let k = c[i];
        if (k >= 'a' && k <= 'z') || (k >= 'A' && k <= 'Z') || (k >= '0' && k <= '9') {
            plain.push(k);
        } else {
            plain.push('-');
        }
        assert(plain@ =~= dashed(c@.take(i + 1)));
        i += 1;
    }
    assert(c@.take(c@.len() as int) =~= c@);
    plain
}

/// The name of a directory as part of a machine's name.
pub fn base_name(repo: &str) -> (r: String)
    ensures
        r@ == machine_base(repo@),
{
    let name = match paths::file_name(repo) {
        Some(n) => n,
        None => "ws".to_owned(),
    };
    let plain = with_dashes(name.as_str());
    let inner = text::trimmed_of(plain.as_str(), '-');
    let d = text::chars_of(inner.as_str());
    let mut base = String::new();
    let mut j: usize = 0;
    while j < d.len()
        invariant
            j <= d@.len(),
            base@ == text::small_all(d@.take(j as int)),
        decreases d@.len() - j,
    {
        base.push(text::small_char(d[j]));
        assert(base@ =~= text::small_all(d@.take(j + 1)));
        j += 1;
    }
    assert(d@.take(d@.len() as int) =~= d@);
    if base.as_str().is_empty() {
        "ws".to_owned()
    } else {
        base
    }
}

/// What the table that `sbx ls` prints says: names with their states. The
/// first line may be a heading; lines of less than three words say nothing.
pub open spec fn table(lines: Seq<Seq<char>>) -> Map<Seq<char>, Seq<char>>
    decreases lines.len(),
{
    if lines.len() == 0 {
        Map::empty()
    } else {
        let before = table(lines.drop_last());
        let w = text::words(lines.last());
        if w.len() < 3 {
            before
        } else if lines.len() == 1 && text::small_all(w[0]) == text::small_all("sandbox"@) {
            before
        } else {
            before.insert(w[0], outside::lowercase(w[2]))
        }
    }
}

/// The contents of a map of strings.
pub open spec fn text_values(m: Map<Seq<char>, String>) -> Map<Seq<char>, Seq<char>> {
    m.map_values(|s: String| s@)
}

/// Reads the table that `sbx ls` prints.
pub fn parse_sbx_ls(output: &str) -> (m: StrMap<String>)
    ensures
        text_values(m@) == table(text::lines(output@)),
{
    let lines = text::split_lines(output);
    let ghost all = text::lines(output@);
    let mut m: StrMap<String> = StrMap::new();
    let mut i: usize = 0;
    assert(text_values(m@) =~= table(all.take(0)));
    while i < lines.len()
        invariant
            i <= lines@.len(),
            text::texts(lines@) == all,
            text_values(m@) == table(all.take(i as int)),
        decreases lines@.len() - i,
    {
        let line = lines[i].as_str();
        assert(all[i as int] == line@);
        assert(all.take(i + 1).drop_last() =~= all.take(i as int));
        let w = text::split_words(line);
        let ghost words = text::words(line@);
        assert(words.len() == w@.len());
        if w.len() >= 3 {
            assert(words[0] == w@[0]@ && words[2] == w@[2]@);
            if !(i == 0 && text::same_but_case(w[0].as_str(), "sandbox")) {
                let status = outside::lower_text(w[2].as_str());
                let ghost was = m@;
                m.insert(w[0].clone(), status);
                assert(text_values(m@) =~= text_values(was).insert(words[0], status@));
            }
        }
        i += 1;
    }
    assert(all.take(all.len() as int) =~= all);
    m
}

/// The state of a machine that the table lists as `status`, or does not list.
pub open spec fn listed(status: Option<Seq<char>>) -> StateModel {
    match status {
        Some(s) => if s == "running"@ {
            StateModel::Running
        } else if s == "stopped"@ || s == "exited"@ {
            StateModel::Stopped
        } else {
            StateModel::Booting
        },
        None => StateModel::Booting,
    }
}

/// The state of a machine that the table lists as `status`.
pub fn listed_state(status: Option<&str>) -> (s: VmState)
    ensures
        s@ == listed(
            match status {
                Some(t) => Some(t@),
                None => None,
            },
        ),
{
    match status {
        Some(t) => if text::same(t, "running") {
            VmState::Running
        } else if text::same(t, "stopped") || text::same(t, "exited") {
            VmState::Stopped
        } else {
            VmState::Booting
        },
        None => VmState::Booting,
    }
}

/// A name with a number behind it.
pub open spec fn numbered(plain: Seq<char>, n: u64) -> Seq<char> {
    plain + "-"@ + text::dec(n as nat)
}

/// The number `d` places behind `first`; behind the last one they start over.
pub open spec fn counted(first: u64, d: nat) -> u64 {
    ((first + d) % 0x1_0000_0000_0000_0000) as u64
}

/// Among distinct names are at most as many numbered ones as there are names.
proof fn names_run_out(plain: Seq<char>, first: u64, known: Seq<Seq<char>>, d: nat)
    requires
        known.no_duplicates(),
        known.len() < 0x1_0000_0000_0000_0000,
        forall|e: nat|
            e < d ==> known.contains(#[trigger] numbered(plain, counted(first, e))),
        d <= 0x1_0000_0000_0000_0000,
    ensures
        d <= known.len(),
{
    let taken = Seq::new(d, |e: int| numbered(plain, counted(first, e as nat)));
    assert forall|i: int, j: int| 0 <= i < taken.len() && 0 <= j < taken.len() && i
        != j implies taken[i] != taken[j] by {
        let a = counted(first, i as nat);
        let b = counted(first, j as nat);
        assert(a != b);
        if taken[i] == taken[j] {
            let head = plain + "-"@;
            assert(taken[i].skip(head.len() as int) =~= text::dec(a as nat));
            assert(taken[j].skip(head.len() as int) =~= text::dec(b as nat));
            text::dec_injective(a as nat, b as nat);
        }
    }
    taken.unique_seq_to_set();
    known.unique_seq_to_set();
    assert forall|t: Seq<char>| taken.to_set().contains(t) implies known.to_set().contains(t) by {
        let e = choose|e: int| 0 <= e < taken.len() && taken[e] == t;
        assert(known.contains(numbered(plain, counted(first, e as nat))));
    }
    vstd::set_lib::lemma_len_subset(taken.to_set(), known.to_set());
}

/// Machines run by the `sbx` command.
pub struct ExternalSbxBackend {
    bin: String,
    known: StrMap<()>,
    stopped: StrMap<()>,
    setup_ssh_done: bool,
    next_id: u64,
}

/// What is known of the machines of an [`ExternalSbxBackend`].
pub struct SbxModel {
    pub bin: Seq<char>,
    pub known: Set<Seq<char>>,
    pub stopped: Set<Seq<char>>,
    pub setup_ssh_done: bool,
    pub next_id: u64,
}

impl View for ExternalSbxBackend {
    type V = SbxModel;

    closed spec fn view(&self) -> SbxModel {
        SbxModel {
            bin: self.bin@,
            known: self.known@.dom(),
            stopped: self.stopped@.dom(),
            setup_ssh_done: self.setup_ssh_done,
            next_id: self.next_id,
        }
    }
}

/// What is to be done to find out a machine's state.
#[derive(Debug, PartialEq, Eq)]
pub enum StateQuery {
    /// It is known already.
    Known(VmState),
    /// Print the table and read it.
    Ask,
}

/// What is to be done to find out whether a machine's shell server answers.
#[derive(Debug, PartialEq, Eq)]
pub enum SshQuery {
    /// Write the client configuration first.
    Setup,
    /// Connect to the host of this name.
    Probe(String),
}

impl Default for ExternalSbxBackend {
    fn default() -> (b: ExternalSbxBackend)
        ensures
            b@.bin == "sbx"@,
            b@.known == Set::<Seq<char>>::empty(),
            b@.stopped == Set::<Seq<char>>::empty(),
            !b@.setup_ssh_done,
            b@.next_id == 1,
    {
        ExternalSbxBackend::new()
    }
}

impl ExternalSbxBackend {
    /// A backend over the command `sbx`.
    pub fn new() -> (b: ExternalSbxBackend)
        ensures
            b@.bin == "sbx"@,
            b@.known == Set::<Seq<char>>::empty(),
            b@.stopped == Set::<Seq<char>>::empty(),
            !b@.setup_ssh_done,
            b@.next_id == 1,
    {
        ExternalSbxBackend::with_bin("sbx".to_owned())
    }

    /// A backend over another command.
    pub fn with_bin(bin: String) -> (b: ExternalSbxBackend)
        ensures
            b@.bin == bin@,
            b@.known == Set::<Seq<char>>::empty(),
            b@.stopped == Set::<Seq<char>>::empty(),
            !b@.setup_ssh_done,
            b@.next_id == 1,
    {
        let b = ExternalSbxBackend {
            bin,
            known: StrMap::new(),
            stopped: StrMap::new(),
            setup_ssh_done: false,
            next_id: 1,
        };
        assert(b@.known =~= Set::empty());
        assert(b@.stopped =~= Set::empty());
        b
    }

    /// The command to run.
    pub fn bin(&self) -> (b: &str)
        ensures
            b@ == self@.bin,
    {
        self.bin.as_str()
    }

    /// The name for a machine of `repo`: one that is taken gets a number, the
    /// first whose name is free.
    pub fn sandbox_name(&mut self, repo: &str) -> (n: String)
        ensures
            !old(self)@.known.contains(n@),
            ({
                let plain = "ade-"@ + machine_base(repo@);
                if old(self)@.known.contains(plain) {
                    exists|d: nat|
                        {
                            &&& n@ == #[trigger] numbered(plain, counted(old(self)@.next_id, d))
                            &&& forall|e: nat|
                                e < d ==> old(self)@.known.contains(
                                    #[trigger] numbered(plain, counted(old(self)@.next_id, e)),
                                )
                            &&& final(self)@ == (SbxModel {
                                next_id: counted(old(self)@.next_id, d + 1),
                                ..old(self)@
                            })
                        }
                } else {
                    n@ == plain && final(self)@ == old(self)@
                }
            }),
    {
        let mut name = "ade-".to_owned();
        name.append(base_name(repo).as_str());
        if !self.known.contains_key(name.as_str()) {
            return name;
        }
        let ghost plain = name@;
        let ghost first = self.next_id;
        let ghost known = self.known.keys();
        let ghost mut d: nat = 0;
        let size: usize = self.known.len();
        proof {
            assert(self@.known =~= known.to_set());
            assert(counted(first, 0) == first);
        }
        loop
            invariant
                plain == name@,
                known == self.known.keys(),
                known.no_duplicates(),
                known.len() == size,
                self@.known == known.to_set(),
                self@ == (SbxModel { next_id: counted(first, d), ..old(self)@ }),
                first == old(self)@.next_id,
                d <= size,
                plain == "ade-"@ + machine_base(repo@),
                old(self)@.known.contains(plain),
                forall|e: nat|
                    e < d ==> old(self)@.known.contains(
                        #[trigger] numbered(plain, counted(first, e)),
                    ),
            decreases size - d,
        {
            let n: u64 = self.next_id;
            self.next_id = n.wrapping_add(1);
            let mut with = name.clone();
            with.append("-");
            with.append(text::decimal(n).as_str());
            assert(with@ == numbered(plain, counted(first, d)));
            assert(self.next_id == counted(first, d + 1));
            if !self.known.contains_key(with.as_str()) {
                return with;
            }
            proof {
                assert forall|e: nat| e < d + 1 implies known.contains(
                    #[trigger] numbered(plain, counted(first, e)),
                ) by {
                    assert(old(self)@.known.contains(numbered(plain, counted(first, e))));
                }
                names_run_out(plain, first, known, d + 1);
                d = d + 1;
            }
        }
    }

    /// The arguments that create a machine.
    pub fn create_args(name: &str, repo: &str) -> (args: Vec<String>)
        ensures
            text::texts(args@) == seq!["create"@, "--name"@, name@, "shell"@, repo@],
    {
        let mut args: Vec<String> = Vec::new();
        args.push("create".to_owned());
        args.push("--name".to_owned());
        args.push(name.to_owned());
        args.push("shell".to_owned());
        args.push(repo.to_owned());
        assert(text::texts(args@) =~= seq!["create"@, "--name"@, name@, "shell"@, repo@]);
        args
    }

    /// Takes note of a machine that was created.
    pub fn on_created(&mut self, name: &str) -> (h: VmHandle)
        ensures
            h@ == name@,
            final(self)@ == (SbxModel {
                known: old(self)@.known.insert(name@),
                stopped: old(self)@.stopped.remove(name@),
                ..old(self)@
            }),
    {
        self.known.insert(name.to_owned(), ());
        self.stopped.remove(name);
        assert(self@.known =~= old(self)@.known.insert(name@));
        assert(self@.stopped =~= old(self)@.stopped.remove(name@));
        VmHandle { id: name.to_owned() }
    }

    /// The error of a command that ended without success.
    pub fn run_error(args: &Vec<String>, stderr: &[u8]) -> (f: Failure)
        ensures
            f@ == "sbx "@ + text::join(text::texts(args@), " "@) + " failed: "@ + text::trim(
                outside::utf8_lossy(stderr@),
                text::blank(),
            ),
    {
        let mut message = "sbx ".to_owned();
        message.append(text::joined(args, " ").as_str());
        message.append(" failed: ");
        message.append(text::trimmed(outside::lossy_text(stderr).as_str()).as_str());
        Failure { message }
    }

    /// What to do to find out whether a machine's shell server answers.
    pub fn ssh_query(&self, handle: &VmHandle) -> (r: Result<SshQuery, VmError>)
        ensures
            match r {
                Ok(q) => self@.known.contains(handle@) && match q {
                    SshQuery::Setup => !self@.setup_ssh_done,
                    SshQuery::Probe(host) => self@.setup_ssh_done && host@ == handle@ + ".sbx"@,
                },
                Err(e) => !self@.known.contains(handle@) && e@ == ErrorModel::UnknownHandle(
                    handle@,
                ),
            },
    {
        if !self.known.contains_key(handle.id.as_str()) {
            return Err(VmError::UnknownHandle(handle.id.clone()));
        }
        if !self.setup_ssh_done {
            return Ok(SshQuery::Setup);
        }
        let mut host = handle.id.clone();
        host.append(".sbx");
        Ok(SshQuery::Probe(host))
    }

    /// Takes note of the client configuration: written, or why not.
    pub fn on_setup(&mut self, success: bool, stderr: &[u8]) -> (r: Result<(), Failure>)
        ensures
            match r {
                Ok(_) => success && final(self)@ == (SbxModel {
                    setup_ssh_done: true,
                    ..old(self)@
                }),
                Err(f) => !success && final(self)@ == old(self)@ && f@ == "sbx setup ssh failed: "@
                    + text::trim(outside::utf8_lossy(stderr@), text::blank()),
            },
    {
        if success {
            self.setup_ssh_done = true;
            return Ok(());
        }
        Err(
            Failure::because_of(
                "sbx setup ssh failed: ",
                text::trimmed(outside::lossy_text(stderr).as_str()).as_str(),
            ),
        )
    }

    /// The arguments of the shell client that look at a host.
    pub fn probe_args(host: &str) -> (args: Vec<String>)
        ensures
            text::texts(args@) == seq![
                "-o"@,
                "BatchMode=yes"@,
                "-o"@,
                "ConnectTimeout=2"@,
                "-o"@,
                "StrictHostKeyChecking=no"@,
                host@,
                "true"@,
            ],
    {
        let mut args: Vec<String> = Vec::new();
        args.push("-o".to_owned());
        args.push("BatchMode=yes".to_owned());
        args.push("-o".to_owned());
        args.push("ConnectTimeout=2".to_owned());
        args.push("-o".to_owned());
        args.push("StrictHostKeyChecking=no".to_owned());
        args.push(host.to_owned());
        args.push("true".to_owned());
        assert(text::texts(args@) =~= seq![
            "-o"@,
            "BatchMode=yes"@,
            "-o"@,
            "ConnectTimeout=2"@,
            "-o"@,
            "StrictHostKeyChecking=no"@,
            host@,
            "true"@,
        ]);
        args
    }

    /// What a look at a host says.
    pub fn on_probe(host: String, success: bool) -> (r: Result<SshInfo, Failure>)
        ensures
            match r {
                Ok(i) => success && i@ == (SshModel { host: host@, port: 22, user: "agent"@ }),
                Err(f) => !success && f@ == "ssh not ready yet: "@ + host@,
            },
    {
        if success {
            Ok(SshInfo { host, port: 22, user: "agent".to_owned() })
        } else {
            Err(Failure::because_of("ssh not ready yet: ", host.as_str()))
        }
    }

    /// The state of a machine, where it is known without asking.
    pub fn state_query(&self, handle: &VmHandle) -> (q: StateQuery)
        ensures
            if self@.stopped.contains(handle@) {
                q matches StateQuery::Known(s) && s@ == StateModel::Stopped
            } else if !self@.known.contains(handle@) {
                q matches StateQuery::Known(s) && s@ == StateModel::Missing
            } else {
                q is Ask
            },
    {
        if self.stopped.contains_key(handle.id.as_str()) {
            StateQuery::Known(VmState::Stopped)
        } else if !self.known.contains_key(handle.id.as_str()) {
            StateQuery::Known(VmState::Missing)
        } else {
            StateQuery::Ask
        }
    }

    /// The state of a machine by what `sbx ls` printed; `None` where it could
    /// not be run.
    pub fn state_from_ls(handle: &VmHandle, output: Option<&[u8]>) -> (s: VmState)
        ensures
            s@ == (match output {
                Some(bytes) => {
                    let t = table(text::lines(outside::utf8_lossy(bytes@)));
                    listed(
                        if t.dom().contains(handle@) {
                            Some(t[handle@])
                        } else {
                            None
                        },
                    )
                },
                None => StateModel::Error("sbx ls spawn failed"@),
            }),
    {
        match output {
            Some(bytes) => {
                let m = parse_sbx_ls(outside::lossy_text(bytes).as_str());
                let ghost t = text_values(m@);
                match m.get(handle.id.as_str()) {
                    Some(status) => {
                        assert(t.dom().contains(handle@) && t[handle@] == status@);
                        listed_state(Some(status.as_str()))
                    },
                    None => {
                        assert(!t.dom().contains(handle@));
                        listed_state(None)
                    },
                }
            },
            None => VmState::Error("sbx ls spawn failed".to_owned()),
        }
    }

    /// The arguments that remove a machine that runs.
    pub fn stop_args(&self, handle: &VmHandle) -> (r: Result<Vec<String>, VmError>)
        ensures
            match r {
                Ok(args) => self@.known.contains(handle@) && !self@.stopped.contains(handle@)
                    && text::texts(args@) == seq!["rm"@, "--force"@, handle@],
                Err(e) => if !self@.known.contains(handle@) {
                    e@ == ErrorModel::UnknownHandle(handle@)
                } else {
                    self@.stopped.contains(handle@) && e@ == ErrorModel::AlreadyStopped(handle@)
                },
            },
    {
        if !self.known.contains_key(handle.id.as_str()) {
            return Err(VmError::UnknownHandle(handle.id.clone()));
        }
        if self.stopped.contains_key(handle.id.as_str()) {
            return Err(VmError::AlreadyStopped(handle.id.clone()));
        }
        let mut args: Vec<String> = Vec::new();
        args.push("rm".to_owned());
        args.push("--force".to_owned());
        args.push(handle.id.clone());
        assert(text::texts(args@) =~= seq!["rm"@, "--force"@, handle@]);
        Ok(args)
    }

    /// Takes note of a machine that was removed.
    pub fn on_stopped(&mut self, handle: &VmHandle)
        ensures
            final(self)@ == (SbxModel {
                stopped: old(self)@.stopped.insert(handle@),
                ..old(self)@
            }),
    {
        self.stopped.insert(handle.id.clone(), ());
        assert(self@.stopped =~= old(self)@.stopped.insert(handle@));
    }
}

/// A table gives each machine the state of its last line, in small letters;
/// lines with less than three words and the heading say nothing.
pub proof fn table_gives_each_machine_its_state(lines: Seq<Seq<char>>, line: Seq<char>)
    ensures
        table(Seq::empty()) == Map::<Seq<char>, Seq<char>>::empty(),
        text::words(line).len() < 3 ==> table(lines.push(line)) == table(lines),
        lines.len() > 0 && text::words(line).len() >= 3 ==> {
            let w = text::words(line);
            let now = table(lines.push(line));
            &&& now.dom() == table(lines).dom().insert(w[0])
            &&& now[w[0]] == outside::lowercase(w[2])
            &&& forall|m: Seq<char>|
                m != w[0] && table(lines).dom().contains(m) ==> #[trigger] now[m] == table(
                    lines,
                )[m]
        },
        text::words(line).len() >= 3 && text::small_all(text::words(line)[0]) == text::small_all(
            "sandbox"@,
        ) ==> table(seq![line]).dom() == Set::<Seq<char>>::empty(),
        text::words(line).len() >= 3 && text::small_all(text::words(line)[0]) != text::small_all(
            "sandbox"@,
        ) ==> table(seq![line]).dom().contains(text::words(line)[0]),
{
    reveal_with_fuel(table, 2);
    assert(lines.push(line).drop_last() =~= lines);
    assert(seq![line].drop_last() =~= Seq::empty());
    assert(seq![line].last() == line);
}

/// A machine's name is made of letters, digits and dashes: every other
/// character becomes a dash, and letters and digits stay.
pub proof fn machine_names_are_dashed(s: Seq<char>, i: int)
    requires
        0 <= i < s.len(),
    ensures
        dashed(s).len() == s.len(),
        ('a' <= s[i] <= 'z') || ('A' <= s[i] <= 'Z') || ('0' <= s[i] <= '9') ==> dashed(s)[i]
            == s[i],
        !(('a' <= s[i] <= 'z') || ('A' <= s[i] <= 'Z') || ('0' <= s[i] <= '9')) ==> dashed(s)[i]
            == '-',
        machine_base(s).len() > 0,
{
    reveal_strlit("ws");
}

/// A machine that is listed as running runs, one that is stopped or has exited
/// is stopped, and any other is still booting.
pub proof fn listed_machines_have_a_state(s: Seq<char>)
    ensures
        listed(Some("running"@)) is Running,
        listed(Some("stopped"@)) is Stopped,
        listed(Some("exited"@)) is Stopped,
        s != "running"@ && s != "stopped"@ && s != "exited"@ ==> listed(Some(s)) is Booting,
        listed(None) is Booting,
{
    reveal_strlit("running");
    reveal_strlit("stopped");
    reveal_strlit("exited");
    assert("running"@[0] == 'r' && "stopped"@[0] == 's' && "exited"@[0] == 'e');
}

/// Two numbers give two names.
pub proof fn numbered_names_differ(plain: Seq<char>, a: u64, b: u64)
    requires
        a != b,
    ensures
        numbered(plain, a) != numbered(plain, b),
        numbered(plain, a) == plain + seq!['-'] + text::dec(a as nat),
{
    reveal_strlit("-");
    assert("-"@ =~= seq!['-']);
    let x = numbered(plain, a);
    let y = numbered(plain, b);
    if x == y {
        assert(x.skip(plain.len() as int + 1) =~= text::dec(a as nat));
        assert(y.skip(plain.len() as int + 1) =~= text::dec(b as nat));
        text::dec_injective(a as nat, b as nat);
    }
}

/// A machine's base name is made of small letters, digits and dashes alone,
/// and neither begins nor ends with a dash.
pub proof fn base_names_are_plain(repo: Seq<char>, i: int)
    requires
        0 <= i < machine_base(repo).len(),
    ensures
        ('a' <= machine_base(repo)[i] <= 'z') || ('0' <= machine_base(repo)[i] <= '9')
            || machine_base(repo)[i] == '-',
        machine_base(repo)[0] != '-',
        machine_base(repo).last() != '-',
{
    reveal_strlit("ws");
    let name = match paths::name_of(repo) {
        Some(n) => n,
        None => "ws"@,
    };
    let t = text::trim(dashed(name), text::only('-'));
    if t.len() > 0 {
        trimmed_name_is_dashed(name, i);
        trimmed_name_is_dashed(name, 0);
        trimmed_name_is_dashed(name, t.len() - 1);
        small_is_plain(t[i]);
        small_is_plain(t[0]);
        small_is_plain(t[t.len() - 1]);
    }
}

proof fn trimmed_name_is_dashed(name: Seq<char>, i: int)
    requires
        0 <= i < text::trim(dashed(name), text::only('-')).len(),
    ensures
        ({
            let t = text::trim(dashed(name), text::only('-'));
            &&& is_alnum(t[i]) || t[i] == '-'
            &&& t[0] != '-'
            &&& t[t.len() - 1] != '-'
        }),
{
    let d = dashed(name);
    let t = text::trim(d, text::only('-'));
    text::trimmed_ends_stay(d, text::only('-'));
    let at = choose|at: int|
        0 <= at <= d.len() - t.len() && #[trigger] d.subrange(at, at + t.len()) == t;
    assert(t[i] == d[at + i]);
}

proof fn small_is_plain(c: char)
    requires
        is_alnum(c) || c == '-',
    ensures
        ('a' <= text::small(c) <= 'z') || ('0' <= text::small(c) <= '9') || text::small(c) == '-',
        c != '-' ==> text::small(c) != '-',
{
}

} // verus!
