//! Where commands run: the face that agents see of a host or a guest.
use crate::agent;
use crate::config::SshInfo;
use crate::outside;
use crate::outside::Failure;
use crate::text;
use std::collections::VecDeque;
use vstd::prelude::*;
use vstd::string::*;

verus! {

/// Output of a finished command.
#[derive(Debug, Clone, PartialEq, Eq)]
pub struct ExecOut {
    pub stdout: String,
    pub stderr: String,
    /// Exit code; `None` where a signal ended the command.
    pub code: Option<i32>,
}

impl ExecOut {
    /// Whether the command ended well.
    pub fn success(&self) -> (r: bool)
        ensures
            r == (self.code == Some(0i32)),
    {
        match self.code {
            Some(c) => c == 0,
            None => false,
        }
    }

    /// The output of a command that wrote these bytes and ended with `code`.
    pub fn collect(stdout: &[u8], stderr: &[u8], code: Option<i32>) -> (o: ExecOut)
        ensures
            o.stdout@ == outside::utf8_lossy(stdout@),
            o.stderr@ == outside::utf8_lossy(stderr@),
            o.code == code,
    {
        ExecOut { stdout: outside::lossy_text(stdout), stderr: outside::lossy_text(stderr), code }
    }
}

/// What came of opening a shell: the state it begins in, or why there is none.
pub open spec fn opening(r: Result<Box<dyn ShellChannel>, Failure>) -> Result<int, Seq<char>> {
    match r {
        Ok(shell) => Ok(shell.state()),
        Err(e) => Err(e@),
    }
}

/// The answer of a provider that has no shells.
pub fn no_shell() -> (r: Result<Box<dyn ShellChannel>, Failure>)
    ensures
        r matches Err(e) && e@ == "shell not supported by this provider"@,
{
    Err(Failure::because("shell not supported by this provider"))
}

/// Where agents run commands, on the host or in a guest. What opening a shell
/// may come to is stated by the provider itself, from its state before to its
/// state after. Where it states nothing, nothing is promised.
pub trait WorkspaceProvider: Send {
    /// A number that stands for the state of the provider.
    open spec fn state(&self) -> int {
        0
    }

    /// Whether a shell may be opened in a directory with this outcome.
    open spec fn opens(&self, cwd: Seq<char>, outcome: Result<int, Seq<char>>, after: int) -> bool {
        true
    }

    /// Runs a command in a directory.
    fn exec(&mut self, cmd: &[&str], cwd: &str) -> Result<ExecOut, Failure>;

    /// The guest that commands run in; `None` on the host.
    fn ssh_info(&self) -> (r: Option<SshInfo>)
        default_ensures
            r is None,
    {
        None
    }

    /// An interactive shell in a directory; see [`no_shell`].
    fn shell(&mut self, cwd: &str) -> (r: Result<Box<dyn ShellChannel>, Failure>)
        ensures
            old(self).opens(cwd@, opening(r), final(self).state()),
    ;
}

/// An interactive shell: bytes in and out. What a call may come to is stated by
/// the shell itself, from its state before to its state after. Where it states
/// nothing, nothing is promised.
pub trait ShellChannel: Send {
    /// A number that stands for the state of the shell.
    open spec fn state(&self) -> int {
        0
    }

    /// Whether bytes may be sent with this outcome.
    open spec fn takes(&self, data: Seq<u8>, fault: Option<Seq<char>>, after: int) -> bool {
        true
    }

    /// Whether this output may be there.
    open spec fn gives(&self, raw: Seq<u8>, after: int) -> bool {
        true
    }

    /// Whether the shell may be found to run or not.
    open spec fn lives(&self, alive: bool, after: int) -> bool {
        true
    }

    /// Whether the shell may be ended with this outcome.
    open spec fn ends(&self, fault: Option<Seq<char>>, after: int) -> bool {
        true
    }

    /// Sends bytes to the shell.
    fn write_bytes(&mut self, data: &[u8]) -> (r: Result<(), Failure>)
        ensures
            old(self).takes(data@, agent::fault(r), final(self).state()),
    ;

    /// All output that is there, without waiting.
    fn read_available(&mut self) -> (raw: Vec<u8>)
        ensures
            old(self).gives(raw@, final(self).state()),
    ;

    /// Gives the terminal another size.
    fn resize(&mut self, cols: u16, rows: u16) -> Result<(), Failure>;

    /// Whether the shell still runs.
    fn is_alive(&mut self) -> (alive: bool)
        ensures
            old(self).lives(alive, final(self).state()),
    ;

    /// Ends the shell.
    fn kill(&mut self) -> (r: Result<(), Failure>)
        ensures
            old(self).ends(agent::fault(r), final(self).state()),
    ;
}

/// The escape character.
pub open spec fn esc() -> char {
    '\u{1b}'
}

/// A letter of the basic Latin alphabet.
pub open spec fn is_letter(c: char) -> bool {
    ('a' <= c <= 'z') || ('A' <= c <= 'Z')
}

/// Everything but such a letter.
pub open spec fn in_control() -> spec_fn(char) -> bool {
    |c: char| !is_letter(c)
}

/// The first position behind the escape sequence that begins at `i`: a
/// control sequence ends with its first letter, a character set or line
/// attribute takes one more character, any other is two characters long.
pub open spec fn sequence_end(s: Seq<char>, i: int) -> int {
    if i + 1 >= s.len() {
        s.len() as int
    } else if s[i + 1] == '[' {
        let e = text::run_end(s, i + 2, in_control());
        if e < s.len() {
            e + 1
        } else {
            s.len() as int
        }
    } else if s[i + 1] == '(' || s[i + 1] == ')' || s[i + 1] == '#' {
        if i + 3 <= s.len() {
            i + 3
        } else {
            s.len() as int
        }
    } else {
        i + 2
    }
}

/// What is left of `s` from position `i` on without escape sequences and
/// carriage returns.
pub open spec fn plain_from(s: Seq<char>, i: int) -> Seq<char>
    decreases s.len() - i,
{
    if i < 0 || i >= s.len() {
        Seq::empty()
    } else if s[i] == esc() {
        proof {
            sequence_moves_on(s, i);
        }
        plain_from(s, sequence_end(s, i))
    } else if s[i] == '\r' {
        plain_from(s, i + 1)
    } else {
        seq![s[i]] + plain_from(s, i + 1)
    }
}

/// An escape sequence takes up at least its first character.
pub proof fn sequence_moves_on(s: Seq<char>, i: int)
    requires
        0 <= i < s.len(),
    ensures
        i < sequence_end(s, i) <= s.len(),
{
    if i + 2 <= s.len() {
        text::run_end_bounds(s, i + 2, in_control());
    }
}

/// A text without terminal escape sequences and carriage returns.
pub fn strip_ansi(s: &str) -> (out: String)
    ensures
        out@ == plain_from(s@, 0),
{
    let x = text::chars_of(s);
    let n: usize = x.len();
    let mut out = String::new();
    let mut i: usize = 0;
    while i < n
        invariant
            i <= n == x@.len(),
            x@ == s@,
            out@ + plain_from(s@, i as int) == plain_from(s@, 0),
        decreases n - i,
    {
        let c = x[i];
        if c == '\u{1b}' {
            proof {
                sequence_moves_on(s@, i as int);
            }
            if i + 1 >= n {
                i = n;
            } else if x[i + 1] == '[' {
                let mut e: usize = i + 2;
                while e < n && !((x[e] >= 'a' && x[e] <= 'z') || (x[e] >= 'A' && x[e] <= 'Z'))
                    invariant
                        i + 2 <= e <= n == x@.len(),
                        forall|j: int| i + 2 <= j < e ==> !is_letter(#[trigger] x@[j]),
                    decreases n - e,
                {
                    e += 1;
                }
                proof {
                    text::run_end_unique(x@, i + 2, e as int, in_control());
                }
                if e < n {
                    i = e + 1;
                } else {
                    i = n;
                }
            } else if x[i + 1] == '(' || x[i + 1] == ')' || x[i + 1] == '#' {
                if n - i >= 3 {
                    i = i + 3;
                } else {
                    i = n;
                }
            } else {
                i = i + 2;
            }
        } else if c == '\r' {
            i += 1;
        } else {
            let ghost was = out@;
            out.push(c);
            assert(was + (seq![c] + plain_from(s@, i + 1)) =~= out@ + plain_from(s@, i + 1));
            i += 1;
        }
    }
    assert(out@ + plain_from(s@, i as int) =~= out@);
    out
}

/// What is left holds neither escape characters nor carriage returns.
pub proof fn stripped_text_is_plain(s: Seq<char>, i: int)
    requires
        0 <= i <= s.len(),
    ensures
        forall|k: int|
            0 <= k < plain_from(s, i).len() ==> (#[trigger] plain_from(s, i)[k]) != esc()
                && plain_from(s, i)[k] != '\r',
    decreases s.len() - i,
{
    if i < s.len() {
        if s[i] == esc() {
            sequence_moves_on(s, i);
            stripped_text_is_plain(s, sequence_end(s, i));
            assert(plain_from(s, i) == plain_from(s, sequence_end(s, i)));
        } else {
            stripped_text_is_plain(s, i + 1);
            if s[i] != '\r' {
                let rest = plain_from(s, i + 1);
                assert(plain_from(s, i) =~= seq![s[i]] + rest);
                assert forall|k: int| 0 <= k < plain_from(s, i).len() implies (
                #[trigger] plain_from(s, i)[k]) != esc() && plain_from(s, i)[k] != '\r' by {
                    if k > 0 {
                        assert(plain_from(s, i)[k] == rest[k - 1]);
                    }
                }
            } else {
                assert(plain_from(s, i) == plain_from(s, i + 1));
            }
        }
    } else {
        assert(plain_from(s, i) =~= Seq::empty());
    }
}

/// A text without escape characters and carriage returns is left as it is.
pub proof fn plain_text_is_kept(s: Seq<char>, i: int)
    requires
        0 <= i <= s.len(),
        forall|k: int| 0 <= k < s.len() ==> (#[trigger] s[k]) != esc() && s[k] != '\r',
    ensures
        plain_from(s, i) == s.skip(i),
    decreases s.len() - i,
{
    if i < s.len() {
        plain_text_is_kept(s, i + 1);
        assert(seq![s[i]] + s.skip(i + 1) =~= s.skip(i));
    } else {
        assert(s.skip(i) =~= Seq::empty());
    }
}

/// Stripping a text twice is stripping it once.
pub proof fn stripping_is_idempotent(s: Seq<char>)
    ensures
        plain_from(plain_from(s, 0), 0) == plain_from(s, 0),
{
    let t = plain_from(s, 0);
    stripped_text_is_plain(s, 0);
    plain_text_is_kept(t, 0);
    assert(t.skip(0) =~= t);
}

/// A provider that plays back prepared outputs.
#[derive(Debug)]
pub struct MockWorkspace {
    /// Outputs to play back.
    pub script: VecDeque<ExecOut>,
    /// Commands that were run, each with its directory.
    pub executed: Vec<(Vec<String>, String)>,
}

impl Default for MockWorkspace {
    fn default() -> (m: MockWorkspace)
        ensures
            m.queued() == Seq::<ExecOut>::empty(),
            m.executed@ == Seq::<(Vec<String>, String)>::empty(),
    {
        MockWorkspace::new()
    }
}

impl MockWorkspace {
    /// The outputs that are still to be played back.
    pub open spec fn queued(&self) -> Seq<ExecOut> {
        self.script@
    }

    /// A provider without outputs.
    pub fn new() -> (m: MockWorkspace)
        ensures
            m.queued() == Seq::<ExecOut>::empty(),
            m.executed@ == Seq::<(Vec<String>, String)>::empty(),
    {
        MockWorkspace { script: VecDeque::new(), executed: Vec::new() }
    }

    /// Prepares one more output.
    pub fn enqueue(&mut self, out: ExecOut)
        ensures
            final(self).queued() == old(self).queued().push(out),
            final(self).executed == old(self).executed,
    {
        self.script.push_back(out);
    }
}

fn owned_words(cmd: &[&str]) -> (v: Vec<String>)
    ensures
        text::texts(v@) == outside::slices(cmd@),
{
    let mut v: Vec<String> = Vec::new();
    let mut i: usize = 0;
    while i < cmd.len()
        invariant
            i <= cmd@.len(),
            text::texts(v@) == outside::slices(cmd@.take(i as int)),
        decreases cmd@.len() - i,
    {
        let ghost was = v@;
        v.push(cmd[i].to_owned());
        assert(text::texts(v@) =~= text::texts(was).push(cmd@[i as int]@));
        assert(outside::slices(cmd@.take(i + 1)) =~= outside::slices(cmd@.take(i as int)).push(
            cmd@[i as int]@,
        ));
        i += 1;
    }
    assert(cmd@.take(cmd@.len() as int) =~= cmd@);
    v
}

impl WorkspaceProvider for MockWorkspace {
    /// There are no shells.
    open spec fn opens(&self, cwd: Seq<char>, outcome: Result<int, Seq<char>>, after: int) -> bool {
        outcome == Err::<int, Seq<char>>("shell not supported by this provider"@)
    }

    fn shell(&mut self, cwd: &str) -> (r: Result<Box<dyn ShellChannel>, Failure>)
        ensures
            *final(self) == *old(self),
    {
        no_shell()
    }

    /// Records the command and plays back the next output.
    fn exec(&mut self, cmd: &[&str], cwd: &str) -> (r: Result<ExecOut, Failure>)
        ensures
            final(self).executed@.len() == old(self).executed@.len() + 1,
            final(self).executed@.drop_last() == old(self).executed@,
            text::texts(final(self).executed@.last().0@) == outside::slices(cmd@),
            final(self).executed@.last().1@ == cwd@,
            match r {
                Ok(o) => old(self).queued().len() > 0 && o == old(self).queued()[0] && final(self).queued() == old(self).queued().drop_first(),
                Err(e) => old(self).queued().len() == 0 && final(self).queued() == old(self).queued() && e@ == "mock workspace: no canned output for "@
                    + outside::debug_of_list(outside::slices(cmd@)),
            },
    {
        self.executed.push((owned_words(cmd), cwd.to_owned()));
        assert(self.executed@.drop_last() =~= old(self).executed@);
        match self.script.pop_front() {
            Some(o) => {
                assert(self.script@ =~= old(self).script@.drop_first());
                Ok(o)
            },
            None => Err(
                Failure::because_of(
                    "mock workspace: no canned output for ",
                    outside::debug_list(cmd).as_str(),
                ),
            ),
        }
    }
}

/// A command to start: the program, its arguments and its directory.
#[derive(Debug, Clone, PartialEq, Eq)]
pub struct Launch {
    pub program: String,
    pub args: Vec<String>,
    pub cwd: String,
}

/// Runs commands on the host itself.
#[derive(Debug, Clone, Copy)]
pub struct HostProvider;

impl Default for HostProvider {
    fn default() -> HostProvider {
        HostProvider
    }
}

impl HostProvider {
    /// The provider of the host.
    pub fn new() -> (h: HostProvider)
        ensures
            h == HostProvider,
    {
        HostProvider
    }

    /// What to start for a command. The empty command is an error.
    pub fn launch(&self, cmd: &[&str], cwd: &str) -> (r: Result<Launch, Failure>)
        ensures
            match r {
                Ok(l) => cmd@.len() > 0 && l.program@ == cmd@[0]@ && text::texts(l.args@)
                    == outside::slices(cmd@).drop_first() && l.cwd@ == cwd@,
                Err(e) => cmd@.len() == 0 && e@ == "exec: empty command"@,
            },
    {
        if cmd.len() == 0 {
            return Err(Failure::because("exec: empty command"));
        }
        let mut args = owned_words(cmd);
        let ghost all = args@;
        assert(text::texts(all).len() == cmd@.len());
        let program = args.remove(0);
        assert(all[0]@ == text::texts(all)[0]);
        assert(text::texts(args@) =~= text::texts(all).drop_first());
        Ok(Launch { program, args, cwd: cwd.to_owned() })
    }

    /// The error of a program that could not be started.
    pub fn spawn_error(&self, program: &str, why: &str) -> (f: Failure)
        ensures
            f@ == "exec "@ + program@ + " failed to spawn: "@ + why@,
    {
        let mut message = "exec ".to_owned();
        message.append(program);
        message.append(" failed to spawn: ");
        message.append(why);
        Failure { message }
    }

    /// Commands run on the host, so there is no guest.
    pub fn ssh_info(&self) -> (r: Option<SshInfo>)
        ensures
            r is None,
    {
        None
    }
}

/// Stripping takes out control sequences and carriage returns and keeps the
/// rest: text before a sequence stays, the sequence goes, and what follows it
/// is stripped in turn. A sequence with a bracket ends at its first letter; one
/// for a character set is three characters long, any other two.
pub proof fn sequences_are_cut_out(
    a: Seq<char>,
    args: Seq<char>,
    letter: char,
    c: char,
    b: Seq<char>,
)
    requires
        forall|i: int| 0 <= i < a.len() ==> (#[trigger] a[i]) != esc() && a[i] != '\r',
        forall|i: int|
            0 <= i < args.len() ==> !('a' <= #[trigger] args[i] <= 'z') && !('A' <= args[i] <= 'Z'),
        ('a' <= letter <= 'z') || ('A' <= letter <= 'Z'),
    ensures
        plain_from(a + b, 0) == a + plain_from(b, 0),
        plain_from(seq![esc(), '['] + args + seq![letter] + b, 0) == plain_from(b, 0),
        plain_from(seq![esc(), '('] + seq![c] + b, 0) == plain_from(b, 0),
        plain_from(seq![esc(), ')'] + seq![c] + b, 0) == plain_from(b, 0),
        plain_from(seq![esc(), '#'] + seq![c] + b, 0) == plain_from(b, 0),
        c != '[' && c != '(' && c != ')' && c != '#' ==> plain_from(seq![esc(), c] + b, 0)
            == plain_from(b, 0),
        plain_from(seq!['\r'] + b, 0) == plain_from(b, 0),
{
    plain_goes_first(a, b);
    let s = seq![esc(), '['] + args + seq![letter] + b;
    let e = 2 + args.len() as int;
    assert(s[0] == esc() && s[1] == '[' && s[e] == letter);
    assert forall|j: int| 2 <= j < e implies in_control()(#[trigger] s[j]) by {
        assert(s[j] == args[j - 2]);
    }
    text::run_end_unique(s, 2, e, in_control());
    plain_behind(s, b, e + 1, 0);
    let t = seq![esc(), '('] + seq![c] + b;
    plain_behind(t, b, 3, 0);
    assert(t[0] == esc() && t[1] == '(');
    let u = seq![esc(), ')'] + seq![c] + b;
    plain_behind(u, b, 3, 0);
    assert(u[0] == esc() && u[1] == ')');
    let v = seq![esc(), '#'] + seq![c] + b;
    plain_behind(v, b, 3, 0);
    assert(v[0] == esc() && v[1] == '#');
    let w = seq![esc(), c] + b;
    plain_behind(w, b, 2, 0);
    assert(w[0] == esc() && w[1] == c);
    let x = seq!['\r'] + b;
    plain_behind(x, b, 1, 0);
    assert(x[0] == '\r');
}

proof fn plain_goes_first(a: Seq<char>, b: Seq<char>)
    requires
        forall|i: int| 0 <= i < a.len() ==> (#[trigger] a[i]) != esc() && a[i] != '\r',
    ensures
        plain_from(a + b, 0) == a + plain_from(b, 0),
    decreases a.len(),
{
    if a.len() == 0 {
        assert(a + b =~= b);
        assert(a + plain_from(b, 0) =~= plain_from(b, 0));
    } else {
        let s = a + b;
        let rest = a.drop_first();
        assert forall|i: int| 0 <= i < rest.len() implies (#[trigger] rest[i]) != esc() && rest[i]
            != '\r' by {
            assert(rest[i] == a[i + 1]);
        }
        plain_goes_first(rest, b);
        assert(s[0] == a[0]);
        plain_behind(s, rest + b, 1, 0);
        assert(seq![a[0]] + (rest + plain_from(b, 0)) =~= a + plain_from(b, 0));
    }
}

proof fn plain_behind(s: Seq<char>, b: Seq<char>, n: int, i: int)
    requires
        0 <= n,
        0 <= i <= b.len(),
        s.len() == n + b.len(),
        forall|j: int| 0 <= j < b.len() ==> #[trigger] s[n + j] == b[j],
    ensures
        plain_from(s, n + i) == plain_from(b, i),
    decreases b.len() - i,
{
    if i < b.len() {
        assert(s[n + i] == b[i]);
        if b[i] == esc() {
            sequence_moves_on(b, i);
            let e = sequence_end(b, i);
            if i + 1 < b.len() {
                assert(s[n + (i + 1)] == b[i + 1]);
                if b[i + 1] == '[' {
                    text::run_end_bounds(b, i + 2, in_control());
                    let x = text::run_end(b, i + 2, in_control());
                    assert forall|j: int| n + i + 2 <= j < n + x implies in_control()(
                        #[trigger] s[j],
                    ) by {
                        assert(s[n + (j - n)] == b[j - n]);
                    }
                    if x < b.len() {
                        assert(s[n + x] == b[x]);
                    }
                    text::run_end_unique(s, n + i + 2, n + x, in_control());
                }
            }
            assert(sequence_end(s, n + i) == n + e);
            plain_behind(s, b, n, e);
        } else {
            plain_behind(s, b, n, i + 1);
        }
    }
}

} // verus!
