//! The terminal beside the chat: what its shell printed, line by line, and
//! what opening and closing it means.
use crate::config::VmState;
use crate::outside;
use crate::provider;
use crate::sorted_map::StrMap;
use crate::store;
use crate::store::Store;
use crate::terminal;
use crate::text;
use std::collections::VecDeque;
use vstd::prelude::*;
use vstd::string::*;

verus! {

/// How many lines are kept.
pub const TERM_SCROLLBACK_CAP: usize = 2000;

/// A line feed or a carriage return.
pub open spec fn line_end() -> spec_fn(char) -> bool {
    |c: char| c == '\n' || c == '\r'
}

/// A line as it is shown: without the carriage returns at its end and without
/// terminal escapes.
pub open spec fn clean(raw: Seq<char>) -> Seq<char> {
    provider::plain_from(text::trim_end(raw, line_end()), 0)
}

/// The lines of `s` from `i` on that have ended.
pub open spec fn ended_from(s: Seq<char>, i: int) -> Seq<Seq<char>>
    decreases s.len() - i,
{
    if i < 0 || i >= s.len() {
        Seq::empty()
    } else {
        proof {
            text::run_end_bounds(s, i, text::in_line());
        }
        let e = text::run_end(s, i, text::in_line());
        if e >= s.len() {
            Seq::empty()
        } else {
            seq![s.subrange(i, e)] + ended_from(s, e + 1)
        }
    }
}

/// What of `s` from `i` on belongs to a line that has not ended.
pub open spec fn open_from(s: Seq<char>, i: int) -> Seq<char>
    decreases s.len() - i,
{
    if i < 0 || i >= s.len() {
        Seq::empty()
    } else {
        proof {
            text::run_end_bounds(s, i, text::in_line());
        }
        let e = text::run_end(s, i, text::in_line());
        if e >= s.len() {
            s.subrange(i, s.len() as int)
        } else {
            open_from(s, e + 1)
        }
    }
}

/// Lines as they are shown.
pub open spec fn cleaned(lines: Seq<Seq<char>>) -> Seq<Seq<char>> {
    lines.map_values(|l: Seq<char>| clean(l))
}

/// What a shell printed.
#[derive(Debug)]
pub struct Scrollback {
    /// The lines that have ended, as they are shown.
    pub lines: VecDeque<String>,
    /// The line that has not ended.
    pub tail: String,
}

/// What a [`Scrollback`] holds.
pub struct ScrollModel {
    pub lines: Seq<Seq<char>>,
    pub tail: Seq<char>,
}

impl View for Scrollback {
    type V = ScrollModel;

    open spec fn view(&self) -> ScrollModel {
        ScrollModel { lines: text::texts(self.lines@), tail: self.tail@ }
    }
}

impl ScrollModel {
    /// After more was printed: of the lines the last are kept.
    pub open spec fn printed(self, more: Seq<char>) -> ScrollModel {
        let all = self.tail + more;
        ScrollModel {
            lines: store::last_of(self.lines + cleaned(ended_from(all, 0)), 2000),
            tail: open_from(all, 0),
        }
    }
}

fn clean_line(raw: &Vec<char>, from: usize, to: usize) -> (s: String)
    requires
        from <= to <= raw@.len(),
    ensures
        s@ == clean(raw@.subrange(from as int, to as int)),
{
    let ghost whole = raw@.subrange(from as int, to as int);
    let mut e: usize = to;
    assert(raw@.subrange(from as int, e as int) =~= whole);
    while e > from && (raw[e - 1] == '\n' || raw[e - 1] == '\r')
        invariant
            from <= e <= to <= raw@.len(),
            text::trim_end(raw@.subrange(from as int, e as int), line_end()) == text::trim_end(
                whole,
                line_end(),
            ),
        decreases e,
    {
        let ghost now = raw@.subrange(from as int, e as int);
        assert(now.last() == raw@[e - 1]);
        assert(now.drop_last() =~= raw@.subrange(from as int, e - 1));
        e -= 1;
    }
    proof {
        let now = raw@.subrange(from as int, e as int);
        if now.len() > 0 {
            assert(now.last() == raw@[e - 1]);
        }
    }
    provider::strip_ansi(text::slice_text(raw, from, e).as_str())
}

impl Default for Scrollback {
    fn default() -> (s: Scrollback)
        ensures
            s@ == (ScrollModel { lines: Seq::empty(), tail: Seq::empty() }),
    {
        Scrollback::new()
    }
}

impl Scrollback {
    /// Nothing has been printed.
    pub fn new() -> (s: Scrollback)
        ensures
            s@ == (ScrollModel { lines: Seq::empty(), tail: Seq::empty() }),
    {
        let s = Scrollback { lines: VecDeque::new(), tail: String::new() };
        assert(s@.lines =~= Seq::empty());
        assert(s@.tail =~= Seq::empty());
        s
    }

    fn keep_last(&mut self)
        ensures
            final(self)@ == (ScrollModel {
                lines: store::last_of(old(self)@.lines, 2000),
                ..old(self)@
            }),
    {
        let ghost all = self.lines@;
        assert(all.skip(0) =~= all);
        while self.lines.len() > TERM_SCROLLBACK_CAP
            invariant
                self.tail == old(self).tail,
                self.lines@.len() <= all.len(),
                self.lines@ == all.skip(all.len() - self.lines@.len()),
                self.lines@.len() >= 2000 || self.lines@ == all,
            decreases self.lines@.len(),
        {
            let ghost was = self.lines@;
            self.lines.pop_front();
            assert(self.lines@ =~= was.drop_first());
            assert(self.lines@ =~= all.skip(all.len() - self.lines@.len()));
        }
        assert(self@.lines =~= store::last_of(text::texts(all), 2000));
    }

    /// Takes in what a shell printed. Returns whether a line has ended.
    pub fn push_text(&mut self, more: &str) -> (added: bool)
        ensures
            final(self)@ == old(self)@.printed(more@),
            added == (ended_from(old(self)@.tail + more@, 0).len() > 0),
    {
        let mut tail = String::new();
        std::mem::swap(&mut tail, &mut self.tail);
        tail.append(more);
        let ghost all = tail@;
        let ghost before = self@.lines;
        let x = text::chars_of(tail.as_str());
        let n: usize = x.len();
        let mut added = false;
        let mut i: usize = 0;
        let mut at: usize = 0;
        let ghost mut done: Seq<Seq<char>> = Seq::empty();
        assert(before + cleaned(done) =~= before);
        assert(done + ended_from(all, 0) =~= ended_from(all, 0));
        while at < n
            invariant
                i <= at <= n == x@.len(),
                x@ == all,
                forall|j: int| i <= j < at ==> x@[j] != '\n',
                done + ended_from(all, i as int) == ended_from(all, 0),
                open_from(all, i as int) == open_from(all, 0),
                text::texts(self.lines@) == before + cleaned(done),
                added == (done.len() > 0),
            decreases n - at,
        {
            if x[at] == '\n' {
                let ghost raw = x@.subrange(i as int, at as int);
                let line = clean_line(&x, i, at);
                let ghost was = self.lines@;
                self.lines.push_back(line);
                proof {
                    text::run_end_unique(all, i as int, at as int, text::in_line());
                    let rest = ended_from(all, at + 1);
                    assert(ended_from(all, i as int) =~= seq![raw] + rest);
                    assert(done.push(raw) + rest =~= done + (seq![raw] + rest));
                    assert(text::texts(self.lines@) =~= text::texts(was).push(line@));
                    assert(cleaned(done.push(raw)) =~= cleaned(done).push(line@));
                    assert(before + cleaned(done).push(line@) =~= (before + cleaned(done)).push(
                        line@,
                    ));
                    done = done.push(raw);
                }
                added = true;
                i = at + 1;
            }
            at += 1;
        }
        proof {
            text::run_end_unique(all, i as int, n as int, text::in_line());
            assert(ended_from(all, i as int) =~= Seq::empty());
            assert(done =~= ended_from(all, 0));
        }
        self.tail = text::slice_text(&x, i, n);
        assert(self.tail@ =~= open_from(all, 0));
        self.keep_last();
        added
    }

    /// Takes in the bytes that a shell printed. Returns whether a line has
    /// ended.
    pub fn push_bytes(&mut self, bytes: &[u8]) -> (added: bool)
        ensures
            final(self)@ == old(self)@.printed(outside::utf8_lossy(bytes@)),
            added == (ended_from(old(self)@.tail + outside::utf8_lossy(bytes@), 0).len() > 0),
    {
        self.push_text(outside::lossy_text(bytes).as_str())
    }

    /// The lines that are shown for a search, and how many they are.
    pub fn shown(&self, query: &str) -> (r: (Vec<String>, String))
        ensures
            text::texts(r.0@) == searched(self@.lines, query@),
            r.1@ == (if query@.len() == 0 {
                text::dec(self@.lines.len())
            } else {
                text::dec(searched(self@.lines, query@).len()) + "/"@ + text::dec(
                    self@.lines.len(),
                )
            }),
    {
        let mut all: Vec<String> = Vec::new();
        let n: usize = self.lines.len();
        let mut i: usize = 0;
        assert(text::texts(all@) =~= self@.lines.take(0));
        while i < n
            invariant
                i <= n == self.lines@.len(),
                text::texts(all@) == self@.lines.take(i as int),
            decreases n - i,
        {
            let ghost was = all@;
            let l = self.lines[i].clone();
            all.push(l);
            assert(text::texts(all@) =~= text::texts(was).push(l@));
            assert(self@.lines.take(i + 1) =~= self@.lines.take(i as int).push(
                self@.lines[i as int],
            ));
            i += 1;
        }
        assert(self@.lines.take(n as int) =~= self@.lines);
        let found = filter_lines(all, query);
        assert(text::texts(found@).len() == found@.len());
        let mut count = String::new();
        if query.is_empty() {
            count = text::decimal(n as u64);
        } else {
            count = text::decimal(found.len() as u64);
            count.append("/");
            count.append(text::decimal(n as u64).as_str());
        }
        (found, count)
    }
}

/// A line is found by a search, both in lower case.
pub fn line_matches(line: &str, query: &str) -> (r: bool)
    ensures
        r == text::occurs(line@, query@),
{
    text::contains(line, query)
}

/// Those of some lines that hold what is searched for in lower case.
pub open spec fn holding(lines: Seq<Seq<char>>, q: Seq<char>) -> Seq<Seq<char>>
    decreases lines.len(),
{
    if lines.len() == 0 {
        Seq::empty()
    } else if text::occurs(outside::lowercase(lines.last()), q) {
        holding(lines.drop_last(), q).push(lines.last())
    } else {
        holding(lines.drop_last(), q)
    }
}

/// The lines that a search finds, whatever the case of the letters; all of
/// them for an empty search.
pub open spec fn searched(lines: Seq<Seq<char>>, query: Seq<char>) -> Seq<Seq<char>> {
    if query.len() == 0 {
        lines
    } else {
        holding(lines, outside::lowercase(query))
    }
}

/// The lines that a search finds.
pub fn filter_lines(lines: Vec<String>, query: &str) -> (out: Vec<String>)
    ensures
        text::texts(out@) == searched(text::texts(lines@), query@),
{
    if query.is_empty() {
        return lines;
    }
    let q = outside::lower_text(query);
    let ghost all = text::texts(lines@);
    let mut out: Vec<String> = Vec::new();
    let mut i: usize = 0;
    assert(all.take(0) =~= Seq::empty());
    assert(text::texts(out@) =~= Seq::empty());
    while i < lines.len()
        invariant
            i <= lines@.len(),
            all == text::texts(lines@),
            text::texts(out@) == holding(all.take(i as int), q@),
        decreases lines@.len() - i,
    {
        assert(all.take(i + 1).drop_last() =~= all.take(i as int));
        assert(all.take(i + 1).last() == lines@[i as int]@);
        if line_matches(outside::lower_text(lines[i].as_str()).as_str(), q.as_str()) {
            let ghost was = out@;
            let l = lines[i].clone();
            out.push(l);
            assert(text::texts(out@) =~= text::texts(was).push(l@));
        }
        i += 1;
    }
    assert(all.take(all.len() as int) =~= all);
    out
}

/// The active worktree with its directory.
pub open spec fn active_dir(store: Store) -> Option<(Seq<char>, Seq<char>)> {
    match text::opt_text(store.active_worktree) {
        Some(s) => if store.worktrees@.dom().contains(s) {
            Some((s, store.worktrees@[s].path@))
        } else {
            None
        },
        None => None,
    }
}

/// The active worktree with its directory.
pub fn active_checkout(store: &Store) -> (r: Option<(String, String)>)
    ensures
        match r {
            Some((s, p)) => active_dir(*store) == Some((s@, p@)),
            None => active_dir(*store) is None,
        },
{
    match &store.active_worktree {
        Some(s) => match store.worktrees.get(s.as_str()) {
            Some(w) => Some((s.clone(), w.path.clone())),
            None => None,
        },
        None => None,
    }
}

/// The guest of a worktree can be worked in.
pub open spec fn guest_usable(states: Map<Seq<char>, VmState>, slug: Seq<char>) -> bool {
    states.dom().contains(slug) && (states[slug] is Ready || states[slug] is Running)
}

/// Whether the guest of a worktree can be worked in.
pub fn guest_ready(states: &StrMap<VmState>, slug: &str) -> (r: bool)
    ensures
        r == guest_usable(states@, slug@),
{
    match states.get(slug) {
        Some(s) => matches!(s, VmState::Ready | VmState::Running),
        None => false,
    }
}

/// The terminal of the window.
#[derive(Debug, Clone, Copy, PartialEq, Eq)]
pub struct TermDesk {
    pub show_terminal: bool,
    /// There is a shell.
    pub has_shell: bool,
    /// A shell in the guest is being opened.
    pub term_pending: bool,
}

/// What switching to the terminal asks for.
#[derive(Debug, Clone, PartialEq, Eq)]
pub enum ToggleStep {
    Nothing,
    /// Open a shell in the guest of a worktree.
    Guest { slug: String, cwd: String },
    /// Open a shell on the host.
    Host { cwd: String },
}

impl TermDesk {
    /// Shows or hides the terminal. The first time it is shown a shell is
    /// opened in the active worktree: in its guest where that can be worked
    /// in, else on the host.
    pub fn toggle_terminal(&mut self, store: &Store, states: &StrMap<VmState>) -> (s: ToggleStep)
        ensures
            old(self).show_terminal ==> s is Nothing && *final(self) == (TermDesk {
                show_terminal: false,
                ..*old(self)
            }),
            !old(self).show_terminal && old(self).has_shell ==> s is Nothing && *final(self) == (
            TermDesk { show_terminal: true, ..*old(self) }),
            !old(self).show_terminal && !old(self).has_shell ==> match active_dir(*store) {
                None => s is Nothing && *final(self) == *old(self),
                Some((slug, dir)) => if guest_usable(states@, slug) {
                    &&& s matches ToggleStep::Guest { slug: t, cwd } && t@ == slug && cwd@ == dir
                    &&& *final(self) == (TermDesk {
                        show_terminal: true,
                        term_pending: true,
                        ..*old(self)
                    })
                } else {
                    &&& s matches ToggleStep::Host { cwd } && cwd@ == dir
                    &&& *final(self) == *old(self)
                },
            },
    {
        if self.show_terminal {
            self.show_terminal = false;
            return ToggleStep::Nothing;
        }
        if self.has_shell {
            self.show_terminal = true;
            return ToggleStep::Nothing;
        }
        match active_checkout(store) {
            None => ToggleStep::Nothing,
            Some((slug, cwd)) => {
                if guest_ready(states, slug.as_str()) {
                    self.term_pending = true;
                    self.show_terminal = true;
                    ToggleStep::Guest { slug, cwd }
                } else {
                    ToggleStep::Host { cwd }
                }
            },
        }
    }

    /// A shell on the host was opened, or could not be.
    pub fn on_host_shell(&mut self, opened: bool)
        ensures
            *final(self) == (if opened {
                TermDesk { show_terminal: true, has_shell: true, ..*old(self) }
            } else {
                *old(self)
            }),
    {
        if opened {
            self.has_shell = true;
            self.show_terminal = true;
        }
    }

    /// The shell in the guest has come, or has failed. Returns the directory
    /// of the shell.
    pub fn poll_pending_shell(&mut self, store: &Store, opened: bool) -> (cwd: Option<String>)
        ensures
            *final(self) == (if opened {
                TermDesk { has_shell: true, term_pending: false, ..*old(self) }
            } else {
                TermDesk { show_terminal: false, term_pending: false, ..*old(self) }
            }),
            text::opt_text(cwd) == (if opened {
                match active_dir(*store) {
                    Some((_, dir)) => Some(dir),
                    None => Some("/tmp"@),
                }
            } else {
                None
            }),
    {
        self.term_pending = false;
        if !opened {
            self.show_terminal = false;
            return None;
        }
        self.has_shell = true;
        match active_checkout(store) {
            Some((_, dir)) => Some(dir),
            None => Some("/tmp".to_owned()),
        }
    }

    /// What is written to the shell for what was typed; nothing without a
    /// shell or without text.
    pub fn send_terminal_input(&self, typed: &str) -> (line: Option<Vec<u8>>)
        ensures
            match line {
                Some(l) => self.has_shell && typed@.len() > 0 && l@ == vstd::utf8::encode_utf8(
                    typed@,
                ).push(10),
                None => !self.has_shell || typed@.len() == 0,
            },
    {
        if !self.has_shell || typed.is_empty() {
            return None;
        }
        Some(terminal::prompt_line(typed))
    }

    /// What stands in place of a terminal that has no shell.
    pub fn placeholder(&self) -> (s: Option<&'static str>)
        ensures
            self.has_shell ==> s is None,
            !self.has_shell ==> (s matches Some(t) && t@ == (if self.term_pending {
                "connecting to guest…"@
            } else {
                "open a worktree (+ wt) to start a terminal"@
            })),
    {
        if self.has_shell {
            None
        } else if self.term_pending {
            Some("connecting to guest…")
        } else {
            Some("open a worktree (+ wt) to start a terminal")
        }
    }
}

/// The lines that are kept never exceed the limit.
pub proof fn scrollback_is_bounded(m: ScrollModel, more: Seq<char>)
    ensures
        m.printed(more).lines.len() <= 2000,
{
}

proof fn ended_in_pieces(a: Seq<char>, b: Seq<char>, i: int)
    requires
        0 <= i <= a.len(),
    ensures
        ended_from(a + b, i) == ended_from(a, i) + ended_from(open_from(a, i) + b, 0),
        open_from(a + b, i) == open_from(open_from(a, i) + b, 0),
    decreases a.len() - i,
{
    let s = a + b;
    let line = text::in_line();
    let e = text::run_end(a, i, line);
    text::run_end_bounds(a, i, line);
    assert forall|j: int| 0 <= j < a.len() implies s[j] == a[j] by {}
    if i < a.len() && e < a.len() {
        assert forall|j: int| i <= j < e implies line(#[trigger] s[j]) by {
            assert(line(a[j]));
        }
        text::run_end_unique(s, i, e, line);
        ended_in_pieces(a, b, e + 1);
        assert(s.subrange(i, e) =~= a.subrange(i, e));
        let rest = ended_from(open_from(a, e + 1) + b, 0);
        assert(seq![a.subrange(i, e)] + (ended_from(a, e + 1) + rest) =~= (seq![a.subrange(i, e)]
            + ended_from(a, e + 1)) + rest);
    } else {
        let left = a.subrange(i, a.len() as int);
        assert(open_from(a, i) =~= left);
        assert(ended_from(a, i) =~= Seq::empty());
        shifted(s, left + b, i, 0);
        assert(ended_from(a, i) + ended_from(left + b, 0) =~= ended_from(left + b, 0));
    }
}

proof fn shifted(s: Seq<char>, t: Seq<char>, off: int, i: int)
    requires
        0 <= off,
        0 <= i <= t.len(),
        s.len() == off + t.len(),
        s.subrange(off, s.len() as int) =~= t,
    ensures
        ended_from(s, off + i) == ended_from(t, i),
        open_from(s, off + i) == open_from(t, i),
    decreases t.len() - i,
{
    let line = text::in_line();
    if i < t.len() {
        let e = text::run_end(t, i, line);
        text::run_end_bounds(t, i, line);
        assert forall|j: int| 0 <= j < t.len() implies t[j] == s[off + j] by {
            assert(t[j] == s.subrange(off, s.len() as int)[j]);
        }
        assert forall|j: int| off + i <= j < off + e implies line(#[trigger] s[j]) by {
            assert(line(t[j - off]));
        }
        if e < t.len() {
            assert(!line(t[e]));
        }
        text::run_end_unique(s, off + i, off + e, line);
        if e < t.len() {
            shifted(s, t, off, e + 1);
            assert(s.subrange(off + i, off + e) =~= t.subrange(i, e));
        } else {
            assert(s.subrange(off + i, s.len() as int) =~= t.subrange(i, t.len() as int));
        }
    }
}

/// It makes no difference in how many pieces a shell's output comes in.
pub proof fn pieces_make_no_difference(m: ScrollModel, a: Seq<char>, b: Seq<char>)
    ensures
        m.printed(a).printed(b) == m.printed(a + b),
{
    let first = m.tail + a;
    assert(m.tail + (a + b) =~= first + b);
    ended_in_pieces(first, b, 0);
    let one = cleaned(ended_from(first, 0));
    let two = cleaned(ended_from(open_from(first, 0) + b, 0));
    assert(cleaned(ended_from(first + b, 0)) =~= one + two);
    let kept = store::last_of(m.lines + one, 2000);
    assert(store::last_of(kept + two, 2000) =~= store::last_of(m.lines + (one + two), 2000));
}

proof fn no_break_no_line(s: Seq<char>)
    requires
        forall|i: int| 0 <= i < s.len() ==> #[trigger] s[i] != '\n',
    ensures
        ended_from(s, 0).len() == 0,
        open_from(s, 0) == s,
{
    if s.len() > 0 {
        text::run_end_unique(s, 0, s.len() as int, text::in_line());
        assert(s.subrange(0, s.len() as int) =~= s);
    }
}

/// What is printed without a line break waits for the rest of its line; a line
/// break ends the line, which is then kept, cleaned, behind those that were
/// there, and of all lines the last two thousand stay.
pub proof fn lines_are_kept_when_they_end(m: ScrollModel, words: Seq<char>)
    requires
        forall|i: int| 0 <= i < m.tail.len() ==> #[trigger] m.tail[i] != '\n',
        forall|i: int| 0 <= i < words.len() ==> #[trigger] words[i] != '\n',
        m.lines.len() <= 2000,
    ensures
        m.printed(words).lines == m.lines,
        m.printed(words).tail == m.tail + words,
        m.printed(words.push('\n')).tail.len() == 0,
        m.printed(words.push('\n')).lines.last() == clean(m.tail + words),
        m.lines.len() < 2000 ==> m.printed(words.push('\n')).lines == m.lines.push(
            clean(m.tail + words),
        ),
        m.lines.len() == 2000 ==> m.printed(words.push('\n')).lines == m.lines.drop_first().push(
            clean(m.tail + words),
        ),
{
    let all = m.tail + words;
    assert forall|i: int| 0 <= i < all.len() implies #[trigger] all[i] != '\n' by {
        if i < m.tail.len() {
            assert(all[i] == m.tail[i]);
        } else {
            assert(all[i] == words[i - m.tail.len()]);
        }
    }
    no_break_no_line(all);
    assert(m.lines + cleaned(ended_from(all, 0)) =~= m.lines);
    let s = m.tail + words.push('\n');
    let n = all.len() as int;
    assert(s =~= all.push('\n'));
    assert forall|j: int| 0 <= j < n implies text::in_line()(#[trigger] s[j]) by {
        assert(s[j] == all[j]);
    }
    text::run_end_unique(s, 0, n, text::in_line());
    assert(s.subrange(0, n) =~= all);
    assert(ended_from(s, n + 1) =~= Seq::empty());
    assert(open_from(s, n + 1) =~= Seq::empty());
    assert(open_from(s, 0) == open_from(s, n + 1));
    assert(ended_from(s, 0) =~= seq![all]);
    assert(cleaned(ended_from(s, 0)) =~= seq![clean(all)]);
    let long = m.lines + cleaned(ended_from(s, 0));
    assert(long =~= m.lines.push(clean(all)));
    if m.lines.len() == 2000 {
        assert(long.skip(1) =~= m.lines.drop_first().push(clean(all)));
    }
}

/// A search gives the lines that hold what is looked for, whatever the case of
/// its letters, in order; an empty one gives all.
pub proof fn search_gives_the_lines_that_hold_it(lines: Seq<Seq<char>>, query: Seq<char>)
    ensures
        query.len() == 0 ==> searched(lines, query) == lines,
        query.len() > 0 ==> searched(lines, query) == lines.filter(
            |l: Seq<char>| text::occurs(outside::lowercase(l), outside::lowercase(query)),
        ),
{
    lines_that_hold(lines, outside::lowercase(query));
}

proof fn lines_that_hold(lines: Seq<Seq<char>>, q: Seq<char>)
    ensures
        holding(lines, q) == lines.filter(
            |l: Seq<char>| text::occurs(outside::lowercase(l), q),
        ),
    decreases lines.len(),
{
    reveal(Seq::filter);
    if lines.len() > 0 {
        lines_that_hold(lines.drop_last(), q);
    }
    assert(holding(lines, q) =~= lines.filter(
        |l: Seq<char>| text::occurs(outside::lowercase(l), q),
    ));
}

/// A line is kept without what ends it, and plain text is kept as it is.
pub proof fn plain_lines_are_kept(line: Seq<char>)
    requires
        forall|i: int| 0 <= i < line.len() ==> (#[trigger] line[i]) != provider::esc() && line[i]
            != '\r' && line[i] != '\n',
    ensures
        clean(line) == line,
        clean(line.push('\r')) == line,
{
    assert(line.push('\r').drop_last() =~= line);
    reveal_with_fuel(text::trim_end, 2);
    if line.len() > 0 {
        assert(line.last() == line[line.len() - 1]);
    }
    provider::plain_text_is_kept(line, 0);
    assert(line.skip(0) =~= line);
}

/// A terminal in a guest is offered only where the guest is ready or runs.
pub proof fn guests_are_usable_when_up(states: Map<Seq<char>, VmState>, slug: Seq<char>)
    ensures
        guest_usable(states, slug) <==> states.dom().contains(slug) && (states[slug] is Ready
            || states[slug] is Running),
{
}

/// A terminal opens in the active worktree, where that is known.
pub proof fn terminals_open_in_the_active_worktree(store: Store, slug: String)
    ensures
        store.active_worktree is None ==> active_dir(store) is None,
        store.active_worktree == Some(slug) && !store.worktrees@.dom().contains(slug@)
            ==> active_dir(store) is None,
        store.active_worktree == Some(slug) && store.worktrees@.dom().contains(slug@)
            ==> active_dir(store) == Some((slug@, store.worktrees@[slug@].path@)),
{
}

} // verus!
