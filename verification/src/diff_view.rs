//! The changes of all sessions, as they are shown for review.
use crate::review;
use crate::review::{DiffNote, NoteModel};
use crate::session::FileDiff;
use crate::sorted_map;
use crate::sorted_map::StrMap;
use crate::store::Store;
use crate::task;
use crate::text;
use crate::theme;
use crate::theme::{BAD_COLOR, HEAD_COLOR, OK_COLOR};
use vstd::prelude::*;
use vstd::string::*;

verus! {

/// One row of the changes.
#[derive(Debug, Clone, PartialEq, Eq)]
pub enum DiffRow {
    /// A worktree begins, or the repository itself; a worktree can be merged.
    Scope { scope: String, header: String, merge: bool },
    /// A session begins. Where there are notes for it they can be sent.
    Session { sid: String, short: String, send: Option<String> },
    /// The number of files that a session changed.
    Files { heading: String },
    /// A file begins.
    File { heading: String },
    /// A line of a diff. One with a number can be annotated.
    Line { text: String, color: u32, target: Option<(String, String, u32)> },
    /// A note on the file.
    Note { label: String, note: DiffNote },
}

/// What a [`DiffRow`] holds.
pub enum DiffModel {
    Scope { scope: Seq<char>, header: Seq<char>, merge: bool },
    Session { sid: Seq<char>, short: Seq<char>, send: Option<Seq<char>> },
    Files { heading: Seq<char> },
    File { heading: Seq<char> },
    Line { text: Seq<char>, color: u32, target: Option<(Seq<char>, Seq<char>, u32)> },
    Note { label: Seq<char>, note: NoteModel },
}

impl View for DiffRow {
    type V = DiffModel;

    open spec fn view(&self) -> DiffModel {
        match self {
            DiffRow::Scope { scope, header, merge } => DiffModel::Scope {
                scope: scope@,
                header: header@,
                merge: *merge,
            },
            DiffRow::Session { sid, short, send } => DiffModel::Session {
                sid: sid@,
                short: short@,
                send: text::opt_text(*send),
            },
            DiffRow::Files { heading } => DiffModel::Files { heading: heading@ },
            DiffRow::File { heading } => DiffModel::File { heading: heading@ },
            DiffRow::Line { text, color, target } => DiffModel::Line {
                text: text@,
                color: *color,
                target: review::spot(*target),
            },
            DiffRow::Note { label, note } => DiffModel::Note { label: label@, note: note@ },
        }
    }
}

/// What some rows hold.
pub open spec fn rows_of(v: Seq<DiffRow>) -> Seq<DiffModel> {
    v.map_values(|r: DiffRow| r@)
}

broadcast proof fn rows_push(v: Seq<DiffRow>, r: DiffRow)
    ensures
        #[trigger] rows_of(v.push(r)) == rows_of(v).push(r@),
{
    assert(rows_of(v.push(r)) =~= rows_of(v).push(r@));
}

/// The colour of a line: added, removed, the head of a hunk, or neither.
pub open spec fn line_color(t: Seq<char>, dark: bool) -> u32 {
    if "+"@.is_prefix_of(t) && !"+++"@.is_prefix_of(t) {
        OK_COLOR
    } else if "-"@.is_prefix_of(t) && !"---"@.is_prefix_of(t) {
        BAD_COLOR
    } else if "@@"@.is_prefix_of(t) {
        HEAD_COLOR
    } else if dark {
        0x8b8b93ff
    } else {
        0x5f6368ff
    }
}

fn color_of(t: &str, dark: bool) -> (c: u32)
    ensures
        c == line_color(t@, dark),
{
    if text::starts_with(t, "+") && !text::starts_with(t, "+++") {
        OK_COLOR
    } else if text::starts_with(t, "-") && !text::starts_with(t, "---") {
        BAD_COLOR
    } else if text::starts_with(t, "@@") {
        HEAD_COLOR
    } else {
        theme::muted_for(dark)
    }
}

/// How many lines of a file's changes are shown.
pub const MAX_PATCH_LINES: usize = 400;

/// The row of line `i` of some changes.
pub open spec fn line_row(sid: Seq<char>, name: Seq<char>, lines: Seq<Seq<char>>, i: int, dark: bool) -> DiffModel {
    DiffModel::Line {
        text: lines[i],
        color: line_color(lines[i], dark),
        target: match review::read_line(review::state_after(lines.take(i)), lines[i]).0 {
            Some(n) => Some((sid, name, n)),
            None => None,
        },
    }
}

/// The rows of some changes: the first lines of them.
pub open spec fn line_rows(sid: Seq<char>, name: Seq<char>, patch: Seq<char>, dark: bool) -> Seq<
    DiffModel,
> {
    let lines = text::lines(patch);
    Seq::new(
        if lines.len() < MAX_PATCH_LINES {
            lines.len()
        } else {
            MAX_PATCH_LINES as nat
        },
        |i: int| line_row(sid, name, lines, i, dark),
    )
}

/// The row of a note.
pub open spec fn note_row(n: NoteModel) -> DiffModel {
    DiffModel::Note {
        label: "✎ L"@ + text::dec(n.line as nat) + ": "@ + task::capped(n.text, 120),
        note: n,
    }
}

/// The rows of those notes that are on a file of a session.
pub open spec fn note_rows(notes: Seq<NoteModel>, sid: Seq<char>, name: Seq<char>) -> Seq<DiffModel>
    decreases notes.len(),
{
    if notes.len() == 0 {
        Seq::empty()
    } else {
        let rest = note_rows(notes.drop_last(), sid, name);
        if notes.last().session_id == sid && notes.last().file == name {
            rest.push(note_row(notes.last()))
        } else {
            rest
        }
    }
}

/// The name of a changed file.
pub open spec fn file_of(d: FileDiff) -> Seq<char> {
    match text::opt_text(d.file) {
        Some(f) => f,
        None => "(unknown)"@,
    }
}

/// The rows of a changed file: its name with the lines added and removed, its
/// changes, and the notes on it.
pub open spec fn file_rows(sid: Seq<char>, d: FileDiff, notes: Seq<NoteModel>, dark: bool) -> Seq<
    DiffModel,
> {
    seq![
        DiffModel::File {
            heading: file_of(d) + "  +"@ + text::dec(d.additions as nat) + " −"@ + text::dec(
                d.deletions as nat,
            ),
        },
    ] + (match text::opt_text(d.patch) {
        Some(p) => line_rows(sid, file_of(d), p, dark),
        None => Seq::empty(),
    }) + note_rows(notes, sid, file_of(d))
}

/// The rows of some changed files.
pub open spec fn files_rows(sid: Seq<char>, files: Seq<FileDiff>, notes: Seq<NoteModel>, dark: bool) -> Seq<
    DiffModel,
>
    decreases files.len(),
{
    if files.len() == 0 {
        Seq::empty()
    } else {
        files_rows(sid, files.drop_last(), notes, dark) + file_rows(
            sid,
            files.last(),
            notes,
            dark,
        )
    }
}

/// The heading of a session: what sending its notes is called, if it has any.
pub open spec fn session_heading(sid: Seq<char>, notes: Seq<NoteModel>) -> DiffModel {
    let n = review::notes_of(notes, sid).len();
    DiffModel::Session {
        sid,
        short: text::first_chars(sid, 12),
        send: if n == 0 {
            None
        } else {
            Some("Send "@ + text::dec(n) + " notes → agent"@)
        },
    }
}

/// The rows of a session: its heading, and its files where they could be
/// read.
pub open spec fn session_rows(store: Store, sid: Seq<char>, notes: Seq<NoteModel>, dark: bool) -> Seq<
    DiffModel,
> {
    seq![session_heading(sid, notes)] + (match store.diffs@[sid] {
        Some(files) => seq![
            DiffModel::Files {
                heading: text::dec(files@.len()) + " file(s) — click a line to annotate"@,
            },
        ] + files_rows(sid, files@, notes, dark),
        None => Seq::empty(),
    })
}

/// The rows of those sessions that belong to a scope.
pub open spec fn scope_sessions(
    store: Store,
    sids: Seq<Seq<char>>,
    scope: Seq<char>,
    notes: Seq<NoteModel>,
    dark: bool,
) -> Seq<DiffModel>
    decreases sids.len(),
{
    if sids.len() == 0 {
        Seq::empty()
    } else {
        let rest = scope_sessions(store, sids.drop_last(), scope, notes, dark);
        if store.scope(sids.last()) == scope {
            rest + session_rows(store, sids.last(), notes, dark)
        } else {
            rest
        }
    }
}

/// The heading of a scope.
pub open spec fn scope_heading(scope: Seq<char>) -> DiffModel {
    DiffModel::Scope {
        scope,
        header: if scope.len() == 0 {
            "main"@
        } else {
            "⑂ "@ + scope
        },
        merge: scope.len() > 0,
    }
}

/// The rows of some scopes, each with its sessions in the order of their
/// identities.
pub open spec fn scopes_rows(
    store: Store,
    scopes: Seq<Seq<char>>,
    notes: Seq<NoteModel>,
    dark: bool,
) -> Seq<DiffModel>
    decreases scopes.len(),
{
    if scopes.len() == 0 {
        Seq::empty()
    } else {
        scopes_rows(store, scopes.drop_last(), notes, dark).push(scope_heading(scopes.last()))
            + scope_sessions(store, store.diffs.keys(), scopes.last(), notes, dark)
    }
}

/// `scopes` are the scopes of all sessions with changes, each once, in the
/// order of their names: the repository itself comes first.
pub open spec fn diff_scopes(store: Store, scopes: Seq<Seq<char>>) -> bool {
    &&& sorted_map::increasing::<String>(scopes)
    &&& forall|s: Seq<char>| #[trigger]
        scopes.contains(s) <==> exists|sid: Seq<char>| #[trigger]
            store.diffs@.dom().contains(sid) && store.scope(sid) == s
}

fn push_lines(rows: &mut Vec<DiffRow>, sid: &str, name: &str, patch: &str, dark: bool)
    ensures
        rows_of(final(rows)@) == rows_of(old(rows)@) + line_rows(sid@, name@, patch@, dark),
{
    broadcast use rows_push;

    let lines = review::parse_patch_lines(patch);
    let n: usize = if lines.len() < MAX_PATCH_LINES {
        lines.len()
    } else {
        MAX_PATCH_LINES
    };
    let ghost before = rows_of(rows@);
    let ghost want = line_rows(sid@, name@, patch@, dark);
    let mut i: usize = 0;
    assert(before + want.take(0) =~= before);
    while i < n
        invariant
            i <= n <= lines@.len(),
            n == want.len(),
            lines@.len() == text::lines(patch@).len(),
            want == line_rows(sid@, name@, patch@, dark),
            forall|k: int|
                0 <= k < lines@.len() ==> {
                    &&& (#[trigger] lines@[k]).text@ == text::lines(patch@)[k]
                    &&& lines@[k].line == review::read_line(
                        review::state_after(text::lines(patch@).take(k)),
                        text::lines(patch@)[k],
                    ).0
                },
            rows_of(rows@) == before + want.take(i as int),
        decreases n - i,
    {
        let l = &lines[i];
        let target = match l.line {
            Some(n) => Some((sid.to_owned(), name.to_owned(), n)),
            None => None,
        };
        let row = DiffRow::Line {
            text: l.text.clone(),
            color: color_of(l.text.as_str(), dark),
            target,
        };
        assert(want[i as int] == row@);
        assert(want.take(i + 1) =~= want.take(i as int).push(row@));
        assert(before + want.take(i as int).push(row@) =~= (before + want.take(i as int)).push(
            row@,
        ));
        rows.push(row);
        i += 1;
    }
    assert(want.take(n as int) =~= want);
}

fn push_notes(rows: &mut Vec<DiffRow>, notes: &Vec<DiffNote>, sid: &str, name: &str)
    ensures
        rows_of(final(rows)@) == rows_of(old(rows)@) + note_rows(
            review::note_models(notes@),
            sid@,
            name@,
        ),
{
    broadcast use rows_push;

    let ghost before = rows_of(rows@);
    let ghost all = review::note_models(notes@);
    let mut i: usize = 0;
    assert(all.take(0) =~= Seq::empty());
    assert(before + note_rows(all.take(0), sid@, name@) =~= before);
    while i < notes.len()
        invariant
            i <= notes@.len(),
            all == review::note_models(notes@),
            rows_of(rows@) == before + note_rows(all.take(i as int), sid@, name@),
        decreases notes@.len() - i,
    {
        assert(all.take(i + 1).drop_last() =~= all.take(i as int));
        let n = &notes[i];
        assert(all[i as int] == n@);
        if text::same(n.session_id.as_str(), sid) && text::same(n.file.as_str(), name) {
            let mut label = "✎ L".to_owned();
            label.append(text::decimal(n.line as u64).as_str());
            label.append(": ");
            label.append(theme::truncate(n.text.as_str(), 120).as_str());
            let row = DiffRow::Note { label, note: n.copy() };
            assert(before + note_rows(all.take(i + 1), sid@, name@) =~= (before + note_rows(
                all.take(i as int),
                sid@,
                name@,
            )).push(row@));
            rows.push(row);
        }
        i += 1;
    }
    assert(all.take(all.len() as int) =~= all);
}

/// Appends the rows of a changed file.
pub fn file_diff_block(
    rows: &mut Vec<DiffRow>,
    sid: &str,
    d: &FileDiff,
    notes: &Vec<DiffNote>,
    dark: bool,
)
    ensures
        rows_of(final(rows)@) == rows_of(old(rows)@) + file_rows(
            sid@,
            *d,
            review::note_models(notes@),
            dark,
        ),
{
    broadcast use rows_push;

    let ghost before = rows_of(rows@);
    let name = match &d.file {
        Some(f) => f.clone(),
        None => "(unknown)".to_owned(),
    };
    let mut heading = name.clone();
    heading.append("  +");
    heading.append(text::decimal(d.additions).as_str());
    heading.append(" −");
    heading.append(text::decimal(d.deletions).as_str());
    let row = DiffRow::File { heading };
    rows.push(row);
    let ghost headed = rows_of(rows@);
    assert(headed =~= before + seq![row@]);
    if let Some(patch) = &d.patch {
        push_lines(rows, sid, name.as_str(), patch.as_str(), dark);
    }
    let ghost lined = rows_of(rows@);
    assert(lined =~= before + (seq![row@] + (match text::opt_text(d.patch) {
        Some(p) => line_rows(sid@, name@, p, dark),
        None => Seq::empty(),
    })));
    push_notes(rows, notes, sid, name.as_str());
    assert(rows_of(rows@) =~= before + file_rows(sid@, *d, review::note_models(notes@), dark));
}

fn push_session(rows: &mut Vec<DiffRow>, store: &Store, sid: &str, notes: &Vec<DiffNote>, dark: bool)
    requires
        store.diffs@.dom().contains(sid@),
    ensures
        rows_of(final(rows)@) == rows_of(old(rows)@) + session_rows(
            *store,
            sid@,
            review::note_models(notes@),
            dark,
        ),
{
    broadcast use rows_push;

    let ghost before = rows_of(rows@);
    let ghost all = review::note_models(notes@);
    let count: usize = count_notes(notes, sid);
    let send = if count == 0 {
        None
    } else {
        let mut s = "Send ".to_owned();
        s.append(text::decimal(count as u64).as_str());
        s.append(" notes → agent");
        Some(s)
    };
    let row = DiffRow::Session { sid: sid.to_owned(), short: text::take_chars(sid, 12), send };
    assert(row@ == session_heading(sid@, all));
    rows.push(row);
    let ghost headed = rows_of(rows@);
    assert(headed =~= before + seq![row@]);
    match store.diffs.get(sid) {
        Some(Some(files)) => {
            let mut heading = text::decimal(files.len() as u64);
            heading.append(" file(s) — click a line to annotate");
            let count_row = DiffRow::Files { heading };
            rows.push(count_row);
            let ghost counted = rows_of(rows@);
            let mut i: usize = 0;
            assert(files@.take(0) =~= Seq::empty());
            assert(counted + files_rows(sid@, files@.take(0), all, dark) =~= counted);
            while i < files.len()
                invariant
                    i <= files@.len(),
                    all == review::note_models(notes@),
                    rows_of(rows@) == counted + files_rows(
                        sid@,
                        files@.take(i as int),
                        all,
                        dark,
                    ),
                decreases files@.len() - i,
            {
                assert(files@.take(i + 1).drop_last() =~= files@.take(i as int));
                let ghost so_far = rows_of(rows@);
                file_diff_block(rows, sid, &files[i], notes, dark);
                assert(rows_of(rows@) =~= counted + files_rows(
                    sid@,
                    files@.take(i + 1),
                    all,
                    dark,
                ));
                i += 1;
            }
            assert(files@.take(files@.len() as int) =~= files@);
            assert(rows_of(rows@) =~= before + session_rows(*store, sid@, all, dark));
        },
        Some(None) => {
            assert(rows_of(rows@) =~= before + session_rows(*store, sid@, all, dark));
        },
        None => {},
    }
}

fn count_notes(notes: &Vec<DiffNote>, sid: &str) -> (n: usize)
    ensures
        n == review::notes_of(review::note_models(notes@), sid@).len(),
{
    let ghost all = review::note_models(notes@);
    let mut n: usize = 0;
    let mut i: usize = 0;
    assert(all.take(0) =~= Seq::empty());
    while i < notes.len()
        invariant
            i <= notes@.len(),
            n <= i,
            all == review::note_models(notes@),
            n == review::notes_of(all.take(i as int), sid@).len(),
        decreases notes@.len() - i,
    {
        assert(all.take(i + 1).drop_last() =~= all.take(i as int));
        assert(all[i as int] == notes@[i as int]@);
        if text::same(notes[i].session_id.as_str(), sid) {
            n += 1;
        }
        i += 1;
    }
    assert(all.take(all.len() as int) =~= all);
    n
}

/// The scopes of all sessions with changes, in the order of their names.
pub fn scopes_with_diffs(store: &Store) -> (scopes: StrMap<()>)
    ensures
        diff_scopes(*store, scopes.keys()),
{
    let n: usize = store.diffs.len();
    let ghost all = store.diffs.entries();
    let mut scopes: StrMap<()> = StrMap::new();
    let mut i: usize = 0;
    while i < n
        invariant
            i <= n == all.len(),
            all == store.diffs.entries(),
            forall|s: Seq<char>| #[trigger]
                scopes@.dom().contains(s) <==> exists|k: int|
                    0 <= k < i && store.scope((#[trigger] all[k]).0) == s,
        decreases n - i,
    {
        let ghost was = scopes@.dom();
        let sid = store.diffs.key_at(i);
        let scope = store.scope_of(sid.as_str()).to_owned();
        let ghost name = scope@;
        assert(store.scope(all[i as int].0) == name);
        scopes.insert(scope, ());
        assert forall|s: Seq<char>| #[trigger] scopes@.dom().contains(s) <==> exists|k: int|
            0 <= k < i + 1 && store.scope((#[trigger] all[k]).0) == s by {
            if was.contains(s) {
                let k = choose|k: int| 0 <= k < i && store.scope((#[trigger] all[k]).0) == s;
                assert(store.scope(all[k].0) == s);
            }
        }
        i += 1;
    }
    let count: usize = scopes.len();
    proof {
        assert forall|s: Seq<char>| #[trigger] scopes.keys().contains(s) <==> exists|
            sid: Seq<char>,
        | #[trigger] store.diffs@.dom().contains(sid) && store.scope(sid) == s by {
            assert(scopes@.dom().contains(s) == scopes.keys().contains(s));
            if scopes@.dom().contains(s) {
                let k = choose|k: int| 0 <= k < n && store.scope((#[trigger] all[k]).0) == s;
                assert(store.diffs.keys()[k] == all[k].0);
                assert(store.diffs@.dom().contains(all[k].0));
            }
            if exists|sid: Seq<char>| #[trigger]
                store.diffs@.dom().contains(sid) && store.scope(sid) == s {
                let sid = choose|sid: Seq<char>| #[trigger]
                    store.diffs@.dom().contains(sid) && store.scope(sid) == s;
                let k = choose|k: int| 0 <= k < n && store.diffs.keys()[k] == sid;
                assert(all[k].0 == sid);
            }
        }
    }
    scopes
}

fn push_scope(rows: &mut Vec<DiffRow>, store: &Store, scope: &str, notes: &Vec<DiffNote>, dark: bool)
    ensures
        rows_of(final(rows)@) == rows_of(old(rows)@).push(scope_heading(scope@)) + scope_sessions(
            *store,
            store.diffs.keys(),
            scope@,
            review::note_models(notes@),
            dark,
        ),
{
    broadcast use rows_push;

    let header = if scope.is_empty() {
        "main".to_owned()
    } else {
        let mut h = "⑂ ".to_owned();
        h.append(scope);
        h
    };
    let row = DiffRow::Scope { scope: scope.to_owned(), header, merge: !scope.is_empty() };
    assert(row@ == scope_heading(scope@));
    rows.push(row);
    let ghost before = rows_of(rows@);
    let ghost all = review::note_models(notes@);
    let n: usize = store.diffs.len();
    let ghost sids = store.diffs.keys();
    let mut i: usize = 0;
    assert(sids.take(0) =~= Seq::empty());
    assert(before + scope_sessions(*store, sids.take(0), scope@, all, dark) =~= before);
    while i < n
        invariant
            i <= n == sids.len(),
            n == store.diffs.entries().len(),
            sids == store.diffs.keys(),
            all == review::note_models(notes@),
            forall|k: int|
                0 <= k < n ==> store.diffs@.dom().contains((#[trigger] store.diffs.entries()[k]).0),
            rows_of(rows@) == before + scope_sessions(
                *store,
                sids.take(i as int),
                scope@,
                all,
                dark,
            ),
        decreases n - i,
    {
        assert(sids.take(i + 1).drop_last() =~= sids.take(i as int));
        let sid = store.diffs.key_at(i);
        assert(sids[i as int] == sid@);
        assert(store.diffs@.dom().contains(store.diffs.entries()[i as int].0));
        if text::same(store.scope_of(sid.as_str()), scope) {
            push_session(rows, store, sid.as_str(), notes, dark);
            assert(rows_of(rows@) =~= before + scope_sessions(
                *store,
                sids.take(i + 1),
                scope@,
                all,
                dark,
            ));
        }
        i += 1;
    }
    assert(sids.take(sids.len() as int) =~= sids);
}

/// The changes of all sessions, scope by scope; nothing where none have been
/// fetched.
pub fn render_diff(store: &Store, notes: &Vec<DiffNote>, dark: bool) -> (rows: Vec<DiffRow>)
    ensures
        exists|scopes: Seq<Seq<char>>| #[trigger]
            diff_scopes(*store, scopes) && rows_of(rows@) == scopes_rows(
                *store,
                scopes,
                review::note_models(notes@),
                dark,
            ),
{
    let found = scopes_with_diffs(store);
    let n: usize = found.len();
    let ghost scopes = found.keys();
    let ghost all = review::note_models(notes@);
    let mut rows: Vec<DiffRow> = Vec::new();
    let mut i: usize = 0;
    assert(scopes.take(0) =~= Seq::empty());
    assert(rows_of(rows@) =~= Seq::empty());
    while i < n
        invariant
            i <= n == scopes.len(),
            n == found.entries().len(),
            scopes == found.keys(),
            all == review::note_models(notes@),
            rows_of(rows@) == scopes_rows(*store, scopes.take(i as int), all, dark),
        decreases n - i,
    {
        assert(scopes.take(i + 1).drop_last() =~= scopes.take(i as int));
        push_scope(&mut rows, store, found.key_at(i).as_str(), notes, dark);
        i += 1;
    }
    assert(scopes.take(scopes.len() as int) =~= scopes);
    assert(diff_scopes(*store, scopes));
    rows
}

/// Sessions whose changes belong nowhere else are shown: every session with
/// changes has its heading.
pub proof fn every_session_is_shown(
    store: Store,
    sids: Seq<Seq<char>>,
    scope: Seq<char>,
    notes: Seq<NoteModel>,
    dark: bool,
    i: int,
)
    requires
        0 <= i < sids.len(),
        store.scope(sids[i]) == scope,
    ensures
        scope_sessions(store, sids, scope, notes, dark).contains(session_heading(sids[i], notes)),
    decreases sids.len(),
{
    let rest = sids.drop_last();
    let head = scope_sessions(store, rest, scope, notes, dark);
    let now = scope_sessions(store, sids, scope, notes, dark);
    if i < rest.len() {
        assert(rest[i] == sids[i]);
        every_session_is_shown(store, rest, scope, notes, dark, i);
        let k = choose|k: int| 0 <= k < head.len() && head[k] == session_heading(sids[i], notes);
        assert(now[k] == head[k]);
    } else {
        let mine = session_rows(store, sids.last(), notes, dark);
        assert(mine[0] == session_heading(sids.last(), notes));
        assert(now[head.len() as int] == mine[0]);
    }
}

/// The notes shown at a file are those of the session on that file, in order.
pub proof fn notes_stand_at_their_file(notes: Seq<NoteModel>, sid: Seq<char>, name: Seq<char>)
    ensures
        note_rows(notes, sid, name) == notes.filter(
            |n: NoteModel| n.session_id == sid && n.file == name,
        ).map_values(|n: NoteModel| note_row(n)),
    decreases notes.len(),
{
    reveal(Seq::filter);
    let p = |n: NoteModel| n.session_id == sid && n.file == name;
    let f = |n: NoteModel| note_row(n);
    if notes.len() > 0 {
        notes_stand_at_their_file(notes.drop_last(), sid, name);
        let some = notes.drop_last().filter(p);
        assert(some.push(notes.last()).map_values(f) =~= some.map_values(f).push(f(notes.last())));
    }
    assert(note_rows(notes, sid, name) =~= notes.filter(p).map_values(f));
}

/// The rows of some files are those of each, one file after the other.
pub proof fn file_rows_add_up(
    sid: Seq<char>,
    a: Seq<FileDiff>,
    b: Seq<FileDiff>,
    d: FileDiff,
    notes: Seq<NoteModel>,
    dark: bool,
)
    ensures
        files_rows(sid, a + b, notes, dark) == files_rows(sid, a, notes, dark) + files_rows(
            sid,
            b,
            notes,
            dark,
        ),
        files_rows(sid, seq![d], notes, dark) == file_rows(sid, d, notes, dark),
    decreases b.len(),
{
    reveal_with_fuel(files_rows, 2);
    assert(seq![d].drop_last() =~= Seq::empty());
    assert(files_rows(sid, seq![d], notes, dark) =~= file_rows(sid, d, notes, dark));
    if b.len() == 0 {
        assert(a + b =~= a);
        assert(files_rows(sid, a, notes, dark) + files_rows(sid, b, notes, dark) =~= files_rows(
            sid,
            a,
            notes,
            dark,
        ));
    } else {
        assert((a + b).drop_last() =~= a + b.drop_last());
        file_rows_add_up(sid, a, b.drop_last(), d, notes, dark);
        assert(files_rows(sid, a + b, notes, dark) =~= files_rows(sid, a, notes, dark)
            + files_rows(sid, b, notes, dark));
    }
}

/// The rows of a scope are those of its sessions, one session after the other,
/// and of no session of another scope.
pub proof fn scope_rows_add_up(
    store: Store,
    a: Seq<Seq<char>>,
    b: Seq<Seq<char>>,
    sid: Seq<char>,
    scope: Seq<char>,
    notes: Seq<NoteModel>,
    dark: bool,
)
    ensures
        scope_sessions(store, a + b, scope, notes, dark) == scope_sessions(
            store,
            a,
            scope,
            notes,
            dark,
        ) + scope_sessions(store, b, scope, notes, dark),
        store.scope(sid) == scope ==> scope_sessions(store, seq![sid], scope, notes, dark)
            == session_rows(store, sid, notes, dark),
        store.scope(sid) != scope ==> scope_sessions(store, seq![sid], scope, notes, dark).len()
            == 0,
    decreases b.len(),
{
    reveal_with_fuel(scope_sessions, 2);
    assert(seq![sid].drop_last() =~= Seq::empty());
    if store.scope(sid) == scope {
        assert(scope_sessions(store, seq![sid], scope, notes, dark) =~= session_rows(
            store,
            sid,
            notes,
            dark,
        ));
    }
    if b.len() == 0 {
        assert(a + b =~= a);
        assert(scope_sessions(store, a, scope, notes, dark) + scope_sessions(
            store,
            b,
            scope,
            notes,
            dark,
        ) =~= scope_sessions(store, a, scope, notes, dark));
    } else {
        assert((a + b).drop_last() =~= a + b.drop_last());
        scope_rows_add_up(store, a, b.drop_last(), sid, scope, notes, dark);
        assert(scope_sessions(store, a + b, scope, notes, dark) =~= scope_sessions(
            store,
            a,
            scope,
            notes,
            dark,
        ) + scope_sessions(store, b, scope, notes, dark));
    }
}

/// The rows of all scopes are those of each, one scope after the other, each
/// under its heading.
pub proof fn scopes_rows_add_up(
    store: Store,
    a: Seq<Seq<char>>,
    b: Seq<Seq<char>>,
    scope: Seq<char>,
    notes: Seq<NoteModel>,
    dark: bool,
)
    ensures
        scopes_rows(store, a + b, notes, dark) == scopes_rows(store, a, notes, dark) + scopes_rows(
            store,
            b,
            notes,
            dark,
        ),
        scopes_rows(store, seq![scope], notes, dark) == seq![scope_heading(scope)]
            + scope_sessions(store, store.diffs.keys(), scope, notes, dark),
        scope_heading(scope)->Scope_scope == scope,
        scope_heading(scope)->merge <==> scope.len() > 0,
    decreases b.len(),
{
    reveal_with_fuel(scopes_rows, 2);
    assert(seq![scope].drop_last() =~= Seq::empty());
    assert(scopes_rows(store, seq![scope], notes, dark) =~= seq![scope_heading(scope)]
        + scope_sessions(store, store.diffs.keys(), scope, notes, dark));
    if b.len() == 0 {
        assert(a + b =~= a);
        assert(scopes_rows(store, a, notes, dark) + scopes_rows(store, b, notes, dark)
            =~= scopes_rows(store, a, notes, dark));
    } else {
        assert((a + b).drop_last() =~= a + b.drop_last());
        scopes_rows_add_up(store, a, b.drop_last(), scope, notes, dark);
        assert(scopes_rows(store, a + b, notes, dark) =~= scopes_rows(store, a, notes, dark)
            + scopes_rows(store, b, notes, dark));
    }
}

/// The lines of a patch are shown one by one, as many as there are but no more
/// than the panel takes, each with its own text; a line that has a number is
/// where a note can stand.
pub proof fn patch_lines_are_shown(
    sid: Seq<char>,
    name: Seq<char>,
    patch: Seq<char>,
    dark: bool,
    i: int,
)
    requires
        0 <= i < line_rows(sid, name, patch, dark).len(),
    ensures
        ({
            let lines = text::lines(patch);
            let r = line_rows(sid, name, patch, dark)[i];
            let n = review::read_line(review::state_after(lines.take(i)), lines[i]).0;
            &&& line_rows(sid, name, patch, dark).len() <= lines.len()
            &&& lines.len() <= 400 ==> line_rows(sid, name, patch, dark).len()
                == lines.len()
            &&& lines.len() > 400 ==> line_rows(sid, name, patch, dark).len() == 400
            &&& r is Line
            &&& r->Line_text == lines[i]
            &&& n is None <==> r->target is None
            &&& r->target matches Some(t) ==> t == (sid, name, n->Some_0)
        }),
{
}

/// A line that came in has one colour, one that went away another, and a
/// hunk's opening a third; the names of the files have none of them.
pub proof fn lines_are_coloured_by_their_mark(t: Seq<char>, dark: bool)
    requires
        t.len() > 0,
    ensures
        t[0] == '+' && !"+++"@.is_prefix_of(t) ==> line_color(t, dark) == OK_COLOR,
        t[0] == '-' && !"---"@.is_prefix_of(t) ==> line_color(t, dark) == BAD_COLOR,
        "@@"@.is_prefix_of(t) ==> line_color(t, dark) == HEAD_COLOR,
        t[0] != '+' && t[0] != '-' && t[0] != '@' ==> line_color(t, dark) == if dark {
            0x8b8b93ffu32
        } else {
            0x5f6368ffu32
        },
{
    reveal_strlit("+");
    reveal_strlit("-");
    reveal_strlit("@@");
    assert(t[0] == '+' ==> "+"@ =~= t.subrange(0, 1));
    assert(t[0] == '-' ==> "-"@ =~= t.subrange(0, 1));
    assert("+"@.is_prefix_of(t) ==> "+"@[0] == t.subrange(0, 1)[0]);
    assert("-"@.is_prefix_of(t) ==> "-"@[0] == t.subrange(0, 1)[0]);
    assert("@@"@.is_prefix_of(t) ==> "@@"@[0] == t.subrange(0, 2)[0]);
}

proof fn no_note_of(notes: Seq<NoteModel>, sid: Seq<char>)
    ensures
        review::notes_of(notes, sid).len() == 0 <==> forall|i: int|
            0 <= i < notes.len() ==> (#[trigger] notes[i]).session_id != sid,
    decreases notes.len(),
{
    if notes.len() > 0 {
        let rest = notes.drop_last();
        no_note_of(rest, sid);
        assert(notes[notes.len() - 1] == notes.last());
        if forall|i: int| 0 <= i < notes.len() ==> (#[trigger] notes[i]).session_id != sid {
            assert forall|i: int| 0 <= i < rest.len() implies (#[trigger] rest[i]).session_id
                != sid by {
                assert(rest[i] == notes[i]);
            }
        }
        if review::notes_of(notes, sid).len() == 0 {
            assert forall|i: int| 0 <= i < notes.len() implies (#[trigger] notes[i]).session_id
                != sid by {
                if i < rest.len() {
                    assert(rest[i] == notes[i]);
                }
            }
        }
    }
}

/// A session's rows begin with its heading, which offers to send its notes
/// where it has any.
pub proof fn session_rows_begin_with_the_session(
    store: Store,
    sid: Seq<char>,
    notes: Seq<NoteModel>,
    dark: bool,
)
    ensures
        session_rows(store, sid, notes, dark)[0] == session_heading(sid, notes),
        session_heading(sid, notes)->Session_sid == sid,
        session_heading(sid, notes)->send is None <==> forall|i: int|
            0 <= i < notes.len() ==> (#[trigger] notes[i]).session_id != sid,
        store.diffs@[sid] matches Some(files) ==> session_rows(store, sid, notes, dark).skip(2)
            == files_rows(sid, files@, notes, dark),
{
    if let Some(files) = store.diffs@[sid] {
        assert(session_rows(store, sid, notes, dark).skip(2) =~= files_rows(
            sid,
            files@,
            notes,
            dark,
        ));
    }
    no_note_of(notes, sid);
}

/// A scope is shown exactly where one of its sessions has changes, and the
/// scopes come in the order of their names.
pub proof fn scopes_with_changes_are_shown(store: Store, scopes: Seq<Seq<char>>, sid: Seq<char>)
    requires
        diff_scopes(store, scopes),
        store.diffs@.dom().contains(sid),
    ensures
        scopes.contains(store.scope(sid)),
        forall|i: int, j: int|
            0 <= i < j < scopes.len() ==> text::before(#[trigger] scopes[i], #[trigger] scopes[j]),
        forall|i: int|
            0 <= i < scopes.len() ==> exists|s: Seq<char>| #[trigger]
                store.diffs@.dom().contains(s) && store.scope(s) == #[trigger] scopes[i],
{
    assert forall|i: int| 0 <= i < scopes.len() implies exists|s: Seq<char>| #[trigger]
        store.diffs@.dom().contains(s) && store.scope(s) == #[trigger] scopes[i] by {
        assert(scopes.contains(scopes[i]));
    }
}

} // verus!
