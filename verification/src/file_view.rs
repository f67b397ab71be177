//! The viewer of files in a checkout.
use crate::container;
use crate::outside;
use crate::paths;
use crate::session::WorktreeRecord;
use crate::store::Store;
use crate::task;
use crate::text;
use crate::theme;
use vstd::prelude::*;
use vstd::string::*;

verus! {

/// How many bytes of a file are shown.
pub const MAX_FILE_BYTES: usize = 262144;

/// How many lines of a file are shown.
pub const MAX_FILE_LINES: usize = 2000;

/// A file that is open, or the message why it is not.
#[derive(Debug, Clone, PartialEq, Eq)]
pub struct OpenFile {
    pub scope: String,
    pub relpath: String,
    pub content: String,
    pub truncated: bool,
    /// The language of the file, by its extension.
    pub lang: String,
    /// The content is a message, not the file's.
    pub error: bool,
}

/// What an [`OpenFile`] holds.
pub struct FileModel {
    pub scope: Seq<char>,
    pub relpath: Seq<char>,
    pub content: Seq<char>,
    pub truncated: bool,
    pub lang: Seq<char>,
    pub error: bool,
}

impl View for OpenFile {
    type V = FileModel;

    open spec fn view(&self) -> FileModel {
        FileModel {
            scope: self.scope@,
            relpath: self.relpath@,
            content: self.content@,
            truncated: self.truncated,
            lang: self.lang@,
            error: self.error,
        }
    }
}

/// The language of an extension.
pub open spec fn lang_of_extension(ext: Seq<char>) -> Seq<char> {
    if ext == "rs"@ {
        "rust"@
    } else if ext == "toml"@ {
        "toml"@
    } else if ext == "py"@ {
        "python"@
    } else if ext == "js"@ || ext == "jsx"@ {
        "javascript"@
    } else if ext == "ts"@ || ext == "tsx"@ {
        "typescript"@
    } else if ext == "json"@ {
        "json"@
    } else if ext == "md"@ {
        "markdown"@
    } else if ext == "yaml"@ || ext == "yml"@ {
        "yaml"@
    } else if ext == "sh"@ {
        "bash"@
    } else if ext == "diff"@ || ext == "patch"@ {
        "diff"@
    } else {
        "text"@
    }
}

/// The language of a file: by what stands behind the last dot of its path.
pub fn lang_of(relpath: &str) -> (s: &'static str)
    ensures
        s@ == lang_of_extension(text::after_last(relpath@, "."@)),
{
    let tail = text::tail_after(relpath, ".");
    let ext = tail.as_str();
    if text::same(ext, "rs") {
        "rust"
    } else if text::same(ext, "toml") {
        "toml"
    } else if text::same(ext, "py") {
        "python"
    } else if text::same(ext, "js") || text::same(ext, "jsx") {
        "javascript"
    } else if text::same(ext, "ts") || text::same(ext, "tsx") {
        "typescript"
    } else if text::same(ext, "json") {
        "json"
    } else if text::same(ext, "md") {
        "markdown"
    } else if text::same(ext, "yaml") || text::same(ext, "yml") {
        "yaml"
    } else if text::same(ext, "sh") {
        "bash"
    } else if text::same(ext, "diff") || text::same(ext, "patch") {
        "diff"
    } else {
        "text"
    }
}

/// The worktree by which the repository is found: the active one, else the
/// first.
pub open spec fn guide(store: Store) -> Option<WorktreeRecord> {
    match text::opt_text(store.active_worktree) {
        Some(s) if store.worktrees@.dom().contains(s) => Some(store.worktrees@[s]),
        _ => if store.worktrees.entries().len() == 0 {
            None
        } else {
            Some(store.worktrees.entries()[0].1)
        },
    }
}

/// The directory of a scope: that of its worktree; for the repository itself
/// the one that the guiding worktree belongs to.
pub open spec fn checkout(store: Store, scope: Seq<char>) -> Option<Seq<char>> {
    if scope.len() == 0 {
        match guide(store) {
            Some(w) => Some(paths::root_of(w.path@, ".dione-worktrees"@)),
            None => None,
        }
    } else if store.worktrees@.dom().contains(scope) {
        Some(store.worktrees@[scope].path@)
    } else {
        None
    }
}

/// The directory of a scope.
pub fn checkout_for(store: &Store, scope: &str) -> (r: Option<String>)
    ensures
        text::opt_text(r) == checkout(*store, scope@),
{
    if !scope.is_empty() {
        return match store.worktrees.get(scope) {
            Some(w) => Some(w.path.clone()),
            None => None,
        };
    }
    if let Some(s) = &store.active_worktree {
        if let Some(w) = store.worktrees.get(s.as_str()) {
            return Some(container::workspace_root(w.path.as_str()));
        }
    }
    if store.worktrees.len() == 0 {
        return None;
    }
    Some(container::workspace_root(store.worktrees.value_at(0).path.as_str()))
}

/// A file that cannot be shown, and why.
pub open spec fn refused(scope: Seq<char>, relpath: Seq<char>, why: Seq<char>) -> FileModel {
    FileModel { scope, relpath, content: why, truncated: false, lang: "text"@, error: true }
}

fn refuse(scope: &str, relpath: &str, why: String) -> (f: OpenFile)
    ensures
        f@ == refused(scope@, relpath@, why@),
{
    OpenFile {
        scope: scope.to_owned(),
        relpath: relpath.to_owned(),
        content: why,
        truncated: false,
        lang: "text".to_owned(),
        error: true,
    }
}

/// The file to read for a path in a checkout. A path that could lead out of
/// the checkout is refused, and so is one in a scope without a directory.
pub fn open_request(store: &Store, scope: &str, relpath: &str) -> (r: Result<String, OpenFile>)
    ensures
        match r {
            Ok(path) => {
                &&& !paths::is_absolute(relpath@)
                &&& !paths::climbs(relpath@)
                &&& checkout(*store, scope@) matches Some(root) && path@ == paths::join(
                    root,
                    relpath@,
                )
            },
            Err(f) => if paths::is_absolute(relpath@) || paths::climbs(relpath@) {
                f@ == refused(
                    scope@,
                    relpath@,
                    "refusing to open "@ + outside::debug_of(relpath@)
                        + ": outside the checkout"@,
                )
            } else {
                &&& checkout(*store, scope@) is None
                &&& f@ == refused(scope@, relpath@, "no checkout known for this scope yet"@)
            },
        },
{
    if paths::escapes(relpath) {
        let mut why = "refusing to open ".to_owned();
        why.append(outside::debug_text(relpath).as_str());
        why.append(": outside the checkout");
        return Err(refuse(scope, relpath, why));
    }
    match checkout_for(store, scope) {
        Some(root) => Ok(paths::joined(root.as_str(), relpath)),
        None => Err(
            refuse(scope, relpath, "no checkout known for this scope yet".to_owned()),
        ),
    }
}

/// The bytes of a file that are shown.
pub open spec fn shown_bytes(bytes: Seq<u8>) -> Seq<u8> {
    if bytes.len() > MAX_FILE_BYTES {
        bytes.take(MAX_FILE_BYTES as int)
    } else {
        bytes
    }
}

fn has_zero(bytes: &Vec<u8>) -> (r: bool)
    ensures
        r == bytes@.contains(0u8),
{
    let mut i: usize = 0;
    while i < bytes.len()
        invariant
            i <= bytes@.len(),
            forall|k: int| 0 <= k < i ==> #[trigger] bytes@[k] != 0,
        decreases bytes@.len() - i,
    {
        if bytes[i] == 0 {
            return true;
        }
        i += 1;
    }
    false
}

/// What is shown of a file that was read, or could not be: its text and
/// whether it was cut; a file with zero bytes is no text.
pub fn load_file(path: &str, read: Result<Vec<u8>, String>) -> (r: Result<(String, bool), String>)
    ensures
        match read {
            Err(why) => r matches Err(m) && m@ == "cannot read "@ + path@ + ": "@ + why@,
            Ok(bytes) => if bytes@.contains(0u8) {
                r matches Err(m) && m@ == path@ + " looks binary — not shown"@
            } else {
                r matches Ok(t) && t.0@ == outside::utf8_lossy(shown_bytes(bytes@)) && t.1 == (
                bytes@.len() > MAX_FILE_BYTES)
            },
        },
{
    let bytes = match read {
        Ok(b) => b,
        Err(why) => {
            let mut m = "cannot read ".to_owned();
            m.append(path);
            m.append(": ");
            m.append(why.as_str());
            return Err(m);
        },
    };
    if has_zero(&bytes) {
        let mut m = path.to_owned();
        m.append(" looks binary — not shown");
        return Err(m);
    }
    let truncated = bytes.len() > MAX_FILE_BYTES;
    let end: usize = if truncated {
        MAX_FILE_BYTES
    } else {
        bytes.len()
    };
    let head = vstd::slice::slice_subrange(bytes.as_slice(), 0, end);
    assert(head@ =~= shown_bytes(bytes@));
    Ok((outside::lossy_text(head), truncated))
}

/// What is shown of a file's text: the first lines of it.
pub open spec fn shown_text(t: Seq<char>) -> Seq<char> {
    let lines = text::lines(t);
    if lines.len() > MAX_FILE_LINES {
        text::join(lines.take(MAX_FILE_LINES as int), "\n"@)
    } else {
        t
    }
}

/// The file in the viewer, from what was loaded of it.
pub fn opened(scope: &str, relpath: &str, loaded: Result<(String, bool), String>) -> (f: OpenFile)
    ensures
        match loaded {
            Err(why) => f@ == refused(scope@, relpath@, why@),
            Ok((t, cut)) => f@ == (FileModel {
                scope: scope@,
                relpath: relpath@,
                content: shown_text(t@),
                truncated: cut || text::lines(t@).len() > MAX_FILE_LINES,
                lang: lang_of_extension(text::after_last(relpath@, "."@)),
                error: false,
            }),
        },
{
    let (content, truncated) = match loaded {
        Ok(t) => t,
        Err(why) => {
            return refuse(scope, relpath, why);
        },
    };
    let mut lines = text::split_lines(content.as_str());
    let ghost all = text::lines(content@);
    assert(text::texts(lines@).len() == lines@.len());
    let (content, truncated) = if lines.len() > MAX_FILE_LINES {
        lines.truncate(MAX_FILE_LINES);
        assert(text::texts(lines@) =~= all.take(MAX_FILE_LINES as int));
        (text::joined(&lines, "\n"), true)
    } else {
        (content, truncated)
    };
    OpenFile {
        scope: scope.to_owned(),
        relpath: relpath.to_owned(),
        content,
        truncated,
        lang: lang_of(relpath).to_owned(),
        error: false,
    }
}

/// What the viewer shows.
#[derive(Debug, Clone, PartialEq, Eq)]
pub enum FilePane {
    /// No file is open.
    Empty,
    /// A message.
    Warning(String),
    /// A file: where it is, how much of it is shown, and its lines, each with
    /// its number.
    Lines { heading: String, count: String, rows: Vec<(String, String)> },
}

/// What some numbered lines hold.
pub open spec fn row_texts(v: Seq<(String, String)>) -> Seq<(Seq<char>, Seq<char>)> {
    v.map_values(|r: (String, String)| (r.0@, r.1@))
}

/// The lines of a text with their numbers, each cut where it is too long.
pub open spec fn numbered(lines: Seq<Seq<char>>) -> Seq<(Seq<char>, Seq<char>)> {
    lines.map(
        |i: int, l: Seq<char>| (text::dec_padded((i + 1) as nat, 4), task::capped(l, 240)),
    )
}

/// Where a file is: its scope, its path and its language.
pub open spec fn file_heading(f: FileModel) -> Seq<char> {
    (if f.scope.len() == 0 {
        "main"@
    } else {
        "⑂ "@ + f.scope
    }) + "/"@ + f.relpath + "  ·  "@ + f.lang
}

/// What the viewer shows of a file.
pub fn render_file(open: &Option<OpenFile>) -> (p: FilePane)
    ensures
        match *open {
            None => p is Empty,
            Some(f) => if f.error {
                p matches FilePane::Warning(w) && w@ == "⚠ "@ + task::capped(f.content@, 240)
            } else {
                p matches FilePane::Lines { heading, count, rows } && heading@ == file_heading(f@)
                    && count@ == (if f.truncated {
                    "(truncated — showing the head)"@
                } else {
                    text::dec(text::lines(f.content@).len()) + " line(s)"@
                }) && row_texts(rows@) == numbered(text::lines(f.content@))
            },
        },
{
    let f = match open {
        Some(f) => f,
        None => {
            return FilePane::Empty;
        },
    };
    if f.error {
        let mut w = "⚠ ".to_owned();
        w.append(theme::truncate(f.content.as_str(), 240).as_str());
        return FilePane::Warning(w);
    }
    let mut heading = if f.scope.as_str().is_empty() {
        "main".to_owned()
    } else {
        let mut h = "⑂ ".to_owned();
        h.append(f.scope.as_str());
        h
    };
    heading.append("/");
    heading.append(f.relpath.as_str());
    heading.append("  ·  ");
    heading.append(f.lang.as_str());
    let lines = text::split_lines(f.content.as_str());
    let ghost all = text::lines(f.content@);
    assert(text::texts(lines@).len() == lines@.len());
    let count = if f.truncated {
        "(truncated — showing the head)".to_owned()
    } else {
        let mut c = text::decimal(lines.len() as u64);
        c.append(" line(s)");
        c
    };
    let mut rows: Vec<(String, String)> = Vec::new();
    let mut i: usize = 0;
    let ghost want = numbered(all);
    assert(row_texts(rows@) =~= want.take(0));
    while i < lines.len()
        invariant
            i <= lines@.len(),
            text::texts(lines@) == all,
            want == numbered(all),
            row_texts(rows@) == want.take(i as int),
        decreases lines@.len() - i,
    {
        let n: usize = i;
        let row = (
            text::decimal_padded(n as u64 + 1, 4),
            theme::truncate(lines[i].as_str(), 240),
        );
        assert(all[i as int] == lines@[i as int]@);
        let ghost was = rows@;
        rows.push(row);
        assert(row_texts(rows@) =~= row_texts(was).push((row.0@, row.1@)));
        assert(want.take(i + 1) =~= want.take(i as int).push(want[i as int]));
        i += 1;
    }
    assert(want.take(want.len() as int) =~= want);
    FilePane::Lines { heading, count, rows }
}

/// A file that is opened lies below the directory of its scope, and no part of
/// its path behind that directory leads up.
pub proof fn opened_file_stays_inside(store: Store, scope: Seq<char>, relpath: Seq<char>, root: Seq<char>)
    requires
        checkout(store, scope) == Some(root),
        root.len() > 0,
        !paths::is_absolute(relpath),
        !paths::climbs(relpath),
    ensures
        paths::lies_below(paths::join(root, relpath), root),
        forall|k: int|
            paths::parts(root).len() <= k < paths::parts(paths::join(root, relpath)).len()
                ==> #[trigger] paths::part(paths::join(root, relpath), k) != seq!['.', '.'],
{
    paths::joining_stays_below(root, relpath);
}

/// No more than the limit is ever shown of a file.
pub proof fn shown_bytes_are_bounded(bytes: Seq<u8>)
    ensures
        shown_bytes(bytes).len() <= MAX_FILE_BYTES,
        shown_bytes(bytes).is_prefix_of(bytes),
{
}

/// A file is looked for in the worktree of its scope; without a scope in the
/// repository above the active worktree, or above the first where none is
/// active; and nowhere where that is not known.
pub proof fn files_are_looked_for_in_their_scope(store: Store, scope: Seq<char>, active: String)
    ensures
        scope.len() > 0 && store.worktrees@.dom().contains(scope) ==> checkout(store, scope)
            == Some(store.worktrees@[scope].path@),
        scope.len() > 0 && !store.worktrees@.dom().contains(scope) ==> checkout(store, scope) is None,
        scope.len() == 0 && store.active_worktree == Some(active) && store.worktrees@.dom().contains(
            active@,
        ) ==> checkout(store, scope) == Some(
            paths::root_of(store.worktrees@[active@].path@, ".dione-worktrees"@),
        ),
        scope.len() == 0 && store.active_worktree is None && store.worktrees.entries().len() == 0
            ==> checkout(store, scope) is None,
        scope.len() == 0 && store.active_worktree is None && store.worktrees.entries().len() > 0
            ==> checkout(store, scope) == Some(
            paths::root_of(store.worktrees.entries()[0].1.path@, ".dione-worktrees"@),
        ),
{
}

/// Lines are numbered from one, each before its own text.
pub proof fn lines_are_numbered_from_one(lines: Seq<Seq<char>>, i: int)
    requires
        0 <= i < lines.len(),
    ensures
        numbered(lines).len() == lines.len(),
        numbered(lines)[i].0 == text::dec_padded((i + 1) as nat, 4),
        lines[i].len() <= 240 ==> numbered(lines)[i].1 == lines[i],
        lines[i].len() > 240 ==> numbered(lines)[i].1.len() == 241 && numbered(lines)[i].1.take(240)
            == lines[i].take(240),
{
    reveal_strlit("…");
    if lines[i].len() > 240 {
        assert(numbered(lines)[i].1.take(240) =~= lines[i].take(240));
    }
}

/// A long file is cut to its first lines, and any other is shown as it is.
pub proof fn long_files_are_cut_to_their_first_lines(t: Seq<char>)
    ensures
        text::lines(t).len() <= 2000 ==> shown_text(t) == t,
        text::lines(t).len() > 2000 ==> shown_text(t) == text::join(
            text::lines(t).take(2000),
            seq!['\n'],
        ),
{
    reveal_strlit("\n");
    assert("\n"@ =~= seq!['\n']);
}

/// A file that cannot be shown says why, under its own name.
pub proof fn refused_files_say_why(scope: Seq<char>, relpath: Seq<char>, why: Seq<char>)
    ensures
        refused(scope, relpath, why).error,
        refused(scope, relpath, why).content == why,
        refused(scope, relpath, why).scope == scope,
        refused(scope, relpath, why).relpath == relpath,
        !refused(scope, relpath, why).truncated,
{
}

/// A file's bytes are shown from the beginning, a quarter of a million of them
/// at most.
pub proof fn long_files_are_cut_by_bytes(bytes: Seq<u8>)
    ensures
        bytes.len() <= 262144 ==> shown_bytes(bytes) == bytes,
        bytes.len() > 262144 ==> shown_bytes(bytes) == bytes.take(262144),
{
}

/// What a file is called: its scope, its path and its language.
pub proof fn heading_names_the_file(f: FileModel)
    ensures
        f.scope.len() == 0 ==> file_heading(f) == "main"@ + "/"@ + f.relpath + "  ·  "@ + f.lang,
        f.scope.len() > 0 ==> file_heading(f) == "⑂ "@ + f.scope + "/"@ + f.relpath + "  ·  "@
            + f.lang,
{
}

} // verus!
