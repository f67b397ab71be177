//! Review of changes: notes on lines of a diff, and reading unified diffs.
use crate::text;
use vstd::prelude::*;
use vstd::string::*;

verus! {

/// A note on a line, or a range of lines, of a file that a session changed.
#[derive(Debug, Clone, Default, PartialEq, Eq)]
pub struct DiffNote {
    pub session_id: String,
    pub file: String,
    pub line: u32,
    /// Last line of a range; `None`, or at most `line`, for a single line.
    pub end_line: Option<u32>,
    pub text: String,
    /// Follow-ups under the note.
    pub replies: Vec<String>,
}

/// What a [`DiffNote`] holds.
pub struct NoteModel {
    pub session_id: Seq<char>,
    pub file: Seq<char>,
    pub line: u32,
    pub end_line: Option<u32>,
    pub text: Seq<char>,
    pub replies: Seq<Seq<char>>,
}

impl View for DiffNote {
    type V = NoteModel;

    open spec fn view(&self) -> NoteModel {
        NoteModel {
            session_id: self.session_id@,
            file: self.file@,
            line: self.line,
            end_line: self.end_line,
            text: self.text@,
            replies: text::texts(self.replies@),
        }
    }
}

/// What a list of notes holds.
pub open spec fn note_models(notes: Seq<DiffNote>) -> Seq<NoteModel> {
    notes.map_values(|n: DiffNote| n@)
}

/// The place of a note: its line, or first and last line of its range.
pub open spec fn note_place(n: NoteModel) -> Seq<char> {
    match n.end_line {
        Some(e) => if e > n.line {
            text::dec(n.line as nat) + "-"@ + text::dec(e as nat)
        } else {
            text::dec(n.line as nat)
        },
        None => text::dec(n.line as nat),
    }
}

/// The replies of a note, one to a line.
pub open spec fn replies_text(replies: Seq<Seq<char>>) -> Seq<char>
    decreases replies.len(),
{
    if replies.len() == 0 {
        Seq::empty()
    } else {
        replies_text(replies.drop_last()) + "  ↳ "@ + replies.last() + "\n"@
    }
}

/// One note in the feedback: its file, place and text, then its replies.
pub open spec fn note_text(n: NoteModel) -> Seq<char> {
    "- "@ + n.file + ":"@ + note_place(n) + " — "@ + n.text + "\n"@ + replies_text(n.replies)
}

/// The notes of the feedback, one after the other.
pub open spec fn notes_text(notes: Seq<NoteModel>) -> Seq<char>
    decreases notes.len(),
{
    if notes.len() == 0 {
        Seq::empty()
    } else {
        notes_text(notes.drop_last()) + note_text(notes.last())
    }
}

/// The place of a note.
pub fn place_of(n: &DiffNote) -> (s: String)
    ensures
        s@ == note_place(n@),
{
    let mut s = text::decimal(n.line as u64);
    if let Some(e) = n.end_line {
        if e > n.line {
            s.append("-");
            s.append(text::decimal(e as u64).as_str());
        }
    }
    s
}

fn replies_of(replies: &Vec<String>) -> (s: String)
    ensures
        s@ == replies_text(text::texts(replies@)),
{
    let ghost all = text::texts(replies@);
    let mut s = String::new();
    let mut i: usize = 0;
    assert(all.take(0) =~= Seq::empty());
    assert(s@ =~= Seq::empty());
    while i < replies.len()
        invariant
            i <= replies@.len(),
            all == text::texts(replies@),
            s@ == replies_text(all.take(i as int)),
        decreases replies@.len() - i,
    {
        assert(all.take(i + 1).drop_last() =~= all.take(i as int));
        assert(all.take(i + 1).last() == replies@[i as int]@);
        s.append("  ↳ ");
        s.append(replies[i].as_str());
        s.append("\n");
        i += 1;
    }
    assert(all.take(all.len() as int) =~= all);
    s
}

fn note_line(n: &DiffNote) -> (s: String)
    ensures
        s@ == note_text(n@),
{
    let mut s = "- ".to_owned();
    s.append(n.file.as_str());
    s.append(":");
    s.append(place_of(n).as_str());
    s.append(" — ");
    s.append(n.text.as_str());
    s.append("\n");
    s.append(replies_of(&n.replies).as_str());
    s
}

/// Review notes as a prompt body for the agent.
pub fn format_review_notes(notes: &[DiffNote]) -> (out: String)
    ensures
        out@ == "Review feedback — please address each item:\n"@ + notes_text(note_models(notes@)),
{
    let ghost head = "Review feedback — please address each item:\n"@;
    let ghost all = note_models(notes@);
    let mut out = "Review feedback — please address each item:\n".to_owned();
    let mut i: usize = 0;
    assert(all.take(0) =~= Seq::empty());
    assert(head + notes_text(all.take(0)) =~= head);
    while i < notes.len()
        invariant
            i <= notes@.len(),
            all == note_models(notes@),
            out@ == head + notes_text(all.take(i as int)),
        decreases notes@.len() - i,
    {
        let ghost was = notes_text(all.take(i as int));
        assert(all.take(i + 1).drop_last() =~= all.take(i as int));
        assert(all.take(i + 1).last() == notes@[i as int]@);
        let line = note_line(&notes[i]);
        out.append(line.as_str());
        assert(head + was + line@ =~= head + (was + line@));
        i += 1;
    }
    assert(all.take(all.len() as int) =~= all);
    out
}

/// Whether two notes hold the same.
pub fn same_note(a: &DiffNote, b: &DiffNote) -> (r: bool)
    ensures
        r == (a@ == b@),
{
    let ends = match (a.end_line, b.end_line) {
        (Some(x), Some(y)) => x == y,
        (None, None) => true,
        _ => false,
    };
    ends && a.line == b.line && text::same(&a.session_id, &b.session_id) && text::same(
        &a.file,
        &b.file,
    ) && text::same(&a.text, &b.text) && text::same_all(&a.replies, &b.replies)
}

impl DiffNote {
    /// A copy of the note.
    pub fn copy(&self) -> (n: DiffNote)
        ensures
            n@ == self@,
    {
        DiffNote {
            session_id: self.session_id.clone(),
            file: self.file.clone(),
            line: self.line,
            end_line: self.end_line,
            text: self.text.clone(),
            replies: text::copy_all(&self.replies),
        }
    }
}

/// Those of some notes that a session's feedback holds.
pub open spec fn notes_of(notes: Seq<NoteModel>, sid: Seq<char>) -> Seq<NoteModel>
    decreases notes.len(),
{
    if notes.len() == 0 {
        Seq::empty()
    } else if notes.last().session_id == sid {
        notes_of(notes.drop_last(), sid).push(notes.last())
    } else {
        notes_of(notes.drop_last(), sid)
    }
}

/// The other notes.
pub open spec fn notes_but(notes: Seq<NoteModel>, sid: Seq<char>) -> Seq<NoteModel>
    decreases notes.len(),
{
    if notes.len() == 0 {
        Seq::empty()
    } else if notes.last().session_id == sid {
        notes_but(notes.drop_last(), sid)
    } else {
        notes_but(notes.drop_last(), sid).push(notes.last())
    }
}

/// Takes the notes of a session out, to be sent, and leaves the others.
pub fn take_notes(notes: Vec<DiffNote>, sid: &str) -> (r: (Vec<DiffNote>, Vec<DiffNote>))
    ensures
        note_models(r.0@) == notes_of(note_models(notes@), sid@),
        note_models(r.1@) == notes_but(note_models(notes@), sid@),
{
    let ghost all = note_models(notes@);
    let mut mine: Vec<DiffNote> = Vec::new();
    let mut others: Vec<DiffNote> = Vec::new();
    let mut i: usize = 0;
    assert(all.take(0) =~= Seq::empty());
    assert(note_models(mine@) =~= Seq::empty());
    assert(note_models(others@) =~= Seq::empty());
    while i < notes.len()
        invariant
            i <= notes@.len(),
            all == note_models(notes@),
            note_models(mine@) == notes_of(all.take(i as int), sid@),
            note_models(others@) == notes_but(all.take(i as int), sid@),
        decreases notes@.len() - i,
    {
        assert(all.take(i + 1).drop_last() =~= all.take(i as int));
        let n = notes[i].copy();
        assert(all[i as int] == n@);
        if text::same(notes[i].session_id.as_str(), sid) {
            let ghost was = mine@;
            mine.push(n);
            assert(note_models(mine@) =~= note_models(was).push(n@));
        } else {
            let ghost was = others@;
            others.push(n);
            assert(note_models(others@) =~= note_models(was).push(n@));
        }
        i += 1;
    }
    assert(all.take(all.len() as int) =~= all);
    (mine, others)
}

/// Some notes without those equal to one.
pub open spec fn notes_without(notes: Seq<NoteModel>, target: NoteModel) -> Seq<NoteModel>
    decreases notes.len(),
{
    if notes.len() == 0 {
        Seq::empty()
    } else if notes.last() == target {
        notes_without(notes.drop_last(), target)
    } else {
        notes_without(notes.drop_last(), target).push(notes.last())
    }
}

/// Takes every note equal to `target` out.
pub fn drop_note(notes: Vec<DiffNote>, target: &DiffNote) -> (r: Vec<DiffNote>)
    ensures
        note_models(r@) == notes_without(note_models(notes@), target@),
{
    let ghost all = note_models(notes@);
    let mut r: Vec<DiffNote> = Vec::new();
    let mut i: usize = 0;
    assert(all.take(0) =~= Seq::empty());
    assert(note_models(r@) =~= Seq::empty());
    while i < notes.len()
        invariant
            i <= notes@.len(),
            all == note_models(notes@),
            note_models(r@) == notes_without(all.take(i as int), target@),
        decreases notes@.len() - i,
    {
        assert(all.take(i + 1).drop_last() =~= all.take(i as int));
        assert(all[i as int] == notes@[i as int]@);
        if !same_note(&notes[i], target) {
            let ghost was = r@;
            let n = notes[i].copy();
            r.push(n);
            assert(note_models(r@) =~= note_models(was).push(n@));
        }
        i += 1;
    }
    assert(all.take(all.len() as int) =~= all);
    r
}

/// Every note is in one of the two parts, and none in both: nothing gets lost
/// when the notes of a session are sent, and none is sent for another.
pub proof fn taken_notes_are_all_notes(notes: Seq<NoteModel>, sid: Seq<char>, n: NoteModel)
    ensures
        notes_of(notes, sid).len() + notes_but(notes, sid).len() == notes.len(),
        notes_of(notes, sid).contains(n) ==> n.session_id == sid,
        notes_but(notes, sid).contains(n) ==> n.session_id != sid,
        notes.contains(n) ==> notes_of(notes, sid).contains(n) || notes_but(notes, sid).contains(
            n,
        ),
    decreases notes.len(),
{
    if notes.len() > 0 {
        let rest = notes.drop_last();
        taken_notes_are_all_notes(rest, sid, n);
        let mine = notes_of(notes, sid);
        let others = notes_but(notes, sid);
        if mine.contains(n) {
            let k = choose|k: int| 0 <= k < mine.len() && mine[k] == n;
            if k < notes_of(rest, sid).len() {
                assert(notes_of(rest, sid)[k] == n);
            }
        }
        if others.contains(n) {
            let k = choose|k: int| 0 <= k < others.len() && others[k] == n;
            if k < notes_but(rest, sid).len() {
                assert(notes_but(rest, sid)[k] == n);
            }
        }
        if notes.contains(n) {
            let k = choose|k: int| 0 <= k < notes.len() && notes[k] == n;
            if k < rest.len() {
                assert(rest[k] == n);
                if notes_of(rest, sid).contains(n) {
                    let j = choose|j: int|
                        0 <= j < notes_of(rest, sid).len() && notes_of(rest, sid)[j] == n;
                    assert(mine[j] == n);
                } else {
                    let j = choose|j: int|
                        0 <= j < notes_but(rest, sid).len() && notes_but(rest, sid)[j] == n;
                    assert(others[j] == n);
                }
            } else if n.session_id == sid {
                assert(mine.last() == n);
            } else {
                assert(others.last() == n);
            }
        }
    }
}

/// Appends a reply to the first note equal to `target`. Returns false, and
/// changes nothing, when there is none any more.
pub fn append_reply(notes: &mut [DiffNote], target: &DiffNote, reply: String) -> (r: bool)
    ensures
        r == note_models(old(notes)@).contains(target@),
        match note_models(old(notes)@).index_of_first(target@) {
            Some(i) => note_models(final(notes)@) == note_models(old(notes)@).update(
                i,
                (NoteModel { replies: target@.replies.push(reply@), ..target@ }),
            ),
            None => final(notes)@ == old(notes)@,
        },
{
    let ghost models = note_models(notes@);
    proof {
        models.index_of_first_ensures(target@);
    }
    let mut i: usize = 0;
    while i < notes.len()
        invariant
            notes@ == old(notes)@,
            models == note_models(notes@),
            i <= notes@.len(),
            forall|j: int| 0 <= j < i ==> models[j] != target@,
        decreases notes@.len() - i,
    {
        if same_note(&notes[i], target) {
            let ghost was = notes@[i as int];
            assert(models[i as int] == was@);
            notes[i].replies.push(reply);
            proof {
                let now = NoteModel { replies: target@.replies.push(reply@), ..target@ };
                text::texts_push(was.replies@, reply);
                assert(notes@[i as int]@ == now);
                assert(note_models(notes@) =~= models.update(i as int, now));
                models.index_of_first_ensures(target@);
            }
            return true;
        }
        assert(models[i as int] != target@);
        i += 1;
    }
    false
}

/// A line of a session's file, as it is clicked on.
pub open spec fn spot(s: Option<(String, String, u32)>) -> Option<(Seq<char>, Seq<char>, u32)> {
    match s {
        Some((sid, file, line)) => Some((sid@, file@, line)),
        None => None,
    }
}

/// Selection of a range by two clicks. A click in the file of the anchor
/// resolves to the lines between them, in order, and clears the anchor; any
/// other click becomes the anchor.
pub fn resolve_range(
    anchor: Option<(String, String, u32)>,
    click: (String, String, u32),
) -> (r: (Option<(String, String, u32)>, Option<(u32, u32)>))
    ensures
        match spot(anchor) {
            Some((sid, file, line)) if sid == click.0@ && file == click.1@ => r.0 is None && r.1
                == Some(
                if line <= click.2 {
                    (line, click.2)
                } else {
                    (click.2, line)
                },
            ),
            _ => spot(r.0) == Some((click.0@, click.1@, click.2)) && r.1 is None,
        },
        r.1 matches Some((start, end)) ==> start <= end,
{
    let (sid, file, line) = click;
    if let Some((a_sid, a_file, a_line)) = anchor {
        if text::same(&a_sid, &sid) && text::same(&a_file, &file) {
            if a_line <= line {
                return (None, Some((a_line, line)));
            }
            return (None, Some((line, a_line)));
        }
    }
    (Some((sid, file, line)), None)
}

/// The side of the new file in the part of a `diff --git` line behind those
/// words: what follows its `b/`, which stands behind a quote where the name
/// is quoted.
pub open spec fn new_side(rest: Seq<char>) -> Seq<char> {
    if text::occurs(rest, " \"b/"@) {
        text::after_last(rest, " \"b/"@)
    } else {
        text::after_last(rest, " b/"@)
    }
}

/// The file named by the part of a `diff --git` line behind those words: its
/// new side, without white space and quotes around it.
pub open spec fn header_file(rest: Seq<char>) -> Option<Seq<char>> {
    let name = text::trim(text::trim(new_side(rest), text::blank()), text::only('"'));
    if name.len() == 0 {
        None
    } else {
        Some(name)
    }
}

fn file_from_git_header(rest: &str) -> (r: Option<String>)
    ensures
        text::opt_text(r) == header_file(rest@),
{
    let side = if text::contains(rest, " \"b/") {
        text::tail_after(rest, " \"b/")
    } else {
        text::tail_after(rest, " b/")
    };
    let name = text::trimmed_of(text::trimmed(side.as_str()).as_str(), '"');
    if name.as_str().is_empty() {
        None
    } else {
        Some(name)
    }
}

/// A section of a combined diff.
pub type Section = (Option<Seq<char>>, Seq<char>);

/// The sections that `lines` make up: each `diff --git` line begins one, and
/// the lines up to the next belong to it.
pub open spec fn sections(lines: Seq<Seq<char>>) -> Seq<Section>
    decreases lines.len(),
{
    if lines.len() == 0 {
        Seq::empty()
    } else {
        let so_far = sections(lines.drop_last());
        let line = lines.last();
        if "diff --git "@.is_prefix_of(line) {
            so_far.push((header_file(line.skip("diff --git "@.len() as int)), line + "\n"@))
        } else if so_far.len() == 0 {
            so_far
        } else {
            so_far.update(
                so_far.len() - 1,
                (so_far.last().0, so_far.last().1 + line + "\n"@),
            )
        }
    }
}

/// What a list of sections holds.
pub open spec fn section_models(v: Seq<(Option<String>, String)>) -> Seq<Section> {
    v.map_values(|e: (Option<String>, String)| (text::opt_text(e.0), e.1@))
}

/// Splits a combined unified diff into its files at the `diff --git` lines.
/// Lines before the first of them are dropped.
pub fn split_files(raw: &str) -> (out: Vec<(Option<String>, String)>)
    ensures
        section_models(out@) == sections(text::lines(raw@)),
{
    let lines = text::split_lines(raw);
    let ghost all = text::lines(raw@);
    let mut out: Vec<(Option<String>, String)> = Vec::new();
    let mut i: usize = 0;
    assert(section_models(out@) =~= sections(all.take(0)));
    while i < lines.len()
        invariant
            i <= lines@.len(),
            text::texts(lines@) == all,
            section_models(out@) == sections(all.take(i as int)),
        decreases lines@.len() - i,
    {
        let line = lines[i].as_str();
        assert(all[i as int] == line@);
        assert(all.take(i + 1).drop_last() =~= all.take(i as int));
        let ghost so_far = section_models(out@);
        if text::starts_with(line, "diff --git ") {
            proof {
                reveal_strlit("diff --git ");
            }
            let rest = text::skip_chars(line, 11);
            let file = file_from_git_header(rest.as_str());
            let mut section = line.to_owned();
            section.append("\n");
            out.push((file, section));
            assert(section_models(out@) =~= sections(all.take(i + 1)));
        } else if out.len() > 0 {
            let (file, mut section) = out.pop().unwrap();
            assert(section_models(out@) =~= so_far.drop_last());
            section.append(line);
            section.append("\n");
            out.push((file, section));
            assert(section_models(out@) =~= sections(all.take(i + 1)));
        } else {
            assert(section_models(out@) =~= sections(all.take(i + 1)));
        }
        i += 1;
    }
    assert(all.take(all.len() as int) =~= all);
    out
}

/// One line of a diff with its number in the file, where it has one.
#[derive(Debug, Clone, PartialEq, Eq)]
pub struct PatchLine {
    /// Counted from 1: in the old file for `-` lines, in the new file for the
    /// other lines of a hunk.
    pub line: Option<u32>,
    pub text: String,
}

/// Where a reader of a unified diff stands: the numbers of the next old and
/// the next new line, and whether it is inside a hunk.
#[derive(Clone, Copy, Debug)]
pub struct HunkState {
    pub old: u32,
    pub new: u32,
    pub in_hunk: bool,
}

/// The start that a word of a hunk header gives behind its sign: the number
/// before the comma, 0 where there is none.
pub open spec fn hunk_start(word: Seq<char>) -> u32 {
    match text::parse_dec(text::before_char(word.drop_first(), ','), u32::MAX as nat) {
        Some(n) => n as u32,
        None => 0,
    }
}

/// What the last word with the sign `sign` says, or `start` without one.
pub open spec fn signed_start(words: Seq<Seq<char>>, sign: char, start: u32) -> u32
    decreases words.len(),
{
    if words.len() == 0 {
        start
    } else if words.last().len() > 0 && words.last()[0] == sign {
        hunk_start(words.last())
    } else {
        signed_start(words.drop_last(), sign, start)
    }
}

/// The place of the word that closes the numbers of a hunk header, looked for
/// from place `i` on: the first that begins with `@@`, or the end.
pub open spec fn closing(words: Seq<Seq<char>>, i: int) -> int
    decreases words.len() - i,
{
    if i >= words.len() {
        words.len() as int
    } else if "@@"@.is_prefix_of(words[i]) {
        i
    } else {
        closing(words, i + 1)
    }
}

/// The words of a hunk header that can give numbers: those before the closing
/// `@@`. What follows it is a heading.
pub open spec fn header_words(line: Seq<char>) -> Seq<Seq<char>> {
    text::words(line).take(closing(text::words(line), 1))
}

/// Lines with which git introduces a file, or stands in for its hunks.
pub open spec fn is_file_header(line: Seq<char>) -> bool {
    ||| "diff --git "@.is_prefix_of(line)
    ||| "index "@.is_prefix_of(line)
    ||| "old mode "@.is_prefix_of(line)
    ||| "new mode "@.is_prefix_of(line)
    ||| "deleted file mode "@.is_prefix_of(line)
    ||| "new file mode "@.is_prefix_of(line)
    ||| "copy from "@.is_prefix_of(line)
    ||| "copy to "@.is_prefix_of(line)
    ||| "rename from "@.is_prefix_of(line)
    ||| "rename to "@.is_prefix_of(line)
    ||| "similarity index "@.is_prefix_of(line)
    ||| "dissimilarity index "@.is_prefix_of(line)
    ||| "Binary files "@.is_prefix_of(line)
    ||| "GIT binary patch"@.is_prefix_of(line)
}

fn file_header(line: &str) -> (r: bool)
    ensures
        r == is_file_header(line@),
{
    text::starts_with(line, "diff --git ") || text::starts_with(line, "index ")
        || text::starts_with(line, "old mode ") || text::starts_with(line, "new mode ")
        || text::starts_with(line, "deleted file mode ") || text::starts_with(
        line,
        "new file mode ",
    ) || text::starts_with(line, "copy from ") || text::starts_with(line, "copy to ")
        || text::starts_with(line, "rename from ") || text::starts_with(line, "rename to ")
        || text::starts_with(line, "similarity index ") || text::starts_with(
        line,
        "dissimilarity index ",
    ) || text::starts_with(line, "Binary files ") || text::starts_with(line, "GIT binary patch")
}

/// The number after `n`, at most the largest there is.
pub open spec fn next_line(n: u32) -> u32 {
    if n < u32::MAX {
        (n + 1) as u32
    } else {
        n
    }
}

/// The number of a line and where the reader stands after it.
pub open spec fn read_line(st: HunkState, line: Seq<char>) -> (Option<u32>, HunkState) {
    if "@@"@.is_prefix_of(line) {
        (
            None,
            HunkState {
                old: signed_start(header_words(line), '-', st.old),
                new: signed_start(header_words(line), '+', st.new),
                in_hunk: true,
            },
        )
    } else if !st.in_hunk || "+++"@.is_prefix_of(line) || "---"@.is_prefix_of(line) {
        (None, st)
    } else if is_file_header(line) {
        (None, HunkState { in_hunk: false, ..st })
    } else if line.len() > 0 && line[0] == '+' {
        (Some(st.new), HunkState { new: next_line(st.new), ..st })
    } else if line.len() > 0 && line[0] == '-' {
        (Some(st.old), HunkState { old: next_line(st.old), ..st })
    } else if line.len() > 0 && line[0] == '\\' {
        (None, st)
    } else {
        (Some(st.new), HunkState { old: next_line(st.old), new: next_line(st.new), ..st })
    }
}

/// Where the reader stands after `lines`, beginning outside of any hunk.
pub open spec fn state_after(lines: Seq<Seq<char>>) -> HunkState
    decreases lines.len(),
{
    if lines.len() == 0 {
        HunkState { old: 0, new: 0, in_hunk: false }
    } else {
        read_line(state_after(lines.drop_last()), lines.last()).1
    }
}

fn starts(line: &Vec<char>, c: char) -> (r: bool)
    ensures
        r == (line@.len() > 0 && line@[0] == c),
{
    line.len() > 0 && line[0] == c
}

fn read_hunk_header(st: HunkState, line: &str) -> (r: HunkState)
    ensures
        r.old == signed_start(header_words(line@), '-', st.old),
        r.new == signed_start(header_words(line@), '+', st.new),
        r.in_hunk,
{
    let words = text::split_words(line);
    let ghost all = text::words(line@);
    let mut old: u32 = st.old;
    let mut new: u32 = st.new;
    let mut i: usize = 0;
    while i < words.len() && (i == 0 || !text::starts_with(words[i].as_str(), "@@"))
        invariant
            i <= words@.len(),
            text::texts(words@) == all,
            i == 0 || closing(all, 1) == closing(all, i as int),
            old == signed_start(all.take(i as int), '-', st.old),
            new == signed_start(all.take(i as int), '+', st.new),
        decreases words@.len() - i,
    {
        assert(all.take(i + 1).drop_last() =~= all.take(i as int));
        let word = words[i].as_str();
        assert(all[i as int] == word@);
        let c = text::chars_of(word);
        if starts(&c, '-') || starts(&c, '+') {
            let count = text::head_before(text::skip_chars(word, 1).as_str(), ',');
            assert(word@.skip(1) =~= word@.drop_first());
            let n: u32 = match text::parse_number(count.as_str(), u32::MAX as u64) {
                Some(v) => v as u32,
                None => 0,
            };
            assert(n == hunk_start(word@));
            if starts(&c, '-') {
                old = n;
            } else {
                new = n;
            }
        }
        i += 1;
    }
    assert(closing(all, 1) == i) by {
        if i < all.len() {
            assert(all[i as int] == words@[i as int]@);
        }
    }
    HunkState { old, new, in_hunk: true }
}

/// Reads one line of a unified diff: its number, and where the reader stands
/// after it.
pub fn patch_step(st: HunkState, line: &str) -> (r: (Option<u32>, HunkState))
    ensures
        r == read_line(st, line@),
{
    if text::starts_with(line, "@@") {
        return (None, read_hunk_header(st, line));
    }
    if !st.in_hunk || text::starts_with(line, "+++") || text::starts_with(line, "---") {
        return (None, st);
    }
    if file_header(line) {
        return (None, HunkState { old: st.old, new: st.new, in_hunk: false });
    }
    let c = text::chars_of(line);
    let next_old: u32 = st.old.saturating_add(1);
    let next_new: u32 = st.new.saturating_add(1);
    if starts(&c, '+') {
        (Some(st.new), HunkState { old: st.old, new: next_new, in_hunk: true })
    } else if starts(&c, '-') {
        (Some(st.old), HunkState { old: next_old, new: st.new, in_hunk: true })
    } else if starts(&c, '\\') {
        (None, st)
    } else {
        (Some(st.new), HunkState { old: next_old, new: next_new, in_hunk: true })
    }
}

/// The lines of a unified diff with their line numbers. Several hunks and
/// several files are fine; headers and no-newline markers have no number.
pub fn parse_patch_lines(patch: &str) -> (out: Vec<PatchLine>)
    ensures
        out@.len() == text::lines(patch@).len(),
        forall|i: int|
            0 <= i < out@.len() ==> {
                &&& (#[trigger] out@[i]).text@ == text::lines(patch@)[i]
                &&& out@[i].line == read_line(
                    state_after(text::lines(patch@).take(i)),
                    text::lines(patch@)[i],
                ).0
            },
{
    let lines = text::split_lines(patch);
    let ghost all = text::lines(patch@);
    let mut out: Vec<PatchLine> = Vec::new();
    let mut st = HunkState { old: 0, new: 0, in_hunk: false };
    let mut i: usize = 0;
    while i < lines.len()
        invariant
            i <= lines@.len(),
            text::texts(lines@) == all,
            st == state_after(all.take(i as int)),
            out@.len() == i,
            forall|k: int|
                0 <= k < i ==> {
                    &&& (#[trigger] out@[k]).text@ == all[k]
                    &&& out@[k].line == read_line(state_after(all.take(k)), all[k]).0
                },
        decreases lines@.len() - i,
    {
        let text = lines[i].clone();
        assert(all[i as int] == text@);
        assert(all.take(i + 1).drop_last() =~= all.take(i as int));
        let (line, next) = patch_step(st, text.as_str());
        out.push(PatchLine { line, text });
        st = next;
        i += 1;
    }
    out
}

/// A line of a hunk's body: one that opens no hunk, belongs to no file header
/// and is no remark on a missing line end.
pub open spec fn is_body_line(line: Seq<char>) -> bool {
    &&& !"@@"@.is_prefix_of(line)
    &&& !"+++"@.is_prefix_of(line)
    &&& !"---"@.is_prefix_of(line)
    &&& !is_file_header(line)
    &&& !(line.len() > 0 && line[0] == '\\')
}

proof fn state_grows(
    start: HunkState,
    head: Seq<Seq<char>>,
    body: Seq<Seq<char>>,
)
    requires
        state_after(head) == start,
        start.in_hunk,
        forall|i: int| 0 <= i < body.len() ==> is_body_line(#[trigger] body[i]),
        start.old + body.len() <= u32::MAX,
        start.new + body.len() <= u32::MAX,
    ensures
        state_after(head + body).in_hunk,
        state_after(head + body).old == start.old + body.filter(
            |l: Seq<char>| !(l.len() > 0 && l[0] == '+'),
        ).len(),
        state_after(head + body).new == start.new + body.filter(
            |l: Seq<char>| !(l.len() > 0 && l[0] == '-'),
        ).len(),
        body.filter(|l: Seq<char>| !(l.len() > 0 && l[0] == '+')).len() <= body.len(),
        body.filter(|l: Seq<char>| !(l.len() > 0 && l[0] == '-')).len() <= body.len(),
    decreases body.len(),
{
    reveal(Seq::filter);
    if body.len() == 0 {
        assert(head + body =~= head);
    } else {
        let rest = body.drop_last();
        assert forall|i: int| 0 <= i < rest.len() implies is_body_line(#[trigger] rest[i]) by {
            assert(rest[i] == body[i]);
        }
        state_grows(start, head, rest);
        assert((head + body).drop_last() =~= head + rest);
        assert((head + body).last() == body.last());
        assert(is_body_line(body[body.len() - 1]));
    }
}

/// The number of a line in a hunk. A line that went away is numbered from the
/// hunk's start in the old file, one further for each line before it in the
/// hunk that was in the old file; any other line from the start in the new
/// file, one further for each line before it that is in the new file.
pub proof fn hunk_lines_are_numbered(
    head: Seq<Seq<char>>,
    before: Seq<Seq<char>>,
    line: Seq<char>,
)
    requires
        state_after(head).in_hunk,
        forall|i: int| 0 <= i < before.len() ==> is_body_line(#[trigger] before[i]),
        is_body_line(line),
        state_after(head).old + before.len() <= u32::MAX,
        state_after(head).new + before.len() <= u32::MAX,
    ensures
        line.len() > 0 && line[0] == '-' ==> read_line(state_after(head + before), line).0 == Some(
            (state_after(head).old + before.filter(
                |l: Seq<char>| !(l.len() > 0 && l[0] == '+'),
            ).len()) as u32,
        ),
        !(line.len() > 0 && line[0] == '-') ==> read_line(state_after(head + before), line).0
            == Some(
            (state_after(head).new + before.filter(
                |l: Seq<char>| !(l.len() > 0 && l[0] == '-'),
            ).len()) as u32,
        ),
{
    state_grows(state_after(head), head, before);
}

/// Two lines that went away in one hunk never have the same number, nor have
/// two lines of the new file: the later one has the larger.
pub proof fn hunk_numbers_differ(
    head: Seq<Seq<char>>,
    before: Seq<Seq<char>>,
    one: Seq<char>,
    between: Seq<Seq<char>>,
    other: Seq<char>,
)
    requires
        state_after(head).in_hunk,
        forall|i: int| 0 <= i < before.len() ==> is_body_line(#[trigger] before[i]),
        forall|i: int| 0 <= i < between.len() ==> is_body_line(#[trigger] between[i]),
        is_body_line(one),
        is_body_line(other),
        (one.len() > 0 && one[0] == '-') == (other.len() > 0 && other[0] == '-'),
        state_after(head).old + before.len() + 1 + between.len() <= u32::MAX,
        state_after(head).new + before.len() + 1 + between.len() <= u32::MAX,
    ensures
        read_line(state_after(head + before), one).0 is Some,
        read_line(state_after(head + before + seq![one] + between), other).0 is Some,
        read_line(state_after(head + before), one).0->Some_0 < read_line(
            state_after(head + before + seq![one] + between),
            other,
        ).0->Some_0,
{
    reveal(Seq::filter);
    let body = before + seq![one];
    assert(body.drop_last() =~= before);
    assert(body.last() == one);
    assert forall|i: int| 0 <= i < body.len() implies is_body_line(#[trigger] body[i]) by {
        if i < before.len() {
            assert(body[i] == before[i]);
        }
    }
    assert(head + before + seq![one] =~= head + body);
    state_grows(state_after(head), head, before);
    state_grows(state_after(head), head, body);
    state_grows(state_after(head + body), head + body, between);
}

proof fn first_signed(words: Seq<Seq<char>>, at: int, sign: char, start: u32)
    requires
        0 <= at < words.len(),
        words[at].len() > 0 && words[at][0] == sign,
        forall|j: int|
            at < j < words.len() ==> !((#[trigger] words[j]).len() > 0 && words[j][0] == sign),
    ensures
        signed_start(words, sign, start) == hunk_start(words[at]),
    decreases words.len(),
{
    if at < words.len() - 1 {
        let rest = words.drop_last();
        assert(words.last() == words[words.len() - 1]);
        assert forall|j: int| at < j < rest.len() implies !((#[trigger] rest[j]).len() > 0
            && rest[j][0] == sign) by {
            assert(rest[j] == words[j]);
        }
        first_signed(rest, at, sign, start);
    }
}

proof fn start_of(sign: char, n: u32, tail: Seq<char>)
    requires
        tail.len() > 0 ==> tail[0] == ',',
    ensures
        hunk_start(seq![sign] + text::dec(n as nat) + tail) == n,
{
    let w = seq![sign] + text::dec(n as nat) + tail;
    let d = text::dec(n as nat);
    assert(w.drop_first() =~= d + tail);
    text::written_numbers_read_back(n as nat, u32::MAX as nat);
    text::written_numbers_have_digits(n as nat);
    assert forall|i: int| 0 <= i < d.len() implies #[trigger] d[i] != ',' by {
        assert(text::is_digit(d[i]));
    }
    if tail.len() > 0 {
        text::before_its_first_place(d, ',', tail.drop_first());
        assert(d + tail =~= d + seq![','] + tail.drop_first());
    } else {
        text::before_its_first_place(d, ',', Seq::empty());
        assert(d + tail =~= d);
    }
}

/// The line that opens a hunk says where it starts: `@@ -old +new @@`, each
/// number with or without a count behind a comma, and whatever stands behind
/// the closing mark says nothing. The line itself has no number.
pub proof fn hunk_starts_where_it_says(
    st: HunkState,
    line: Seq<char>,
    old: u32,
    new: u32,
    old_tail: Seq<char>,
    new_tail: Seq<char>,
)
    requires
        "@@"@.is_prefix_of(line),
        text::words(line).len() >= 4,
        text::words(line)[1] == seq!['-'] + text::dec(old as nat) + old_tail,
        text::words(line)[2] == seq!['+'] + text::dec(new as nat) + new_tail,
        "@@"@.is_prefix_of(text::words(line)[3]),
        old_tail.len() > 0 ==> old_tail[0] == ',',
        new_tail.len() > 0 ==> new_tail[0] == ',',
    ensures
        read_line(st, line).0 is None,
        read_line(st, line).1.in_hunk,
        read_line(st, line).1.old == old,
        read_line(st, line).1.new == new,
{
    reveal_strlit("@@");
    let all = text::words(line);
    reveal_with_fuel(closing, 4);
    assert(all[1][0] == '-');
    assert(all[2][0] == '+');
    if "@@"@.is_prefix_of(all[1]) {
        assert("@@"@[0] == all[1][0]);
    }
    if "@@"@.is_prefix_of(all[2]) {
        assert("@@"@[0] == all[2][0]);
    }
    assert(closing(all, 1) == 3);
    let w = header_words(line);
    assert(w.len() == 3);
    first_signed(w, 1, '-', st.old);
    first_signed(w, 2, '+', st.new);
    start_of('-', old, old_tail);
    start_of('+', new, new_tail);
}

/// Outside of hunks no line has a number, and the first line of a file header
/// ends the hunk before it.
pub proof fn lines_outside_have_no_number(st: HunkState, line: Seq<char>)
    requires
        !"@@"@.is_prefix_of(line),
        !"+++"@.is_prefix_of(line),
        !"---"@.is_prefix_of(line),
    ensures
        !st.in_hunk ==> read_line(st, line) == (None::<u32>, st),
        "diff --git "@.is_prefix_of(line) || "index "@.is_prefix_of(line)
            || "old mode "@.is_prefix_of(line) || "new mode "@.is_prefix_of(line)
            || "deleted file mode "@.is_prefix_of(line) || "new file mode "@.is_prefix_of(line)
            || "copy from "@.is_prefix_of(line) || "copy to "@.is_prefix_of(line)
            || "rename from "@.is_prefix_of(line) || "rename to "@.is_prefix_of(line)
            || "similarity index "@.is_prefix_of(line)
            || "dissimilarity index "@.is_prefix_of(line) || "Binary files "@.is_prefix_of(line)
            || "GIT binary patch"@.is_prefix_of(line) ==> read_line(st, line).0 is None
            && !read_line(st, line).1.in_hunk,
        st.in_hunk && !is_file_header(line) && line.len() > 0 && line[0] == '\\' ==> read_line(
            st,
            line,
        ) == (None::<u32>, st),
{
}

/// The file names of a header have no number, inside a hunk or not.
pub proof fn file_names_have_no_number(st: HunkState, line: Seq<char>)
    requires
        "+++"@.is_prefix_of(line) || "---"@.is_prefix_of(line),
    ensures
        read_line(st, line) == (None::<u32>, st),
{
    reveal_strlit("@@");
    reveal_strlit("+++");
    reveal_strlit("---");
    assert("+++"@[0] == '+' && "---"@[0] == '-' && "@@"@[0] == '@');
    if "@@"@.is_prefix_of(line) {
        assert(line[0] == '@');
    }
}

/// The notes of a session are the notes that name it, in order; the rest are
/// those that do not, in order; and taking a note away takes every note equal
/// to it and no other.
pub proof fn notes_are_told_apart(notes: Seq<NoteModel>, sid: Seq<char>, target: NoteModel)
    ensures
        notes_of(notes, sid) == notes.filter(|n: NoteModel| n.session_id == sid),
        notes_but(notes, sid) == notes.filter(|n: NoteModel| n.session_id != sid),
        notes_without(notes, target) == notes.filter(|n: NoteModel| n != target),
    decreases notes.len(),
{
    reveal(Seq::filter);
    if notes.len() > 0 {
        notes_are_told_apart(notes.drop_last(), sid, target);
    }
    assert(notes_of(notes, sid) =~= notes.filter(|n: NoteModel| n.session_id == sid));
    assert(notes_but(notes, sid) =~= notes.filter(|n: NoteModel| n.session_id != sid));
    assert(notes_without(notes, target) =~= notes.filter(|n: NoteModel| n != target));
}

/// The text of some notes is the text of each, one behind the other, and the
/// replies of a note stand below it, each on a line of its own.
pub proof fn notes_are_written_in_turn(
    a: Seq<NoteModel>,
    b: Seq<NoteModel>,
    n: NoteModel,
    p: Seq<Seq<char>>,
    q: Seq<Seq<char>>,
    r: Seq<char>,
)
    ensures
        notes_text(Seq::empty()).len() == 0,
        notes_text(a + b) == notes_text(a) + notes_text(b),
        notes_text(seq![n]) == note_text(n),
        replies_text(Seq::empty()).len() == 0,
        replies_text(p + q) == replies_text(p) + replies_text(q),
        replies_text(seq![r]) == seq![' ', ' ', '↳', ' '] + r + seq!['\n'],
    decreases b.len() + q.len(),
{
    reveal_with_fuel(notes_text, 2);
    reveal_with_fuel(replies_text, 2);
    reveal_strlit("  ↳ ");
    reveal_strlit("\n");
    assert("  ↳ "@ =~= seq![' ', ' ', '↳', ' ']);
    assert("\n"@ =~= seq!['\n']);
    assert(seq![n].drop_last() =~= Seq::empty());
    assert(seq![r].drop_last() =~= Seq::empty());
    assert(notes_text(seq![n]) =~= note_text(n));
    assert(replies_text(seq![r]) =~= seq![' ', ' ', '↳', ' '] + r + seq!['\n']);
    if b.len() > 0 {
        assert((a + b).drop_last() =~= a + b.drop_last());
        notes_are_written_in_turn(a, b.drop_last(), n, p, q, r);
        assert(notes_text(a + b) =~= notes_text(a) + notes_text(b));
    } else {
        assert(a + b =~= a);
        assert(notes_text(a) + notes_text(b) =~= notes_text(a));
    }
    if q.len() > 0 {
        assert((p + q).drop_last() =~= p + q.drop_last());
        notes_are_written_in_turn(a, b, n, p, q.drop_last(), r);
        assert(replies_text(p + q) =~= replies_text(p) + replies_text(q));
    } else {
        assert(p + q =~= p);
        assert(replies_text(p) + replies_text(q) =~= replies_text(p));
    }
}

/// A note is written with its file, its line or lines, and its words; a range
/// of lines is written only where it ends behind its first line.
pub proof fn note_says_where_and_what(n: NoteModel)
    ensures
        note_text(n) == seq!['-', ' '] + n.file + seq![':'] + note_place(n) + seq![' ', '—', ' ']
            + n.text + seq!['\n'] + replies_text(n.replies),
        n.end_line is None ==> note_place(n) == text::dec(n.line as nat),
        n.end_line matches Some(e) ==> (e > n.line ==> note_place(n) == text::dec(n.line as nat)
            + seq!['-'] + text::dec(e as nat)),
        n.end_line matches Some(e) ==> (e <= n.line ==> note_place(n) == text::dec(n.line as nat)),
{
    reveal_strlit("- ");
    reveal_strlit(":");
    reveal_strlit(" — ");
    reveal_strlit("\n");
    reveal_strlit("-");
    assert("- "@ =~= seq!['-', ' ']);
    assert(":"@ =~= seq![':']);
    assert(" — "@ =~= seq![' ', '—', ' ']);
    assert("\n"@ =~= seq!['\n']);
    assert("-"@ =~= seq!['-']);
}

proof fn section_grows(head: Seq<Seq<char>>, body: Seq<Seq<char>>)
    requires
        sections(head).len() > 0,
        forall|i: int| 0 <= i < body.len() ==> !"diff --git "@.is_prefix_of(#[trigger] body[i]),
    ensures
        sections(head + body).len() == sections(head).len(),
        sections(head + body).drop_last() == sections(head).drop_last(),
        sections(head + body).last().0 == sections(head).last().0,
        sections(head + body).last().1 == sections(head).last().1 + body.map_values(
            |l: Seq<char>| l + seq!['\n'],
        ).flatten(),
    decreases body.len(),
{
    reveal_strlit("\n");
    assert("\n"@ =~= seq!['\n']);
    let f = |l: Seq<char>| l + seq!['\n'];
    let all = body.map_values(f);
    all.lemma_flatten_and_flatten_alt_are_equivalent();
    let was = sections(head);
    if body.len() == 0 {
        assert(head + body =~= head);
        assert(all.flatten_alt() =~= Seq::empty());
        assert(was.last().1 + all.flatten_alt() =~= was.last().1);
    } else {
        let rest = body.drop_last();
        assert forall|i: int| 0 <= i < rest.len() implies !"diff --git "@.is_prefix_of(
            #[trigger] rest[i],
        ) by {
            assert(rest[i] == body[i]);
        }
        section_grows(head, rest);
        rest.map_values(f).lemma_flatten_and_flatten_alt_are_equivalent();
        assert(all.drop_last() =~= rest.map_values(f));
        assert((head + body).drop_last() =~= head + rest);
        assert((head + body).last() == body[body.len() - 1]);
        let mid = sections(head + rest);
        let now = sections(head + body);
        assert(now.drop_last() =~= mid.drop_last());
        assert(now.last().1 =~= was.last().1 + all.flatten_alt());
    }
}

/// A patch falls into one section per file: each begins at a `diff --git` line
/// and holds that line and all lines up to the next, each with its line break.
/// What stands before the first such line is in no section.
pub proof fn patch_splits_by_file(
    head: Seq<Seq<char>>,
    opening: Seq<char>,
    body: Seq<Seq<char>>,
)
    requires
        "diff --git "@.is_prefix_of(opening),
        forall|i: int| 0 <= i < body.len() ==> !"diff --git "@.is_prefix_of(#[trigger] body[i]),
    ensures
        sections(body).len() == 0,
        sections(head + seq![opening] + body).len() == sections(head).len() + 1,
        sections(head + seq![opening] + body).drop_last() == sections(head),
        sections(head + seq![opening] + body).last().0 == header_file(opening.skip(11)),
        sections(head + seq![opening] + body).last().1 == opening + seq!['\n'] + body.map_values(
            |l: Seq<char>| l + seq!['\n'],
        ).flatten(),
{
    reveal_strlit("\n");
    assert("\n"@ =~= seq!['\n']);
    reveal_strlit("diff --git ");
    assert("diff --git "@.len() == 11);
    let h = head + seq![opening];
    assert(h.drop_last() =~= head);
    assert(h.last() == opening);
    section_grows(h, body);
    assert(sections(h).drop_last() =~= sections(head));
    no_section_before(body);
}

proof fn no_section_before(body: Seq<Seq<char>>)
    requires
        forall|i: int| 0 <= i < body.len() ==> !"diff --git "@.is_prefix_of(#[trigger] body[i]),
    ensures
        sections(body).len() == 0,
    decreases body.len(),
{
    if body.len() > 0 {
        let rest = body.drop_last();
        assert forall|i: int| 0 <= i < rest.len() implies !"diff --git "@.is_prefix_of(
            #[trigger] rest[i],
        ) by {
            assert(rest[i] == body[i]);
        }
        no_section_before(rest);
        assert(body.last() == body[body.len() - 1]);
    }
}

/// The file of a header is the name on its new side, `b/`, with blanks and
/// quotation marks taken off its ends.
pub proof fn header_names_the_new_file(rest: Seq<char>, at: int, name: Seq<char>)
    requires
        !text::occurs(rest, " \"b/"@),
        text::occurs_at(rest, " b/"@, at),
        forall|k: int| at < k ==> !#[trigger] text::occurs_at(rest, " b/"@, k),
        rest.skip(at + 3) == name,
        name.len() > 0,
        !text::is_space(name[0]) && !text::is_space(name.last()),
        name[0] != '"' && name.last() != '"',
    ensures
        header_file(rest) == Some(name),
{
    reveal_strlit(" b/");
    assert(" b/"@.len() == 3);
    text::after_its_last_place(rest, " b/"@, at);
    text::trim_takes_both_ends(Seq::empty(), name, Seq::empty(), text::blank());
    text::trim_takes_both_ends(Seq::empty(), name, Seq::empty(), text::only('"'));
    assert(Seq::<char>::empty() + name + Seq::<char>::empty() =~= name);
}

/// Where the header quotes its names, the quotation marks go with the rest.
pub proof fn header_names_the_quoted_file(rest: Seq<char>, at: int, name: Seq<char>)
    requires
        text::occurs_at(rest, " \"b/"@, at),
        forall|k: int| at < k ==> !#[trigger] text::occurs_at(rest, " \"b/"@, k),
        rest.skip(at + 4) == name + seq!['"'],
        name.len() > 0,
        !text::is_space(name[0]),
        name[0] != '"' && name.last() != '"',
    ensures
        header_file(rest) == Some(name),
{
    reveal_strlit(" \"b/");
    assert(" \"b/"@.len() == 4);
    assert(text::occurs(rest, " \"b/"@));
    text::after_its_last_place(rest, " \"b/"@, at);
    let s = name + seq!['"'];
    let none = Seq::<char>::empty();
    text::trim_takes_both_ends(none, s, none, text::blank());
    assert(none + s + none =~= s);
    text::trim_takes_both_ends(none, name, seq!['"'], text::only('"'));
    assert(none + name + seq!['"'] =~= s);
}

/// A line that went away, came in or stayed, by its first character, is a line
/// of a hunk's body.
pub proof fn marked_lines_are_body(line: Seq<char>)
    requires
        line.len() > 0,
        line[0] == ' ' || (line[0] == '+' && !"+++"@.is_prefix_of(line)) || (line[0] == '-'
            && !"---"@.is_prefix_of(line)),
    ensures
        is_body_line(line),
{
    first_of("@@"@, line);
    first_of("+++"@, line);
    first_of("---"@, line);
    first_of("diff --git "@, line);
    first_of("index "@, line);
    first_of("old mode "@, line);
    first_of("new mode "@, line);
    first_of("deleted file mode "@, line);
    first_of("new file mode "@, line);
    first_of("copy from "@, line);
    first_of("copy to "@, line);
    first_of("rename from "@, line);
    first_of("rename to "@, line);
    first_of("similarity index "@, line);
    first_of("dissimilarity index "@, line);
    first_of("Binary files "@, line);
    first_of("GIT binary patch"@, line);
    reveal_strlit("@@");
    reveal_strlit("+++");
    reveal_strlit("---");
    reveal_strlit("diff --git ");
    reveal_strlit("index ");
    reveal_strlit("old mode ");
    reveal_strlit("new mode ");
    reveal_strlit("deleted file mode ");
    reveal_strlit("new file mode ");
    reveal_strlit("copy from ");
    reveal_strlit("copy to ");
    reveal_strlit("rename from ");
    reveal_strlit("rename to ");
    reveal_strlit("similarity index ");
    reveal_strlit("dissimilarity index ");
    reveal_strlit("Binary files ");
    reveal_strlit("GIT binary patch");
}

proof fn first_of(p: Seq<char>, line: Seq<char>)
    ensures
        p.len() > 0 && p.is_prefix_of(line) ==> line[0] == p[0],
{
    if p.len() > 0 && p.is_prefix_of(line) {
        assert(line.subrange(0, p.len() as int)[0] == line[0]);
    }
}

/// In a hunk that says it starts at some line of the old and some line of the
/// new file, a line that went away has the old start plus the number of lines
/// before it in the hunk that went away or stayed, and any other line the new
/// start plus the number of lines before it that came in or stayed.
pub proof fn hunk_counts_from_its_start(
    above: Seq<Seq<char>>,
    opening: Seq<char>,
    before: Seq<Seq<char>>,
    line: Seq<char>,
    old: u32,
    new: u32,
    old_tail: Seq<char>,
    new_tail: Seq<char>,
)
    requires
        "@@"@.is_prefix_of(opening),
        text::words(opening).len() >= 4,
        text::words(opening)[1] == seq!['-'] + text::dec(old as nat) + old_tail,
        text::words(opening)[2] == seq!['+'] + text::dec(new as nat) + new_tail,
        "@@"@.is_prefix_of(text::words(opening)[3]),
        old_tail.len() > 0 ==> old_tail[0] == ',',
        new_tail.len() > 0 ==> new_tail[0] == ',',
        forall|i: int|
            0 <= i < before.len() ==> (#[trigger] before[i]).len() > 0 && (before[i][0] == ' ' || (
            before[i][0] == '+' && !"+++"@.is_prefix_of(before[i])) || (before[i][0] == '-'
                && !"---"@.is_prefix_of(before[i]))),
        line.len() > 0,
        line[0] == ' ' || (line[0] == '+' && !"+++"@.is_prefix_of(line)) || (line[0] == '-'
            && !"---"@.is_prefix_of(line)),
        old + before.len() <= u32::MAX,
        new + before.len() <= u32::MAX,
    ensures
        line[0] == '-' ==> read_line(state_after(above + seq![opening] + before), line).0 == Some(
            (old + before.filter(|l: Seq<char>| l[0] == '-' || l[0] == ' ').len()) as u32,
        ),
        line[0] != '-' ==> read_line(state_after(above + seq![opening] + before), line).0 == Some(
            (new + before.filter(|l: Seq<char>| l[0] == '+' || l[0] == ' ').len()) as u32,
        ),
{
    let head = above + seq![opening];
    assert(head.drop_last() =~= above);
    assert(head.last() == opening);
    hunk_starts_where_it_says(state_after(above), opening, old, new, old_tail, new_tail);
    assert forall|i: int| 0 <= i < before.len() implies is_body_line(#[trigger] before[i]) by {
        marked_lines_are_body(before[i]);
    }
    marked_lines_are_body(line);
    hunk_lines_are_numbered(head, before, line);
    same_filter(
        before,
        |l: Seq<char>| l[0] == '-' || l[0] == ' ',
        |l: Seq<char>| !(l.len() > 0 && l[0] == '+'),
    );
    same_filter(
        before,
        |l: Seq<char>| l[0] == '+' || l[0] == ' ',
        |l: Seq<char>| !(l.len() > 0 && l[0] == '-'),
    );
}

proof fn same_filter(s: Seq<Seq<char>>, p: spec_fn(Seq<char>) -> bool, q: spec_fn(Seq<char>) -> bool)
    requires
        forall|i: int| 0 <= i < s.len() ==> p(#[trigger] s[i]) == q(s[i]),
    ensures
        s.filter(p) == s.filter(q),
    decreases s.len(),
{
    reveal(Seq::filter);
    if s.len() > 0 {
        let rest = s.drop_last();
        assert forall|i: int| 0 <= i < rest.len() implies p(#[trigger] rest[i]) == q(rest[i]) by {
            assert(rest[i] == s[i]);
        }
        same_filter(rest, p, q);
        assert(s.last() == s[s.len() - 1]);
    }
}

/// Numbers go up to the largest there is and stay there.
pub proof fn numbers_stay_at_the_largest(st: HunkState, line: Seq<char>)
    requires
        st.in_hunk,
        is_body_line(line),
    ensures
        ({
            let now = read_line(st, line).1;
            let gone = line.len() > 0 && line[0] == '-';
            let came = line.len() > 0 && line[0] == '+';
            &&& now.in_hunk
            &&& came ==> now.old == st.old
            &&& gone ==> now.new == st.new
            &&& !came && st.old < u32::MAX ==> now.old == st.old + 1
            &&& !came && st.old == u32::MAX ==> now.old == u32::MAX
            &&& !gone && st.new < u32::MAX ==> now.new == st.new + 1
            &&& !gone && st.new == u32::MAX ==> now.new == u32::MAX
        }),
{
}

} // verus!
