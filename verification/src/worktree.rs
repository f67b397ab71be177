//! What the `git` program prints of worktrees and of their changes, and the
//! patches that are handed to it.
use crate::review;
use crate::runtime::{Hunk, WorktreeInfo};
use crate::session::FileDiff;
use crate::text;
use vstd::prelude::*;
use vstd::string::*;

verus! {

/// What a list of worktrees holds: their paths and branches.
pub open spec fn info_models(v: Seq<WorktreeInfo>) -> Seq<(Seq<char>, Option<Seq<char>>)> {
    v.map_values(|w: WorktreeInfo| (w.path@, text::opt_text(w.branch)))
}

/// The worktrees that `lines` list: a line with a path begins one, and a line
/// with a branch names that of the last one begun.
pub open spec fn listed(lines: Seq<Seq<char>>) -> Seq<(Seq<char>, Option<Seq<char>>)>
    decreases lines.len(),
{
    if lines.len() == 0 {
        Seq::empty()
    } else {
        let so_far = listed(lines.drop_last());
        let line = lines.last();
        if "worktree "@.is_prefix_of(line) {
            so_far.push((line.skip("worktree "@.len() as int), None))
        } else if "branch refs/heads/"@.is_prefix_of(line) && so_far.len() > 0 {
            so_far.update(
                so_far.len() - 1,
                (so_far.last().0, Some(line.skip("branch refs/heads/"@.len() as int))),
            )
        } else {
            so_far
        }
    }
}

/// Reads a list of worktrees in the form that is meant for programs.
pub fn parse_list(out: &str) -> (infos: Vec<WorktreeInfo>)
    ensures
        info_models(infos@) == listed(text::lines(out@)),
{
    let lines = text::split_lines(out);
    let ghost all = text::lines(out@);
    let mut infos: Vec<WorktreeInfo> = Vec::new();
    let mut i: usize = 0;
    assert(info_models(infos@) =~= listed(all.take(0)));
    while i < lines.len()
        invariant
            i <= lines@.len(),
            text::texts(lines@) == all,
            info_models(infos@) == listed(all.take(i as int)),
        decreases lines@.len() - i,
    {
        let line = lines[i].as_str();
        assert(all[i as int] == line@);
        assert(all.take(i + 1).drop_last() =~= all.take(i as int));
        let ghost so_far = info_models(infos@);
        if text::starts_with(line, "worktree ") {
            proof {
                reveal_strlit("worktree ");
            }
            infos.push(WorktreeInfo { path: text::skip_chars(line, 9), branch: None });
            assert(info_models(infos@) =~= listed(all.take(i + 1)));
        } else if text::starts_with(line, "branch refs/heads/") && infos.len() > 0 {
            proof {
                reveal_strlit("branch refs/heads/");
            }
            let last = infos.pop().unwrap();
            assert(info_models(infos@) =~= so_far.drop_last());
            infos.push(
                WorktreeInfo { path: last.path, branch: Some(text::skip_chars(line, 18)) },
            );
            assert(info_models(infos@) =~= listed(all.take(i + 1)));
        }
        i += 1;
    }
    assert(all.take(all.len() as int) =~= all);
    infos
}

/// How many of `lines` begin with a mark, but for those that begin with
/// `header`.
pub open spec fn marked(lines: Seq<Seq<char>>, mark: Seq<char>, header: Seq<char>) -> nat
    decreases lines.len(),
{
    if lines.len() == 0 {
        0
    } else {
        let so_far = marked(lines.drop_last(), mark, header);
        if mark.is_prefix_of(lines.last()) && !header.is_prefix_of(lines.last()) {
            so_far + 1
        } else {
            so_far
        }
    }
}

fn count_marked(lines: &Vec<String>, mark: &str, header: &str) -> (n: u64)
    ensures
        n == marked(text::texts(lines@), mark@, header@),
{
    let ghost all = text::texts(lines@);
    let mut n: u64 = 0;
    let mut i: usize = 0;
    while i < lines.len()
        invariant
            i <= lines@.len(),
            all == text::texts(lines@),
            n == marked(all.take(i as int), mark@, header@),
            n <= i,
        decreases lines@.len() - i,
    {
        let line = lines[i].as_str();
        assert(all[i as int] == line@);
        assert(all.take(i + 1).drop_last() =~= all.take(i as int));
        if text::starts_with(line, mark) && !text::starts_with(line, header) {
            n += 1;
        }
        i += 1;
    }
    assert(all.take(all.len() as int) =~= all);
    n
}

/// What a [`FileDiff`] holds.
pub struct ChangeModel {
    pub file: Option<Seq<char>>,
    pub additions: nat,
    pub deletions: nat,
    pub patch: Option<Seq<char>>,
}

/// What a list of changes holds.
pub open spec fn change_models(v: Seq<FileDiff>) -> Seq<ChangeModel> {
    v.map_values(
        |d: FileDiff|
            ChangeModel {
                file: text::opt_text(d.file),
                additions: d.additions as nat,
                deletions: d.deletions as nat,
                patch: text::opt_text(d.patch),
            },
    )
}

/// The changes of one file by its patch: added and removed lines count, the
/// lines that name the file do not.
pub open spec fn change(file: Option<Seq<char>>, patch: Seq<char>) -> ChangeModel {
    ChangeModel {
        file,
        additions: marked(text::lines(patch), "+"@, "+++"@),
        deletions: marked(text::lines(patch), "-"@, "---"@),
        patch: Some(patch),
    }
}

/// The changes of a checkout by its diff, file by file. A diff without a file
/// is one block of changes of the working tree.
pub open spec fn changes(raw: Seq<char>) -> Seq<ChangeModel> {
    let parts = review::sections(text::lines(raw));
    if parts.len() == 0 && text::trim(raw, text::blank()).len() > 0 {
        seq![change(Some("(working tree)"@), raw)]
    } else {
        parts.map_values(|p: review::Section| change(p.0, p.1))
    }
}

fn file_diff(file: Option<String>, patch: String) -> (d: FileDiff)
    ensures
        change_models(seq![d]) == seq![change(text::opt_text(file), patch@)],
{
    let lines = text::split_lines(patch.as_str());
    let d = FileDiff {
        file,
        additions: count_marked(&lines, "+", "+++"),
        deletions: count_marked(&lines, "-", "---"),
        patch: Some(patch),
    };
    assert(change_models(seq![d]) =~= seq![change(text::opt_text(file), patch@)]);
    d
}

/// Reads the diff of a checkout.
pub fn parse_diff(raw: &str) -> (out: Vec<FileDiff>)
    ensures
        change_models(out@) == changes(raw@),
{
    let parts = review::split_files(raw);
    let ghost all = review::section_models(parts@);
    let mut out: Vec<FileDiff> = Vec::new();
    if parts.len() == 0 && !text::trimmed(raw).as_str().is_empty() {
        let d = file_diff(Some("(working tree)".to_owned()), raw.to_owned());
        out.push(d);
        assert(out@ =~= seq![d]);
        return out;
    }
    let ghost f = |p: review::Section| change(p.0, p.1);
    let mut i: usize = 0;
    assert(change_models(out@) =~= all.take(0).map_values(f));
    while i < parts.len()
        invariant
            i <= parts@.len(),
            all == review::section_models(parts@),
            f == (|p: review::Section| change(p.0, p.1)),
            change_models(out@) == all.take(i as int).map_values(f),
        decreases parts@.len() - i,
    {
        let d = file_diff(text::copy_opt(&parts[i].0), parts[i].1.clone());
        assert(change_models(seq![d])[0] == f(all[i as int]));
        let ghost was = out@;
        out.push(d);
        assert(change_models(out@) =~= change_models(was).push(change_models(seq![d])[0]));
        assert(all.take(i + 1).map_values(f) =~= all.take(i as int).map_values(f).push(
            f(all[i as int]),
        ));
        i += 1;
    }
    assert(all.take(all.len() as int) =~= all);
    out
}

/// The texts of some hunks, each ending with a line feed.
pub open spec fn hunks_text(hunks: Seq<Hunk>) -> Seq<char>
    decreases hunks.len(),
{
    if hunks.len() == 0 {
        Seq::empty()
    } else {
        let so_far = hunks_text(hunks.drop_last()) + hunks.last().text@;
        if hunks.last().text@.len() > 0 && hunks.last().text@.last() == '\n' {
            so_far
        } else {
            so_far + "\n"@
        }
    }
}

/// The patch that applies hunks to a file.
pub fn hunk_patch(file: &str, hunks: &Vec<Hunk>) -> (p: String)
    ensures
        p@ == "--- a/"@ + file@ + "\n+++ b/"@ + file@ + "\n"@ + hunks_text(hunks@),
{
    let mut p = "--- a/".to_owned();
    p.append(file);
    p.append("\n+++ b/");
    p.append(file);
    p.append("\n");
    let ghost head = p@;
    let ghost all = hunks@;
    let mut i: usize = 0;
    assert(p@ =~= head + hunks_text(all.take(0)));
    while i < hunks.len()
        invariant
            i <= hunks@.len(),
            all == hunks@,
            p@ == head + hunks_text(all.take(i as int)),
        decreases hunks@.len() - i,
    {
        assert(all.take(i + 1).drop_last() =~= all.take(i as int));
        let c = text::chars_of(hunks[i].text.as_str());
        p.append(hunks[i].text.as_str());
        if c.len() == 0 || c[c.len() - 1] != '\n' {
            p.append("\n");
        }
        assert(p@ =~= head + hunks_text(all.take(i + 1)));
        i += 1;
    }
    assert(all.take(all.len() as int) =~= all);
    p
}

/// Added and removed lines are lines of the patch, and none is both.
pub proof fn counted_lines_are_lines(file: Option<Seq<char>>, patch: Seq<char>)
    ensures
        change(file, patch).additions + change(file, patch).deletions <= text::lines(patch).len(),
{
    reveal_strlit("+");
    reveal_strlit("-");
    marks_fit(text::lines(patch));
}

proof fn marks_fit(lines: Seq<Seq<char>>)
    ensures
        marked(lines, "+"@, "+++"@) + marked(lines, "-"@, "---"@) <= lines.len(),
    decreases lines.len(),
{
    if lines.len() > 0 {
        marks_fit(lines.drop_last());
        reveal_strlit("+");
        reveal_strlit("-");
        if "+"@.is_prefix_of(lines.last()) && "-"@.is_prefix_of(lines.last()) {
            assert("+"@[0] == lines.last()[0]);
            assert("-"@[0] == lines.last()[0]);
        }
    }
}

/// The lines that count are those with the mark that do not begin a file's
/// header.
pub proof fn marked_lines_are_counted(lines: Seq<Seq<char>>, mark: Seq<char>, header: Seq<char>)
    ensures
        marked(lines, mark, header) == lines.filter(
            |l: Seq<char>| mark.is_prefix_of(l) && !header.is_prefix_of(l),
        ).len(),
    decreases lines.len(),
{
    reveal(Seq::filter);
    if lines.len() > 0 {
        marked_lines_are_counted(lines.drop_last(), mark, header);
    }
}

/// What is told of a file's patch: the number of its lines that came in and
/// the number of those that went away, by their first character, without the
/// lines that name the file; and the patch itself.
pub proof fn change_counts_its_lines(file: Option<Seq<char>>, patch: Seq<char>)
    ensures
        change(file, patch).file == file,
        change(file, patch).patch == Some(patch),
        change(file, patch).additions == text::lines(patch).filter(
            |l: Seq<char>| l.len() > 0 && l[0] == '+' && !"+++"@.is_prefix_of(l),
        ).len(),
        change(file, patch).deletions == text::lines(patch).filter(
            |l: Seq<char>| l.len() > 0 && l[0] == '-' && !"---"@.is_prefix_of(l),
        ).len(),
{
    let lines = text::lines(patch);
    reveal_strlit("+");
    reveal_strlit("-");
    marked_lines_are_counted(lines, "+"@, "+++"@);
    marked_lines_are_counted(lines, "-"@, "---"@);
    assert forall|l: Seq<char>| #[trigger] "+"@.is_prefix_of(l) <==> l.len() > 0 && l[0] == '+' by {
        if l.len() > 0 && l[0] == '+' {
            assert("+"@ =~= l.subrange(0, 1));
        }
        if "+"@.is_prefix_of(l) {
            assert("+"@[0] == l.subrange(0, 1)[0]);
        }
    }
    assert forall|l: Seq<char>| #[trigger] "-"@.is_prefix_of(l) <==> l.len() > 0 && l[0] == '-' by {
        if l.len() > 0 && l[0] == '-' {
            assert("-"@ =~= l.subrange(0, 1));
        }
        if "-"@.is_prefix_of(l) {
            assert("-"@[0] == l.subrange(0, 1)[0]);
        }
    }
    let p = |l: Seq<char>| "+"@.is_prefix_of(l) && !"+++"@.is_prefix_of(l);
    let q = |l: Seq<char>| l.len() > 0 && l[0] == '+' && !"+++"@.is_prefix_of(l);
    assert(p =~= q);
    let r = |l: Seq<char>| "-"@.is_prefix_of(l) && !"---"@.is_prefix_of(l);
    let t = |l: Seq<char>| l.len() > 0 && l[0] == '-' && !"---"@.is_prefix_of(l);
    assert(r =~= t);
}

/// A diff gives one change per file's section, in order; one without such
/// sections that is not blank is a change of the working tree, and a blank one
/// gives none.
pub proof fn changes_follow_the_sections(raw: Seq<char>)
    ensures
        ({
            let parts = review::sections(text::lines(raw));
            &&& parts.len() > 0 ==> changes(raw).len() == parts.len() && forall|i: int|
                0 <= i < parts.len() ==> (#[trigger] changes(raw)[i]).file == parts[i].0
                    && changes(raw)[i].patch == Some(parts[i].1)
            &&& parts.len() == 0 && text::trim(raw, text::blank()).len() > 0 ==> changes(raw).len()
                == 1 && changes(raw)[0].file == Some("(working tree)"@) && changes(raw)[0].patch
                == Some(raw)
            &&& parts.len() == 0 && text::trim(raw, text::blank()).len() == 0 ==> changes(raw).len()
                == 0
        }),
{
}

/// The text of some hunks is the text of each, one behind the other, with a
/// line break where a hunk does not end in one.
pub proof fn hunks_are_written_in_turn(a: Seq<Hunk>, b: Seq<Hunk>, h: Hunk)
    ensures
        hunks_text(Seq::empty()).len() == 0,
        hunks_text(a + b) == hunks_text(a) + hunks_text(b),
        h.text@.len() > 0 && h.text@.last() == '\n' ==> hunks_text(seq![h]) == h.text@,
        !(h.text@.len() > 0 && h.text@.last() == '\n') ==> hunks_text(seq![h]) == h.text@.push(
            '\n',
        ),
    decreases b.len(),
{
    reveal_with_fuel(hunks_text, 2);
    reveal_strlit("\n");
    assert(seq![h].drop_last() =~= Seq::empty());
    assert(seq![h].last() == h);
    assert(Seq::<char>::empty() + h.text@ =~= h.text@);
    assert(h.text@ + "\n"@ =~= h.text@.push('\n'));
    if b.len() == 0 {
        assert(a + b =~= a);
        assert(hunks_text(a) + hunks_text(b) =~= hunks_text(a));
    } else {
        assert((a + b).drop_last() =~= a + b.drop_last());
        assert((a + b).last() == b.last());
        hunks_are_written_in_turn(a, b.drop_last(), h);
        assert(hunks_text(a + b) =~= hunks_text(a) + hunks_text(b));
    }
}

proof fn listing_goes_on(head: Seq<Seq<char>>, body: Seq<Seq<char>>)
    requires
        forall|i: int|
            0 <= i < body.len() ==> !"worktree "@.is_prefix_of(#[trigger] body[i])
                && !"branch refs/heads/"@.is_prefix_of(body[i]),
    ensures
        listed(head + body) == listed(head),
    decreases body.len(),
{
    if body.len() == 0 {
        assert(head + body =~= head);
    } else {
        let rest = body.drop_last();
        assert forall|i: int| 0 <= i < rest.len() implies !"worktree "@.is_prefix_of(
            #[trigger] rest[i],
        ) && !"branch refs/heads/"@.is_prefix_of(rest[i]) by {
            assert(rest[i] == body[i]);
        }
        listing_goes_on(head, rest);
        assert((head + body).drop_last() =~= head + rest);
        assert((head + body).last() == body[body.len() - 1]);
    }
}

/// A listing names one worktree for each line that gives a path, with the
/// branch that is given below it before the next path, where there is one; no
/// other line says anything.
pub proof fn listing_names_each_worktree(
    head: Seq<Seq<char>>,
    path: Seq<char>,
    between: Seq<Seq<char>>,
    branch: Seq<char>,
    below: Seq<Seq<char>>,
)
    requires
        forall|i: int|
            0 <= i < between.len() ==> !"worktree "@.is_prefix_of(#[trigger] between[i])
                && !"branch refs/heads/"@.is_prefix_of(between[i]),
        forall|i: int|
            0 <= i < below.len() ==> !"worktree "@.is_prefix_of(#[trigger] below[i])
                && !"branch refs/heads/"@.is_prefix_of(below[i]),
    ensures
        listed(head + seq!["worktree "@ + path] + between) == listed(head).push((path, None)),
        listed(
            head + seq!["worktree "@ + path] + between + seq!["branch refs/heads/"@ + branch]
                + below,
        ) == listed(head).push((path, Some(branch))),
        listed(between).len() == 0,
{
    reveal_strlit("worktree ");
    reveal_strlit("branch refs/heads/");
    let w = "worktree "@;
    let r = "branch refs/heads/"@;
    let line = w + path;
    assert(line.subrange(0, w.len() as int) =~= w);
    assert(line.skip(w.len() as int) =~= path);
    let h = head + seq![line];
    assert(h.drop_last() =~= head);
    assert(h.last() == line);
    assert(w.is_prefix_of(line));
    listing_goes_on(h, between);
    let mid = h + between;
    let next = r + branch;
    assert(next.subrange(0, r.len() as int) =~= r);
    assert(next.skip(r.len() as int) =~= branch);
    let g = mid + seq![next];
    assert(g.drop_last() =~= mid);
    assert(g.last() == next);
    if w.is_prefix_of(next) {
        assert(w[0] == next[0]);
        assert(next[0] == r[0]);
    }
    assert(r.is_prefix_of(next));
    listing_goes_on(g, below);
    let was = listed(head);
    assert(was.push((path, None)).update(was.len() as int, (path, Some(branch))) =~= was.push(
        (path, Some(branch)),
    ));
    listing_goes_on(Seq::empty(), between);
    assert(Seq::<Seq<char>>::empty() + between =~= between);
}

} // verus!
