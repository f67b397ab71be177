//! File paths as text: their parts, joining, and what lies below what.
use crate::text;
use vstd::prelude::*;
use vstd::string::*;

verus! {

/// Everything but a slash.
pub open spec fn in_name() -> spec_fn(char) -> bool {
    |c: char| c != '/'
}

/// The name from `b` to `e` is a part of the path: a lone dot is one only at
/// the very start.
pub open spec fn is_part(p: Seq<char>, b: int, e: int) -> bool {
    !(e == b + 1 && p[b] == '.' && b != 0)
}

/// The parts of `p` from position `i` on, each from its first position to
/// the one behind its last.
pub open spec fn parts_from(p: Seq<char>, i: int) -> Seq<(int, int)>
    decreases p.len() - i,
{
    if i < 0 || i >= p.len() {
        Seq::empty()
    } else {
        let b = text::run_end(p, i, text::only('/'));
        let e = text::run_end(p, b, in_name());
        if b >= p.len() {
            Seq::empty()
        } else {
            proof {
                text::run_end_bounds(p, i, text::only('/'));
                text::run_end_bounds(p, b, in_name());
            }
            if is_part(p, b, e) {
                seq![(b, e)] + parts_from(p, e)
            } else {
                parts_from(p, e)
            }
        }
    }
}

/// The parts of `p`: the names between slashes.
pub open spec fn parts(p: Seq<char>) -> Seq<(int, int)> {
    parts_from(p, 0)
}

/// The name of part `k`.
pub open spec fn part(p: Seq<char>, k: int) -> Seq<char> {
    p.subrange(parts(p)[k].0, parts(p)[k].1)
}

/// `p` begins at the root.
pub open spec fn is_absolute(p: Seq<char>) -> bool {
    p.len() > 0 && p[0] == '/'
}

/// The parts lie inside the path, in order.
pub proof fn parts_inside(p: Seq<char>, i: int)
    requires
        0 <= i <= p.len(),
    ensures
        forall|k: int|
            0 <= k < parts_from(p, i).len() ==> i <= (#[trigger] parts_from(p, i)[k]).0
                < parts_from(p, i)[k].1 <= p.len(),
        forall|j: int, k: int|
            0 <= j < k < parts_from(p, i).len() ==> (#[trigger] parts_from(p, i)[j]).1 <= (
            #[trigger] parts_from(p, i)[k]).0,
    decreases p.len() - i,
{
    if i < p.len() {
        let b = text::run_end(p, i, text::only('/'));
        text::run_end_bounds(p, i, text::only('/'));
        if b < p.len() {
            let e = text::run_end(p, b, in_name());
            text::run_end_bounds(p, b, in_name());
            parts_inside(p, e);
            let rest = parts_from(p, e);
            if is_part(p, b, e) {
                let all = parts_from(p, i);
                assert(all =~= seq![(b, e)] + rest);
                assert forall|k: int| 0 <= k < all.len() implies i <= (#[trigger] all[k]).0
                    < all[k].1 <= p.len() by {
                    if k > 0 {
                        assert(all[k] == rest[k - 1]);
                    }
                }
                assert forall|j: int, k: int| 0 <= j < k < all.len() implies (#[trigger] all[j]).1
                    <= (#[trigger] all[k]).0 by {
                    assert(all[k] == rest[k - 1]);
                    if j > 0 {
                        assert(all[j] == rest[j - 1]);
                    }
                }
            }
        }
    }
}

/// The places of a list of parts.
pub open spec fn places(v: Seq<(usize, usize)>) -> Seq<(int, int)> {
    v.map_values(|e: (usize, usize)| (e.0 as int, e.1 as int))
}

fn find_parts(p: &Vec<char>) -> (out: Vec<(usize, usize)>)
    ensures
        places(out@) == parts(p@),
        out@.len() == parts(p@).len(),
        forall|k: int|
            0 <= k < out@.len() ==> (#[trigger] out@[k]).0 < out@[k].1 <= p@.len() && parts(p@)[k]
                == (out@[k].0 as int, out@[k].1 as int),
{
    let mut out: Vec<(usize, usize)> = Vec::new();
    let mut i: usize = 0;
    while i < p.len()
        invariant
            i <= p@.len(),
            places(out@) + parts_from(p@, i as int) == parts(p@),
        decreases p@.len() - i,
    {
        let mut b: usize = i;
        while b < p.len() && p[b] == '/'
            invariant
                i <= b <= p@.len(),
                forall|j: int| i <= j < b ==> #[trigger] p@[j] == '/',
            decreases p@.len() - b,
        {
            b += 1;
        }
        proof {
            text::run_end_unique(p@, i as int, b as int, text::only('/'));
        }
        let mut e: usize = b;
        while e < p.len() && p[e] != '/'
            invariant
                b <= e <= p@.len(),
                forall|j: int| b <= j < e ==> #[trigger] p@[j] != '/',
            decreases p@.len() - e,
        {
            e += 1;
        }
        proof {
            text::run_end_unique(p@, b as int, e as int, in_name());
        }
        if b == p.len() {
            proof {
                assert(places(out@) + Seq::empty() =~= places(out@));
                parts_inside(p@, 0);
                assert forall|k: int| 0 <= k < out@.len() implies (#[trigger] out@[k]).0 < out@[k].1
                    <= p@.len() && parts(p@)[k] == (out@[k].0 as int, out@[k].1 as int) by {
                    assert(places(out@)[k] == parts_from(p@, 0)[k]);
                }
            }
            return out;
        }
        let lone_dot = e == b + 1 && p[b] == '.' && b != 0;
        if !lone_dot {
            let ghost was = places(out@);
            out.push((b, e));
            assert(places(out@) =~= was.push((b as int, e as int)));
            assert(was + (seq![(b as int, e as int)] + parts_from(p@, e as int)) =~= places(out@)
                + parts_from(p@, e as int));
        }
        i = e;
    }
    proof {
        assert(places(out@) + parts_from(p@, i as int) =~= places(out@));
        parts_inside(p@, 0);
        assert forall|k: int| 0 <= k < out@.len() implies (#[trigger] out@[k]).0 < out@[k].1
            <= p@.len() && parts(p@)[k] == (out@[k].0 as int, out@[k].1 as int) by {
            assert(places(out@)[k] == parts_from(p@, 0)[k]);
        }
    }
    out
}

/// The path made of the first `k` parts.
pub open spec fn upto(p: Seq<char>, k: int) -> Seq<char> {
    if k <= 0 {
        if is_absolute(p) {
            seq!['/']
        } else {
            Seq::empty()
        }
    } else {
        p.subrange(0, parts(p)[k - 1].1)
    }
}

fn path_upto(p: &Vec<char>, found: &Vec<(usize, usize)>, k: usize) -> (r: String)
    requires
        k <= found@.len(),
        found@.len() == parts(p@).len(),
        forall|k: int|
            0 <= k < found@.len() ==> (#[trigger] found@[k]).0 < found@[k].1 <= p@.len() && parts(
                p@,
            )[k] == (found@[k].0 as int, found@[k].1 as int),
    ensures
        r@ == upto(p@, k as int),
{
    if k == 0 {
        let mut r = String::new();
        if p.len() > 0 && p[0] == '/' {
            r.push('/');
            assert(r@ =~= seq!['/']);
        }
        r
    } else {
        text::slice_text(p, 0, found[k - 1].1)
    }
}

/// The last part of `p`, where it is a proper name.
pub open spec fn name_of(p: Seq<char>) -> Option<Seq<char>> {
    let n = parts(p).len();
    if n == 0 || part(p, n - 1) == seq!['.'] || part(p, n - 1) == seq!['.', '.'] {
        None
    } else {
        Some(part(p, n - 1))
    }
}

/// The last part of a path, where it is a proper name.
pub fn file_name(p: &str) -> (r: Option<String>)
    ensures
        text::opt_text(r) == name_of(p@),
{
    let x = text::chars_of(p);
    let found = find_parts(&x);
    if found.len() == 0 {
        return None;
    }
    let (b, e) = found[found.len() - 1];
    assert(part(p@, found@.len() - 1) == p@.subrange(b as int, e as int));
    let ghost name = p@.subrange(b as int, e as int);
    let dot = e - b == 1 && x[b] == '.';
    let dots = e - b == 2 && x[b] == '.' && x[b + 1] == '.';
    proof {
        if dot {
            assert(name =~= seq!['.']);
        } else if name == seq!['.'] {
            assert(name.len() == 1 && name[0] == '.');
        }
        if dots {
            assert(name =~= seq!['.', '.']);
        } else if name == seq!['.', '.'] {
            assert(name.len() == 2 && name[0] == '.' && name[1] == '.');
        }
    }
    if dot || dots {
        None
    } else {
        Some(text::slice_text(&x, b, e))
    }
}

/// `rel` below `base`; an absolute `rel` stands for itself.
pub open spec fn join(base: Seq<char>, rel: Seq<char>) -> Seq<char> {
    if is_absolute(rel) {
        rel
    } else if base.len() == 0 || base.last() == '/' {
        base + rel
    } else {
        base + seq!['/'] + rel
    }
}

/// `rel` below `base`; an absolute `rel` stands for itself.
pub fn joined(base: &str, rel: &str) -> (r: String)
    ensures
        r@ == join(base@, rel@),
{
    let b = text::chars_of(base);
    let r = text::chars_of(rel);
    if r.len() > 0 && r[0] == '/' {
        return rel.to_owned();
    }
    let mut out = base.to_owned();
    if b.len() > 0 && b[b.len() - 1] != '/' {
        out.push('/');
        assert(out@ =~= base@ + seq!['/']);
    }
    out.append(rel);
    out
}

/// Some part of `p` leads up.
pub open spec fn climbs(p: Seq<char>) -> bool {
    exists|k: int| 0 <= k < parts(p).len() && part(p, k) == seq!['.', '.']
}

/// Whether a path, taken below a directory, can leave it: it begins at the
/// root, or one of its parts leads up.
pub fn escapes(p: &str) -> (r: bool)
    ensures
        r == (is_absolute(p@) || climbs(p@)),
{
    let x = text::chars_of(p);
    if x.len() > 0 && x[0] == '/' {
        return true;
    }
    let found = find_parts(&x);
    let mut k: usize = 0;
    while k < found.len()
        invariant
            k <= found@.len(),
            x@ == p@,
            found@.len() == parts(p@).len(),
            forall|k: int|
                0 <= k < found@.len() ==> (#[trigger] found@[k]).0 < found@[k].1 <= x@.len()
                    && parts(p@)[k] == (found@[k].0 as int, found@[k].1 as int),
            forall|j: int| 0 <= j < k ==> part(p@, j) != seq!['.', '.'],
        decreases found@.len() - k,
    {
        let (b, e) = found[k];
        let ghost name = part(p@, k as int);
        assert(name == x@.subrange(b as int, e as int));
        if e - b == 2 && x[b] == '.' && x[b + 1] == '.' {
            assert(name =~= seq!['.', '.']);
            return true;
        }
        proof {
            if name == seq!['.', '.'] {
                assert(name.len() == 2 && name[0] == '.' && name[1] == '.');
            }
        }
        k += 1;
    }
    false
}

/// `base` has the same first parts as `p`, or none at all.
pub open spec fn lies_below(p: Seq<char>, base: Seq<char>) -> bool {
    &&& parts(base).len() <= parts(p).len()
    &&& parts(base).len() == 0 || is_absolute(base) == is_absolute(p)
    &&& is_absolute(base) ==> is_absolute(p)
    &&& forall|k: int| 0 <= k < parts(base).len() ==> #[trigger] part(base, k) == part(p, k)
}

/// What of `p` lies below `base`, from its first part to its last; all of it
/// below an empty `base`.
pub open spec fn below(p: Seq<char>, base: Seq<char>) -> Option<Seq<char>> {
    let n = parts(p).len() as int;
    let k = parts(base).len() as int;
    if !lies_below(p, base) {
        None
    } else if k == 0 && !is_absolute(base) {
        Some(upto(p, n))
    } else if k == n {
        Some(Seq::empty())
    } else {
        Some(p.subrange(parts(p)[k].0, parts(p)[n - 1].1))
    }
}

/// What of `p` lies below `base`; `None` where it does not.
pub fn strip_prefix(p: &str, base: &str) -> (r: Option<String>)
    ensures
        text::opt_text(r) == below(p@, base@),
{
    let x = text::chars_of(p);
    let y = text::chars_of(base);
    let ours = find_parts(&x);
    let theirs = find_parts(&y);
    let x_root = x.len() > 0 && x[0] == '/';
    let y_root = y.len() > 0 && y[0] == '/';
    if theirs.len() > ours.len() || (theirs.len() > 0 && x_root != y_root) || (y_root && !x_root) {
        return None;
    }
    let mut k: usize = 0;
    while k < theirs.len()
        invariant
            k <= theirs@.len() <= ours@.len(),
            x@ == p@,
            y@ == base@,
            ours@.len() == parts(p@).len(),
            theirs@.len() == parts(base@).len(),
            forall|k: int|
                0 <= k < ours@.len() ==> (#[trigger] ours@[k]).0 < ours@[k].1 <= x@.len() && parts(
                    p@,
                )[k] == (ours@[k].0 as int, ours@[k].1 as int),
            forall|k: int|
                0 <= k < theirs@.len() ==> (#[trigger] theirs@[k]).0 < theirs@[k].1 <= y@.len()
                    && parts(base@)[k] == (theirs@[k].0 as int, theirs@[k].1 as int),
            forall|j: int| 0 <= j < k ==> #[trigger] part(base@, j) == part(p@, j),
        decreases theirs@.len() - k,
    {
        let a = text::slice_text(&x, ours[k].0, ours[k].1);
        let b = text::slice_text(&y, theirs[k].0, theirs[k].1);
        assert(a@ == part(p@, k as int));
        assert(b@ == part(base@, k as int));
        if !text::same(a.as_str(), b.as_str()) {
            return None;
        }
        k += 1;
    }
    assert(lies_below(p@, base@));
    if theirs.len() == 0 && !y_root {
        return Some(path_upto(&x, &ours, ours.len()));
    }
    if k == ours.len() {
        return Some(String::new());
    }
    proof {
        parts_inside(p@, 0);
        if k < ours@.len() - 1 {
            assert(parts_from(p@, 0)[k as int].1 <= parts_from(p@, 0)[ours@.len() - 1].0);
        }
    }
    Some(text::slice_text(&x, ours[k].0, ours[ours.len() - 1].1))
}

/// The path before the last of the first `k` parts that is named `marker`;
/// all of `p` where there is none.
pub open spec fn root_before(p: Seq<char>, marker: Seq<char>, k: int) -> Seq<char>
    decreases k,
{
    if k <= 0 {
        p
    } else if part(p, k - 1) == marker {
        upto(p, k - 1)
    } else {
        root_before(p, marker, k - 1)
    }
}

/// The directory that holds the innermost directory `marker` of `p`; `p`
/// itself where it has none.
pub open spec fn root_of(p: Seq<char>, marker: Seq<char>) -> Seq<char> {
    root_before(p, marker, parts(p).len() as int)
}

/// The directory that holds the innermost directory `marker` of a path, or
/// the path itself.
pub fn root_above(p: &str, marker: &str) -> (r: String)
    ensures
        r@ == root_of(p@, marker@),
{
    let x = text::chars_of(p);
    let found = find_parts(&x);
    let mut k: usize = found.len();
    while k > 0
        invariant
            k <= found@.len(),
            x@ == p@,
            found@.len() == parts(p@).len(),
            forall|k: int|
                0 <= k < found@.len() ==> (#[trigger] found@[k]).0 < found@[k].1 <= x@.len()
                    && parts(p@)[k] == (found@[k].0 as int, found@[k].1 as int),
            root_of(p@, marker@) == root_before(p@, marker@, k as int),
        decreases k,
    {
        let name = text::slice_text(&x, found[k - 1].0, found[k - 1].1);
        assert(name@ == part(p@, k - 1));
        if text::same(name.as_str(), marker) {
            return path_upto(&x, &found, k - 1);
        }
        k -= 1;
    }
    p.to_owned()
}

/// Whether a path lies right below a directory named `marker`.
pub fn below_marker(p: &str, marker: &str) -> (r: bool)
    ensures
        r == (parts(p@).len() >= 2 && part(p@, parts(p@).len() - 2) == marker@),
{
    let x = text::chars_of(p);
    let found = find_parts(&x);
    if found.len() < 2 {
        return false;
    }
    let (b, e) = found[found.len() - 2];
    assert(part(p@, found@.len() - 2) == x@.subrange(b as int, e as int));
    text::same(text::slice_text(&x, b, e).as_str(), marker)
}

/// A proper name of a part: not empty, without slashes, no lone dot.
pub open spec fn is_name(n: Seq<char>) -> bool {
    &&& n.len() > 0
    &&& forall|i: int| 0 <= i < n.len() ==> #[trigger] n[i] != '/'
    &&& n != seq!['.']
}

/// Whether a text is the name of a directory below another: proper, and not
/// the name of the one above.
pub fn plain_name(n: &str) -> (r: bool)
    ensures
        r == (is_name(n@) && n@ != seq!['.', '.']),
{
    let x = text::chars_of(n);
    let mut i: usize = 0;
    while i < x.len()
        invariant
            i <= x@.len(),
            x@ == n@,
            forall|j: int| 0 <= j < i ==> #[trigger] x@[j] != '/',
        decreases x@.len() - i,
    {
        if x[i] == '/' {
            assert(n@[i as int] == '/');
            return false;
        }
        i += 1;
    }
    let dot = x.len() == 1 && x[0] == '.';
    let dots = x.len() == 2 && x[0] == '.' && x[1] == '.';
    proof {
        if dot {
            assert(n@ =~= seq!['.']);
        } else if n@ == seq!['.'] {
            assert(n@.len() == 1 && n@[0] == '.');
        }
        if dots {
            assert(n@ =~= seq!['.', '.']);
        } else if n@ == seq!['.', '.'] {
            assert(n@.len() == 2 && n@[0] == '.' && n@[1] == '.');
        }
    }
    x.len() > 0 && !dot && !dots
}

proof fn run_end_local(p: Seq<char>, q: Seq<char>, i: int, f: spec_fn(char) -> bool)
    requires
        0 <= i <= p.len(),
        p.len() <= q.len(),
        q.subrange(0, p.len() as int) == p,
        p.len() == q.len() || !f(q[p.len() as int]),
    ensures
        text::run_end(q, i, f) == text::run_end(p, i, f),
{
    let e = text::run_end(p, i, f);
    text::run_end_bounds(p, i, f);
    assert forall|j: int| i <= j < e implies f(#[trigger] q[j]) by {
        assert(q[j] == q.subrange(0, p.len() as int)[j]);
        assert(f(p[j]));
    }
    if e < q.len() {
        if e < p.len() {
            assert(q[e] == q.subrange(0, p.len() as int)[e]);
        }
    }
    text::run_end_unique(q, i, e, f);
}

proof fn parts_of_child(p: Seq<char>, name: Seq<char>, i: int)
    requires
        0 <= i <= p.len(),
        is_name(name),
    ensures
        parts_from(p + seq!['/'] + name, i) == parts_from(p, i).push(
            (p.len() as int + 1, p.len() as int + 1 + name.len() as int),
        ),
    decreases p.len() - i,
{
    let q = p + seq!['/'] + name;
    let at = p.len() as int + 1;
    let slash = text::only('/');
    let b = text::run_end(p, i, slash);
    text::run_end_bounds(p, i, slash);
    assert(q.subrange(0, p.len() as int) =~= p);
    assert forall|j: int| 0 <= j < p.len() implies q[j] == p[j] by {}
    assert(q[p.len() as int] == '/');
    if b == p.len() {
        // Only slashes are left of `p`: the next part of `q` is the name.
        assert forall|j: int| i <= j < at implies slash(#[trigger] q[j]) by {
            if j < p.len() {
                assert(slash(p[j]));
            }
        }
        assert(q[at] == name[0]);
        text::run_end_unique(q, i, at, slash);
        assert forall|j: int| at <= j < q.len() implies in_name()(#[trigger] q[j]) by {
            assert(q[j] == name[j - p.len() - 1]);
        }
        text::run_end_unique(q, at, q.len() as int, in_name());
        assert(parts_from(q, q.len() as int) =~= Seq::empty());
        if name.len() == 1 && q[at] == '.' {
            assert(name =~= seq!['.']);
        }
        assert(is_part(q, at, q.len() as int));
        assert(parts_from(q, i) =~= seq![(at, q.len() as int)]);
        assert(parts_from(p, i) =~= Seq::empty());
        assert(parts_from(p, i).push((at, q.len() as int)) =~= parts_from(q, i));
    } else {
        let e = text::run_end(p, b, in_name());
        text::run_end_bounds(p, b, in_name());
        assert forall|j: int| i <= j < b implies slash(#[trigger] q[j]) by {
            assert(slash(p[j]));
        }
        assert(!slash(q[b]));
        text::run_end_unique(q, i, b, slash);
        run_end_local(p, q, b, in_name());
        parts_of_child(p, name, e);
        assert(q[b] == p[b]);
        if is_part(p, b, e) {
            assert(seq![(b, e)] + parts_from(p, e).push((at, q.len() as int)) =~= (seq![
                (b, e),
            ] + parts_from(p, e)).push((at, q.len() as int)));
        }
    }
}

/// The worktrees of a repository all have it as their root, and so has the
/// directory that holds them: for a repository path that does not itself
/// lie in such a directory.
pub proof fn worktrees_share_their_root(repo: Seq<char>, marker: Seq<char>, slug: Seq<char>)
    requires
        is_name(marker),
        is_name(slug),
        slug != marker,
        parts(repo).len() > 0,
        parts(repo).last().1 == repo.len(),
        forall|k: int| 0 <= k < parts(repo).len() ==> part(repo, k) != marker,
    ensures
        root_of(repo, marker) == repo,
        root_of(repo + seq!['/'] + marker, marker) == repo,
        root_of(repo + seq!['/'] + marker + seq!['/'] + slug, marker) == repo,
{
    let n = parts(repo).len() as int;
    let dir = repo + seq!['/'] + marker;
    let tree = dir + seq!['/'] + slug;
    parts_of_child(repo, marker, 0);
    parts_of_child(dir, slug, 0);
    parts_inside(repo, 0);
    no_marker(repo, marker, n);
    assert(parts(dir)[n] == (repo.len() as int + 1, repo.len() as int + 1 + marker.len() as int));
    assert(part(dir, n) =~= marker);
    assert(parts(dir)[n - 1] == parts(repo)[n - 1]);
    assert(upto(dir, n) =~= repo);
    assert(part(tree, n + 1) =~= slug);
    assert(part(tree, n) =~= marker);
    assert(parts(tree)[n - 1] == parts(repo)[n - 1]);
    assert(upto(tree, n) =~= repo);
    assert(root_before(tree, marker, n + 2) == root_before(tree, marker, n + 1));
}

proof fn no_marker(p: Seq<char>, marker: Seq<char>, k: int)
    requires
        0 <= k <= parts(p).len(),
        forall|k: int| 0 <= k < parts(p).len() ==> part(p, k) != marker,
    ensures
        root_before(p, marker, k) == p,
    decreases k,
{
    if k > 0 {
        no_marker(p, marker, k - 1);
    }
}

/// `q` goes on behind `p` with a new part.
pub open spec fn goes_on(p: Seq<char>, q: Seq<char>) -> bool {
    &&& 0 < p.len() <= q.len()
    &&& q.subrange(0, p.len() as int) == p
    &&& p.last() == '/' || q.len() == p.len() || q[p.len() as int] == '/'
}

proof fn parts_go_on(p: Seq<char>, q: Seq<char>, i: int)
    requires
        goes_on(p, q),
        0 <= i <= p.len(),
    ensures
        parts_from(q, i) == parts_from(p, i) + parts_from(q, p.len() as int),
    decreases p.len() - i,
{
    let n = p.len() as int;
    let slash = text::only('/');
    let b = text::run_end(p, i, slash);
    text::run_end_bounds(p, i, slash);
    assert forall|j: int| 0 <= j < n implies q[j] == p[j] by {
        assert(q[j] == q.subrange(0, n)[j]);
    }
    if i == n {
        assert(parts_from(p, i) =~= Seq::empty());
        assert(parts_from(p, i) + parts_from(q, n) =~= parts_from(q, n));
    } else if b >= n {
        assert(parts_from(p, i) =~= Seq::empty());
        skip_slashes(q, i, n);
        assert(parts_from(p, i) + parts_from(q, n) =~= parts_from(q, n));
    } else {
        assert forall|j: int| i <= j < b implies slash(#[trigger] q[j]) by {
            assert(slash(p[j]));
        }
        text::run_end_unique(q, i, b, slash);
        let e = text::run_end(p, b, in_name());
        text::run_end_bounds(p, b, in_name());
        assert(p.last() == p[n - 1]);
        assert forall|j: int| b <= j < e implies in_name()(#[trigger] q[j]) by {
            assert(in_name()(p[j]));
        }
        if e == n {
            assert(in_name()(p[n - 1]));
        }
        text::run_end_unique(q, b, e, in_name());
        parts_go_on(p, q, e);
        if is_part(p, b, e) {
            assert(seq![(b, e)] + (parts_from(p, e) + parts_from(q, n)) =~= (seq![(b, e)]
                + parts_from(p, e)) + parts_from(q, n));
        }
    }
}

proof fn skip_slashes(q: Seq<char>, i: int, n: int)
    requires
        0 <= i <= n <= q.len(),
        forall|j: int| i <= j < n ==> #[trigger] q[j] == '/',
    ensures
        parts_from(q, i) == parts_from(q, n),
{
    let slash = text::only('/');
    if i < n {
        let b = text::run_end(q, n, slash);
        text::run_end_bounds(q, n, slash);
        text::run_end_unique(q, i, b, slash);
        if n >= q.len() {
            assert(parts_from(q, i) =~= Seq::empty());
            assert(parts_from(q, n) =~= Seq::empty());
        }
    }
}

proof fn parts_are_the_tail(q: Seq<char>, rel: Seq<char>, off: int, i: int, k: int)
    requires
        0 < off,
        off + rel.len() == q.len(),
        q.subrange(off, q.len() as int) == rel,
        0 <= i <= rel.len(),
        0 <= k < parts_from(q, off + i).len(),
    ensures
        exists|j: int|
            0 <= j < parts_from(rel, i).len() && #[trigger] parts_from(rel, i)[j] == (
                parts_from(q, off + i)[k].0 - off,
                parts_from(q, off + i)[k].1 - off,
            ),
    decreases rel.len() - i,
{
    let slash = text::only('/');
    assert forall|j: int| 0 <= j < rel.len() implies rel[j] == q[off + j] by {
        assert(rel[j] == q.subrange(off, q.len() as int)[j]);
    }
    let b = text::run_end(rel, i, slash);
    text::run_end_bounds(rel, i, slash);
    assert forall|j: int| off + i <= j < off + b implies slash(#[trigger] q[j]) by {
        assert(slash(rel[j - off]));
    }
    if b < rel.len() {
        assert(!slash(rel[b]));
    }
    text::run_end_unique(q, off + i, off + b, slash);
    if b < rel.len() {
        let e = text::run_end(rel, b, in_name());
        text::run_end_bounds(rel, b, in_name());
        assert forall|j: int| off + b <= j < off + e implies in_name()(#[trigger] q[j]) by {
            assert(in_name()(rel[j - off]));
        }
        if e < rel.len() {
            assert(!in_name()(rel[e]));
        }
        text::run_end_unique(q, off + b, off + e, in_name());
        let mine = parts_from(q, off + i);
        let rest = parts_from(q, off + e);
        let theirs = parts_from(rel, i);
        let others = parts_from(rel, e);
        if is_part(q, off + b, off + e) {
            assert(is_part(rel, b, e));
            assert(mine =~= seq![(off + b, off + e)] + rest);
            assert(theirs =~= seq![(b, e)] + others);
            if k == 0 {
                assert(theirs[0] == (b, e));
            } else {
                parts_are_the_tail(q, rel, off, e, k - 1);
                let j = choose|j: int|
                    0 <= j < others.len() && #[trigger] others[j] == (
                        rest[k - 1].0 - off,
                        rest[k - 1].1 - off,
                    );
                assert(theirs[j + 1] == others[j]);
            }
        } else {
            assert(mine == rest);
            parts_are_the_tail(q, rel, off, e, k);
            let j = choose|j: int|
                0 <= j < others.len() && #[trigger] others[j] == (
                    rest[k].0 - off,
                    rest[k].1 - off,
                );
            if is_part(rel, b, e) {
                assert(theirs =~= seq![(b, e)] + others);
                assert(theirs[j + 1] == others[j]);
            } else {
                assert(theirs == others);
            }
        }
    }
}

/// A path below a directory that neither begins at the root nor has a part
/// that leads up stays below that directory: the directory's parts come
/// first, and no part behind them leads up.
pub proof fn joining_stays_below(base: Seq<char>, rel: Seq<char>)
    requires
        base.len() > 0,
        !is_absolute(rel),
        !climbs(rel),
    ensures
        lies_below(join(base, rel), base),
        forall|k: int|
            parts(base).len() <= k < parts(join(base, rel)).len() ==> #[trigger] part(
                join(base, rel),
                k,
            ) != seq!['.', '.'],
{
    let q = join(base, rel);
    let n = base.len() as int;
    let off = if base.last() == '/' {
        n
    } else {
        n + 1
    };
    assert(q.subrange(0, n) =~= base);
    assert(q.subrange(off, q.len() as int) =~= rel);
    parts_go_on(base, q, 0);
    let tail = parts_from(q, n);
    if off == n + 1 {
        assert(q[n] == '/');
        skip_slashes(q, n, off);
    }
    assert(tail == parts_from(q, off));
    parts_inside(base, 0);
    parts_inside(q, 0);
    assert(parts(q) =~= parts(base) + tail);
    assert forall|k: int| 0 <= k < parts(base).len() implies #[trigger] part(base, k) == part(
        q,
        k,
    ) by {
        assert(parts(q)[k] == parts(base)[k]);
        let (b, e) = parts(base)[k];
        assert(0 <= b < e <= n);
        assert forall|j: int| b <= j < e implies base[j] == q[j] by {
            assert(q.subrange(0, n)[j] == q[j]);
        }
        assert(part(base, k) =~= part(q, k));
    }
    assert(q[0] == q.subrange(0, n)[0]);
    assert forall|k: int| parts(base).len() <= k < parts(q).len() implies #[trigger] part(q, k)
        != seq!['.', '.'] by {
        let t = k - parts(base).len();
        assert(parts(q)[k] == tail[t]);
        parts_are_the_tail(q, rel, off, 0, t);
        let j = choose|j: int|
            0 <= j < parts_from(rel, 0).len() && #[trigger] parts_from(rel, 0)[j] == (
                tail[t].0 - off,
                tail[t].1 - off,
            );
        parts_inside(rel, 0);
        let (b, e) = parts(rel)[j];
        assert(0 <= b < e <= rel.len());
        assert forall|x: int| b <= x < e implies rel[x] == q[off + x] by {
            assert(rel[x] == q.subrange(off, q.len() as int)[x]);
        }
        assert(part(rel, j) =~= part(q, k));
    }
}

/// A name below a directory is one part more: the parts before it are the
/// directory's, the last one is the name, and seen from the directory the path
/// is the name.
pub proof fn child_is_one_part_more(dir: Seq<char>, name: Seq<char>)
    requires
        dir.len() > 0,
        is_name(name),
    ensures
        ({
            let p = dir + seq!['/'] + name;
            let n = parts(dir).len() as int;
            &&& parts(p).len() == n + 1
            &&& part(p, n) == name
            &&& forall|k: int| 0 <= k < n ==> #[trigger] part(p, k) == part(dir, k)
            &&& name != seq!['.', '.'] ==> name_of(p) == Some(name)
            &&& name == seq!['.', '.'] ==> name_of(p) is None
            &&& is_absolute(p) == is_absolute(dir)
            &&& n > 0 || is_absolute(dir) ==> below(p, dir) == Some(name)
        }),
{
    let p = dir + seq!['/'] + name;
    let n = parts(dir).len() as int;
    parts_of_child(dir, name, 0);
    parts_inside(dir, 0);
    assert(parts(p)[n] == (dir.len() as int + 1, dir.len() as int + 1 + name.len() as int));
    assert(part(p, n) =~= name);
    assert(p[0] == dir[0]);
    assert forall|k: int| 0 <= k < n implies #[trigger] part(p, k) == part(dir, k) by {
        assert(parts(p)[k] == parts(dir)[k]);
        assert(part(p, k) =~= part(dir, k));
    }
    assert(lies_below(p, dir));
}

/// Joining goes on behind the first path with one slash between, unless the
/// second starts at the root: then it stands alone.
pub proof fn joining_puts_one_slash(base: Seq<char>, rel: Seq<char>)
    ensures
        rel.len() > 0 && rel[0] == '/' ==> join(base, rel) == rel,
        (rel.len() == 0 || rel[0] != '/') && base.len() > 0 && base.last() != '/' ==> join(
            base,
            rel,
        ) == base + seq!['/'] + rel,
        (rel.len() == 0 || rel[0] != '/') && (base.len() == 0 || base.last() == '/') ==> join(
            base,
            rel,
        ) == base + rel,
{
}

/// A path that does not begin with the parts of another is not below it, and
/// every path is below itself.
pub proof fn only_what_begins_alike_is_below(p: Seq<char>, base: Seq<char>, k: int)
    ensures
        0 <= k < parts(base).len() && k < parts(p).len() && part(base, k) != part(p, k) ==> below(
            p,
            base,
        ) is None,
        parts(p).len() < parts(base).len() ==> below(p, base) is None,
        is_absolute(base) && !is_absolute(p) ==> below(p, base) is None,
        parts(p).len() > 0 ==> below(p, p) == Some(Seq::<char>::empty()),
{
}

/// A dot stands for the directory itself: behind a directory it is no part,
/// and only at the very beginning of a path it is one.
pub proof fn dots_count_only_in_front(dir: Seq<char>, rest: Seq<char>)
    requires
        dir.len() > 0,
        rest.len() > 0 ==> rest[0] == '/',
    ensures
        parts(dir + seq!['/', '.']) == parts(dir),
        parts(seq!['.'] + rest).len() > 0,
        parts(seq!['.'] + rest)[0] == (0int, 1int),
{
    let q = dir + seq!['/', '.'];
    let n = dir.len() as int;
    let slash = text::only('/');
    assert(q.subrange(0, n) =~= dir);
    assert(q[n] == '/' && q[n + 1] == '.');
    parts_go_on(dir, q, 0);
    text::run_end_unique(q, n, n + 1, slash);
    text::run_end_unique(q, n + 1, n + 2, in_name());
    assert(parts_from(q, n + 2) =~= Seq::empty());
    assert(parts_from(q, n) =~= Seq::empty());
    assert(parts(q) =~= parts(dir));
    let p = seq!['.'] + rest;
    assert(p[0] == '.');
    if rest.len() > 0 {
        assert(p[1] == rest[0]);
    }
    text::run_end_unique(p, 0, 0, slash);
    text::run_end_unique(p, 0, 1, in_name());
    assert(parts(p) == seq![(0int, 1int)] + parts_from(p, 1));
}

} // verus!
