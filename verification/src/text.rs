//! Text as sequences of characters: scanning, splitting, trimming, decimal
//! numbers and the order of strings.
use vstd::prelude::*;
use vstd::string::*;

verus! {

/// `String::push` appends the given character to the end of the string.
pub assume_specification[ String::push ](s: &mut String, c: char)
    ensures
        final(s)@ == old(s)@.push(c),
;

/// The contents of a list of strings.
pub open spec fn texts(v: Seq<String>) -> Seq<Seq<char>> {
    v.map_values(|s: String| s@)
}

/// Appending a string to a list appends its contents.
pub broadcast proof fn texts_push(v: Seq<String>, s: String)
    ensures
        #[trigger] texts(v.push(s)) == texts(v).push(s@),
{
    assert(texts(v.push(s)) =~= texts(v).push(s@));
}

/// All characters of `s`, in order.
pub fn chars_of(s: &str) -> (v: Vec<char>)
    ensures
        v@ == s@,
{
    let mut v: Vec<char> = Vec::new();
    for c in it: s.chars()
        invariant
            v@ == it.seq().take(it.index() as int),
            it.seq() == s@,
    {
        v.push(c);
    }
    v
}

/// The characters of `v` from `from` up to `to`, as a string.
pub fn slice_text(v: &Vec<char>, from: usize, to: usize) -> (s: String)
    requires
        from <= to <= v@.len(),
    ensures
        s@ == v@.subrange(from as int, to as int),
{
    let mut s = String::new();
    let mut i: usize = from;
    while i < to
        invariant
            from <= i <= to <= v@.len(),
            s@ == v@.subrange(from as int, i as int),
        decreases to - i,
    {
        s.push(v[i]);
        i += 1;
    }
    s
}

/// All of `v` as a string.
pub fn text_of(v: &Vec<char>) -> (s: String)
    ensures
        s@ == v@,
{
    let s = slice_text(v, 0, v.len());
    assert(v@.subrange(0, v@.len() as int) =~= v@);
    s
}

/// Whether two strings hold the same characters.
pub fn same(a: &str, b: &str) -> (r: bool)
    ensures
        r == (a@ == b@),
{
    let x = chars_of(a);
    let y = chars_of(b);
    if x.len() != y.len() {
        return false;
    }
    let mut i: usize = 0;
    while i < x.len()
        invariant
            i <= x@.len(),
            x@.len() == y@.len(),
            x@ == a@,
            y@ == b@,
            forall|j: int| 0 <= j < i ==> x@[j] == y@[j],
        decreases x@.len() - i,
    {
        if x[i] != y[i] {
            return false;
        }
        i += 1;
    }
    assert(a@ =~= b@);
    true
}

/// Whether two optional strings are both absent or hold the same characters.
pub fn same_opt(a: &Option<String>, b: &Option<String>) -> (r: bool)
    ensures
        r == (opt_text(*a) == opt_text(*b)),
{
    match (a, b) {
        (Some(x), Some(y)) => same(x, y),
        (None, None) => true,
        _ => false,
    }
}

/// The contents of an optional string.
pub open spec fn opt_text(s: Option<String>) -> Option<Seq<char>> {
    match s {
        Some(t) => Some(t@),
        None => None,
    }
}

/// A copy of an optional string.
pub fn copy_opt(s: &Option<String>) -> (r: Option<String>)
    ensures
        opt_text(r) == opt_text(*s),
{
    match s {
        Some(t) => Some(t.clone()),
        None => None,
    }
}

/// A copy of a list of strings.
pub fn copy_all(v: &Vec<String>) -> (r: Vec<String>)
    ensures
        texts(r@) == texts(v@),
{
    broadcast use texts_push;
    let mut r: Vec<String> = Vec::new();
    let mut i: usize = 0;
    while i < v.len()
        invariant
            i <= v@.len(),
            texts(r@) == texts(v@.take(i as int)),
        decreases v@.len() - i,
    {
        let ghost was = r@;
        r.push(v[i].clone());
        assert(v@.take(i + 1) =~= v@.take(i as int).push(v@[i as int]));
        assert(texts(r@) == texts(was).push(v@[i as int]@));
        i += 1;
    }
    assert(v@.take(v@.len() as int) =~= v@);
    r
}

/// Whether two lists of strings have the same contents.
pub fn same_all(a: &Vec<String>, b: &Vec<String>) -> (r: bool)
    ensures
        r == (texts(a@) == texts(b@)),
{
    if a.len() != b.len() {
        assert(texts(a@).len() != texts(b@).len());
        return false;
    }
    let mut i: usize = 0;
    while i < a.len()
        invariant
            i <= a@.len(),
            a@.len() == b@.len(),
            forall|j: int| 0 <= j < i ==> (#[trigger] a@[j])@ == b@[j]@,
        decreases a@.len() - i,
    {
        if !same(&a[i], &b[i]) {
            assert(texts(a@)[i as int] != texts(b@)[i as int]);
            return false;
        }
        i += 1;
    }
    assert(texts(a@) =~= texts(b@)) by {
        assert forall|j: int| 0 <= j < a@.len() implies texts(a@)[j] == texts(b@)[j] by {
            assert(a@[j]@ == b@[j]@);
        }
    }
    true
}

/// `s` begins with `prefix`.
pub fn starts_with(s: &str, prefix: &str) -> (r: bool)
    ensures
        r == prefix@.is_prefix_of(s@),
{
    let x = chars_of(s);
    let p = chars_of(prefix);
    if p.len() > x.len() {
        return false;
    }
    occurs_here(&x, 0, &p)
}

/// `needle` stands in `hay` at position `at`.
pub open spec fn occurs_at(hay: Seq<char>, needle: Seq<char>, at: int) -> bool {
    0 <= at && at + needle.len() <= hay.len() && hay.subrange(at, at + needle.len()) == needle
}

/// Somewhere in `hay` stands `needle`.
pub open spec fn occurs(hay: Seq<char>, needle: Seq<char>) -> bool {
    exists|at: int| occurs_at(hay, needle, at)
}

fn occurs_here(hay: &Vec<char>, at: usize, needle: &Vec<char>) -> (r: bool)
    requires
        at + needle@.len() <= hay@.len(),
    ensures
        r == occurs_at(hay@, needle@, at as int),
        at == 0 ==> r == needle@.is_prefix_of(hay@),
{
    let total: usize = hay.len();
    let mut i: usize = 0;
    while i < needle.len()
        invariant
            i <= needle@.len(),
            at + needle@.len() <= total,
            total == hay@.len(),
            forall|j: int| 0 <= j < i ==> hay@[at + j] == needle@[j],
        decreases needle@.len() - i,
    {
        if hay[at + i] != needle[i] {
            assert(hay@.subrange(at as int, at + needle@.len())[i as int] != needle@[i as int]);
            assert(at == 0 ==> hay@.subrange(0, needle@.len() as int)[i as int] != needle@[i as int]);
            return false;
        }
        i += 1;
    }
    assert(hay@.subrange(at as int, at + needle@.len()) =~= needle@);
    true
}

/// Whether `needle` stands anywhere in `hay`.
pub fn contains(hay: &str, needle: &str) -> (r: bool)
    ensures
        r == occurs(hay@, needle@),
{
    let h = chars_of(hay);
    let n = chars_of(needle);
    if n.len() > h.len() {
        return false;
    }
    let last: usize = h.len() - n.len();
    let mut at: usize = 0;
    while at <= last
        invariant
            h@ == hay@,
            n@ == needle@,
            n@.len() <= h@.len(),
            last == h@.len() - n@.len(),
            at <= last + 1,
            forall|j: int| 0 <= j < at ==> !occurs_at(hay@, needle@, j),
        decreases last + 1 - at,
    {
        if occurs_here(&h, at, &n) {
            return true;
        }
        if at == last {
            return false;
        }
        at += 1;
    }
    false
}

/// Characters with the Unicode property `White_Space`.
pub open spec fn is_space(c: char) -> bool {
    let n = c as u32;
    ||| 0x09 <= n <= 0x0d
    ||| n == 0x20
    ||| n == 0x85
    ||| n == 0xa0
    ||| n == 0x1680
    ||| 0x2000 <= n <= 0x200a
    ||| n == 0x2028
    ||| n == 0x2029
    ||| n == 0x202f
    ||| n == 0x205f
    ||| n == 0x3000
}

/// Whether `c` is white space.
pub fn space(c: char) -> (r: bool)
    ensures
        r == is_space(c),
{
    let n: u32 = c as u32;
    (0x09 <= n && n <= 0x0d) || n == 0x20 || n == 0x85 || n == 0xa0 || n == 0x1680 || (0x2000 <= n
        && n <= 0x200a) || n == 0x2028 || n == 0x2029 || n == 0x202f || n == 0x205f || n == 0x3000
}

/// The first position at or after `i` whose character fails `p`, or the end.
pub open spec fn run_end(s: Seq<char>, i: int, p: spec_fn(char) -> bool) -> int
    decreases s.len() - i,
{
    if i < 0 || i >= s.len() || !p(s[i]) {
        i
    } else {
        run_end(s, i + 1, p)
    }
}

/// A run ends where it says it does, and everything before it satisfies `p`.
pub proof fn run_end_bounds(s: Seq<char>, i: int, p: spec_fn(char) -> bool)
    requires
        0 <= i <= s.len(),
    ensures
        i <= run_end(s, i, p) <= s.len(),
        forall|j: int| i <= j < run_end(s, i, p) ==> p(#[trigger] s[j]),
        run_end(s, i, p) < s.len() ==> !p(s[run_end(s, i, p)]),
    decreases s.len() - i,
{
    if i < s.len() && p(s[i]) {
        run_end_bounds(s, i + 1, p);
    }
}

/// `run_end` is the only position with the bounds it has.
pub proof fn run_end_unique(s: Seq<char>, i: int, e: int, p: spec_fn(char) -> bool)
    requires
        0 <= i <= e <= s.len(),
        forall|j: int| i <= j < e ==> p(#[trigger] s[j]),
        e < s.len() ==> !p(s[e]),
    ensures
        run_end(s, i, p) == e,
    decreases e - i,
{
    if i < e {
        assert(p(s[i]));
        run_end_unique(s, i + 1, e, p);
    }
}

/// Everything but a line feed.
pub open spec fn in_line() -> spec_fn(char) -> bool {
    |c: char| c != '\n'
}

/// White space.
pub open spec fn blank() -> spec_fn(char) -> bool {
    |c: char| is_space(c)
}

/// Everything but white space.
pub open spec fn in_word() -> spec_fn(char) -> bool {
    |c: char| !is_space(c)
}

/// The text of the line that begins at `i` and whose line feed, if it has one,
/// stands at `e`: a carriage return right before a line feed belongs to it.
pub open spec fn line_text(s: Seq<char>, i: int, e: int) -> Seq<char> {
    if e < s.len() && e > i && s[e - 1] == '\r' {
        s.subrange(i, e - 1)
    } else {
        s.subrange(i, e)
    }
}

/// The lines of `s` from position `i` on. A line feed ends a line; nothing
/// after the last line feed is no line.
pub open spec fn lines_from(s: Seq<char>, i: int) -> Seq<Seq<char>>
    decreases s.len() - i,
{
    if i < 0 || i >= s.len() {
        Seq::empty()
    } else {
        proof {
            run_end_bounds(s, i, in_line());
        }
        let e = run_end(s, i, in_line());
        if e >= s.len() {
            seq![s.subrange(i, s.len() as int)]
        } else {
            seq![line_text(s, i, e)] + lines_from(s, e + 1)
        }
    }
}

/// The lines of `s`.
pub open spec fn lines(s: Seq<char>) -> Seq<Seq<char>> {
    lines_from(s, 0)
}

/// The lines of `s`, without their line ends.
pub fn split_lines(s: &str) -> (out: Vec<String>)
    ensures
        texts(out@) == lines(s@),
{
    broadcast use texts_push;
    let x = chars_of(s);
    let mut out: Vec<String> = Vec::new();
    let mut i: usize = 0;
    while i < x.len()
        invariant
            i <= x@.len(),
            x@ == s@,
            texts(out@) + lines_from(x@, i as int) == lines(x@),
        decreases x@.len() - i,
    {
        let mut e: usize = i;
        while e < x.len() && x[e] != '\n'
            invariant
                i <= e <= x@.len(),
                forall|j: int| i <= j < e ==> #[trigger] x@[j] != '\n',
            decreases x@.len() - e,
        {
            e += 1;
        }
        proof {
            run_end_unique(x@, i as int, e as int, in_line());
        }
        let mut t: usize = e;
        if e < x.len() && e > i && x[e - 1] == '\r' {
            t = e - 1;
        }
        let ghost before = texts(out@);
        out.push(slice_text(&x, i, t));
        assert(texts(out@) =~= before.push(line_text(x@, i as int, e as int)));
        if e < x.len() {
            assert(before + (seq![line_text(x@, i as int, e as int)] + lines_from(x@, e + 1))
                =~= texts(out@) + lines_from(x@, e + 1));
            i = e + 1;
        } else {
            assert(before + seq![line_text(x@, i as int, e as int)] =~= texts(out@) + lines_from(
                x@,
                e as int,
            ));
            i = e;
        }
    }
    assert(texts(out@) + lines_from(x@, i as int) =~= texts(out@));
    out
}

/// The words of `s` from position `i` on: maximal runs without white space.
pub open spec fn words_from(s: Seq<char>, i: int) -> Seq<Seq<char>>
    decreases s.len() - i,
{
    if i < 0 || i >= s.len() {
        Seq::empty()
    } else {
        let b = run_end(s, i, blank());
        let e = run_end(s, b, in_word());
        if b >= s.len() {
            Seq::empty()
        } else {
            proof {
                run_end_bounds(s, i, blank());
                run_end_bounds(s, b, in_word());
            }
            seq![s.subrange(b, e)] + words_from(s, e)
        }
    }
}

/// The words of `s`.
pub open spec fn words(s: Seq<char>) -> Seq<Seq<char>> {
    words_from(s, 0)
}

/// The words of `s`: its maximal runs without white space.
pub fn split_words(s: &str) -> (out: Vec<String>)
    ensures
        texts(out@) == words(s@),
{
    broadcast use texts_push;
    let x = chars_of(s);
    let mut out: Vec<String> = Vec::new();
    let mut i: usize = 0;
    while i < x.len()
        invariant
            i <= x@.len(),
            x@ == s@,
            texts(out@) + words_from(x@, i as int) == words(x@),
        decreases x@.len() - i,
    {
        let mut b: usize = i;
        while b < x.len() && space(x[b])
            invariant
                i <= b <= x@.len(),
                forall|j: int| i <= j < b ==> is_space(#[trigger] x@[j]),
            decreases x@.len() - b,
        {
            b += 1;
        }
        proof {
            run_end_unique(x@, i as int, b as int, blank());
        }
        let mut e: usize = b;
        while e < x.len() && !space(x[e])
            invariant
                b <= e <= x@.len(),
                forall|j: int| b <= j < e ==> !is_space(#[trigger] x@[j]),
            decreases x@.len() - e,
        {
            e += 1;
        }
        proof {
            run_end_unique(x@, b as int, e as int, in_word());
        }
        if b == x.len() {
            assert(texts(out@) + Seq::empty() =~= texts(out@));
            return out;
        }
        let ghost before = texts(out@);
        out.push(slice_text(&x, b, e));
        assert(before + (seq![x@.subrange(b as int, e as int)] + words_from(x@, e as int)) =~= texts(out@)
            + words_from(x@, e as int));
        i = e;
    }
    assert(texts(out@) + words_from(x@, i as int) =~= texts(out@));
    out
}

/// `s` without the characters at its end that satisfy `p`.
pub open spec fn trim_end(s: Seq<char>, p: spec_fn(char) -> bool) -> Seq<char>
    decreases s.len(),
{
    if s.len() > 0 && p(s.last()) {
        trim_end(s.drop_last(), p)
    } else {
        s
    }
}

/// `s` without the characters at its start that satisfy `p`.
pub open spec fn trim_start(s: Seq<char>, p: spec_fn(char) -> bool) -> Seq<char>
    decreases s.len(),
{
    if s.len() > 0 && p(s[0]) {
        trim_start(s.drop_first(), p)
    } else {
        s
    }
}

/// `s` without the characters at either end that satisfy `p`.
pub open spec fn trim(s: Seq<char>, p: spec_fn(char) -> bool) -> Seq<char> {
    trim_end(trim_start(s, p), p)
}

/// `s` without the white space at either end.
pub fn trimmed(s: &str) -> (r: String)
    ensures
        r@ == trim(s@, blank()),
{
    let x = chars_of(s);
    let n: usize = x.len();
    let mut b: usize = 0;
    assert(x@.subrange(0, n as int) =~= s@);
    while b < n && space(x[b])
        invariant
            b <= n == x@.len(),
            trim_start(s@, blank()) == trim_start(x@.subrange(b as int, n as int), blank()),
        decreases n - b,
    {
        assert(x@.subrange(b as int, n as int).drop_first() =~= x@.subrange(b + 1, n as int));
        b += 1;
    }
    assert(trim_start(s@, blank()) == x@.subrange(b as int, n as int));
    let mut e: usize = n;
    while e > b && space(x[e - 1])
        invariant
            b <= e <= n == x@.len(),
            trim(s@, blank()) == trim_end(x@.subrange(b as int, e as int), blank()),
        decreases e,
    {
        assert(x@.subrange(b as int, e as int).drop_last() =~= x@.subrange(b as int, e - 1));
        e -= 1;
    }
    slice_text(&x, b, e)
}

/// Just the character `c`.
pub open spec fn only(c: char) -> spec_fn(char) -> bool {
    |d: char| d == c
}

/// `s` without the characters `c` at either end.
pub fn trimmed_of(s: &str, c: char) -> (r: String)
    ensures
        r@ == trim(s@, only(c)),
{
    let x = chars_of(s);
    let n: usize = x.len();
    let mut b: usize = 0;
    assert(x@.subrange(0, n as int) =~= s@);
    while b < n && x[b] == c
        invariant
            b <= n == x@.len(),
            trim_start(s@, only(c)) == trim_start(x@.subrange(b as int, n as int), only(c)),
        decreases n - b,
    {
        assert(x@.subrange(b as int, n as int).drop_first() =~= x@.subrange(b + 1, n as int));
        b += 1;
    }
    assert(trim_start(s@, only(c)) == x@.subrange(b as int, n as int));
    let mut e: usize = n;
    while e > b && x[e - 1] == c
        invariant
            b <= e <= n == x@.len(),
            trim(s@, only(c)) == trim_end(x@.subrange(b as int, e as int), only(c)),
        decreases e,
    {
        assert(x@.subrange(b as int, e as int).drop_last() =~= x@.subrange(b as int, e - 1));
        e -= 1;
    }
    slice_text(&x, b, e)
}

/// What of `s` stands behind the last place, among the first `n`, at which
/// `pat` occurs; all of `s` where there is none.
pub open spec fn behind_last(s: Seq<char>, pat: Seq<char>, n: int) -> Seq<char>
    decreases n,
{
    if n <= 0 {
        s
    } else if occurs_at(s, pat, n - 1) {
        s.subrange(n - 1 + pat.len(), s.len() as int)
    } else {
        behind_last(s, pat, n - 1)
    }
}

/// What of `s` stands behind the last occurrence of `pat`, or all of it.
pub open spec fn after_last(s: Seq<char>, pat: Seq<char>) -> Seq<char> {
    behind_last(s, pat, s.len() - pat.len() + 1)
}

/// What of `s` stands behind the last occurrence of `pat`, or all of it.
pub fn tail_after(s: &str, pat: &str) -> (r: String)
    ensures
        r@ == after_last(s@, pat@),
{
    let x = chars_of(s);
    let p = chars_of(pat);
    if p.len() > x.len() {
        return text_of(&x);
    }
    let total: usize = x.len();
    let mut at: usize = total - p.len();
    loop
        invariant
            x@ == s@,
            p@ == pat@,
            total == x@.len(),
            at + p@.len() <= total,
            after_last(s@, pat@) == behind_last(s@, pat@, at + 1),
        decreases at,
    {
        if occurs_here(&x, at, &p) {
            return slice_text(&x, at + p.len(), total);
        }
        if at == 0 {
            assert(behind_last(s@, pat@, 0) == s@);
            return text_of(&x);
        }
        at -= 1;
    }
}

/// What of `s` stands before the first `c`, or all of it.
pub open spec fn before_char(s: Seq<char>, c: char) -> Seq<char>
    decreases s.len(),
{
    if s.len() == 0 || s[0] == c {
        Seq::empty()
    } else {
        seq![s[0]] + before_char(s.drop_first(), c)
    }
}

/// What of `s` stands before the first `c`, or all of it.
pub fn head_before(s: &str, c: char) -> (r: String)
    ensures
        r@ == before_char(s@, c),
{
    let x = chars_of(s);
    let mut r = String::new();
    let mut i: usize = 0;
    assert(x@.skip(0) =~= s@);
    while i < x.len() && x[i] != c
        invariant
            i <= x@.len(),
            r@ + before_char(x@.skip(i as int), c) == before_char(s@, c),
        decreases x@.len() - i,
    {
        assert(x@.skip(i as int).drop_first() =~= x@.skip(i + 1));
        let ghost was = r@;
        r.push(x[i]);
        assert(was + (seq![x@[i as int]] + before_char(x@.skip(i + 1), c)) =~= r@ + before_char(
            x@.skip(i + 1),
            c,
        ));
        i += 1;
    }
    assert(r@ + before_char(x@.skip(i as int), c) =~= r@);
    r
}

/// The first `n` characters of a text, or all of it.
pub open spec fn first_chars(s: Seq<char>, n: int) -> Seq<char> {
    if s.len() <= n {
        s
    } else {
        s.take(n)
    }
}

/// The first `n` characters of a text, or all of it.
pub fn take_chars(s: &str, n: usize) -> (r: String)
    ensures
        r@ == first_chars(s@, n as int),
{
    let c = chars_of(s);
    let m: usize = if c.len() <= n {
        c.len()
    } else {
        n
    };
    let r = slice_text(&c, 0, m);
    assert(r@ =~= first_chars(s@, n as int));
    r
}

/// `s` without its first `n` characters.
pub fn skip_chars(s: &str, n: usize) -> (r: String)
    requires
        n <= s@.len(),
    ensures
        r@ == s@.skip(n as int),
{
    let x = chars_of(s);
    let r = slice_text(&x, n, x.len());
    assert(r@ =~= s@.skip(n as int));
    r
}

/// The decimal digit of `d`.
pub open spec fn digit(d: nat) -> char {
    (48 + d) as char
}

/// `n` in decimal.
pub open spec fn dec(n: nat) -> Seq<char>
    decreases n,
{
    if n < 10 {
        seq![digit(n)]
    } else {
        dec(n / 10).push(digit(n % 10))
    }
}

fn push_digit(s: &mut String, d: u64)
    requires
        d < 10,
    ensures
        final(s)@ == old(s)@.push(digit(d as nat)),
{
    let b: u8 = 48u8 + d as u8;
    s.push(b as char);
}

/// `n` in decimal.
pub fn decimal(n: u64) -> (s: String)
    ensures
        s@ == dec(n as nat),
    decreases n,
{
    if n < 10 {
        let mut s = String::new();
        push_digit(&mut s, n);
        assert(s@ =~= seq![digit(n as nat)]);
        s
    } else {
        let mut s = decimal(n / 10);
        push_digit(&mut s, n % 10);
        s
    }
}

/// Different numbers have different decimal texts.
pub proof fn dec_injective(a: nat, b: nat)
    requires
        dec(a) == dec(b),
    ensures
        a == b,
    decreases a + b,
{
    dec_not_empty(a / 10);
    dec_not_empty(b / 10);
    let x = dec(a);
    let y = dec(b);
    if a < 10 {
        assert(x[0] == digit(a));
        if b >= 10 {
            assert(y.len() > 1);
        } else {
            assert(y[0] == digit(b));
        }
    } else if b < 10 {
        assert(x.len() > 1);
    } else {
        assert(x.drop_last() =~= dec(a / 10));
        assert(y.drop_last() =~= dec(b / 10));
        assert(x.last() == digit(a % 10));
        assert(y.last() == digit(b % 10));
        dec_injective(a / 10, b / 10);
    }
}

proof fn dec_not_empty(n: nat)
    ensures
        dec(n).len() > 0,
    decreases n,
{
    if n >= 10 {
        dec_not_empty(n / 10);
    }
}

/// `c` with a basic Latin capital made small.
pub open spec fn small(c: char) -> char {
    if 'A' <= c <= 'Z' {
        (c as u32 + 32) as char
    } else {
        c
    }
}

/// `c` with a basic Latin capital made small.
pub fn small_char(c: char) -> (r: char)
    ensures
        r == small(c),
{
    if c >= 'A' && c <= 'Z' {
        let b: u8 = c as u8 + 32;
        b as char
    } else {
        c
    }
}

/// A text with its basic Latin capitals made small.
pub open spec fn small_all(s: Seq<char>) -> Seq<char> {
    s.map_values(|c: char| small(c))
}

/// Whether two texts differ in basic Latin capitals at most.
pub fn same_but_case(a: &str, b: &str) -> (r: bool)
    ensures
        r == (small_all(a@) == small_all(b@)),
{
    let x = chars_of(a);
    let y = chars_of(b);
    if x.len() != y.len() {
        assert(small_all(a@).len() != small_all(b@).len());
        return false;
    }
    let mut i: usize = 0;
    while i < x.len()
        invariant
            i <= x@.len(),
            x@.len() == y@.len(),
            x@ == a@,
            y@ == b@,
            forall|j: int| 0 <= j < i ==> small(#[trigger] x@[j]) == small(y@[j]),
        decreases x@.len() - i,
    {
        if small_char(x[i]) != small_char(y[i]) {
            assert(small_all(a@)[i as int] != small_all(b@)[i as int]);
            return false;
        }
        i += 1;
    }
    assert(small_all(a@) =~= small_all(b@));
    true
}

/// The first position at or after `i` at which `pat` stands in `s`.
pub open spec fn find_from(s: Seq<char>, pat: Seq<char>, i: int) -> Option<int>
    decreases s.len() - i + 1,
{
    if i < 0 || i + pat.len() > s.len() {
        None
    } else if occurs_at(s, pat, i) {
        Some(i)
    } else {
        find_from(s, pat, i + 1)
    }
}

/// What stands before and behind the first `pat` in `s`.
pub open spec fn cut(s: Seq<char>, pat: Seq<char>) -> Option<(Seq<char>, Seq<char>)> {
    match find_from(s, pat, 0) {
        Some(i) => Some((s.take(i), s.skip(i + pat.len()))),
        None => None,
    }
}

/// What stands before and behind the first `pat` in `s`; `None` where it does
/// not occur.
pub fn split_once(s: &str, pat: &str) -> (r: Option<(String, String)>)
    requires
        pat@.len() > 0,
    ensures
        match r {
            Some((head, tail)) => cut(s@, pat@) == Some((head@, tail@)),
            None => cut(s@, pat@) is None,
        },
{
    let x = chars_of(s);
    let p = chars_of(pat);
    let n: usize = x.len();
    let m: usize = p.len();
    if m > n {
        return None;
    }
    let mut i: usize = 0;
    while i <= n - m
        invariant
            x@ == s@,
            p@ == pat@,
            n == x@.len(),
            m == p@.len(),
            0 < m <= n,
            i <= n - m + 1,
            find_from(s@, pat@, 0) == find_from(s@, pat@, i as int),
        decreases n - i,
    {
        if occurs_here(&x, i, &p) {
            let head = slice_text(&x, 0, i);
            let tail = slice_text(&x, i + m, n);
            assert(head@ =~= s@.take(i as int));
            assert(tail@ =~= s@.skip(i + m));
            return Some((head, tail));
        }
        i += 1;
    }
    None
}

/// `n` in decimal, at least `width` characters wide.
pub open spec fn dec_padded(n: nat, width: nat) -> Seq<char> {
    if dec(n).len() >= width {
        dec(n)
    } else {
        Seq::new((width - dec(n).len()) as nat, |i: int| ' ') + dec(n)
    }
}

/// `n` in decimal behind blanks, at least `width` characters wide.
pub fn decimal_padded(n: u64, width: usize) -> (s: String)
    ensures
        s@ == dec_padded(n as nat, width as nat),
{
    let d = decimal(n);
    let c = chars_of(d.as_str());
    let mut s = String::new();
    let mut i: usize = c.len();
    while i < width
        invariant
            c@ == dec(n as nat),
            c@.len() <= i,
            i <= width || i == c@.len(),
            s@ == Seq::new((i - c@.len()) as nat, |i: int| ' '),
        decreases width - i,
    {
        let ghost was = s@;
        s.push(' ');
        assert(s@ =~= Seq::new((i + 1 - c@.len()) as nat, |i: int| ' '));
        i += 1;
    }
    s.append(d.as_str());
    assert(s@ =~= dec_padded(n as nat, width as nat));
    s
}

/// `c` is one of the ten decimal digits.
pub open spec fn is_digit(c: char) -> bool {
    '0' <= c <= '9'
}

/// The value of a row of decimal digits.
pub open spec fn digits_value(s: Seq<char>) -> nat
    decreases s.len(),
{
    if s.len() == 0 {
        0
    } else {
        (digits_value(s.drop_last()) * 10 + (s.last() as nat - 48)) as nat
    }
}

/// `s` reads as an unsigned number: an optional `+`, then at least one digit.
pub open spec fn digits_of(s: Seq<char>) -> Seq<char> {
    if s.len() > 0 && s[0] == '+' {
        s.drop_first()
    } else {
        s
    }
}

/// The unsigned number that `s` writes down, if it is one and at most `max`.
pub open spec fn parse_dec(s: Seq<char>, max: nat) -> Option<nat> {
    let d = digits_of(s);
    if d.len() > 0 && (forall|i: int| 0 <= i < d.len() ==> is_digit(#[trigger] d[i]))
        && digits_value(d) <= max {
        Some(digits_value(d))
    } else {
        None
    }
}

proof fn digits_value_grows(s: Seq<char>, k: int)
    requires
        0 <= k <= s.len(),
        forall|i: int| 0 <= i < s.len() ==> is_digit(#[trigger] s[i]),
    ensures
        digits_value(s.take(k)) <= digits_value(s),
    decreases s.len(),
{
    if k < s.len() {
        assert(is_digit(s[s.len() - 1]));
        digits_value_grows(s.drop_last(), k);
        assert(s.drop_last().take(k) =~= s.take(k));
    } else {
        assert(s.take(k) =~= s);
    }
}

/// The number that `s` writes down in decimal, where it is at most `max`.
pub fn parse_number(s: &str, max: u64) -> (r: Option<u64>)
    ensures
        match r {
            Some(n) => parse_dec(s@, max as nat) == Some(n as nat),
            None => parse_dec(s@, max as nat) is None,
        },
{
    let x = chars_of(s);
    let mut b: usize = 0;
    if x.len() > 0 && x[0] == '+' {
        b = 1;
    }
    let ghost d = digits_of(s@);
    assert(d =~= x@.subrange(b as int, x@.len() as int));
    if b == x.len() {
        return None;
    }
    let mut v: u64 = 0;
    let mut i: usize = b;
    while i < x.len()
        invariant
            b <= i <= x@.len(),
            d == x@.subrange(b as int, x@.len() as int),
            d == digits_of(s@),
            v == digits_value(d.take(i - b)),
            v <= max,
            forall|j: int| 0 <= j < i - b ==> is_digit(#[trigger] d[j]),
        decreases x@.len() - i,
    {
        let c = x[i];
        assert(c == d[i - b]);
        if !(c >= '0' && c <= '9') {
            assert(!is_digit(d[i - b]));
            return None;
        }
        assert(d.take(i - b + 1).drop_last() =~= d.take(i - b));
        let k: u64 = c as u64 - 48;
        if k > max || v > (max - k) / 10 {
            proof {
                assert(digits_value(d.take(i - b + 1)) == v * 10 + k);
                assert(digits_value(d.take(i - b + 1)) > max);
                if forall|i: int| 0 <= i < d.len() ==> is_digit(#[trigger] d[i]) {
                    digits_value_grows(d, i - b + 1);
                }
            }
            return None;
        }
        v = v * 10 + k;
        i += 1;
    }
    assert(d.take(d.len() as int) =~= d);
    Some(v)
}

/// The pieces of `parts`, one after the other, with `sep` between them.
pub open spec fn join(parts: Seq<Seq<char>>, sep: Seq<char>) -> Seq<char>
    decreases parts.len(),
{
    if parts.len() == 0 {
        Seq::empty()
    } else if parts.len() == 1 {
        parts[0]
    } else {
        join(parts.drop_last(), sep) + sep + parts.last()
    }
}

/// The strings of `parts`, one after the other, with `sep` between them.
pub fn joined(parts: &Vec<String>, sep: &str) -> (s: String)
    ensures
        s@ == join(texts(parts@), sep@),
{
    let mut s = String::new();
    let mut i: usize = 0;
    assert(texts(parts@.take(0)) =~= Seq::empty());
    while i < parts.len()
        invariant
            i <= parts@.len(),
            s@ == join(texts(parts@.take(i as int)), sep@),
        decreases parts@.len() - i,
    {
        let ghost now = texts(parts@.take(i as int));
        let ghost next = texts(parts@.take(i + 1));
        assert(next =~= now.push(parts@[i as int]@));
        assert(next.drop_last() =~= now);
        if i > 0 {
            s.append(sep);
        }
        s.append(parts[i].as_str());
        assert(s@ =~= join(next, sep@));
        i += 1;
    }
    assert(parts@.take(parts@.len() as int) =~= parts@);
    s
}

/// `a` comes before `b` because they first differ at `k`.
pub open spec fn before_at(a: Seq<char>, b: Seq<char>, k: int) -> bool {
    &&& 0 <= k <= a.len()
    &&& k < b.len()
    &&& forall|j: int| 0 <= j < k ==> a[j] == b[j]
    &&& k == a.len() || a[k] < b[k]
}

/// `a` comes before `b` in the order of strings: at the first difference it
/// has the smaller character, or it has ended.
pub open spec fn before(a: Seq<char>, b: Seq<char>) -> bool {
    exists|k: int| before_at(a, b, k)
}

/// No string comes before itself.
pub proof fn before_irreflexive(a: Seq<char>)
    ensures
        !before(a, a),
{
}

/// The order of strings is transitive.
pub proof fn before_transitive(a: Seq<char>, b: Seq<char>, c: Seq<char>)
    requires
        before(a, b),
        before(b, c),
    ensures
        before(a, c),
{
    let k = choose|k: int| before_at(a, b, k);
    let m = choose|m: int| before_at(b, c, m);
    let w = if k <= m { k } else { m };
    assert(before_at(a, c, w));
}

/// How two values stand to each other in their order.
#[derive(Clone, Copy, Debug, PartialEq, Eq)]
pub enum Rank {
    Less,
    Equal,
    Greater,
}

/// How `a` stands to `b` in the order of strings.
pub fn rank(a: &str, b: &str) -> (r: Rank)
    ensures
        match r {
            Rank::Less => before(a@, b@),
            Rank::Equal => a@ == b@,
            Rank::Greater => before(b@, a@),
        },
{
    let x = chars_of(a);
    let y = chars_of(b);
    let mut i: usize = 0;
    while i < x.len() && i < y.len()
        invariant
            i <= x@.len(),
            i <= y@.len(),
            x@ == a@,
            y@ == b@,
            forall|j: int| 0 <= j < i ==> x@[j] == y@[j],
        decreases x@.len() - i,
    {
        if x[i] < y[i] {
            assert(before_at(a@, b@, i as int));
            return Rank::Less;
        }
        if x[i] > y[i] {
            assert(before_at(b@, a@, i as int));
            return Rank::Greater;
        }
        i += 1;
    }
    if i < y.len() {
        assert(before_at(a@, b@, i as int));
        Rank::Less
    } else if i < x.len() {
        assert(before_at(b@, a@, i as int));
        Rank::Greater
    } else {
        assert(a@ =~= b@);
        Rank::Equal
    }
}

/// A text without a line break is one line, an empty one has none, and what
/// stands before a break, with a carriage return or without, is a line before
/// the lines of the rest.
pub proof fn lines_split_at_breaks(a: Seq<char>, b: Seq<char>)
    requires
        forall|i: int| 0 <= i < a.len() ==> #[trigger] a[i] != '\n',
    ensures
        a.len() > 0 ==> lines(a) == seq![a],
        lines(Seq::empty()).len() == 0,
        a.len() == 0 || a.last() != '\r' ==> lines(a + seq!['\n'] + b) == seq![a] + lines(b),
        lines(a + seq!['\r', '\n'] + b) == seq![a] + lines(b),
{
    if a.len() > 0 {
        run_end_unique(a, 0, a.len() as int, in_line());
        assert(a.subrange(0, a.len() as int) =~= a);
    }
    let n = a.len() as int;
    if a.len() == 0 || a.last() != '\r' {
        let s = a + seq!['\n'] + b;
        assert(s[n] == '\n');
        assert forall|j: int| 0 <= j < n implies in_line()(#[trigger] s[j]) by {
            assert(s[j] == a[j]);
        }
        run_end_unique(s, 0, n, in_line());
        assert(s.subrange(0, n) =~= a);
        if n > 0 {
            assert(s[n - 1] == a.last());
        }
        lines_behind(s, b, n + 1, 0);
        assert(s.skip(n + 1) =~= b);
    }
    let s = a + seq!['\r', '\n'] + b;
    assert(s[n] == '\r' && s[n + 1] == '\n');
    assert forall|j: int| 0 <= j < n + 1 implies in_line()(#[trigger] s[j]) by {
        if j < n {
            assert(s[j] == a[j]);
        }
    }
    run_end_unique(s, 0, n + 1, in_line());
    assert(s.subrange(0, n) =~= a);
    lines_behind(s, b, n + 2, 0);
}

proof fn lines_behind(s: Seq<char>, b: Seq<char>, n: int, i: int)
    requires
        0 <= n,
        0 <= i <= b.len(),
        s.len() == n + b.len(),
        forall|j: int| 0 <= j < b.len() ==> #[trigger] s[n + j] == b[j],
    ensures
        lines_from(s, n + i) == lines_from(b, i),
    decreases b.len() - i,
{
    if i < b.len() {
        run_end_bounds(b, i, in_line());
        let e = run_end(b, i, in_line());
        assert forall|j: int| n + i <= j < n + e implies in_line()(#[trigger] s[j]) by {
            assert(s[n + (j - n)] == b[j - n]);
        }
        if e < b.len() {
            assert(s[n + e] == b[e]);
        }
        run_end_unique(s, n + i, n + e, in_line());
        assert(s.subrange(n + i, n + e) =~= b.subrange(i, e)) by {
            assert forall|k: int| 0 <= k < e - i implies #[trigger] s.subrange(n + i, n + e)[k]
                == b.subrange(i, e)[k] by {
                assert(s[n + (i + k)] == b[i + k]);
            }
        }
        if e < b.len() {
            if e > i {
                assert(s[n + (e - 1)] == b[e - 1]);
                assert(s.subrange(n + i, n + e - 1) =~= b.subrange(i, e - 1)) by {
                    assert forall|k: int| 0 <= k < e - 1 - i implies #[trigger] s.subrange(
                        n + i,
                        n + e - 1,
                    )[k] == b.subrange(i, e - 1)[k] by {
                        assert(s[n + (i + k)] == b[i + k]);
                    }
                }
            }
            lines_behind(s, b, n, e + 1);
        }
    }
}

/// The words of a text: none of a blank one, the word itself of one without
/// blanks, and for a word behind blanks and before one, the word and then the
/// words of the rest.
pub proof fn words_split_at_blanks(pad: Seq<char>, w: Seq<char>, c: char, rest: Seq<char>)
    requires
        forall|i: int| 0 <= i < pad.len() ==> is_space(#[trigger] pad[i]),
        forall|i: int| 0 <= i < w.len() ==> !is_space(#[trigger] w[i]),
        is_space(c),
    ensures
        words(pad).len() == 0,
        w.len() > 0 ==> words(pad + w) == seq![w],
        w.len() > 0 ==> words(pad + w + seq![c] + rest) == seq![w] + words(seq![c] + rest),
        words(seq![c] + rest) == words(rest),
{
    run_end_unique(pad, 0, pad.len() as int, blank());
    let n = pad.len() as int;
    if w.len() > 0 {
        let s = pad + w;
        assert forall|j: int| 0 <= j < n implies blank()(#[trigger] s[j]) by {
            assert(s[j] == pad[j]);
        }
        assert(s[n] == w[0]);
        run_end_unique(s, 0, n, blank());
        assert forall|j: int| n <= j < s.len() implies in_word()(#[trigger] s[j]) by {
            assert(s[j] == w[j - n]);
        }
        run_end_unique(s, n, s.len() as int, in_word());
        assert(s.subrange(n, s.len() as int) =~= w);
        assert(words_from(s, s.len() as int) =~= Seq::empty());
        assert(words(s) =~= seq![w]);
        let tail = seq![c] + rest;
        let t = pad + w + seq![c] + rest;
        let m = n + w.len();
        assert forall|j: int| 0 <= j < n implies blank()(#[trigger] t[j]) by {
            assert(t[j] == pad[j]);
        }
        assert(t[n] == w[0]);
        run_end_unique(t, 0, n, blank());
        assert forall|j: int| n <= j < m implies in_word()(#[trigger] t[j]) by {
            assert(t[j] == w[j - n]);
        }
        assert(t[m] == c);
        run_end_unique(t, n, m, in_word());
        assert(t.subrange(n, m) =~= w);
        words_behind(t, tail, m, 0);
    }
    let s = seq![c] + rest;
    words_behind(s, rest, 1, 0);
    run_end_bounds(rest, 0, blank());
    let b = run_end(rest, 0, blank());
    assert forall|j: int| 0 <= j < b + 1 implies blank()(#[trigger] s[j]) by {
        if j > 0 {
            assert(s[j] == rest[j - 1]);
        }
    }
    if b < rest.len() {
        assert(s[b + 1] == rest[b]);
    }
    run_end_unique(s, 0, b + 1, blank());
    if rest.len() > 0 {
        run_end_unique(s, 1, b + 1, blank());
    }
}

proof fn words_behind(s: Seq<char>, b: Seq<char>, n: int, i: int)
    requires
        0 <= n,
        0 <= i <= b.len(),
        s.len() == n + b.len(),
        forall|j: int| 0 <= j < b.len() ==> #[trigger] s[n + j] == b[j],
    ensures
        words_from(s, n + i) == words_from(b, i),
    decreases b.len() - i,
{
    if i < b.len() {
        run_end_bounds(b, i, blank());
        let x = run_end(b, i, blank());
        assert forall|j: int| n + i <= j < n + x implies blank()(#[trigger] s[j]) by {
            assert(s[n + (j - n)] == b[j - n]);
        }
        if x < b.len() {
            assert(s[n + x] == b[x]);
        }
        run_end_unique(s, n + i, n + x, blank());
        if x < b.len() {
            run_end_bounds(b, x, in_word());
            let e = run_end(b, x, in_word());
            assert forall|j: int| n + x <= j < n + e implies in_word()(#[trigger] s[j]) by {
                assert(s[n + (j - n)] == b[j - n]);
            }
            if e < b.len() {
                assert(s[n + e] == b[e]);
            }
            run_end_unique(s, n + x, n + e, in_word());
            assert(s.subrange(n + x, n + e) =~= b.subrange(x, e)) by {
                assert forall|k: int| 0 <= k < e - x implies #[trigger] s.subrange(
                    n + x,
                    n + e,
                )[k] == b.subrange(x, e)[k] by {
                    assert(s[n + (x + k)] == b[x + k]);
                }
            }
            words_behind(s, b, n, e);
        }
    }
}

/// Trimming takes what may go from both ends and nothing else: what stays
/// neither starts nor ends with such a character.
pub proof fn trim_takes_both_ends(
    a: Seq<char>,
    s: Seq<char>,
    b: Seq<char>,
    p: spec_fn(char) -> bool,
)
    requires
        forall|i: int| 0 <= i < a.len() ==> p(#[trigger] a[i]),
        forall|i: int| 0 <= i < b.len() ==> p(#[trigger] b[i]),
        s.len() > 0 ==> !p(s[0]) && !p(s.last()),
    ensures
        trim(a + s + b, p) == s,
{
    start_goes(a, s + b, p);
    assert(a + s + b =~= a + (s + b));
    if s.len() == 0 {
        assert(s + b =~= b + Seq::empty());
        start_goes(b, Seq::empty(), p);
    } else {
        assert((s + b)[0] == s[0]);
        end_goes(s, b, p);
    }
}

proof fn start_goes(a: Seq<char>, s: Seq<char>, p: spec_fn(char) -> bool)
    requires
        forall|i: int| 0 <= i < a.len() ==> p(#[trigger] a[i]),
    ensures
        trim_start(a + s, p) == trim_start(s, p),
    decreases a.len(),
{
    if a.len() == 0 {
        assert(a + s =~= s);
    } else {
        assert((a + s)[0] == a[0]);
        assert((a + s).drop_first() =~= a.drop_first() + s);
        assert forall|i: int| 0 <= i < a.drop_first().len() implies p(
            #[trigger] a.drop_first()[i],
        ) by {
            assert(a.drop_first()[i] == a[i + 1]);
        }
        start_goes(a.drop_first(), s, p);
    }
}

proof fn end_goes(s: Seq<char>, b: Seq<char>, p: spec_fn(char) -> bool)
    requires
        forall|i: int| 0 <= i < b.len() ==> p(#[trigger] b[i]),
    ensures
        trim_end(s + b, p) == trim_end(s, p),
    decreases b.len(),
{
    if b.len() == 0 {
        assert(s + b =~= s);
    } else {
        assert((s + b).last() == b[b.len() - 1]);
        assert((s + b).drop_last() =~= s + b.drop_last());
        assert forall|i: int| 0 <= i < b.drop_last().len() implies p(
            #[trigger] b.drop_last()[i],
        ) by {
            assert(b.drop_last()[i] == b[i]);
        }
        end_goes(s, b.drop_last(), p);
    }
}

/// What stands before a character is all that comes before its first place,
/// and the whole text where it is not there.
pub proof fn before_its_first_place(a: Seq<char>, c: char, b: Seq<char>)
    requires
        forall|i: int| 0 <= i < a.len() ==> #[trigger] a[i] != c,
    ensures
        before_char(a + seq![c] + b, c) == a,
        before_char(a, c) == a,
    decreases a.len(),
{
    let s = a + seq![c] + b;
    if a.len() == 0 {
        assert(s[0] == c);
    } else {
        let t = a.drop_first();
        assert forall|i: int| 0 <= i < t.len() implies #[trigger] t[i] != c by {
            assert(t[i] == a[i + 1]);
        }
        before_its_first_place(t, c, b);
        assert(s[0] == a[0]);
        assert(s.drop_first() =~= t + seq![c] + b);
        assert(seq![a[0]] + t =~= a);
    }
}

/// What stands behind the last place of a pattern, and the whole text where it
/// occurs nowhere.
pub proof fn after_its_last_place(s: Seq<char>, pat: Seq<char>, at: int)
    requires
        occurs_at(s, pat, at),
        forall|k: int| at < k ==> !#[trigger] occurs_at(s, pat, k),
    ensures
        after_last(s, pat) == s.skip(at + pat.len()),
{
    behind_at(s, pat, at, s.len() - pat.len() + 1);
    assert(s.skip(at + pat.len()) =~= s.subrange(at + pat.len(), s.len() as int));
}

proof fn behind_at(s: Seq<char>, pat: Seq<char>, at: int, n: int)
    requires
        occurs_at(s, pat, at),
        forall|k: int| at < k ==> !#[trigger] occurs_at(s, pat, k),
        at < n,
    ensures
        behind_last(s, pat, n) == s.subrange(at + pat.len(), s.len() as int),
    decreases n,
{
    if n - 1 != at {
        assert(!occurs_at(s, pat, n - 1));
        behind_at(s, pat, at, n - 1);
    }
}

/// Where the pattern occurs nowhere, what stands behind it is all.
pub proof fn after_no_place(s: Seq<char>, pat: Seq<char>)
    requires
        !occurs(s, pat),
    ensures
        after_last(s, pat) == s,
{
    no_last_place(s, pat, s.len() - pat.len() + 1);
}

proof fn no_last_place(s: Seq<char>, pat: Seq<char>, n: int)
    requires
        !occurs(s, pat),
    ensures
        behind_last(s, pat, n) == s,
    decreases n,
{
    if n > 0 {
        no_last_place(s, pat, n - 1);
    }
}

/// The search finds the first place of a pattern, from where it starts, and
/// finds none only where there is none.
pub proof fn search_finds_the_first(s: Seq<char>, pat: Seq<char>, i: int)
    requires
        0 <= i,
    ensures
        match find_from(s, pat, i) {
            Some(at) => {
                &&& i <= at && at + pat.len() <= s.len()
                &&& s.subrange(at, at + pat.len()) == pat
                &&& forall|k: int| i <= k < at ==> !#[trigger] occurs_at(s, pat, k)
            },
            None => forall|k: int| i <= k ==> !#[trigger] occurs_at(s, pat, k),
        },
    decreases s.len() - i + 1,
{
    if i + pat.len() <= s.len() && !occurs_at(s, pat, i) {
        search_finds_the_first(s, pat, i + 1);
    }
}

/// Cutting a text at a pattern gives two parts that make it up again, and the
/// pattern does not occur before the cut.
pub proof fn cut_parts_make_the_text(s: Seq<char>, pat: Seq<char>)
    ensures
        cut(s, pat) is Some <==> exists|at: int| occurs_at(s, pat, at),
        cut(s, pat) matches Some((a, b)) ==> {
            &&& s == a + pat + b
            &&& forall|k: int| 0 <= k < a.len() ==> !#[trigger] occurs_at(s, pat, k)
        },
{
    search_finds_the_first(s, pat, 0);
    if let Some(i) = find_from(s, pat, 0) {
        assert(occurs_at(s, pat, i));
        assert(s =~= s.take(i) + s.subrange(i, i + pat.len()) + s.skip(i + pat.len()));
    }
}

/// A number that was written is read back, with or without a plus sign, where
/// it is not above the limit.
pub proof fn written_numbers_read_back(n: nat, max: nat)
    ensures
        n <= max ==> parse_dec(dec(n), max) == Some(n),
        n <= max ==> parse_dec(seq!['+'] + dec(n), max) == Some(n),
        n > max ==> parse_dec(dec(n), max) is None,
        dec(n).len() > 0,
        dec(n)[0] != '0' || n == 0,
{
    digits_come_back(n);
    let d = dec(n);
    assert(is_digit(d[0]));
    assert((seq!['+'] + d)[0] == '+');
    assert((seq!['+'] + d).drop_first() =~= d);
    if parse_dec(d, max) is None {
        assert(digits_of(d) == d);
    }
}

/// A written number is made of digits.
pub proof fn written_numbers_have_digits(n: nat)
    ensures
        forall|i: int| 0 <= i < dec(n).len() ==> is_digit(#[trigger] dec(n)[i]),
{
    digits_come_back(n);
}

proof fn digits_come_back(n: nat)
    ensures
        dec(n).len() > 0,
        forall|i: int| 0 <= i < dec(n).len() ==> is_digit(#[trigger] dec(n)[i]),
        digits_value(dec(n)) == n,
        dec(n)[0] != '0' || n == 0,
    decreases n,
{
    reveal_with_fuel(digits_value, 2);
    if n < 10 {
        assert(dec(n).drop_last() =~= Seq::empty());
        assert(dec(n).last() == digit(n));
    } else {
        digits_come_back(n / 10);
        let d = dec(n);
        let r = dec(n / 10);
        assert(d.drop_last() =~= r);
        assert(d.last() == digit(n % 10));
        assert forall|i: int| 0 <= i < d.len() implies is_digit(#[trigger] d[i]) by {
            if i < r.len() {
                assert(d[i] == r[i]);
            }
        }
        assert(d[0] == r[0]);
    }
}

/// The value of digits goes up by ten for each place, and text that is not all
/// digits is no number.
pub proof fn digits_count_by_tens(s: Seq<char>, c: char, max: nat)
    ensures
        digits_value(s.push(c)) == 10 * digits_value(s) + (c as nat - 48) || !is_digit(c),
        !is_digit(c) && (s.len() > 0 || c != '+') ==> parse_dec(s.push(c), max) is None,
        parse_dec(Seq::empty(), max) is None,
{
    assert(s.push(c).drop_last() =~= s);
    if !is_digit(c) && (s.len() > 0 || c != '+') {
        let t = s.push(c);
        let d = digits_of(t);
        assert(d.last() == c);
        assert(d[d.len() - 1] == c);
    }
}

/// Joining puts the separator between two parts and nowhere else.
pub proof fn join_separates(a: Seq<Seq<char>>, b: Seq<Seq<char>>, one: Seq<char>, sep: Seq<char>)
    ensures
        join(Seq::empty(), sep).len() == 0,
        join(seq![one], sep) == one,
        a.len() > 0 && b.len() > 0 ==> join(a + b, sep) == join(a, sep) + sep + join(b, sep),
    decreases b.len(),
{
    if a.len() > 0 && b.len() > 0 {
        let all = a + b;
        assert(all.drop_last() =~= a + b.drop_last());
        assert(all.last() == b.last());
        if b.len() == 1 {
            assert(a + b.drop_last() =~= a);
            assert(b[0] == b.last());
        } else {
            join_separates(a, b.drop_last(), one, sep);
            assert(join(all, sep) =~= join(a, sep) + sep + join(b, sep));
        }
    }
}

/// What a padded number holds: the number at the end, blanks before it, and at
/// least the width.
pub proof fn padding_is_in_front(n: nat, width: nat)
    ensures
        dec_padded(n, width).len() >= width,
        dec_padded(n, width).len() >= dec(n).len(),
        dec_padded(n, width).len() == width || dec_padded(n, width) == dec(n),
        dec_padded(n, width).skip(dec_padded(n, width).len() - dec(n).len()) == dec(n),
        forall|i: int|
            0 <= i < dec_padded(n, width).len() - dec(n).len() ==> #[trigger] dec_padded(
                n,
                width,
            )[i] == ' ',
{
    let p = dec_padded(n, width);
    assert(p.skip(p.len() - dec(n).len()) =~= dec(n));
}

/// The first characters of a text are its beginning, as many as there are or
/// as were asked for.
pub proof fn first_chars_are_the_beginning(s: Seq<char>, n: int)
    requires
        0 <= n,
    ensures
        first_chars(s, n).is_prefix_of(s),
        first_chars(s, n).len() == if s.len() <= n {
            s.len() as int
        } else {
            n
        },
{
}

/// Of two different texts one comes before the other, a text comes before
/// every longer one that begins with it, and otherwise the first characters in
/// which they differ decide.
pub proof fn texts_stand_in_line(a: Seq<char>, b: Seq<char>, c: char, d: char)
    ensures
        before(a, a.push(c)),
        (c as int) < (d as int) ==> before(a + seq![c] + b, a + seq![d]),
        before(a, b) ==> !before(b, a),
{
    assert(before_at(a, a.push(c), a.len() as int));
    if (c as int) < (d as int) {
        assert(before_at(a + seq![c] + b, a + seq![d], a.len() as int));
    }
    if before(a, b) && before(b, a) {
        before_transitive(a, b, a);
        before_irreflexive(a);
    }
}

/// Small letters stay, capitals become small, and nothing else changes.
pub proof fn capitals_become_small(c: char)
    ensures
        'a' <= c <= 'z' ==> small(c) == c,
        !('A' <= c <= 'Z') ==> small(c) == c,
        'A' <= c <= 'Z' ==> 'a' <= small(c) <= 'z' && small(c) as int == c as int + 32,
{
}

/// The characters that count as blank among the common ones are the blank, the
/// tab, and those that break a line or page; no letter, digit or mark is.
pub proof fn common_blanks(c: char)
    requires
        (c as int) < 0x80,
    ensures
        is_space(c) <==> c == ' ' || c == '\t' || c == '\n' || c == '\r' || c as int == 0x0b
            || c as int == 0x0c,
{
}

/// What is left of a trimmed text stands in it without a gap, and neither end
/// of it could still be taken off.
pub proof fn trimmed_ends_stay(s: Seq<char>, p: spec_fn(char) -> bool)
    ensures
        trim(s, p).len() > 0 ==> !p(trim(s, p)[0]) && !p(trim(s, p).last()),
        trim(s, p).len() <= s.len(),
        exists|at: int|
            0 <= at <= s.len() - trim(s, p).len() && #[trigger] s.subrange(
                at,
                at + trim(s, p).len(),
            ) == trim(s, p),
{
    let a = trim_start(s, p);
    start_is_a_tail(s, p);
    end_is_a_head(a, p);
    let t = trim(s, p);
    let at = s.len() - a.len();
    assert(s.subrange(at, at + t.len()) =~= t) by {
        assert(s.skip(at) == a);
        assert(a.take(t.len() as int) == t);
        assert forall|i: int| 0 <= i < t.len() implies s.subrange(at, at + t.len())[i]
            == #[trigger] t[i] by {
            assert(t[i] == a.take(t.len() as int)[i]);
            assert(a[i] == s.skip(at)[i]);
        }
    }
    if t.len() > 0 {
        assert(t[0] == a.take(t.len() as int)[0]);
    }
}

proof fn start_is_a_tail(s: Seq<char>, p: spec_fn(char) -> bool)
    ensures
        trim_start(s, p).len() <= s.len(),
        s.skip(s.len() - trim_start(s, p).len()) == trim_start(s, p),
        trim_start(s, p).len() > 0 ==> !p(trim_start(s, p)[0]),
    decreases s.len(),
{
    if s.len() > 0 && p(s[0]) {
        start_is_a_tail(s.drop_first(), p);
        let t = trim_start(s, p);
        assert(s.drop_first().skip(s.drop_first().len() - t.len()) =~= s.skip(s.len() - t.len()));
    } else {
        assert(s.skip(0) =~= s);
    }
}

proof fn end_is_a_head(s: Seq<char>, p: spec_fn(char) -> bool)
    ensures
        trim_end(s, p).len() <= s.len(),
        s.take(trim_end(s, p).len() as int) == trim_end(s, p),
        trim_end(s, p).len() > 0 ==> !p(trim_end(s, p).last()),
    decreases s.len(),
{
    if s.len() > 0 && p(s.last()) {
        end_is_a_head(s.drop_last(), p);
        let t = trim_end(s, p);
        assert(s.drop_last().take(t.len() as int) =~= s.take(t.len() as int));
    } else {
        assert(s.take(s.len() as int) =~= s);
    }
}

} // verus!
