//! What the library takes from the standard library and from `serde_json`
//! without proof, and the error that carries a message.
use vstd::prelude::*;
use vstd::string::*;

verus! {

/// The text of a list of string slices.
pub open spec fn slices(v: Seq<&str>) -> Seq<Seq<char>> {
    v.map_values(|s: &str| s@)
}

/// What `String::from_utf8_lossy` makes of bytes.
pub uninterp spec fn utf8_lossy(bytes: Seq<u8>) -> Seq<char>;

/// `String::from_utf8_lossy`: valid UTF-8 is decoded as it stands; what the
/// function makes of invalid bytes has a name and no description here.
#[verifier::external_body]
pub(crate) fn lossy_text(bytes: &[u8]) -> (s: String)
    ensures
        s@ == utf8_lossy(bytes@),
        vstd::utf8::valid_utf8(bytes@) ==> s@ == vstd::utf8::decode_utf8(bytes@),
{
    String::from_utf8_lossy(bytes).into_owned()
}

/// What `str::to_lowercase` makes of a text.
pub uninterp spec fn lowercase(s: Seq<char>) -> Seq<char>;

/// `str::to_lowercase`: the Unicode lower case of a text, under its name.
#[verifier::external_body]
pub(crate) fn lower_text(s: &str) -> (r: String)
    ensures
        r@ == lowercase(s@),
{
    s.to_lowercase()
}

/// What the `Debug` formatting of a string slice writes.
pub uninterp spec fn debug_of(s: Seq<char>) -> Seq<char>;

/// `Debug` of `str`, through `format!`: the text in quotes with escapes,
/// under its name.
#[verifier::external_body]
pub(crate) fn debug_text(s: &str) -> (r: String)
    ensures
        r@ == debug_of(s@),
{
    format!("{s:?}")
}

/// The `Debug` formatting of texts, with a comma and a space between them.
pub open spec fn debug_items(v: Seq<Seq<char>>) -> Seq<char>
    decreases v.len(),
{
    if v.len() == 0 {
        Seq::empty()
    } else if v.len() == 1 {
        debug_of(v[0])
    } else {
        debug_items(v.drop_last()) + ", "@ + debug_of(v.last())
    }
}

/// A list of texts as `Debug` formats it: in square brackets.
pub open spec fn debug_of_list(v: Seq<Seq<char>>) -> Seq<char> {
    "["@ + debug_items(v) + "]"@
}

/// A list of texts in square brackets, each in quotes with escapes.
pub(crate) fn debug_list(v: &[&str]) -> (r: String)
    ensures
        r@ == debug_of_list(slices(v@)),
{
    let ghost all = slices(v@);
    let mut r = "[".to_owned();
    let mut i: usize = 0;
    assert(r@ =~= "["@ + debug_items(all.take(0)));
    while i < v.len()
        invariant
            i <= v@.len(),
            all == slices(v@),
            r@ == "["@ + debug_items(all.take(i as int)),
        decreases v@.len() - i,
    {
        assert(all.take(i + 1).drop_last() =~= all.take(i as int));
        if i > 0 {
            r.append(", ");
        }
        r.append(debug_text(v[i]).as_str());
        assert(r@ =~= "["@ + debug_items(all.take(i + 1)));
        i += 1;
    }
    assert(all.take(all.len() as int) =~= all);
    r.append("]");
    r
}

/// The text that a JSON object gives for a key, by `serde_json`.
pub uninterp spec fn json_text(body: Seq<char>, key: Seq<char>) -> Option<Seq<char>>;

/// `serde_json::from_str` to a value, then `Value::get` and `Value::as_str`:
/// the string that the object in `body` has under `key`. There is none where
/// `body` is no JSON object, or has no string under `key`. Which texts are
/// JSON is left to the crate.
#[verifier::external_body]
pub(crate) fn json_text_field(body: &str, key: &str) -> (r: Option<String>)
    ensures
        json_text(body@, key@) == (match r {
            Some(s) => Some(s@),
            None => None::<Seq<char>>,
        }),
{
    let value = serde_json::from_str::<serde_json::Value>(body).ok()?;
    value.get(key)?.as_str().map(str::to_string)
}

/// A hexadecimal digit.
pub open spec fn hex_digit(n: int) -> char {
    if n < 10 {
        ('0' as int + n) as char
    } else {
        ('a' as int + (n - 10)) as char
    }
}

/// How a character stands in a JSON string: quotes, backslashes and control
/// characters behind a backslash, any other as it is.
pub open spec fn json_escape(c: char) -> Seq<char> {
    if c == '"' || c == '\\' {
        seq!['\\', c]
    } else if c == '\u{8}' {
        seq!['\\', 'b']
    } else if c == '\t' {
        seq!['\\', 't']
    } else if c == '\n' {
        seq!['\\', 'n']
    } else if c == '\u{c}' {
        seq!['\\', 'f']
    } else if c == '\r' {
        seq!['\\', 'r']
    } else if 32 > c as int {
        seq!['\\', 'u', '0', '0', hex_digit(c as int / 16), hex_digit(c as int % 16)]
    } else {
        seq![c]
    }
}

/// A text with each of its characters as in a JSON string.
pub open spec fn json_escaped(s: Seq<char>) -> Seq<char>
    decreases s.len(),
{
    if s.len() == 0 {
        Seq::empty()
    } else {
        json_escaped(s.drop_last()) + json_escape(s.last())
    }
}

/// A text as a JSON string.
pub open spec fn json_quoted(s: Seq<char>) -> Seq<char> {
    seq!['"'] + json_escaped(s) + seq!['"']
}

/// `Display` of a `serde_json` string value: the text in quotes, each of its
/// characters escaped where JSON asks for it.
#[verifier::external_body]
pub(crate) fn json_quote(s: &str) -> (r: String)
    ensures
        r@ == json_quoted(s@),
{
    serde_json::Value::String(s.to_string()).to_string()
}

/// An error with a message.
#[derive(Debug, Clone, PartialEq, Eq)]
pub struct Failure {
    pub message: String,
}

impl View for Failure {
    type V = Seq<char>;

    open spec fn view(&self) -> Seq<char> {
        self.message@
    }
}

impl Failure {
    /// An error with the given message.
    pub fn because(message: &str) -> (f: Failure)
        ensures
            f@ == message@,
    {
        Failure { message: message.to_owned() }
    }

    /// An error with the given messages, one behind the other.
    pub fn because_of(what: &str, why: &str) -> (f: Failure)
        ensures
            f@ == what@ + why@,
    {
        let mut message = what.to_owned();
        message.append(why);
        Failure { message }
    }
}

/// The items of a list are written one after the other, with a comma and a
/// blank between two.
pub proof fn listed_items_are_separated(a: Seq<Seq<char>>, b: Seq<Seq<char>>, one: Seq<char>)
    ensures
        debug_items(Seq::empty()).len() == 0,
        debug_items(seq![one]) == debug_of(one),
        a.len() > 0 && b.len() > 0 ==> debug_items(a + b) == debug_items(a) + seq![',', ' ']
            + debug_items(b),
    decreases b.len(),
{
    reveal_strlit(", ");
    assert(", "@ =~= seq![',', ' ']);
    if a.len() > 0 && b.len() > 0 {
        let all = a + b;
        assert(all.drop_last() =~= a + b.drop_last());
        assert(all.last() == b.last());
        if b.len() == 1 {
            assert(a + b.drop_last() =~= a);
            assert(b[0] == b.last());
        } else {
            listed_items_are_separated(a, b.drop_last(), one);
            assert(debug_items(all) =~= debug_items(a) + seq![',', ' '] + debug_items(b));
        }
    }
}

/// A quoted text is escaped character by character: no quotation mark and no
/// control character stands bare in it, a backslash stands only before what it
/// escapes, and every other character is itself.
pub proof fn quoted_text_is_escaped_by_character(a: Seq<char>, b: Seq<char>, c: char)
    ensures
        json_escaped(Seq::empty()).len() == 0,
        json_escaped(a + b) == json_escaped(a) + json_escaped(b),
        json_escaped(seq![c]) == json_escape(c),
        c as int >= 32 && c != '"' && c != '\\' ==> json_escape(c) == seq![c],
        c == '"' || c == '\\' ==> json_escape(c) == seq!['\\', c],
        32 > c as int ==> json_escape(c).len() >= 2 && json_escape(c)[0] == '\\' && forall|i: int|
            0 <= i < json_escape(c).len() ==> (#[trigger] json_escape(c)[i]) as int >= 32,
        json_quoted(a)[0] == '"',
        json_quoted(a).last() == '"',
    decreases b.len(),
{
    reveal_with_fuel(json_escaped, 2);
    assert(seq![c].drop_last() =~= Seq::empty());
    assert(json_escaped(seq![c]) =~= json_escape(c));
    if b.len() == 0 {
        assert(a + b =~= a);
        assert(json_escaped(a) + json_escaped(b) =~= json_escaped(a));
    } else {
        assert((a + b).drop_last() =~= a + b.drop_last());
        quoted_text_is_escaped_by_character(a, b.drop_last(), c);
        assert(json_escaped(a + b) =~= json_escaped(a) + json_escaped(b));
    }
}

/// How control characters are written: the common ones by their letter, any
/// other by its number in two digits of base sixteen.
pub proof fn control_characters_have_their_escape(c: char)
    requires
        32 > c as int,
    ensures
        c == '\n' ==> json_escape(c) == seq!['\\', 'n'],
        c == '\r' ==> json_escape(c) == seq!['\\', 'r'],
        c == '\t' ==> json_escape(c) == seq!['\\', 't'],
        c as int == 8 ==> json_escape(c) == seq!['\\', 'b'],
        c as int == 12 ==> json_escape(c) == seq!['\\', 'f'],
        c as int != 8 && c as int != 9 && c as int != 10 && c as int != 12 && c as int != 13 ==> {
            let e = json_escape(c);
            let low = if '0' <= e[5] <= '9' {
                e[5] as int - '0' as int
            } else {
                e[5] as int - 'a' as int + 10
            };
            &&& e.len() == 6
            &&& e.take(4) == seq!['\\', 'u', '0', '0']
            &&& e[4] == '0' || e[4] == '1'
            &&& ('0' <= e[5] <= '9') || ('a' <= e[5] <= 'f')
            &&& (e[4] as int - '0' as int) * 16 + low == c as int
        },
{
    let e = json_escape(c);
    if c as int != 8 && c as int != 9 && c as int != 10 && c as int != 12 && c as int != 13 {
        assert(e.take(4) =~= seq!['\\', 'u', '0', '0']);
    }
}

} // verus!
