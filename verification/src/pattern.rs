//! Regular-expression matching, done by the `regex` crate.

use vstd::prelude::*;
use crate::text::push_char;

verus! {

/// The leftmost-first match of a pattern: the text before it, the capture
/// groups (group 0 is the whole match; `None` for a group that did not take
/// part), and the text after it.
pub struct Captures {
    pub before: String,
    pub groups: Vec<Option<String>>,
    pub after: String,
}

/// What Verus sees of a match.
pub struct CapturesView {
    pub before: Seq<char>,
    pub groups: Seq<Option<Seq<char>>>,
    pub after: Seq<char>,
}

pub open spec fn opt_str_view(o: Option<String>) -> Option<Seq<char>> {
    match o {
        Some(s) => Some(s@),
        None => None,
    }
}

impl View for Captures {
    type V = CapturesView;

    open spec fn view(&self) -> CapturesView {
        CapturesView {
            before: self.before@,
            groups: self.groups@.map_values(|g: Option<String>| opt_str_view(g)),
            after: self.after@,
        }
    }
}

pub open spec fn captures_opt_view(c: Option<Captures>) -> Option<CapturesView> {
    match c {
        Some(c) => Some(c@),
        None => None,
    }
}

/// Whether `Regex::new` accepts a pattern.
pub uninterp spec fn regex_valid_spec(pattern: Seq<char>) -> bool;

/// The leftmost-first match of `pattern` in `text` (`Regex::captures`), when
/// the pattern compiles.
pub uninterp spec fn regex_captures_spec(pattern: Seq<char>, text: Seq<char>) -> Option<
    CapturesView,
>;

/// Calls `Regex::new` and reports whether the pattern compiled.
#[verifier::external_body]
pub(crate) fn regex_is_valid(pattern: &str) -> (res: bool)
    ensures
        res == regex_valid_spec(pattern@),
{
    regex::Regex::new(pattern).is_ok()
}

/// Compiles `pattern` with `Regex::new` and calls `Regex::captures` on
/// `text`; `None` when the pattern does not compile or does not match. The
/// contract names the match; the `regex` documentation gives that a match
/// is a piece of the text and that group 0 always takes part.
#[verifier::external_body]
pub(crate) fn regex_captures(pattern: &str, text: &str) -> (res: Option<Captures>)
    ensures
        captures_opt_view(res) == regex_captures_spec(pattern@, text@),
        !regex_valid_spec(pattern@) ==> res is None,
        res matches Some(c) ==> c.groups@.len() > 0 && c.groups@[0] is Some && c.before@
            + c.groups@[0]->0@ + c.after@ == text@,
{
    let caps = regex::Regex::new(pattern).ok()?.captures(text)?;
    let whole = caps.get(0).unwrap();
    let groups = caps.iter().map(|m| m.map(|m| m.as_str().to_string())).collect();
    Some(Captures { before: text[..whole.start()].to_string(), groups, after: text[whole.end()..].to_string() })
}

/// The characters that `regex::escape` puts a backslash in front of.
pub open spec fn is_meta(c: char) -> bool {
    c == '\\' || c == '.' || c == '+' || c == '*' || c == '?' || c == '(' || c == ')' || c
        == '|' || c == '[' || c == ']' || c == '{' || c == '}' || c == '^' || c == '$' || c
        == '#' || c == '&' || c == '-' || c == '~'
}

/// `regex::escape`: every meta character gets a backslash in front.
pub open spec fn escape_spec(s: Seq<char>) -> Seq<char>
    decreases s.len(),
{
    if s.len() == 0 {
        Seq::empty()
    } else {
        let rest = escape_spec(s.drop_last());
        if is_meta(s.last()) {
            rest.push('\\').push(s.last())
        } else {
            rest.push(s.last())
        }
    }
}

/// `regex::escape`.
pub fn escape(text: &str) -> (res: String)
    ensures
        res@ == escape_spec(text@),
{
    let d = crate::text::chars_of(text);
    let mut out = String::new();
    let mut i: usize = 0;
    while i < d.len()
        invariant
            i <= d.len(),
            d@ == text@,
            out@ == escape_spec(d@.take(i as int)),
        decreases d.len() - i,
    {
        let c = d[i];
        proof {
            assert(d@.take(i + 1).drop_last() =~= d@.take(i as int));
        }
        if c == '\\' || c == '.' || c == '+' || c == '*' || c == '?' || c == '(' || c == ')' || c
            == '|' || c == '[' || c == ']' || c == '{' || c == '}' || c == '^' || c == '$' || c
            == '#' || c == '&' || c == '-' || c == '~' {
            push_char(&mut out, '\\');
        }
        push_char(&mut out, c);
        i = i + 1;
    }
    proof {
        assert(d@.take(i as int) =~= text@);
    }
    out
}

/// Capture group `k` of a match, when the group exists and took part.
pub open spec fn group_spec(c: CapturesView, k: int) -> Option<Seq<char>> {
    if 0 <= k < c.groups.len() {
        c.groups[k]
    } else {
        None
    }
}

/// Capture group `k` of a match.
pub fn group(c: &Captures, k: usize) -> (res: Option<String>)
    ensures
        opt_str_view(res) == group_spec(c@, k as int),
{
    if k < c.groups.len() {
        match &c.groups[k] {
            Some(s) => Some(s.clone()),
            None => None,
        }
    } else {
        None
    }
}

/// The text with the leftmost-first match of `pattern` cut out.
pub open spec fn remove_first_spec(pattern: Seq<char>, text: Seq<char>) -> Seq<char> {
    match regex_captures_spec(pattern, text) {
        Some(c) => c.before + c.after,
        None => text,
    }
}

/// Compiles `pattern` with `Regex::new` and calls `Regex::replace` with an
/// empty replacement: the `regex` documentation gives that the
/// leftmost-first match (the one `Regex::captures` reports) is replaced and
/// the rest of the text kept. `None` when the pattern does not compile.
#[verifier::external_body]
pub(crate) fn regex_remove_first(pattern: &str, text: &str) -> (res: Option<String>)
    ensures
        res is Some <==> regex_valid_spec(pattern@),
        res matches Some(s) ==> s@ == remove_first_spec(pattern@, text@),
{
    let re = regex::Regex::new(pattern).ok()?;
    Some(re.replace(text, "").into_owned())
}

/// The leftmost-first match of `pattern` in `text`.
pub open spec fn find_spec(pattern: Seq<char>, text: Seq<char>) -> Option<Seq<char>> {
    match regex_captures_spec(pattern, text) {
        Some(c) => group_spec(c, 0),
        None => None,
    }
}

/// Compiles `pattern` with `Regex::new` and calls `Regex::find`: the
/// `regex` documentation gives that this is the leftmost-first match, the
/// one `Regex::captures` reports as group 0. `None` when the pattern does
/// not compile or does not match.
#[verifier::external_body]
pub(crate) fn regex_find(pattern: &str, text: &str) -> (res: Option<String>)
    ensures
        regex_valid_spec(pattern@) ==> opt_str_view(res) == find_spec(pattern@, text@),
        !regex_valid_spec(pattern@) ==> res is None,
{
    let re = regex::Regex::new(pattern).ok()?;
    re.find(text).map(|m| m.as_str().to_string())
}

} // verus!
