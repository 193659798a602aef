//! Character-level text handling: whitespace normalisation, snapshot names,
//! substring search and the small std conversions the rest of the crate needs.

use vstd::prelude::*;

verus! {

/// The Unicode `White_Space` property, which is what `char::is_whitespace`
/// and `str::split_whitespace` test.
pub open spec fn is_ws(c: char) -> bool {
    let u = c as u32;
    ||| 0x09 <= u <= 0x0D
    ||| u == 0x20
    ||| u == 0x85
    ||| u == 0xA0
    ||| u == 0x1680
    ||| 0x2000 <= u <= 0x200A
    ||| u == 0x2028
    ||| u == 0x2029
    ||| u == 0x202F
    ||| u == 0x205F
    ||| u == 0x3000
}

/// The maximal runs of non-whitespace characters of `s`, in order
/// (what `split_whitespace` yields).
pub open spec fn words(s: Seq<char>) -> Seq<Seq<char>>
    decreases s.len(),
{
    if s.len() == 0 {
        Seq::empty()
    } else {
        let p = s.drop_last();
        let c = s.last();
        let w = words(p);
        if is_ws(c) {
            w
        } else if p.len() > 0 && !is_ws(p.last()) {
            w.drop_last().push(w.last().push(c))
        } else {
            w.push(seq![c])
        }
    }
}

/// The words joined with one space between neighbours.
pub open spec fn join_words(ws: Seq<Seq<char>>) -> Seq<char>
    decreases ws.len(),
{
    if ws.len() == 0 {
        Seq::empty()
    } else if ws.len() == 1 {
        ws[0]
    } else {
        join_words(ws.drop_last()) + seq![' '] + ws.last()
    }
}

/// `split_whitespace` followed by `join(" ")`.
pub open spec fn normalize(s: Seq<char>) -> Seq<char> {
    join_words(words(s))
}

/// The character that `sanitize_snapshot_name` writes for `c`.
pub open spec fn sanitize_char(c: char) -> char {
    if c == ':' || c == '/' || c == '\\' || c == ' ' || c == '+' {
        '-'
    } else {
        c
    }
}

/// `needle` occurs in `hay` starting at position `i`.
pub open spec fn occurs_at(hay: Seq<char>, needle: Seq<char>, i: int) -> bool {
    0 <= i && i + needle.len() <= hay.len() && hay.subrange(i, i + needle.len()) == needle
}

/// `needle` occurs somewhere in `hay` (`str::contains` with a string pattern).
pub open spec fn contains_seq(hay: Seq<char>, needle: Seq<char>) -> bool {
    exists|i: int| occurs_at(hay, needle, i)
}

/// The result of `str::to_lowercase` (Unicode lowercase mapping).
pub uninterp spec fn lowercase_of(s: Seq<char>) -> Seq<char>;

/// Whether every character of `s` is ASCII (`str::is_ascii`).
pub open spec fn is_ascii_seq(s: Seq<char>) -> bool {
    forall|i: int| 0 <= i < s.len() ==> (#[trigger] s[i] as u32) < 128
}

/// Calls `str::to_lowercase`; the contract names its result. The method
/// lowers by the Unicode `Lowercase` mapping, as its documentation says,
/// which on ASCII text lowers `A` to `Z` and keeps every other character
/// (the documentation's own example turns "HELLO" into "hello").
#[verifier::external_body]
pub(crate) fn to_lowercase(s: &str) -> (res: String)
    ensures
        res@ == lowercase_of(s@),
        is_ascii_seq(s@) ==> res@ == ascii_lower_seq(s@),
{
    s.to_lowercase()
}

/// Calls `String::push`, which appends one character.
#[verifier::external_body]
pub(crate) fn push_char(s: &mut String, c: char)
    ensures
        final(s)@ == old(s)@.push(c),
{
    s.push(c)
}

/// The characters of `s`, in order.
pub fn chars_of(s: &str) -> (res: Vec<char>)
    ensures
        res@ == s@,
{
    let mut out: Vec<char> = Vec::new();
    for c in it: s.chars()
        invariant
            it.seq() == s@,
            out@ == it.seq().take(it.index()),
    {
        proof {
            assert(it.seq().take(it.index() + 1) =~= out@.push(c));
        }
        out.push(c);
    }
    proof {
        assert(out@ =~= s@);
    }
    out
}

/// A string holding the characters `v[from..to]`.
pub fn string_from_chars(v: &Vec<char>, from: usize, to: usize) -> (res: String)
    requires
        from <= to <= v.len(),
    ensures
        res@ == v@.subrange(from as int, to as int),
{
    let mut out = String::new();
    let mut i = from;
    while i < to
        invariant
            from <= i <= to <= v.len(),
            out@ == v@.subrange(from as int, i as int),
        decreases to - i,
    {
        push_char(&mut out, v[i]);
        proof {
            assert(v@.subrange(from as int, i + 1) =~= v@.subrange(from as int, i as int).push(
                v@[i as int],
            ));
        }
        i = i + 1;
    }
    out
}

/// `char::is_whitespace`.
pub fn is_whitespace(c: char) -> (res: bool)
    ensures
        res == is_ws(c),
{
    let u = c as u32;
    (0x09 <= u && u <= 0x0D) || u == 0x20 || u == 0x85 || u == 0xA0 || u == 0x1680 || (0x2000
        <= u && u <= 0x200A) || u == 0x2028 || u == 0x2029 || u == 0x202F || u == 0x205F || u
        == 0x3000
}

proof fn lemma_words_nonempty(s: Seq<char>)
    requires
        s.len() > 0,
        !is_ws(s.last()),
    ensures
        words(s).len() > 0,
    decreases s.len(),
{
    let p = s.drop_last();
    if p.len() > 0 && !is_ws(p.last()) {
        lemma_words_nonempty(p);
    }
}

proof fn lemma_join_push(ws: Seq<Seq<char>>, w: Seq<char>)
    ensures
        join_words(ws.push(w)) == if ws.len() == 0 {
            w
        } else {
            join_words(ws) + seq![' '] + w
        },
{
    assert(ws.push(w).drop_last() =~= ws);
}

proof fn lemma_join_extend(ws: Seq<Seq<char>>, c: char)
    requires
        ws.len() > 0,
    ensures
        join_words(ws.drop_last().push(ws.last().push(c))) == join_words(ws).push(c),
{
    let v = ws.drop_last().push(ws.last().push(c));
    lemma_join_push(ws.drop_last(), ws.last().push(c));
    if ws.len() == 1 {
        assert(v.len() == 1);
        assert(join_words(ws) == ws[0]);
    } else {
        assert((join_words(ws.drop_last()) + seq![' '] + ws.last()).push(c) =~= join_words(
            ws.drop_last(),
        ) + seq![' '] + ws.last().push(c));
    }
}

/// A word: not empty, without whitespace.
pub open spec fn is_word(w: Seq<char>) -> bool {
    w.len() > 0 && forall|i: int| 0 <= i < w.len() ==> !is_ws(#[trigger] w[i])
}

proof fn lemma_words_are_words(s: Seq<char>)
    ensures
        forall|k: int| 0 <= k < words(s).len() ==> is_word(#[trigger] words(s)[k]),
    decreases s.len(),
{
    if s.len() > 0 {
        let p = s.drop_last();
        let c = s.last();
        lemma_words_are_words(p);
        let w = words(p);
        if !is_ws(c) {
            if p.len() > 0 && !is_ws(p.last()) {
                lemma_words_nonempty(p);
                let nw = w.drop_last().push(w.last().push(c));
                assert(is_word(w[w.len() - 1]));
                assert forall|k: int| 0 <= k < nw.len() implies is_word(#[trigger] nw[k]) by {
                    if k < w.len() - 1 {
                        assert(nw[k] == w[k]);
                    } else {
                        let x = w.last().push(c);
                        assert(nw[k] == x);
                        assert forall|i: int| 0 <= i < x.len() implies !is_ws(#[trigger] x[i]) by {
                            if i < x.len() - 1 {
                                assert(x[i] == w.last()[i]);
                            }
                        }
                    }
                }
            } else {
                let nw = w.push(seq![c]);
                assert forall|k: int| 0 <= k < nw.len() implies is_word(#[trigger] nw[k]) by {
                    if k < w.len() {
                        assert(nw[k] == w[k]);
                    }
                }
            }
        }
    }
}

/// Appending a word after a space (or at the start) adds it as one word.
proof fn lemma_words_append_word(p: Seq<char>, w: Seq<char>)
    requires
        is_word(w),
        p.len() == 0 || is_ws(p.last()),
    ensures
        words(p + w) == words(p).push(w),
    decreases w.len(),
{
    let x = p + w;
    assert(x.drop_last() =~= p + w.drop_last());
    assert(x.last() == w.last());
    if w.len() == 1 {
        assert(p + w.drop_last() =~= p);
        assert(seq![w.last()] =~= w);
    } else {
        let v = w.drop_last();
        assert forall|i: int| 0 <= i < v.len() implies !is_ws(#[trigger] v[i]) by {
            assert(v[i] == w[i]);
        }
        lemma_words_append_word(p, v);
        assert((p + v).last() == v.last());
        assert(v.push(w.last()) =~= w);
    }
}

/// The words of words joined by spaces are those words.
proof fn lemma_words_of_join(ws: Seq<Seq<char>>)
    requires
        forall|k: int| 0 <= k < ws.len() ==> is_word(#[trigger] ws[k]),
    ensures
        words(join_words(ws)) == ws,
    decreases ws.len(),
{
    if ws.len() == 1 {
        assert(is_word(ws[0]));
        lemma_words_append_word(Seq::empty(), ws[0]);
        assert(Seq::<char>::empty() + ws[0] =~= ws[0]);
        assert(Seq::<Seq<char>>::empty().push(ws[0]) =~= ws);
    } else if ws.len() > 1 {
        let init = ws.drop_last();
        assert forall|k: int| 0 <= k < init.len() implies is_word(#[trigger] init[k]) by {
            assert(init[k] == ws[k]);
        }
        lemma_words_of_join(init);
        let a = join_words(init) + seq![' '];
        assert(is_word(ws.last()));
        lemma_words_append_word(a, ws.last());
        assert(a.drop_last() =~= join_words(init));
        assert(words(a) == words(join_words(init)));
        assert(init.push(ws.last()) =~= ws);
    } else {
        assert(words(Seq::<char>::empty()) =~= ws);
    }
}

/// Normalising whitespace twice changes nothing more than once.
pub proof fn lemma_normalize_idempotent(s: Seq<char>)
    ensures
        normalize(normalize(s)) == normalize(s),
{
    lemma_words_are_words(s);
    lemma_words_of_join(words(s));
}

/// Words joined by single spaces: no character is whitespace but a space,
/// and each space stands between two characters that are not whitespace.
pub open spec fn single_spaced(j: Seq<char>) -> bool {
    forall|i: int| 0 <= i < j.len() && is_ws(#[trigger] j[i]) ==> {
        &&& j[i] == ' '
        &&& 0 < i < j.len() - 1
        &&& !is_ws(j[i - 1])
        &&& !is_ws(j[i + 1])
    }
}

proof fn lemma_join_single_spaced(ws: Seq<Seq<char>>)
    requires
        forall|k: int| 0 <= k < ws.len() ==> is_word(#[trigger] ws[k]),
    ensures
        single_spaced(join_words(ws)),
        join_words(ws).len() == 0 <==> ws.len() == 0,
    decreases ws.len(),
{
    if ws.len() == 1 {
        assert(is_word(ws[0]));
    } else if ws.len() > 1 {
        let init = ws.drop_last();
        assert forall|k: int| 0 <= k < init.len() implies is_word(#[trigger] init[k]) by {
            assert(init[k] == ws[k]);
        }
        lemma_join_single_spaced(init);
        let a = join_words(init);
        let w = ws.last();
        assert(is_word(w));
        let j = a + seq![' '] + w;
        assert(j == join_words(ws));
        if is_ws(a[a.len() - 1]) {
            assert(a.len() - 1 < a.len() - 1);
        }
        assert forall|i: int| 0 <= i < j.len() && is_ws(#[trigger] j[i]) implies {
            &&& j[i] == ' '
            &&& 0 < i < j.len() - 1
            &&& !is_ws(j[i - 1])
            &&& !is_ws(j[i + 1])
        } by {
            if i < a.len() {
                assert(j[i] == a[i]);
                assert(j[i - 1] == a[i - 1]);
                assert(j[i + 1] == a[i + 1]);
            } else if i == a.len() {
                assert(j[i - 1] == a[a.len() - 1]);
                assert(j[i + 1] == w[0]);
            } else {
                assert(j[i] == w[i - a.len() - 1]);
            }
        }
    }
}

/// A text has no words exactly when it is all whitespace.
proof fn lemma_no_words_iff_blank(s: Seq<char>)
    ensures
        words(s).len() == 0 <==> forall|i: int| 0 <= i < s.len() ==> is_ws(#[trigger] s[i]),
    decreases s.len(),
{
    if s.len() > 0 {
        let p = s.drop_last();
        lemma_no_words_iff_blank(p);
        if is_ws(s.last()) {
            if forall|i: int| 0 <= i < p.len() ==> is_ws(#[trigger] p[i]) {
                assert forall|i: int| 0 <= i < s.len() implies is_ws(#[trigger] s[i]) by {
                    if i < p.len() {
                        assert(s[i] == p[i]);
                    }
                }
            } else {
                let i = choose|i: int| 0 <= i < p.len() && !is_ws(#[trigger] p[i]);
                assert(s[i] == p[i]);
            }
        } else {
            lemma_words_nonempty(s);
        }
    }
}

/// What whitespace normalisation gives: the same words in the same order,
/// joined by single spaces, with no other whitespace and none at either
/// end; empty exactly when the text is all whitespace; and normalising
/// again changes nothing.
pub proof fn lemma_normalize_shape(s: Seq<char>)
    ensures
        words(normalize(s)) == words(s),
        forall|i: int| 0 <= i < normalize(s).len() && is_ws(#[trigger] normalize(s)[i]) ==> normalize(s)[i] == ' ',
        normalize(s).len() > 0 ==> !is_ws(normalize(s)[0]) && !is_ws(normalize(s).last()),
        forall|i: int| 0 <= i < normalize(s).len() - 1 && #[trigger] normalize(s)[i] == ' ' ==> normalize(s)[i + 1] != ' ',
        normalize(s).len() == 0 <==> forall|i: int| 0 <= i < s.len() ==> is_ws(#[trigger] s[i]),
        normalize(normalize(s)) == normalize(s),
{
    lemma_words_are_words(s);
    lemma_words_of_join(words(s));
    lemma_join_single_spaced(words(s));
    lemma_no_words_iff_blank(s);
    lemma_normalize_idempotent(s);
    let n = normalize(s);
    if n.len() > 0 {
        if is_ws(n[0]) {
            assert(0 < 0int);
        }
        if is_ws(n[n.len() - 1]) {
            assert(n.len() - 1 < n.len() - 1);
        }
    }
    assert forall|i: int| 0 <= i < n.len() - 1 && #[trigger] n[i] == ' ' implies n[i + 1] != ' ' by {
        assert(is_ws(n[i]));
    }
}

/// Collapses every run of whitespace to one space and drops leading and
/// trailing whitespace (`split_whitespace` joined by `" "`).
pub fn normalize_ws(input: &str) -> (res: String)
    ensures
        res@ == normalize(input@),
        normalize(res@) == res@,
{
    proof {
        lemma_normalize_idempotent(input@);
    }
    let chars = chars_of(input);
    let mut out = String::new();
    let mut in_word = false;
    let mut have_word = false;
    let mut i: usize = 0;
    while i < chars.len()
        invariant
            i <= chars.len(),
            chars@ == input@,
            out@ == join_words(words(chars@.take(i as int))),
            in_word == (i > 0 && !is_ws(chars@[i - 1])),
            have_word == (words(chars@.take(i as int)).len() > 0),
        decreases chars.len() - i,
    {
        let c = chars[i];
        let ghost p = chars@.take(i as int);
        let ghost s = chars@.take(i + 1);
        proof {
            assert(s.drop_last() =~= p);
            assert(s.last() == c);
            if i > 0 {
                assert(p.last() == chars@[i - 1]);
            }
        }
        if is_whitespace(c) {
            in_word = false;
        } else if in_word {
            proof {
                lemma_words_nonempty(p);
                lemma_join_extend(words(p), c);
            }
            push_char(&mut out, c);
        } else {
            proof {
                lemma_join_push(words(p), seq![c]);
                assert(join_words(words(p)) + seq![' '] + seq![c] =~= join_words(words(p)).push(
                    ' ',
                ).push(c));
                assert(seq![c] =~= Seq::<char>::empty().push(c));
            }
            if have_word {
                push_char(&mut out, ' ');
            }
            push_char(&mut out, c);
            in_word = true;
            have_word = true;
        }
        i = i + 1;
    }
    proof {
        assert(chars@.take(i as int) =~= input@);
    }
    out
}

/// Replaces the characters that paths and URLs treat specially
/// (`:`, `/`, `\`, space and `+`) with `-`.
pub fn sanitize_snapshot_name(value: &str) -> (res: String)
    ensures
        res@ == value@.map_values(|c: char| sanitize_char(c)),
        res@.len() == value@.len(),
        forall|i: int| 0 <= i < res@.len() ==> {
            let c = #[trigger] res@[i];
            c != ':' && c != '/' && c != '\\' && c != ' ' && c != '+'
        },
{
    let chars = chars_of(value);
    let mut out = String::new();
    let mut i: usize = 0;
    while i < chars.len()
        invariant
            i <= chars.len(),
            chars@ == value@,
            out@ == chars@.take(i as int).map_values(|c: char| sanitize_char(c)),
        decreases chars.len() - i,
    {
        let c = chars[i];
        let d = if c == ':' || c == '/' || c == '\\' || c == ' ' || c == '+' {
            '-'
        } else {
            c
        };
        push_char(&mut out, d);
        proof {
            assert(chars@.take(i + 1).map_values(|c: char| sanitize_char(c)) =~= chars@.take(
                i as int,
            ).map_values(|c: char| sanitize_char(c)).push(d));
        }
        i = i + 1;
    }
    proof {
        assert(chars@.take(i as int) =~= value@);
    }
    out
}

/// Whether `needle` occurs in `hay` at position `i` (characters).
pub fn occurs_at_exec(hay: &Vec<char>, needle: &Vec<char>, i: usize) -> (res: bool)
    ensures
        res == occurs_at(hay@, needle@, i as int),
{
    if needle.len() > hay.len() || i > hay.len() - needle.len() {
        return false;
    }
    let mut j: usize = 0;
    while j < needle.len()
        invariant
            i + needle.len() <= hay.len(),
            j <= needle.len(),
            forall|k: int| 0 <= k < j ==> hay@[i + k] == needle@[k],
        decreases needle.len() - j,
    {
        if hay[i + j] != needle[j] {
            proof {
                assert(hay@.subrange(i as int, i + needle.len())[j as int] != needle@[j as int]);
            }
            return false;
        }
        j = j + 1;
    }
    proof {
        assert(hay@.subrange(i as int, i + needle.len()) =~= needle@);
    }
    true
}

/// `str::contains` with a string pattern.
pub fn contains(hay: &str, needle: &str) -> (res: bool)
    ensures
        res == contains_seq(hay@, needle@),
{
    let h = chars_of(hay);
    let n = chars_of(needle);
    if n.len() > h.len() {
        proof {
            assert forall|i: int| !occurs_at(hay@, needle@, i) by {}
        }
        return false;
    }
    let limit = h.len() - n.len();
    let mut i: usize = 0;
    loop
        invariant
            n.len() <= h.len(),
            limit == h.len() - n.len(),
            i <= limit,
            h@ == hay@,
            n@ == needle@,
            forall|k: int| 0 <= k < i ==> !occurs_at(hay@, needle@, k),
        ensures
            forall|k: int| 0 <= k <= limit ==> !occurs_at(hay@, needle@, k),
        decreases limit - i,
    {
        if occurs_at_exec(&h, &n, i) {
            return true;
        }
        if i == limit {
            break;
        }
        i = i + 1;
    }
    proof {
        assert forall|k: int| !occurs_at(hay@, needle@, k) by {
            if 0 <= k <= limit {
            }
        }
    }
    false
}

/// `str::starts_with` with a string pattern.
pub fn starts_with(hay: &str, prefix: &str) -> (res: bool)
    ensures
        res == occurs_at(hay@, prefix@, 0),
{
    let h = chars_of(hay);
    let n = chars_of(prefix);
    occurs_at_exec(&h, &n, 0)
}

/// The views of a sequence of strings.
pub open spec fn views(v: Seq<String>) -> Seq<Seq<char>> {
    v.map_values(|s: String| s@)
}

/// `parts.join(" ")`.
pub fn join_space(parts: &Vec<String>) -> (res: String)
    ensures
        res@ == join_words(views(parts@)),
{
    let mut out = String::new();
    let mut i: usize = 0;
    while i < parts.len()
        invariant
            i <= parts.len(),
            out@ == join_words(views(parts@).take(i as int)),
        decreases parts.len() - i,
    {
        proof {
            assert(views(parts@).take(i + 1) =~= views(parts@).take(i as int).push(parts@[i as int]@));
            lemma_join_push(views(parts@).take(i as int), parts@[i as int]@);
        }
        if i > 0 {
            push_char(&mut out, ' ');
        }
        out.append(parts[i].as_str());
        proof {
            if i > 0 {
                assert(views(parts@).take(i as int).len() > 0);
            } else {
                assert(views(parts@).take(0) =~= Seq::<Seq<char>>::empty());
            }
        }
        i = i + 1;
    }
    proof {
        assert(views(parts@).take(i as int) =~= views(parts@));
    }
    out
}

/// The text of an element as the parsers read it: its text nodes joined by
/// spaces, then whitespace-normalised.
pub open spec fn node_text(nodes: Seq<Seq<char>>) -> Seq<char> {
    normalize(join_words(nodes))
}

/// `normalize_ws(&nodes.join(" "))`.
pub fn text_of_nodes(nodes: &Vec<String>) -> (res: String)
    ensures
        res@ == node_text(views(nodes@)),
{
    let joined = join_space(nodes);
    normalize_ws(joined.as_str())
}

/// ASCII letters lowered, everything else kept (`char::to_ascii_lowercase`).
pub open spec fn ascii_lower(c: char) -> char {
    if 'A' <= c <= 'Z' {
        ((c as u32) + 32) as char
    } else {
        c
    }
}

pub open spec fn ascii_lower_seq(s: Seq<char>) -> Seq<char> {
    s.map_values(|c: char| ascii_lower(c))
}

/// ASCII letters raised, everything else kept (`char::to_ascii_uppercase`).
pub open spec fn ascii_upper(c: char) -> char {
    if 'a' <= c <= 'z' {
        ((c as u32) - 32) as char
    } else {
        c
    }
}

pub open spec fn ascii_upper_seq(s: Seq<char>) -> Seq<char> {
    s.map_values(|c: char| ascii_upper(c))
}

/// Lowering an ASCII text after raising or lowering it gives what
/// lowering it gives, and both keep it ASCII.
pub proof fn lemma_ascii_case_folds(s: Seq<char>)
    requires
        is_ascii_seq(s),
    ensures
        is_ascii_seq(ascii_upper_seq(s)),
        is_ascii_seq(ascii_lower_seq(s)),
        ascii_lower_seq(ascii_upper_seq(s)) == ascii_lower_seq(s),
        ascii_lower_seq(ascii_lower_seq(s)) == ascii_lower_seq(s),
{
    assert forall|i: int| 0 <= i < s.len() implies (#[trigger] ascii_upper_seq(s)[i] as u32) < 128
        && (ascii_lower_seq(s)[i] as u32) < 128
        && ascii_lower(ascii_upper(s[i])) == ascii_lower(s[i])
        && ascii_lower(ascii_lower(s[i])) == ascii_lower(s[i]) by {
        let c = s[i];
        assert((c as u32) < 128);
        if 'a' <= c <= 'z' {
            assert(ascii_upper(c) as u32 == (c as u32) - 32);
            assert(ascii_lower(ascii_upper(c)) as u32 == c as u32);
        } else if 'A' <= c <= 'Z' {
            assert(ascii_lower(c) as u32 == (c as u32) + 32);
        }
    }
    assert(ascii_lower_seq(ascii_upper_seq(s)) =~= ascii_lower_seq(s));
    assert(ascii_lower_seq(ascii_lower_seq(s)) =~= ascii_lower_seq(s));
}

/// `char::to_ascii_lowercase`.
pub fn ascii_lower_char(c: char) -> (res: char)
    ensures
        res == ascii_lower(c),
{
    if 'A' <= c && c <= 'Z' {
        ((c as u8) + 32) as char
    } else {
        c
    }
}

/// `str::to_ascii_lowercase`.
pub fn to_ascii_lowercase(s: &str) -> (res: String)
    ensures
        res@ == ascii_lower_seq(s@),
{
    let d = chars_of(s);
    let mut out = String::new();
    let mut i: usize = 0;
    while i < d.len()
        invariant
            i <= d.len(),
            d@ == s@,
            out@ == ascii_lower_seq(d@.take(i as int)),
        decreases d.len() - i,
    {
        let c = ascii_lower_char(d[i]);
        push_char(&mut out, c);
        proof {
            assert(ascii_lower_seq(d@.take(i + 1)) =~= ascii_lower_seq(d@.take(i as int)).push(c));
        }
        i = i + 1;
    }
    proof {
        assert(d@.take(i as int) =~= s@);
    }
    out
}

/// `s` without its leading whitespace.
pub open spec fn trim_start_spec(s: Seq<char>) -> Seq<char>
    decreases s.len(),
{
    if s.len() > 0 && is_ws(s[0]) {
        trim_start_spec(s.drop_first())
    } else {
        s
    }
}

/// `s` without its trailing whitespace.
pub open spec fn trim_end_spec(s: Seq<char>) -> Seq<char>
    decreases s.len(),
{
    if s.len() > 0 && is_ws(s.last()) {
        trim_end_spec(s.drop_last())
    } else {
        s
    }
}

/// `str::trim`.
pub open spec fn trim_spec(s: Seq<char>) -> Seq<char> {
    trim_end_spec(trim_start_spec(s))
}

/// `str::trim`: leading and trailing whitespace removed.
pub fn trim(s: &str) -> (res: String)
    ensures
        res@ == trim_spec(s@),
{
    let d = chars_of(s);
    let mut lo: usize = 0;
    proof {
        assert(s@.skip(0) =~= s@);
    }
    while lo < d.len() && is_whitespace(d[lo])
        invariant
            lo <= d.len(),
            d@ == s@,
            trim_start_spec(s@) == trim_start_spec(s@.skip(lo as int)),
        decreases d.len() - lo,
    {
        proof {
            assert(s@.skip(lo as int).drop_first() =~= s@.skip(lo + 1));
        }
        lo = lo + 1;
    }
    proof {
        assert(trim_start_spec(s@.skip(lo as int)) == s@.skip(lo as int));
    }
    let mut hi: usize = d.len();
    while hi > lo && is_whitespace(d[hi - 1])
        invariant
            lo <= hi <= d.len(),
            d@ == s@,
            trim_end_spec(s@.skip(lo as int)) == trim_end_spec(s@.subrange(lo as int, hi as int)),
        decreases hi - lo,
    {
        proof {
            assert(s@.subrange(lo as int, hi as int).drop_last() =~= s@.subrange(lo as int, hi - 1));
        }
        hi = hi - 1;
    }
    proof {
        assert(s@.skip(lo as int) =~= s@.subrange(lo as int, d@.len() as int));
    }
    string_from_chars(&d, lo, hi)
}

/// `a == b` on strings.
pub fn str_eq(a: &str, b: &str) -> (res: bool)
    ensures
        res == (a@ == b@),
{
    let x = chars_of(a);
    let y = chars_of(b);
    if x.len() != y.len() {
        return false;
    }
    let mut i: usize = 0;
    while i < x.len()
        invariant
            x.len() == y.len(),
            i <= x.len(),
            x@ == a@,
            y@ == b@,
            forall|k: int| 0 <= k < i ==> x@[k] == y@[k],
        decreases x.len() - i,
    {
        if x[i] != y[i] {
            return false;
        }
        i = i + 1;
    }
    proof {
        assert(a@ =~= b@);
    }
    true
}

/// `str::eq_ignore_ascii_case`.
pub fn eq_ignore_ascii_case(a: &str, b: &str) -> (res: bool)
    ensures
        res == (ascii_lower_seq(a@) == ascii_lower_seq(b@)),
{
    let x = to_ascii_lowercase(a);
    let y = to_ascii_lowercase(b);
    str_eq(x.as_str(), y.as_str())
}

/// `str::strip_prefix` with a string prefix.
pub fn strip_prefix(s: &str, prefix: &str) -> (res: Option<String>)
    ensures
        res matches Some(r) ==> occurs_at(s@, prefix@, 0) && r@ == s@.skip(prefix@.len() as int),
        res is None ==> !occurs_at(s@, prefix@, 0),
{
    let d = chars_of(s);
    let p = chars_of(prefix);
    if occurs_at_exec(&d, &p, 0) {
        Some(string_from_chars(&d, p.len(), d.len()))
    } else {
        None
    }
}

/// `str::replace`: every non-overlapping occurrence of `from`, scanning
/// from the left, replaced by `to`.
pub open spec fn replace_spec(s: Seq<char>, from: Seq<char>, to: Seq<char>) -> Seq<char>
    decreases s.len(),
{
    if s.len() == 0 {
        s
    } else if from.len() > 0 && from.len() <= s.len() && s.take(from.len() as int) == from {
        to + replace_spec(s.skip(from.len() as int), from, to)
    } else {
        seq![s[0]] + replace_spec(s.drop_first(), from, to)
    }
}

/// `str::replace` with a non-empty string pattern.
pub fn replace(s: &str, from: &str, to: &str) -> (res: String)
    requires
        from@.len() > 0,
    ensures
        res@ == replace_spec(s@, from@, to@),
{
    let d = chars_of(s);
    let f = chars_of(from);
    let mut out = String::new();
    let mut i: usize = 0;
    proof {
        assert(s@.skip(0) =~= s@);
        assert(out@ + replace_spec(s@, from@, to@) =~= replace_spec(s@, from@, to@));
    }
    while i < d.len()
        invariant
            i <= d.len(),
            d@ == s@,
            f@ == from@,
            f@.len() > 0,
            out@ + replace_spec(s@.skip(i as int), from@, to@) == replace_spec(s@, from@, to@),
        decreases d.len() - i,
    {
        let ghost rest = s@.skip(i as int);
        if occurs_at_exec(&d, &f, i) {
            proof {
                assert(rest.take(from@.len() as int) =~= d@.subrange(i as int, i + f@.len()));
                assert(rest.skip(from@.len() as int) =~= s@.skip(i + f@.len()));
                assert(out@ + to@ + replace_spec(s@.skip(i + f@.len()), from@, to@) =~= out@
                    + (to@ + replace_spec(s@.skip(i + f@.len()), from@, to@)));
            }
            out.append(to);
            i = i + f.len();
        } else {
            proof {
                if from@.len() <= rest.len() {
                    assert(rest.take(from@.len() as int) =~= d@.subrange(i as int, i + f@.len()));
                }
                assert(rest.drop_first() =~= s@.skip(i + 1));
                assert(out@.push(d@[i as int]) + replace_spec(s@.skip(i + 1), from@, to@) =~= out@
                    + (seq![rest[0]] + replace_spec(rest.drop_first(), from@, to@)));
            }
            push_char(&mut out, d[i]);
            i = i + 1;
        }
    }
    proof {
        assert(s@.skip(i as int) =~= Seq::<char>::empty());
        assert(out@ + Seq::<char>::empty() =~= out@);
    }
    out
}

/// Lexicographic order of strings by character (the order of `str`'s
/// `Ord`, which compares UTF-8 bytes and so code points).
pub open spec fn seq_lt(a: Seq<char>, b: Seq<char>) -> bool
    decreases a.len(),
{
    if a.len() == 0 {
        b.len() > 0
    } else if b.len() == 0 {
        false
    } else if a[0] != b[0] {
        (a[0] as u32) < (b[0] as u32)
    } else {
        seq_lt(a.drop_first(), b.drop_first())
    }
}

/// The string order is asymmetric.
pub proof fn lemma_seq_lt_asymmetric(a: Seq<char>, b: Seq<char>)
    ensures
        seq_lt(a, b) ==> !seq_lt(b, a),
    decreases a.len(),
{
    if a.len() > 0 && b.len() > 0 && a[0] == b[0] {
        lemma_seq_lt_asymmetric(a.drop_first(), b.drop_first());
    }
}

/// The string order is transitive.
pub proof fn lemma_seq_lt_transitive(a: Seq<char>, b: Seq<char>, c: Seq<char>)
    ensures
        seq_lt(a, b) && seq_lt(b, c) ==> seq_lt(a, c),
    decreases a.len(),
{
    if a.len() > 0 && b.len() > 0 && c.len() > 0 && a[0] == b[0] && b[0] == c[0] {
        lemma_seq_lt_transitive(a.drop_first(), b.drop_first(), c.drop_first());
    }
}

/// Of two different strings, one sorts before the other.
pub proof fn lemma_seq_lt_total(a: Seq<char>, b: Seq<char>)
    ensures
        a != b ==> seq_lt(a, b) || seq_lt(b, a),
    decreases a.len(),
{
    if a.len() == 0 && b.len() == 0 {
        assert(a =~= b);
    } else if a.len() > 0 && b.len() > 0 && a[0] == b[0] {
        lemma_seq_lt_total(a.drop_first(), b.drop_first());
        if a.drop_first() == b.drop_first() {
            assert(a.drop_first().len() == b.drop_first().len());
            assert(a.len() == b.len());
            assert forall|i: int| 0 <= i < a.len() implies a[i] == b[i] by {
                if i > 0 {
                    assert(a[i] == a.drop_first()[i - 1]);
                    assert(b[i] == b.drop_first()[i - 1]);
                }
            }
            assert(a =~= b);
        }
    } else if a.len() > 0 && b.len() > 0 {
        let x = a[0];
        let y = b[0];
        vstd::utf8::char_u32_cast(x, x as u32);
        vstd::utf8::char_u32_cast(y, y as u32);
    }
}

/// Whether `a` sorts strictly before `b`.
pub fn str_lt(a: &str, b: &str) -> (res: bool)
    ensures
        res == seq_lt(a@, b@),
{
    let x = chars_of(a);
    let y = chars_of(b);
    let mut i: usize = 0;
    proof {
        assert(a@.skip(0) =~= a@);
        assert(b@.skip(0) =~= b@);
    }
    while i < x.len() && i < y.len() && x[i] == y[i]
        invariant
            i <= x.len(),
            i <= y.len(),
            x@ == a@,
            y@ == b@,
            seq_lt(a@, b@) == seq_lt(a@.skip(i as int), b@.skip(i as int)),
        decreases x.len() - i,
    {
        proof {
            assert(a@.skip(i as int).drop_first() =~= a@.skip(i + 1));
            assert(b@.skip(i as int).drop_first() =~= b@.skip(i + 1));
        }
        i = i + 1;
    }
    if i == x.len() {
        i < y.len()
    } else if i == y.len() {
        false
    } else {
        (x[i] as u32) < (y[i] as u32)
    }
}

/// The Unicode `Alphabetic` property (`char::is_alphabetic`).
pub uninterp spec fn alphabetic_spec(c: char) -> bool;

/// Calls `char::is_alphabetic`; the contract names the result.
#[verifier::external_body]
pub(crate) fn is_alphabetic(c: char) -> (res: bool)
    ensures
        res == alphabetic_spec(c),
{
    c.is_alphabetic()
}

/// `s` holds an alphabetic character.
pub open spec fn has_alphabetic(s: Seq<char>) -> bool {
    exists|i: int| 0 <= i < s.len() && alphabetic_spec(#[trigger] s[i])
}

/// Whether `s` holds an alphabetic character.
pub fn any_alphabetic(s: &str) -> (res: bool)
    ensures
        res == has_alphabetic(s@),
{
    let d = chars_of(s);
    let mut i: usize = 0;
    while i < d.len()
        invariant
            i <= d.len(),
            d@ == s@,
            forall|k: int| 0 <= k < i ==> !alphabetic_spec(#[trigger] s@[k]),
        decreases d.len() - i,
    {
        if is_alphabetic(d[i]) {
            return true;
        }
        i = i + 1;
    }
    false
}

} // verus!
