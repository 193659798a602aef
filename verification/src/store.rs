//! The decisions of the snapshot store: whether a fresh snapshot says
//! anything new, and where an outdated one is archived. A snapshot is a
//! JSON document; only the moments it was made at may change without its
//! content changing.

use vstd::prelude::*;
use crate::clock::{in_range, local_parts, local_parts_spec, rfc3339_year_month, rfc3339_year_month_spec, Zone};
use crate::numbers::{decimal, push_decimal};
use crate::text::{sanitize_char, sanitize_snapshot_name, seq_lt, str_eq};

verus! {

/// A JSON number as `serde_json` holds it: a non-negative integer, a
/// negative integer, or a finite float given by its IEEE 754 bits (zero
/// taken as positive zero, since `-0.0 == 0.0`).
#[derive(Clone, Copy, PartialEq, Eq, Structural, Debug)]
pub enum JsonNumber {
    PosInt(u64),
    NegInt(i64),
    Float(u64),
}

/// A JSON document. An object's members are kept in ascending key order
/// with no key twice, as `serde_json::Map` keeps them.
#[derive(Debug)]
pub enum JsonValue {
    Null,
    Bool(bool),
    Number(JsonNumber),
    String(String),
    Array(Vec<JsonValue>),
    Object(Vec<JsonMember>),
}

/// One member of a JSON object.
#[derive(Debug)]
pub struct JsonMember {
    pub key: String,
    pub value: JsonValue,
}

/// What Verus sees of a JSON document.
pub enum JsonView {
    Null,
    Bool(bool),
    Number(JsonNumber),
    Str(Seq<char>),
    Array(Seq<JsonView>),
    Object(Seq<(Seq<char>, JsonView)>),
}

/// The view of a document.
pub open spec fn json_view(v: JsonValue) -> JsonView
    decreases v,
{
    match v {
        JsonValue::Null => JsonView::Null,
        JsonValue::Bool(b) => JsonView::Bool(b),
        JsonValue::Number(n) => JsonView::Number(n),
        JsonValue::String(s) => JsonView::Str(s@),
        JsonValue::Array(items) => JsonView::Array(items_view(items@)),
        JsonValue::Object(members) => JsonView::Object(members_view(members@)),
    }
}

/// The views of a document's items.
pub open spec fn items_view(items: Seq<JsonValue>) -> Seq<JsonView>
    decreases items,
{
    if items.len() == 0 {
        Seq::empty()
    } else {
        items_view(items.drop_last()).push(json_view(items.last()))
    }
}

/// The views of an object's members.
pub open spec fn members_view(members: Seq<JsonMember>) -> Seq<(Seq<char>, JsonView)>
    decreases members,
{
    if members.len() == 0 {
        Seq::empty()
    } else {
        members_view(members.drop_last()).push(
            (members.last().key@, json_view(members.last().value)),
        )
    }
}

impl View for JsonValue {
    type V = JsonView;

    open spec fn view(&self) -> JsonView {
        json_view(*self)
    }
}

proof fn lemma_items_view(items: Seq<JsonValue>)
    ensures
        items_view(items).len() == items.len(),
        forall|i: int| 0 <= i < items.len() ==> #[trigger] items_view(items)[i] == json_view(items[i]),
    decreases items.len(),
{
    if items.len() > 0 {
        lemma_items_view(items.drop_last());
    }
}

proof fn lemma_members_view(members: Seq<JsonMember>)
    ensures
        members_view(members).len() == members.len(),
        forall|i: int| 0 <= i < members.len() ==> #[trigger] members_view(members)[i] == (
            members[i].key@,
            json_view(members[i].value),
        ),
    decreases members.len(),
{
    if members.len() > 0 {
        lemma_members_view(members.drop_last());
    }
}

/// The keys of an object's members, in order.
pub open spec fn keys_of(members: Seq<(Seq<char>, JsonView)>) -> Seq<Seq<char>> {
    members.map_values(|m: (Seq<char>, JsonView)| m.0)
}

/// An object's keys ascend strictly, as `serde_json::Map` keeps them.
pub open spec fn keys_ascending(members: Seq<(Seq<char>, JsonView)>) -> bool {
    forall|i: int, j: int| 0 <= i < j < members.len() ==> seq_lt(#[trigger] members[i].0, #[trigger] members[j].0)
}

/// A well-formed document: every object's keys ascend strictly.
pub open spec fn json_wf(v: JsonView) -> bool
    decreases v,
{
    match v {
        JsonView::Array(items) => items_wf(items),
        JsonView::Object(members) => keys_ascending(members) && members_wf(members),
        _ => true,
    }
}

pub open spec fn items_wf(items: Seq<JsonView>) -> bool
    decreases items,
{
    if items.len() == 0 {
        true
    } else {
        items_wf(items.drop_last()) && json_wf(items.last())
    }
}

pub open spec fn members_wf(members: Seq<(Seq<char>, JsonView)>) -> bool
    decreases members,
{
    if members.len() == 0 {
        true
    } else {
        members_wf(members.drop_last()) && json_wf(members.last().1)
    }
}

/// Whether two documents are the same: the same kind, the same scalars,
/// the same items in the same order, the same members in the same order.
pub fn json_equal(a: &JsonValue, b: &JsonValue) -> (res: bool)
    ensures
        res == (a@ == b@),
    decreases a,
{
    match (a, b) {
        (JsonValue::Null, JsonValue::Null) => true,
        (JsonValue::Bool(x), JsonValue::Bool(y)) => *x == *y,
        (JsonValue::Number(x), JsonValue::Number(y)) => *x == *y,
        (JsonValue::String(x), JsonValue::String(y)) => str_eq(x.as_str(), y.as_str()),
        (JsonValue::Array(x), JsonValue::Array(y)) => {
            proof {
                lemma_items_view(x@);
                lemma_items_view(y@);
            }
            if x.len() != y.len() {
                return false;
            }
            let mut i: usize = 0;
            while i < x.len()
                invariant
                    i <= x.len() == y.len(),
                    *a == JsonValue::Array(*x),
                    *b == JsonValue::Array(*y),
                    items_view(x@).len() == x.len(),
                    items_view(y@).len() == y.len(),
                    forall|k: int| 0 <= k < x.len() ==> #[trigger] items_view(x@)[k] == json_view(x@[k]),
                    forall|k: int| 0 <= k < y.len() ==> #[trigger] items_view(y@)[k] == json_view(y@[k]),
                    forall|k: int| 0 <= k < i ==> items_view(x@)[k] == items_view(y@)[k],
                decreases x.len() - i,
            {
                proof {
                    assert(decreases_to!(*a => (*a)->Array_0));
                    assert(decreases_to!(*x => x@));
                    assert(decreases_to!(x@ => x@[i as int]));
                }
                if !json_equal(&x[i], &y[i]) {
                    proof {
                        assert(items_view(x@)[i as int] != items_view(y@)[i as int]);
                    }
                    return false;
                }
                i = i + 1;
            }
            proof {
                assert(items_view(x@) =~= items_view(y@));
            }
            true
        },
        (JsonValue::Object(x), JsonValue::Object(y)) => {
            proof {
                lemma_members_view(x@);
                lemma_members_view(y@);
            }
            if x.len() != y.len() {
                return false;
            }
            let mut i: usize = 0;
            while i < x.len()
                invariant
                    i <= x.len() == y.len(),
                    *a == JsonValue::Object(*x),
                    *b == JsonValue::Object(*y),
                    members_view(x@).len() == x.len(),
                    members_view(y@).len() == y.len(),
                    forall|k: int| 0 <= k < x.len() ==> #[trigger] members_view(x@)[k] == (x@[k].key@, json_view(x@[k].value)),
                    forall|k: int| 0 <= k < y.len() ==> #[trigger] members_view(y@)[k] == (y@[k].key@, json_view(y@[k].value)),
                    forall|k: int| 0 <= k < i ==> members_view(x@)[k] == members_view(y@)[k],
                decreases x.len() - i,
            {
                proof {
                    assert(decreases_to!(*a => (*a)->Object_0));
                    assert(decreases_to!(*x => x@));
                    assert(decreases_to!(x@ => x@[i as int]));
                    assert(decreases_to!(x@[i as int] => x@[i as int].value));
                }
                if !str_eq(x[i].key.as_str(), y[i].key.as_str()) || !json_equal(&x[i].value, &y[i].value) {
                    proof {
                        assert(members_view(x@)[i as int] != members_view(y@)[i as int]);
                    }
                    return false;
                }
                i = i + 1;
            }
            proof {
                assert(members_view(x@) =~= members_view(y@));
            }
            true
        },
        _ => false,
    }
}

/// The members that record when a snapshot was made, not what it says.
pub open spec fn is_volatile(key: Seq<char>) -> bool {
    key == "generated_at"@ || key == "fetched_at"@ || key == "updated_at"@
}

/// The content of a document: every object member that records a moment
/// of making removed, at every depth.
pub open spec fn semantic_view(v: JsonView) -> JsonView
    decreases v,
{
    match v {
        JsonView::Array(items) => JsonView::Array(semantic_items(items)),
        JsonView::Object(members) => JsonView::Object(semantic_members(members)),
        _ => v,
    }
}

pub open spec fn semantic_items(items: Seq<JsonView>) -> Seq<JsonView>
    decreases items,
{
    if items.len() == 0 {
        Seq::empty()
    } else {
        semantic_items(items.drop_last()).push(semantic_view(items.last()))
    }
}

pub open spec fn semantic_members(members: Seq<(Seq<char>, JsonView)>) -> Seq<(Seq<char>, JsonView)>
    decreases members,
{
    if members.len() == 0 {
        Seq::empty()
    } else {
        let rest = semantic_members(members.drop_last());
        if is_volatile(members.last().0) {
            rest
        } else {
            rest.push((members.last().0, semantic_view(members.last().1)))
        }
    }
}

/// The content of a document: every object member named `generated_at`,
/// `fetched_at` or `updated_at` removed, at every depth.
pub fn semantic(value: &JsonValue) -> (res: JsonValue)
    ensures
        res@ == semantic_view(value@),
        json_wf(value@) ==> json_wf(res@),
    decreases value,
{
    proof {
        if json_wf(value@) {
            lemma_semantic_wf(value@);
        }
    }
    match value {
        JsonValue::Null => JsonValue::Null,
        JsonValue::Bool(b) => JsonValue::Bool(*b),
        JsonValue::Number(n) => JsonValue::Number(*n),
        JsonValue::String(s) => JsonValue::String(s.clone()),
        JsonValue::Array(items) => {
            proof {
                lemma_items_view(items@);
            }
            let ghost iv = items_view(items@);
            let mut out: Vec<JsonValue> = Vec::new();
            let mut i: usize = 0;
            proof {
                assert(iv.take(0) =~= Seq::<JsonView>::empty());
            }
            while i < items.len()
                invariant
                    i <= items.len(),
                    *value == JsonValue::Array(*items),
                    iv == items_view(items@),
                    iv.len() == items.len(),
                    forall|k: int| 0 <= k < items.len() ==> #[trigger] iv[k] == json_view(items@[k]),
                    items_view(out@) == semantic_items(iv.take(i as int)),
                decreases items.len() - i,
            {
                proof {
                    assert(decreases_to!(*value => (*value)->Array_0));
                    assert(decreases_to!(*items => items@));
                    assert(decreases_to!(items@ => items@[i as int]));
                }
                let e = semantic(&items[i]);
                let ghost prev = out@;
                out.push(e);
                proof {
                    assert(out@.drop_last() =~= prev);
                    assert(iv.take(i + 1).drop_last() =~= iv.take(i as int));
                }
                i = i + 1;
            }
            proof {
                assert(iv.take(i as int) =~= iv);
            }
            JsonValue::Array(out)
        },
        JsonValue::Object(members) => {
            proof {
                lemma_members_view(members@);
            }
            let ghost mv = members_view(members@);
            let mut out: Vec<JsonMember> = Vec::new();
            let mut i: usize = 0;
            proof {
                assert(mv.take(0) =~= Seq::<(Seq<char>, JsonView)>::empty());
            }
            while i < members.len()
                invariant
                    i <= members.len(),
                    *value == JsonValue::Object(*members),
                    mv == members_view(members@),
                    mv.len() == members.len(),
                    forall|k: int| 0 <= k < members.len() ==> #[trigger] mv[k] == (members@[k].key@, json_view(members@[k].value)),
                    members_view(out@) == semantic_members(mv.take(i as int)),
                decreases members.len() - i,
            {
                let key = members[i].key.as_str();
                proof {
                    assert(mv.take(i + 1).drop_last() =~= mv.take(i as int));
                    assert(mv.take(i + 1).last() == mv[i as int]);
                }
                if !(str_eq(key, "generated_at") || str_eq(key, "fetched_at") || str_eq(key, "updated_at")) {
                    proof {
                        assert(decreases_to!(*value => (*value)->Object_0));
                        assert(decreases_to!(*members => members@));
                        assert(decreases_to!(members@ => members@[i as int]));
                        assert(decreases_to!(members@[i as int] => members@[i as int].value));
                    }
                    let child = semantic(&members[i].value);
                    let ghost prev = out@;
                    out.push(JsonMember { key: members[i].key.clone(), value: child });
                    proof {
                        assert(out@.drop_last() =~= prev);
                    }
                }
                i = i + 1;
            }
            proof {
                assert(mv.take(i as int) =~= mv);
            }
            JsonValue::Object(out)
        },
    }
}

/// Whether a fresh snapshot says the same as the stored one: their
/// contents are the same once the moments of making are set aside.
pub fn same_content(stored: &JsonValue, fresh: &JsonValue) -> (res: bool)
    ensures
        res == (semantic_view(stored@) == semantic_view(fresh@)),
{
    let a = semantic(stored);
    let b = semantic(fresh);
    json_equal(&a, &b)
}

/// The value of the first member named `key` of an object's members.
pub open spec fn lookup(members: Seq<(Seq<char>, JsonView)>, key: Seq<char>) -> Option<JsonView>
    decreases members.len(),
{
    if members.len() == 0 {
        None
    } else {
        match lookup(members.drop_last(), key) {
            Some(v) => Some(v),
            None => if members.last().0 == key {
                Some(members.last().1)
            } else {
                None
            },
        }
    }
}

/// The text of the member `key`, when the document is an object and that
/// member holds a string (`Value::get` then `Value::as_str`).
pub open spec fn member_str(v: JsonView, key: Seq<char>) -> Option<Seq<char>> {
    match v {
        JsonView::Object(members) => match lookup(members, key) {
            Some(JsonView::Str(s)) => Some(s),
            _ => None,
        },
        _ => None,
    }
}

proof fn lemma_lookup_prefix(members: Seq<(Seq<char>, JsonView)>, key: Seq<char>, n: int)
    requires
        0 <= n <= members.len(),
        lookup(members.take(n), key) is Some,
    ensures
        lookup(members, key) == lookup(members.take(n), key),
    decreases members.len(),
{
    if n < members.len() {
        assert(members.drop_last().take(n) =~= members.take(n));
        lemma_lookup_prefix(members.drop_last(), key, n);
    } else {
        assert(members.take(n) =~= members);
    }
}

/// Reads the string member `key` of a document.
pub fn member_string(value: &JsonValue, key: &str) -> (res: Option<String>)
    ensures
        crate::pattern::opt_str_view(res) == member_str(value@, key@),
{
    match value {
        JsonValue::Object(members) => {
            proof {
                lemma_members_view(members@);
            }
            let ghost mv = members_view(members@);
            let mut i: usize = 0;
            proof {
                assert(mv.take(0) =~= Seq::<(Seq<char>, JsonView)>::empty());
            }
            while i < members.len()
                invariant
                    i <= members.len(),
                    *value == JsonValue::Object(*members),
                    mv == members_view(members@),
                    mv.len() == members.len(),
                    forall|k: int| 0 <= k < members.len() ==> #[trigger] mv[k] == (members@[k].key@, json_view(members@[k].value)),
                    lookup(mv.take(i as int), key@) is None,
                decreases members.len() - i,
            {
                proof {
                    assert(mv.take(i + 1).drop_last() =~= mv.take(i as int));
                    assert(mv.take(i + 1).last() == mv[i as int]);
                }
                if str_eq(members[i].key.as_str(), key) {
                    proof {
                        lemma_lookup_prefix(mv, key@, i + 1);
                    }
                    return match &members[i].value {
                        JsonValue::String(s) => Some(s.clone()),
                        _ => None,
                    };
                }
                i = i + 1;
            }
            proof {
                assert(mv.take(i as int) =~= mv);
            }
            None
        },
        _ => None,
    }
}

/// `n` in decimal, padded with zeros on the left to `width` digits
/// (`format!("{:0width$}", n)`).
pub open spec fn padded(n: nat, width: nat) -> Seq<char> {
    let d = decimal(n);
    if d.len() < width {
        Seq::new((width - d.len()) as nat, |i: int| '0') + d
    } else {
        d
    }
}

/// Writes `n` in decimal, zero-padded to `width` digits.
pub fn padded_decimal(n: u64, width: usize) -> (res: String)
    ensures
        res@ == padded(n as nat, width as nat),
{
    let mut digits = String::new();
    push_decimal(&mut digits, n);
    proof {
        assert(Seq::<char>::empty() + decimal(n as nat) =~= decimal(n as nat));
    }
    let len = digits.unicode_len();
    let mut out = String::new();
    if len < width {
        let mut k: usize = 0;
        while k < width - len
            invariant
                k <= width - len,
                out@ == Seq::new(k as nat, |i: int| '0'),
            decreases width - len - k,
        {
            crate::text::push_char(&mut out, '0');
            proof {
                assert(out@ =~= Seq::new((k + 1) as nat, |i: int| '0'));
            }
            k = k + 1;
        }
    }
    out.append(digits.as_str());
    out
}

/// Where a stored snapshot is archived, as path components under the
/// archive directory: year and month of its `generated_at`, then the
/// sanitised timestamp as file name; under `unknown` when the timestamp
/// does not parse, and as `unknown/unknown.json` when there is none.
pub open spec fn archive_spec(v: JsonView) -> Seq<Seq<char>> {
    match member_str(v, "generated_at"@) {
        None => seq!["unknown"@, "unknown.json"@],
        Some(g) => {
            let file = g.map_values(|c: char| sanitize_char(c)) + ".json"@;
            match rfc3339_year_month_spec(g) {
                Some((y, m)) => seq![padded(y as nat, 4), padded(m as nat, 2), file],
                None => seq!["unknown"@, file],
            }
        },
    }
}

/// The path, under the archive directory, where a stored snapshot is
/// archived when a newer one replaces it.
pub fn archive_path_for_snapshot(value: &JsonValue) -> (res: Vec<String>)
    ensures
        crate::text::views(res@) == archive_spec(value@),
{
    let generated_at = match member_string(value, "generated_at") {
        Some(g) => g,
        None => {
            let mut v: Vec<String> = Vec::new();
            v.push(String::from_str("unknown"));
            v.push(String::from_str("unknown.json"));
            proof {
                assert(crate::text::views(v@) =~= seq!["unknown"@, "unknown.json"@]);
            }
            return v;
        },
    };
    let mut file = sanitize_snapshot_name(generated_at.as_str());
    file.append(".json");
    let mut v: Vec<String> = Vec::new();
    match rfc3339_year_month(generated_at.as_str()) {
        Some((year, month)) => {
            v.push(padded_decimal(year as u64, 4));
            v.push(padded_decimal(month as u64, 2));
            v.push(file);
            proof {
                assert(crate::text::views(v@) =~= archive_spec(value@));
            }
        },
        None => {
            v.push(String::from_str("unknown"));
            v.push(file);
            proof {
                assert(crate::text::views(v@) =~= archive_spec(value@));
            }
        },
    }
    v
}

/// What to do with a fresh snapshot.
pub enum Update {
    /// The stored snapshot says the same: leave it.
    Unchanged,
    /// Write the fresh snapshot.
    Write,
    /// Archive the stored snapshot at this path under the archive
    /// directory (unless a file is already there), then write the fresh one.
    ArchiveThenWrite(Vec<String>),
}

/// The decision for a versioned snapshot: kept when its content is
/// unchanged; otherwise the stored one is archived before the fresh one is
/// written. With nothing stored, the fresh one is written.
pub fn versioned_update(stored: &Option<JsonValue>, fresh: &JsonValue) -> (res: Update)
    ensures
        match stored {
            None => res is Write,
            Some(old) => if semantic_view(old@) == semantic_view(fresh@) {
                res is Unchanged
            } else {
                res matches Update::ArchiveThenWrite(p) && crate::text::views(p@) == archive_spec(old@)
            },
        },
{
    match stored {
        None => Update::Write,
        Some(old) => if same_content(old, fresh) {
            Update::Unchanged
        } else {
            Update::ArchiveThenWrite(archive_path_for_snapshot(old))
        },
    }
}

/// The decision for a snapshot that keeps no history: kept when its
/// content is unchanged, written otherwise.
pub fn stable_update(stored: &Option<JsonValue>, fresh: &JsonValue) -> (res: Update)
    ensures
        match stored {
            None => res is Write,
            Some(old) => if semantic_view(old@) == semantic_view(fresh@) {
                res is Unchanged
            } else {
                res is Write
            },
        },
{
    match stored {
        None => Update::Write,
        Some(old) => if same_content(old, fresh) {
            Update::Unchanged
        } else {
            Update::Write
        },
    }
}

/// Setting aside the moments of making twice sets aside nothing more.
pub proof fn lemma_semantic_idempotent(v: JsonView)
    ensures
        semantic_view(semantic_view(v)) == semantic_view(v),
    decreases v,
{
    match v {
        JsonView::Array(items) => {
            lemma_semantic_items_idempotent(items);
        },
        JsonView::Object(members) => {
            lemma_semantic_members_idempotent(members);
        },
        _ => {},
    }
}

proof fn lemma_semantic_items_idempotent(items: Seq<JsonView>)
    ensures
        semantic_items(semantic_items(items)) == semantic_items(items),
    decreases items,
{
    if items.len() > 0 {
        lemma_semantic_items_idempotent(items.drop_last());
        lemma_semantic_idempotent(items.last());
        let s = semantic_items(items);
        assert(s.drop_last() =~= semantic_items(items.drop_last()));
    }
}

proof fn lemma_semantic_members_idempotent(members: Seq<(Seq<char>, JsonView)>)
    ensures
        semantic_members(semantic_members(members)) == semantic_members(members),
    decreases members,
{
    if members.len() > 0 {
        lemma_semantic_members_idempotent(members.drop_last());
        lemma_semantic_idempotent(members.last().1);
        let s = semantic_members(members);
        if !is_volatile(members.last().0) {
            assert(s.drop_last() =~= semantic_members(members.drop_last()));
        }
    }
}

/// A member recording a moment of making, added anywhere to an object,
/// does not change its content: snapshots that differ only in such a
/// member count as unchanged.
pub proof fn lemma_volatile_member_ignored(
    members: Seq<(Seq<char>, JsonView)>,
    i: int,
    key: Seq<char>,
    value: JsonView,
)
    requires
        is_volatile(key),
        0 <= i <= members.len(),
    ensures
        semantic_view(JsonView::Object(members.insert(i, (key, value)))) == semantic_view(
            JsonView::Object(members),
        ),
    decreases members.len(),
{
    lemma_volatile_members_ignored(members, i, key, value);
}

proof fn lemma_volatile_members_ignored(
    members: Seq<(Seq<char>, JsonView)>,
    i: int,
    key: Seq<char>,
    value: JsonView,
)
    requires
        is_volatile(key),
        0 <= i <= members.len(),
    ensures
        semantic_members(members.insert(i, (key, value))) == semantic_members(members),
    decreases members.len(),
{
    let m = members.insert(i, (key, value));
    if i == members.len() {
        assert(m.drop_last() =~= members);
    } else {
        assert(m.drop_last() =~= members.drop_last().insert(i, (key, value)));
        assert(m.last() == members.last());
        lemma_volatile_members_ignored(members.drop_last(), i, key, value);
    }
}

/// A document with no member that records a moment of making, at any
/// depth.
pub open spec fn volatile_free(v: JsonView) -> bool
    decreases v,
{
    match v {
        JsonView::Array(items) => items_volatile_free(items),
        JsonView::Object(members) => members_volatile_free(members),
        _ => true,
    }
}

pub open spec fn items_volatile_free(items: Seq<JsonView>) -> bool
    decreases items,
{
    items.len() > 0 ==> items_volatile_free(items.drop_last()) && volatile_free(items.last())
}

pub open spec fn members_volatile_free(members: Seq<(Seq<char>, JsonView)>) -> bool
    decreases members,
{
    members.len() > 0 ==> {
        &&& members_volatile_free(members.drop_last())
        &&& !is_volatile(members.last().0)
        &&& volatile_free(members.last().1)
    }
}

/// A document without members recording a moment of making is its own
/// content: setting those members aside leaves it as it is.
pub proof fn lemma_semantic_keeps_volatile_free(v: JsonView)
    requires
        volatile_free(v),
    ensures
        semantic_view(v) == v,
    decreases v,
{
    match v {
        JsonView::Array(items) => lemma_semantic_items_keep(items),
        JsonView::Object(members) => lemma_semantic_members_keep(members),
        _ => {},
    }
}

proof fn lemma_semantic_items_keep(items: Seq<JsonView>)
    requires
        items_volatile_free(items),
    ensures
        semantic_items(items) == items,
    decreases items,
{
    if items.len() > 0 {
        lemma_semantic_items_keep(items.drop_last());
        lemma_semantic_keeps_volatile_free(items.last());
        assert(items.drop_last().push(items.last()) =~= items);
    } else {
        assert(items =~= Seq::<JsonView>::empty());
    }
}

proof fn lemma_semantic_members_keep(members: Seq<(Seq<char>, JsonView)>)
    requires
        members_volatile_free(members),
    ensures
        semantic_members(members) == members,
    decreases members,
{
    if members.len() > 0 {
        lemma_semantic_members_keep(members.drop_last());
        lemma_semantic_keeps_volatile_free(members.last().1);
        assert(members.drop_last().push((members.last().0, members.last().1)) =~= members);
    } else {
        assert(members =~= Seq::<(Seq<char>, JsonView)>::empty());
    }
}

/// Two documents that differ at most in members recording a moment of
/// making, at any depth: such members may be added, dropped or changed;
/// everything else (other members in order, items in order, scalars) is
/// the same.
pub open spec fn volatile_variant(a: JsonView, b: JsonView) -> bool
    decreases a, 0nat,
{
    match (a, b) {
        (JsonView::Array(x), JsonView::Array(y)) => items_variant(x, y),
        (JsonView::Object(m), JsonView::Object(n)) => members_variant(m, n),
        (JsonView::Array(_), _) => false,
        (JsonView::Object(_), _) => false,
        _ => a == b,
    }
}

pub open spec fn items_variant(x: Seq<JsonView>, y: Seq<JsonView>) -> bool
    decreases x, y.len(),
{
    if x.len() == 0 || y.len() == 0 {
        x.len() == 0 && y.len() == 0
    } else {
        items_variant(x.drop_last(), y.drop_last()) && volatile_variant(x.last(), y.last())
    }
}

pub open spec fn members_variant(m: Seq<(Seq<char>, JsonView)>, n: Seq<(Seq<char>, JsonView)>) -> bool
    decreases m, n.len(),
{
    if m.len() > 0 && is_volatile(m.last().0) {
        members_variant(m.drop_last(), n)
    } else if n.len() > 0 && is_volatile(n.last().0) {
        members_variant(m, n.drop_last())
    } else if m.len() == 0 || n.len() == 0 {
        m.len() == 0 && n.len() == 0
    } else {
        &&& m.last().0 == n.last().0
        &&& volatile_variant(m.last().1, n.last().1)
        &&& members_variant(m.drop_last(), n.drop_last())
    }
}

/// Documents that differ only in members recording a moment of making, at
/// any depth, have the same content, so a fresh snapshot of that kind
/// leaves the stored one unchanged.
pub proof fn lemma_volatile_variant_same_content(a: JsonView, b: JsonView)
    requires
        volatile_variant(a, b),
    ensures
        semantic_view(a) == semantic_view(b),
    decreases a, 0nat,
{
    match (a, b) {
        (JsonView::Array(x), JsonView::Array(y)) => lemma_items_variant(x, y),
        (JsonView::Object(m), JsonView::Object(n)) => lemma_members_variant(m, n),
        _ => {},
    }
}

proof fn lemma_items_variant(x: Seq<JsonView>, y: Seq<JsonView>)
    requires
        items_variant(x, y),
    ensures
        semantic_items(x) == semantic_items(y),
    decreases x, y.len(),
{
    if x.len() > 0 && y.len() > 0 {
        lemma_items_variant(x.drop_last(), y.drop_last());
        lemma_volatile_variant_same_content(x.last(), y.last());
    }
}

proof fn lemma_members_variant(m: Seq<(Seq<char>, JsonView)>, n: Seq<(Seq<char>, JsonView)>)
    requires
        members_variant(m, n),
    ensures
        semantic_members(m) == semantic_members(n),
    decreases m, n.len(),
{
    if m.len() > 0 && is_volatile(m.last().0) {
        lemma_members_variant(m.drop_last(), n);
    } else if n.len() > 0 && is_volatile(n.last().0) {
        lemma_members_variant(m, n.drop_last());
    } else if m.len() > 0 && n.len() > 0 {
        lemma_members_variant(m.drop_last(), n.drop_last());
        lemma_volatile_variant_same_content(m.last().1, n.last().1);
    }
}

/// A year as `format!("{:04}", year)` writes it: zero-padded to four
/// characters, the sign counted among them.
pub open spec fn year_text(year: i32) -> Seq<char> {
    if year >= 0 {
        padded(year as nat, 4)
    } else {
        seq!['-'] + padded((0 - year) as nat, 3)
    }
}

/// Writes a year as `format!("{:04}", year)` does.
pub fn year_string(year: i32) -> (res: String)
    ensures
        res@ == year_text(year),
{
    if year >= 0 {
        padded_decimal(year as u64, 4)
    } else {
        let mut out = String::new();
        crate::text::push_char(&mut out, '-');
        let magnitude: u64 = (0 - (year as i64)) as u64;
        let digits = padded_decimal(magnitude, 3);
        out.append(digits.as_str());
        proof {
            assert(Seq::<char>::empty().push('-') =~= seq!['-']);
        }
        out
    }
}

/// Where the snapshot of a period is archived: the local date of its start
/// in `zone`, as year, month and day file.
pub open spec fn dated_archive_spec(start: i64, zone: Zone) -> Seq<Seq<char>> {
    let d = local_parts_spec(start, zone).date;
    seq![year_text(d.year), padded(d.month as nat, 2), padded(d.day as nat, 2) + ".json"@]
}

/// The archive path of a period that starts at `start`, under its
/// archive directory.
pub fn dated_archive_path(start: i64, zone: Zone) -> (res: Vec<String>)
    requires
        in_range(start as int),
    ensures
        crate::text::views(res@) == dated_archive_spec(start, zone),
{
    let local = local_parts(start, zone);
    let mut day = padded_decimal(local.date.day as u64, 2);
    day.append(".json");
    let mut v: Vec<String> = Vec::new();
    v.push(year_string(local.date.year));
    v.push(padded_decimal(local.date.month as u64, 2));
    v.push(day);
    proof {
        assert(crate::text::views(v@) =~= dated_archive_spec(start, zone));
    }
    v
}

/// Where the snapshot of a season is archived: its number as file name.
pub open spec fn season_archive_spec(number: u32) -> Seq<Seq<char>> {
    seq![decimal(number as nat) + ".json"@]
}

/// The archive path of a season, under the season archive directory.
pub fn season_archive_path(number: u32) -> (res: Vec<String>)
    ensures
        crate::text::views(res@) == season_archive_spec(number),
{
    let mut name = String::new();
    push_decimal(&mut name, number as u64);
    name.append(".json");
    proof {
        assert(Seq::<char>::empty() + decimal(number as nat) =~= decimal(number as nat));
    }
    let mut v: Vec<String> = Vec::new();
    v.push(name);
    proof {
        assert(crate::text::views(v@) =~= season_archive_spec(number));
    }
    v
}

/// Where a monthly Atomic Shop schedule is archived: its year, then its
/// month as file name.
pub open spec fn monthly_archive_spec(year: i32, month: u32) -> Seq<Seq<char>> {
    seq![year_text(year), padded(month as nat, 2) + ".json"@]
}

/// The archive path of a monthly schedule, under the archive directory.
pub fn monthly_archive_path(year: i32, month: u32) -> (res: Vec<String>)
    ensures
        crate::text::views(res@) == monthly_archive_spec(year, month),
{
    let mut file = padded_decimal(month as u64, 2);
    file.append(".json");
    let mut v: Vec<String> = Vec::new();
    v.push(year_string(year));
    v.push(file);
    proof {
        assert(crate::text::views(v@) =~= monthly_archive_spec(year, month));
    }
    v
}

/// The kept members' keys are keys of the members given.
proof fn lemma_semantic_members_keys(members: Seq<(Seq<char>, JsonView)>)
    ensures
        forall|i: int| 0 <= i < semantic_members(members).len() ==> keys_of(members).contains(
            #[trigger] semantic_members(members)[i].0,
        ),
    decreases members.len(),
{
    if members.len() > 0 {
        let p = members.drop_last();
        lemma_semantic_members_keys(p);
        let r = semantic_members(members);
        let d = semantic_members(p);
        assert forall|i: int| 0 <= i < r.len() implies keys_of(members).contains(#[trigger] r[i].0) by {
            if i < d.len() {
                assert(r[i] == d[i]);
                let j = choose|j: int| 0 <= j < keys_of(p).len() && keys_of(p)[j] == d[i].0;
                assert(keys_of(members)[j] == keys_of(p)[j]);
            } else {
                assert(r[i].0 == members.last().0);
                assert(keys_of(members)[members.len() - 1] == members.last().0);
            }
        }
    }
}

/// Setting aside the moments of making keeps a document well formed.
pub proof fn lemma_semantic_wf(v: JsonView)
    requires
        json_wf(v),
    ensures
        json_wf(semantic_view(v)),
    decreases v,
{
    match v {
        JsonView::Array(items) => {
            lemma_semantic_items_wf(items);
        },
        JsonView::Object(members) => {
            lemma_semantic_members_wf(members);
        },
        _ => {},
    }
}

proof fn lemma_semantic_items_wf(items: Seq<JsonView>)
    requires
        items_wf(items),
    ensures
        items_wf(semantic_items(items)),
    decreases items,
{
    if items.len() > 0 {
        lemma_semantic_items_wf(items.drop_last());
        lemma_semantic_wf(items.last());
        let s = semantic_items(items);
        assert(s.drop_last() =~= semantic_items(items.drop_last()));
    }
}

proof fn lemma_semantic_members_wf(members: Seq<(Seq<char>, JsonView)>)
    requires
        keys_ascending(members),
        members_wf(members),
    ensures
        keys_ascending(semantic_members(members)),
        members_wf(semantic_members(members)),
    decreases members,
{
    if members.len() > 0 {
        let p = members.drop_last();
        assert forall|i: int, j: int| 0 <= i < j < p.len() implies seq_lt(#[trigger] p[i].0, #[trigger] p[j].0) by {
            assert(p[i] == members[i] && p[j] == members[j]);
        }
        lemma_semantic_members_wf(p);
        lemma_semantic_wf(members.last().1);
        lemma_semantic_members_keys(p);
        let d = semantic_members(p);
        let r = semantic_members(members);
        if !is_volatile(members.last().0) {
            assert(r.drop_last() =~= d);
            assert forall|i: int, j: int| 0 <= i < j < r.len() implies seq_lt(#[trigger] r[i].0, #[trigger] r[j].0) by {
                if j < d.len() {
                    assert(r[i] == d[i] && r[j] == d[j]);
                } else {
                    assert(r[i] == d[i]);
                    assert(keys_of(p).contains(d[i].0));
                    let k = choose|k: int| 0 <= k < keys_of(p).len() && keys_of(p)[k] == d[i].0;
                    assert(members[k].0 == p[k].0);
                    assert(seq_lt(members[k].0, members[members.len() - 1].0));
                }
            }
        }
    }
}

} // verus!
