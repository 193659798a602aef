//! The Minerva schedule page and the plans Minerva sells, read from the
//! text lines of the pages.

use vstd::prelude::*;
use std::collections::HashMap;
use crate::clock::{in_range, rfc3339_spec, to_local_string, Zone};
use crate::config::LocaleConfig;
use crate::dom::{flatten_text, lines_spec, load_page, page_lines, Page};
use crate::error::FeedError;
use crate::model::{
    clone_items, item_views, opt_sale_view, sale_views, MinervaFeed, MinervaFeedView, MinervaItem,
    MinervaItemView, MinervaSale, MinervaSaleView, SourceRef, SourceRefView,
};
use crate::numbers::{parse_grouped_u32, parse_u32_spec, strip_separators};
use crate::order::{lemma_sort_permutes, lemma_sort_sorted, strict_weak_order, insert_pos, insert_sorted, lemma_insert_pos_step, lemma_insert_pos_stop, sort_by};
use crate::pattern::{regex_captures, regex_captures_spec, regex_is_valid, regex_valid_spec, group, group_spec};
use crate::text::{contains, contains_seq, lowercase_of, normalize, normalize_ws, occurs_at, starts_with, strip_prefix, to_lowercase, views};
use crate::timeparse::{group_u32, group_u32_spec, nuka_range_spec, parse_nuka_range};
use crate::nukaknights::events::first_range;

verus! {

broadcast use vstd::std_specs::hash::group_hash_axioms;

/// A Minerva list number: "List 3" or "Liste 3".
pub const LIST_PATTERN: &'static str = r"(?i)\b(?:List|Liste)\s*(\d+)\b";

/// A price line: "1,200 Gold".
pub const PRICE_PATTERN: &'static str = r"(?i)^([0-9][0-9.,]*)\s*Gold$";

/// The place named by a line starting "Location:" or "Ort:".
pub open spec fn location_of(l: Seq<char>) -> Option<Seq<char>> {
    if occurs_at(l, "Location:"@, 0) {
        Some(normalize(l.skip("Location:"@.len() as int)))
    } else if occurs_at(l, "Ort:"@, 0) {
        Some(normalize(l.skip("Ort:"@.len() as int)))
    } else {
        None
    }
}

/// The place named by the first line that names one.
pub open spec fn first_location(w: Seq<Seq<char>>) -> Option<Seq<char>>
    decreases w.len(),
{
    if w.len() == 0 {
        None
    } else {
        match first_location(w.drop_last()) {
            Some(x) => Some(x),
            None => location_of(w.last()),
        }
    }
}

pub open spec fn min_int(a: int, b: int) -> int {
    if a < b {
        a
    } else {
        b
    }
}

/// The sale announced by line `i`: a line mentioning Minerva and a list
/// number, followed within 18 lines (itself included) by a location and a
/// date range. A list number that does not fit a `u32` is an error.
pub open spec fn sale_at(lines: Seq<Seq<char>>, i: int, code: Seq<char>, zone: Zone, now: i64) -> Result<Option<MinervaSaleView>, FeedError> {
    let line = lines[i];
    let lower = lowercase_of(line);
    if !contains_seq(lower, "minerva"@) {
        Ok(None)
    } else {
        match regex_captures_spec(LIST_PATTERN@, line) {
            None => Ok(None),
            Some(c) => match group_u32_spec(c, 1) {
                None => Err(FeedError::InvalidListNumber),
                Some(list) => {
                    let big_sale = contains_seq(lower, "big sale"@) || contains_seq(lower, "sonderangebote"@);
                    let window = lines.subrange(i, min_int(i + 18, lines.len() as int));
                    let location = match first_location(window) {
                        Some(l) => l,
                        None => Seq::empty(),
                    };
                    match first_range(window, code, zone) {
                        None => Ok(None),
                        Some((s, e)) => if location.len() == 0 {
                            Ok(None)
                        } else {
                            Ok(
                                Some(
                                    MinervaSaleView {
                                        list,
                                        big_sale,
                                        location,
                                        starts_at: s,
                                        ends_at: e,
                                        starts_at_local: rfc3339_spec(s, zone),
                                        ends_at_local: rfc3339_spec(e, zone),
                                        active: s <= now && now < e,
                                        inventory_complete: false,
                                        items: Seq::empty(),
                                    },
                                ),
                            )
                        },
                    }
                },
            },
        }
    }
}

/// Sales are ordered by list number, then by start.
pub open spec fn sale_key_lt(a: MinervaSaleView, b: MinervaSaleView) -> bool {
    a.list < b.list || (a.list == b.list && a.starts_at < b.starts_at)
}

pub open spec fn sale_key_order() -> spec_fn(MinervaSaleView, MinervaSaleView) -> bool {
    |a: MinervaSaleView, b: MinervaSaleView| sale_key_lt(a, b)
}

/// Whether a sale with this list number and start is already known.
pub open spec fn has_key(s: Seq<MinervaSaleView>, list: u32, start: i64) -> bool {
    exists|k: int| 0 <= k < s.len() && (#[trigger] s[k]).list == list && s[k].starts_at == start
}

/// Adds a sale unless one with its list number and start is known.
pub open spec fn schedule_add(s: Seq<MinervaSaleView>, x: MinervaSaleView) -> Seq<MinervaSaleView> {
    if has_key(s, x.list, x.starts_at) {
        s
    } else {
        insert_sorted(s, x, sale_key_order())
    }
}

/// The sales announced by the first `n` lines.
pub open spec fn schedule_upto(lines: Seq<Seq<char>>, n: nat, code: Seq<char>, zone: Zone, now: i64) -> Result<Seq<MinervaSaleView>, FeedError>
    decreases n,
{
    if n == 0 {
        Ok(Seq::empty())
    } else {
        match schedule_upto(lines, (n - 1) as nat, code, zone, now) {
            Err(e) => Err(e),
            Ok(acc) => match sale_at(lines, n - 1, code, zone, now) {
                Err(e) => Err(e),
                Ok(None) => Ok(acc),
                Ok(Some(x)) => Ok(schedule_add(acc, x)),
            },
        }
    }
}

/// The Minerva schedule: one sale per list number and start, ordered by
/// list number and start.
pub open spec fn schedule_spec(lines: Seq<Seq<char>>, code: Seq<char>, zone: Zone, now: i64) -> Result<Seq<MinervaSaleView>, FeedError> {
    if !regex_valid_spec(LIST_PATTERN@) {
        Err(FeedError::InvalidPattern)
    } else {
        schedule_upto(lines, lines.len(), code, zone, now)
    }
}

proof fn lemma_schedule_error_persists(lines: Seq<Seq<char>>, k: nat, n: nat, code: Seq<char>, zone: Zone, now: i64)
    requires
        k <= n,
        schedule_upto(lines, k, code, zone, now) is Err,
    ensures
        schedule_upto(lines, n, code, zone, now) == schedule_upto(lines, k, code, zone, now),
    decreases n,
{
    if n > k {
        lemma_schedule_error_persists(lines, k, (n - 1) as nat, code, zone, now);
    }
}

/// The place named by the first line of `lines[from..to]` that names one.
fn first_location_exec(lines: &Vec<String>, from: usize, to: usize) -> (res: Option<String>)
    requires
        from <= to <= lines.len(),
    ensures
        crate::pattern::opt_str_view(res) == first_location(views(lines@).subrange(from as int, to as int)),
{
    let ghost w = views(lines@).subrange(from as int, to as int);
    let mut k: usize = from;
    proof {
        assert(w.take(0) =~= Seq::<Seq<char>>::empty());
    }
    while k < to
        invariant
            from <= k <= to <= lines.len(),
            w == views(lines@).subrange(from as int, to as int),
            first_location(w.take(k - from)) is None,
        decreases to - k,
    {
        proof {
            assert(w.take(k - from + 1).drop_last() =~= w.take(k - from));
            assert(w.take(k - from + 1).last() == lines@[k as int]@);
            reveal_strlit("Location:");
            reveal_strlit("Ort:");
        }
        let found = match strip_prefix(lines[k].as_str(), "Location:") {
            Some(rest) => Some(normalize_ws(rest.as_str())),
            None => match strip_prefix(lines[k].as_str(), "Ort:") {
                Some(rest) => Some(normalize_ws(rest.as_str())),
                None => None,
            },
        };
        if found.is_some() {
            proof {
                lemma_first_location_prefix(w, k - from + 1);
            }
            return found;
        }
        k = k + 1;
    }
    proof {
        assert(w.take(k - from) =~= w);
    }
    None
}

proof fn lemma_first_location_prefix(w: Seq<Seq<char>>, n: int)
    requires
        0 <= n <= w.len(),
        first_location(w.take(n)) is Some,
    ensures
        first_location(w) == first_location(w.take(n)),
    decreases w.len(),
{
    if n < w.len() {
        assert(w.drop_last().take(n) =~= w.take(n));
        lemma_first_location_prefix(w.drop_last(), n);
    } else {
        assert(w.take(n) =~= w);
    }
}

/// The first date range among `lines[from..to]`.
fn first_range_in(lines: &Vec<String>, from: usize, to: usize, code: &str, zone: Zone) -> (res: Option<(i64, i64)>)
    requires
        from <= to <= lines.len(),
    ensures
        res == first_range(views(lines@).subrange(from as int, to as int), code@, zone),
        res matches Some((s, e)) ==> in_range(s as int) && in_range(e as int),
{
    let ghost w = views(lines@).subrange(from as int, to as int);
    let mut k: usize = from;
    while k < to
        invariant
            from <= k <= to <= lines.len(),
            w == views(lines@).subrange(from as int, to as int),
            first_range(w.take(k - from), code@, zone) is None,
        decreases to - k,
    {
        proof {
            assert(w.take(k - from + 1).drop_last() =~= w.take(k - from));
            assert(w.take(k - from + 1).last() == lines@[k as int]@);
        }
        let r = parse_nuka_range(lines[k].as_str(), code, zone);
        if r.is_some() {
            proof {
                lemma_first_range_prefix(w, code@, zone, k - from + 1);
            }
            return r;
        }
        k = k + 1;
    }
    proof {
        assert(w.take(k - from) =~= w);
    }
    None
}

proof fn lemma_first_range_prefix(texts: Seq<Seq<char>>, code: Seq<char>, zone: Zone, n: int)
    requires
        0 <= n <= texts.len(),
        first_range(texts.take(n), code, zone) is Some,
    ensures
        first_range(texts, code, zone) == first_range(texts.take(n), code, zone),
    decreases texts.len(),
{
    if n < texts.len() {
        assert(texts.drop_last().take(n) =~= texts.take(n));
        lemma_first_range_prefix(texts.drop_last(), code, zone, n);
    } else {
        assert(texts.take(n) =~= texts);
    }
}

/// The sale announced by line `i`.
pub fn sale_from_line(lines: &Vec<String>, i: usize, code: &str, zone: Zone, now: i64) -> (res: Result<Option<MinervaSale>, FeedError>)
    requires
        i < lines.len(),
    ensures
        match res {
            Ok(Some(x)) => sale_at(views(lines@), i as int, code@, zone, now) == Ok::<Option<MinervaSaleView>, FeedError>(Some(x@)),
            Ok(None) => sale_at(views(lines@), i as int, code@, zone, now) == Ok::<Option<MinervaSaleView>, FeedError>(None),
            Err(e) => sale_at(views(lines@), i as int, code@, zone, now) == Err::<Option<MinervaSaleView>, FeedError>(e),
        },
{
    let line = lines[i].as_str();
    proof {
        assert(views(lines@)[i as int] == lines@[i as int]@);
    }
    let lower = to_lowercase(line);
    if !contains(lower.as_str(), "minerva") {
        return Ok(None);
    }
    let caps = match regex_captures(LIST_PATTERN, line) {
        Some(c) => c,
        None => return Ok(None),
    };
    let list = match group_u32(&caps, 1) {
        Some(l) => l,
        None => return Err(FeedError::InvalidListNumber),
    };
    let big_sale = contains(lower.as_str(), "big sale") || contains(lower.as_str(), "sonderangebote");
    let end = if lines.len() - i > 18 {
        i + 18
    } else {
        lines.len()
    };
    let location = match first_location_exec(lines, i, end) {
        Some(l) => l,
        None => String::new(),
    };
    let (starts_at, ends_at) = match first_range_in(lines, i, end, code, zone) {
        Some(r) => r,
        None => return Ok(None),
    };
    if location.as_str().is_empty() {
        return Ok(None);
    }
    let items: Vec<MinervaItem> = Vec::new();
    proof {
        assert(item_views(items@) =~= Seq::<MinervaItemView>::empty());
    }
    Ok(
        Some(
            MinervaSale {
                list,
                big_sale,
                location,
                starts_at,
                ends_at,
                starts_at_local: to_local_string(starts_at, zone),
                ends_at_local: to_local_string(ends_at, zone),
                active: starts_at <= now && now < ends_at,
                inventory_complete: false,
                items,
            },
        ),
    )
}

/// Adds a sale to the schedule unless its list number and start are known.
fn schedule_insert(sched: Vec<MinervaSale>, x: MinervaSale) -> (res: Vec<MinervaSale>)
    ensures
        sale_views(res@) == schedule_add(sale_views(sched@), x@),
{
    let mut s = sched;
    let ghost sv = sale_views(s@);
    let mut k: usize = 0;
    while k < s.len()
        invariant
            k <= s.len(),
            s@ == sched@,
            sv == sale_views(s@),
            forall|m: int| 0 <= m < k ==> !(sv[m].list == x.list && sv[m].starts_at == x.starts_at),
        decreases s.len() - k,
    {
        if s[k].list == x.list && s[k].starts_at == x.starts_at {
            proof {
                assert(sv[k as int] == s@[k as int]@);
                assert(has_key(sv, x.list, x.starts_at));
                assert(schedule_add(sv, x@) == sv);
            }
            return s;
        }
        proof {
            assert(sv[k as int] == s@[k as int]@);
        }
        k = k + 1;
    }
    proof {
        assert(!has_key(sv, x.list, x.starts_at));
    }
    let ghost ord = sale_key_order();
    let mut j: usize = s.len();
    proof {
        assert(sv.take(j as int) =~= sv);
    }
    while j > 0 && (x.list < s[j - 1].list || (x.list == s[j - 1].list && x.starts_at < s[j - 1].starts_at))
        invariant
            j <= s.len(),
            sv == sale_views(s@),
            ord == sale_key_order(),
            insert_pos(sv, x@, ord) == insert_pos(sv.take(j as int), x@, ord),
        decreases j,
    {
        proof {
            assert(sv[j - 1] == s@[j - 1]@);
            lemma_insert_pos_step(sv, x@, ord, j as int);
        }
        j = j - 1;
    }
    proof {
        if j > 0 {
            assert(sv[j - 1] == s@[j - 1]@);
        }
        lemma_insert_pos_stop(sv, x@, ord, j as int);
    }
    let ghost xv = x@;
    s.insert(j, x);
    proof {
        assert(sale_views(s@) =~= sv.insert(j as int, xv));
    }
    s
}

/// The Minerva schedule read from the text lines of the schedule page.
pub fn schedule_from_lines(lines: &Vec<String>, locale: &LocaleConfig, now: i64) -> (res: Result<Vec<MinervaSale>, FeedError>)
    ensures
        match res {
            Ok(v) => schedule_spec(views(lines@), locale.code@, locale.timezone, now) == Ok::<Seq<MinervaSaleView>, FeedError>(sale_views(v@)),
            Err(e) => schedule_spec(views(lines@), locale.code@, locale.timezone, now) == Err::<Seq<MinervaSaleView>, FeedError>(e),
        },
{
    if !regex_is_valid(LIST_PATTERN) {
        return Err(FeedError::InvalidPattern);
    }
    let ghost lv = views(lines@);
    let mut out: Vec<MinervaSale> = Vec::new();
    let mut i: usize = 0;
    proof {
        assert(sale_views(out@) =~= Seq::<MinervaSaleView>::empty());
    }
    while i < lines.len()
        invariant
            i <= lines.len(),
            lv == views(lines@),
            regex_valid_spec(LIST_PATTERN@),
            schedule_upto(lv, i as nat, locale.code@, locale.timezone, now) == Ok::<Seq<MinervaSaleView>, FeedError>(sale_views(out@)),
        decreases lines.len() - i,
    {
        match sale_from_line(lines, i, locale.code, locale.timezone, now) {
            Err(e) => {
                proof {
                    assert(schedule_upto(lv, (i + 1) as nat, locale.code@, locale.timezone, now) == Err::<Seq<MinervaSaleView>, FeedError>(e));
                    lemma_schedule_error_persists(lv, (i + 1) as nat, lines.len() as nat, locale.code@, locale.timezone, now);
                    assert(lv.len() == lines.len());
                }
                return Err(e);
            },
            Ok(None) => {},
            Ok(Some(x)) => {
                out = schedule_insert(out, x);
            },
        }
        i = i + 1;
    }
    Ok(out)
}

/// The Minerva schedule of a page.
pub fn parse_minerva_schedule(page: &Page, locale: &LocaleConfig, now: i64) -> (res: Result<Vec<MinervaSale>, FeedError>)
    ensures
        match res {
            Ok(v) => schedule_spec(page_lines(page@), locale.code@, locale.timezone, now) == Ok::<Seq<MinervaSaleView>, FeedError>(sale_views(v@)),
            Err(e) => schedule_spec(page_lines(page@), locale.code@, locale.timezone, now) == Err::<Seq<MinervaSaleView>, FeedError>(e),
        },
{
    let lines = flatten_text(page);
    schedule_from_lines(&lines, locale, now)
}

/// The price on the first price line of `lines[from..to]`: its digits
/// (separators dropped) read as a `u32`. The outer `None` means no price
/// line; the inner one a price that did not parse.
pub open spec fn first_price(lines: Seq<Seq<char>>, from: int, to: int) -> Option<Option<u32>>
    decreases to - from,
{
    if from >= to {
        None
    } else {
        match regex_captures_spec(PRICE_PATTERN@, lines[from]) {
            Some(c) => Some(
                match group_spec(c, 1) {
                    Some(g) => parse_u32_spec(strip_separators(g)),
                    None => None,
                },
            ),
            None => first_price(lines, from + 1, to),
        }
    }
}

/// Whether line `c` starts the next Minerva list (looked for from the
/// fifth line after the list's own).
pub open spec fn next_list_starts(lines: Seq<Seq<char>>, i: int, c: int) -> bool {
    c > i + 4 && contains_seq(lowercase_of(lines[c]), "minerva"@) && regex_captures_spec(
        LIST_PATTERN@,
        lines[c],
    ) is Some
}

/// The plans listed from line `c` on, up to `stop` or the next list: each
/// "Plan:" or "Bauplan:" line with a price in the five lines after it.
pub open spec fn scan_items(lines: Seq<Seq<char>>, i: int, stop: int, c: int) -> Seq<MinervaItemView>
    decreases stop - c,
{
    if c >= stop || c < 0 {
        Seq::empty()
    } else if next_list_starts(lines, i, c) {
        Seq::empty()
    } else {
        let rest = scan_items(lines, i, stop, c + 1);
        let cand = lines[c];
        if occurs_at(cand, "Plan:"@, 0) || occurs_at(cand, "Bauplan:"@, 0) {
            match first_price(lines, c + 1, min_int(c + 6, stop)) {
                Some(Some(p)) => seq![MinervaItemView { name: cand, price_gold: p }] + rest,
                _ => rest,
            }
        } else {
            rest
        }
    }
}

/// The inventory announced by line `i`: its list number and plans, when the
/// line names a Minerva list and plans follow within 120 lines.
pub open spec fn inventory_at(lines: Seq<Seq<char>>, i: int) -> Option<(u32, Seq<MinervaItemView>)> {
    let line = lines[i];
    if !contains_seq(lowercase_of(line), "minerva"@) {
        None
    } else {
        match regex_captures_spec(LIST_PATTERN@, line) {
            None => None,
            Some(c) => match group_u32_spec(c, 1) {
                None => None,
                Some(list) => {
                    let items = scan_items(lines, i, min_int(i + 120, lines.len() as int), i + 1);
                    if items.len() == 0 {
                        None
                    } else {
                        Some((list, items))
                    }
                },
            },
        }
    }
}

/// Every line from `c` on, before `stop` and before the next list starts,
/// that begins with "Plan:" or "Bauplan:" and has a price line in the five
/// lines after it, is read as a plan at that price.
pub proof fn lemma_scan_items_reads_plans(lines: Seq<Seq<char>>, i: int, stop: int, c: int, j: int, price: u32)
    requires
        0 <= c <= j < stop,
        stop <= lines.len(),
        forall|m: int| c <= m <= j ==> !next_list_starts(lines, i, m),
        occurs_at(lines[j], "Plan:"@, 0) || occurs_at(lines[j], "Bauplan:"@, 0),
        first_price(lines, j + 1, min_int(j + 6, stop)) == Some(Some(price)),
    ensures
        scan_items(lines, i, stop, c).contains(MinervaItemView { name: lines[j], price_gold: price }),
    decreases j - c,
{
    let item = MinervaItemView { name: lines[j], price_gold: price };
    assert(!next_list_starts(lines, i, c));
    let rest = scan_items(lines, i, stop, c + 1);
    if j == c {
        assert(scan_items(lines, i, stop, c) == seq![item] + rest);
        assert((seq![item] + rest)[0] == item);
    } else {
        lemma_scan_items_reads_plans(lines, i, stop, c + 1, j, price);
        let r = scan_items(lines, i, stop, c);
        if r != rest {
            let cand = lines[c];
            let x = choose|x: MinervaItemView| r == seq![x] + rest;
            let k = choose|k: int| 0 <= k < rest.len() && rest[k] == item;
            assert(r[k + 1] == item);
        }
    }
}

/// Every plan read from line `c` on is a line that begins with "Plan:" or
/// "Bauplan:".
pub proof fn lemma_scan_items_are_plans(lines: Seq<Seq<char>>, i: int, stop: int, c: int)
    ensures
        forall|k: int| 0 <= k < scan_items(lines, i, stop, c).len() ==> {
            let n = #[trigger] scan_items(lines, i, stop, c)[k].name;
            occurs_at(n, "Plan:"@, 0) || occurs_at(n, "Bauplan:"@, 0)
        },
    decreases stop - c,
{
    if c < stop && c >= 0 && !next_list_starts(lines, i, c) {
        lemma_scan_items_are_plans(lines, i, stop, c + 1);
        let rest = scan_items(lines, i, stop, c + 1);
        let r = scan_items(lines, i, stop, c);
        assert forall|k: int| 0 <= k < r.len() implies {
            let n = #[trigger] r[k].name;
            occurs_at(n, "Plan:"@, 0) || occurs_at(n, "Bauplan:"@, 0)
        } by {
            if r != rest {
                if k > 0 {
                    assert(r[k] == rest[k - 1]);
                }
            }
        }
    }
}

/// The inventory a Minerva list line announces holds every plan line
/// after it (within 120 lines, before the next list) that has a price in
/// the five lines after it, at that price; with such a plan, a line naming
/// Minerva and a list number always announces an inventory.
pub proof fn lemma_inventory_reads_plans(lines: Seq<Seq<char>>, i: int, j: int, price: u32)
    requires
        0 <= i < j < min_int(i + 120, lines.len() as int),
        forall|m: int| i < m <= j ==> !next_list_starts(lines, i, m),
        occurs_at(lines[j], "Plan:"@, 0) || occurs_at(lines[j], "Bauplan:"@, 0),
        first_price(lines, j + 1, min_int(j + 6, min_int(i + 120, lines.len() as int))) == Some(Some(price)),
    ensures
        inventory_at(lines, i) matches Some((list, items)) ==> items.contains(MinervaItemView { name: lines[j], price_gold: price }),
        inventory_at(lines, i) is None ==> !contains_seq(lowercase_of(lines[i]), "minerva"@)
            || regex_captures_spec(LIST_PATTERN@, lines[i]) is None
            || group_u32_spec(regex_captures_spec(LIST_PATTERN@, lines[i])->0, 1) is None,
{
    lemma_scan_items_reads_plans(lines, i, min_int(i + 120, lines.len() as int), i + 1, j, price);
    assert(scan_items(lines, i, min_int(i + 120, lines.len() as int), i + 1).len() > 0);
}

/// The plans of one Minerva list, as one line announces them.
pub struct InventoryEntry {
    pub list: u32,
    pub items: Vec<MinervaItem>,
}

/// The plans of each Minerva list, by list number.
pub open spec fn inventory_view(m: Map<u32, Vec<MinervaItem>>) -> Map<u32, Seq<MinervaItemView>> {
    m.map_values(|v: Vec<MinervaItem>| item_views(v@))
}

/// The inventory of the first `n` lines: the first list announced under
/// each number wins.
pub open spec fn inventory_upto(lines: Seq<Seq<char>>, n: nat) -> Map<u32, Seq<MinervaItemView>>
    decreases n,
{
    if n == 0 {
        Map::empty()
    } else {
        let acc = inventory_upto(lines, (n - 1) as nat);
        match inventory_at(lines, n - 1) {
            Some((list, items)) => if acc.contains_key(list) {
                acc
            } else {
                acc.insert(list, items)
            },
            None => acc,
        }
    }
}

/// The plans of every Minerva list announced on the page.
pub open spec fn inventory_spec(lines: Seq<Seq<char>>) -> Result<Map<u32, Seq<MinervaItemView>>, FeedError> {
    if !regex_valid_spec(LIST_PATTERN@) || !regex_valid_spec(PRICE_PATTERN@) {
        Err(FeedError::InvalidPattern)
    } else {
        Ok(inventory_upto(lines, lines.len()))
    }
}

fn first_price_exec(lines: &Vec<String>, from: usize, to: usize) -> (res: Option<Option<u32>>)
    requires
        to <= lines.len(),
    ensures
        res == first_price(views(lines@), from as int, to as int),
    decreases to - from,
{
    if from >= to {
        return None;
    }
    proof {
        assert(views(lines@)[from as int] == lines@[from as int]@);
    }
    match regex_captures(PRICE_PATTERN, lines[from].as_str()) {
        Some(c) => Some(
            match group(&c, 1) {
                Some(g) => parse_grouped_u32(g.as_str()),
                None => None,
            },
        ),
        None => first_price_exec(lines, from + 1, to),
    }
}

fn scan_items_exec(lines: &Vec<String>, i: usize, stop: usize, c: usize) -> (res: Vec<MinervaItem>)
    requires
        stop <= lines.len(),
    ensures
        item_views(res@) == scan_items(views(lines@), i as int, stop as int, c as int),
    decreases stop - c,
{
    if c >= stop {
        let v: Vec<MinervaItem> = Vec::new();
        proof {
            assert(item_views(v@) =~= Seq::<MinervaItemView>::empty());
        }
        return v;
    }
    let cand = lines[c].as_str();
    proof {
        assert(views(lines@)[c as int] == lines@[c as int]@);
    }
    if c > i && c - i > 4 {
        let lower = to_lowercase(cand);
        if contains(lower.as_str(), "minerva") && regex_captures(LIST_PATTERN, cand).is_some() {
            let v: Vec<MinervaItem> = Vec::new();
            proof {
                assert(item_views(v@) =~= Seq::<MinervaItemView>::empty());
            }
            return v;
        }
    }
    let rest = scan_items_exec(lines, i, stop, c + 1);
    if starts_with(cand, "Plan:") || starts_with(cand, "Bauplan:") {
        let limit = if stop - c > 6 {
            c + 6
        } else {
            stop
        };
        match first_price_exec(lines, c + 1, limit) {
            Some(Some(p)) => {
                let mut v: Vec<MinervaItem> = Vec::new();
                v.push(MinervaItem { name: lines[c].clone(), price_gold: p });
                let mut k: usize = 0;
                proof {
                    assert(item_views(v@) =~= seq![MinervaItemView { name: lines@[c as int]@, price_gold: p }]);
                }
                while k < rest.len()
                    invariant
                        k <= rest.len(),
                        item_views(v@) == seq![MinervaItemView { name: lines@[c as int]@, price_gold: p }] + item_views(rest@).take(k as int),
                    decreases rest.len() - k,
                {
                    let ghost prev = v@;
                    v.push(rest[k].clone());
                    proof {
                        assert(item_views(v@) =~= item_views(prev).push(rest@[k as int]@));
                        assert(item_views(rest@).take(k + 1) =~= item_views(rest@).take(k as int).push(rest@[k as int]@));
                    }
                    k = k + 1;
                }
                proof {
                    assert(item_views(rest@).take(k as int) =~= item_views(rest@));
                }
                v
            },
            _ => rest,
        }
    } else {
        rest
    }
}

/// The plans announced by line `i`, when it names a Minerva list.
pub fn inventory_from_line(lines: &Vec<String>, i: usize) -> (res: Option<InventoryEntry>)
    requires
        i < lines.len(),
    ensures
        match res {
            Some(e) => inventory_at(views(lines@), i as int) == Some((e.list, item_views(e.items@))),
            None => inventory_at(views(lines@), i as int) is None,
        },
{
    let line = lines[i].as_str();
    proof {
        assert(views(lines@)[i as int] == lines@[i as int]@);
    }
    let lower = to_lowercase(line);
    if !contains(lower.as_str(), "minerva") {
        return None;
    }
    let caps = match regex_captures(LIST_PATTERN, line) {
        Some(c) => c,
        None => return None,
    };
    let list = match group_u32(&caps, 1) {
        Some(l) => l,
        None => return None,
    };
    let stop = if lines.len() - i > 120 {
        i + 120
    } else {
        lines.len()
    };
    let items = scan_items_exec(lines, i, stop, i + 1);
    if items.len() == 0 {
        None
    } else {
        Some(InventoryEntry { list, items })
    }
}

/// The plans of every Minerva list announced in the text lines of a page.
pub fn inventory_from_lines(lines: &Vec<String>) -> (res: Result<HashMap<u32, Vec<MinervaItem>>, FeedError>)
    ensures
        match res {
            Ok(m) => inventory_spec(views(lines@)) == Ok::<Map<u32, Seq<MinervaItemView>>, FeedError>(inventory_view(m@)),
            Err(e) => inventory_spec(views(lines@)) == Err::<Map<u32, Seq<MinervaItemView>>, FeedError>(e),
        },
{
    if !regex_is_valid(LIST_PATTERN) || !regex_is_valid(PRICE_PATTERN) {
        return Err(FeedError::InvalidPattern);
    }
    let ghost lv = views(lines@);
    let mut inv: HashMap<u32, Vec<MinervaItem>> = HashMap::new();
    let mut i: usize = 0;
    proof {
        assert(inventory_view(inv@) =~= Map::<u32, Seq<MinervaItemView>>::empty());
    }
    while i < lines.len()
        invariant
            i <= lines.len(),
            lv == views(lines@),
            inventory_view(inv@) == inventory_upto(lv, i as nat),
        decreases lines.len() - i,
    {
        match inventory_from_line(lines, i) {
            Some(e) => {
                let list = e.list;
                if !inv.contains_key(&list) {
                    let ghost prev = inv@;
                    let ghost items_view = item_views(e.items@);
                    inv.insert(list, e.items);
                    proof {
                        assert(inventory_view(inv@) =~= inventory_view(prev).insert(list, items_view));
                    }
                }
            },
            None => {},
        }
        i = i + 1;
    }
    Ok(inv)
}

/// The plans of every Minerva list announced on a page.
pub fn parse_minerva_inventory(page: &Page) -> (res: Result<HashMap<u32, Vec<MinervaItem>>, FeedError>)
    ensures
        match res {
            Ok(m) => inventory_spec(page_lines(page@)) == Ok::<Map<u32, Seq<MinervaItemView>>, FeedError>(inventory_view(m@)),
            Err(e) => inventory_spec(page_lines(page@)) == Err::<Map<u32, Seq<MinervaItemView>>, FeedError>(e),
        },
{
    let lines = flatten_text(page);
    inventory_from_lines(&lines)
}

/// A sale with the plans of its list, when the inventory names them.
pub open spec fn with_inventory(x: MinervaSaleView, inv: Map<u32, Seq<MinervaItemView>>) -> MinervaSaleView {
    if inv.contains_key(x.list) {
        let items = inv[x.list];
        MinervaSaleView {
            list: x.list,
            big_sale: x.big_sale,
            location: x.location,
            starts_at: x.starts_at,
            ends_at: x.ends_at,
            starts_at_local: x.starts_at_local,
            ends_at_local: x.ends_at_local,
            active: x.active,
            inventory_complete: items.len() > 0,
            items,
        }
    } else {
        x
    }
}

/// Sales are listed by start.
pub open spec fn sale_start_order() -> spec_fn(MinervaSaleView, MinervaSaleView) -> bool {
    |a: MinervaSaleView, b: MinervaSaleView| a.starts_at < b.starts_at
}

/// The first sale running at `now`.
pub open spec fn first_current(s: Seq<MinervaSaleView>, now: i64) -> Option<MinervaSaleView>
    decreases s.len(),
{
    if s.len() == 0 {
        None
    } else {
        match first_current(s.drop_last(), now) {
            Some(x) => Some(x),
            None => if s.last().starts_at <= now && now < s.last().ends_at {
                Some(s.last())
            } else {
                None
            },
        }
    }
}

/// The first sale starting after `now`.
pub open spec fn first_next(s: Seq<MinervaSaleView>, now: i64) -> Option<MinervaSaleView>
    decreases s.len(),
{
    if s.len() == 0 {
        None
    } else {
        match first_next(s.drop_last(), now) {
            Some(x) => Some(x),
            None => if s.last().starts_at > now {
                Some(s.last())
            } else {
                None
            },
        }
    }
}

/// The Minerva feed: the schedule with the plans of each list, ordered by
/// start, and the sale running at `now` and the next one.
pub open spec fn minerva_feed_spec(schedule: Seq<MinervaSaleView>, inv: Map<u32, Seq<MinervaItemView>>, url: Seq<char>, now: i64) -> MinervaFeedView {
    let sorted = sort_by(schedule.map_values(|x: MinervaSaleView| with_inventory(x, inv)), sale_start_order());
    MinervaFeedView {
        source: SourceRefView { provider: "Nuka Knights"@, url },
        current: first_current(sorted, now),
        next: first_next(sorted, now),
        schedule: sorted,
    }
}

/// The sales with the plans of their lists.
fn merge_inventory(schedule: Vec<MinervaSale>, inv: &HashMap<u32, Vec<MinervaItem>>) -> (res: Vec<MinervaSale>)
    ensures
        sale_views(res@) == sale_views(schedule@).map_values(|x: MinervaSaleView| with_inventory(x, inventory_view(inv@))),
{
    let mut out: Vec<MinervaSale> = Vec::new();
    let ghost iv = inventory_view(inv@);
    let mut i: usize = 0;
    proof {
        assert(sale_views(out@) =~= sale_views(schedule@).take(0).map_values(|x: MinervaSaleView| with_inventory(x, iv)));
    }
    while i < schedule.len()
        invariant
            i <= schedule.len(),
            iv == inventory_view(inv@),
            sale_views(out@) == sale_views(schedule@).take(i as int).map_values(|x: MinervaSaleView| with_inventory(x, iv)),
        decreases schedule.len() - i,
    {
        let mut sale = schedule[i].clone();
        match inv.get(&sale.list) {
            Some(items) => {
                sale.items = clone_items(items);
                sale.inventory_complete = sale.items.len() > 0;
            },
            None => {},
        }
        let ghost prev = out@;
        let ghost sv = sale@;
        out.push(sale);
        proof {
            assert(sale_views(out@) =~= sale_views(prev).push(sv));
            assert(sale_views(schedule@).take(i + 1).map_values(|x: MinervaSaleView| with_inventory(x, iv)) =~= sale_views(schedule@).take(i as int).map_values(|x: MinervaSaleView| with_inventory(x, iv)).push(with_inventory(schedule@[i as int]@, iv)));
            assert(sv == with_inventory(schedule@[i as int]@, iv));
        }
        i = i + 1;
    }
    proof {
        assert(sale_views(schedule@).take(i as int) =~= sale_views(schedule@));
    }
    out
}

/// The sale `first_current` finds is running at `now`, and it finds none
/// only when none is running.
pub proof fn lemma_first_current(s: Seq<MinervaSaleView>, now: i64)
    ensures
        first_current(s, now) matches Some(c) ==> c.starts_at <= now && now < c.ends_at && s.contains(c),
        first_current(s, now) is None ==> forall|k: int| 0 <= k < s.len() ==> !(#[trigger] s[k].starts_at <= now && now < s[k].ends_at),
    decreases s.len(),
{
    if s.len() > 0 {
        let p = s.drop_last();
        lemma_first_current(p, now);
        if first_current(p, now) is Some {
            let c = first_current(p, now)->0;
            let k = choose|k: int| 0 <= k < p.len() && p[k] == c;
            assert(s[k] == p[k]);
        } else {
            assert forall|k: int| 0 <= k < s.len() - 1 implies !(#[trigger] s[k].starts_at <= now && now < s[k].ends_at) by {
                assert(s[k] == p[k]);
            }
            assert(s[s.len() - 1] == s.last());
        }
    }
}

/// The sale `first_next` finds is the first one after `now`: in a list
/// ordered by start, no later sale starts before it. It finds none only
/// when every sale has started.
pub proof fn lemma_first_next(s: Seq<MinervaSaleView>, now: i64)
    requires
        forall|i: int, j: int| 0 <= i < j < s.len() ==> s[i].starts_at <= s[j].starts_at,
    ensures
        first_next(s, now) matches Some(x) ==> x.starts_at > now && s.contains(x) && forall|k: int|
            0 <= k < s.len() && #[trigger] s[k].starts_at > now ==> x.starts_at <= s[k].starts_at,
        first_next(s, now) is None ==> forall|k: int| 0 <= k < s.len() ==> #[trigger] s[k].starts_at <= now,
    decreases s.len(),
{
    if s.len() > 0 {
        let p = s.drop_last();
        assert forall|i: int, j: int| 0 <= i < j < p.len() implies p[i].starts_at <= p[j].starts_at by {
            assert(p[i] == s[i] && p[j] == s[j]);
        }
        lemma_first_next(p, now);
        if first_next(p, now) is Some {
            let x = first_next(p, now)->0;
            let k0 = choose|k: int| 0 <= k < p.len() && p[k] == x;
            assert(s[k0] == p[k0]);
            assert forall|k: int| 0 <= k < s.len() && #[trigger] s[k].starts_at > now implies x.starts_at <= s[k].starts_at by {
                if k < s.len() - 1 {
                    assert(s[k] == p[k]);
                } else {
                    assert(s[k0].starts_at <= s[k].starts_at);
                }
            }
        } else {
            assert forall|k: int| 0 <= k < s.len() - 1 implies #[trigger] s[k].starts_at <= now by {
                assert(s[k] == p[k]);
            }
            assert(s[s.len() - 1] == s.last());
        }
    }
}

/// Ordering sales by start is a strict weak order.
pub proof fn lemma_sale_start_order_weak()
    ensures
        strict_weak_order(sale_start_order()),
{
}

/// The sales ordered by start; equal starts keep their order.
pub fn sort_sales_by_start(sales: &Vec<MinervaSale>) -> (res: Vec<MinervaSale>)
    ensures
        sale_views(res@) == sort_by(sale_views(sales@), sale_start_order()),
        sale_views(res@).to_multiset() == sale_views(sales@).to_multiset(),
        forall|k: int, m: int| 0 <= k < m < res@.len() ==> res@[k].starts_at <= res@[m].starts_at,
{
    let ghost ord = sale_start_order();
    let mut out: Vec<MinervaSale> = Vec::new();
    let mut i: usize = 0;
    proof {
        assert(sale_views(sales@).take(0) =~= Seq::<MinervaSaleView>::empty());
        assert(sale_views(out@) =~= Seq::<MinervaSaleView>::empty());
    }
    while i < sales.len()
        invariant
            i <= sales.len(),
            ord == sale_start_order(),
            sale_views(out@) == sort_by(sale_views(sales@).take(i as int), ord),
        decreases sales.len() - i,
    {
        let x = sales[i].clone();
        let ghost ov = sale_views(out@);
        let mut j: usize = out.len();
        proof {
            assert(ov.take(j as int) =~= ov);
        }
        while j > 0 && x.starts_at < out[j - 1].starts_at
            invariant
                j <= out.len(),
                ov == sale_views(out@),
                ord == sale_start_order(),
                insert_pos(ov, x@, ord) == insert_pos(ov.take(j as int), x@, ord),
            decreases j,
        {
            proof {
                assert(ov[j - 1] == out@[j - 1]@);
                lemma_insert_pos_step(ov, x@, ord, j as int);
            }
            j = j - 1;
        }
        proof {
            if j > 0 {
                assert(ov[j - 1] == out@[j - 1]@);
            }
            lemma_insert_pos_stop(ov, x@, ord, j as int);
        }
        let ghost xv = x@;
        out.insert(j, x);
        proof {
            let t = sale_views(sales@).take(i + 1);
            assert(t.drop_last() =~= sale_views(sales@).take(i as int));
            assert(t.last() == xv);
            assert(sale_views(out@) =~= ov.insert(j as int, xv));
        }
        i = i + 1;
    }
    proof {
        assert(sale_views(sales@).take(i as int) =~= sale_views(sales@));
        lemma_sale_start_order_weak();
        lemma_sort_sorted(sale_views(sales@), sale_start_order());
        lemma_sort_permutes(sale_views(sales@), sale_start_order());
        assert forall|k: int, m: int| 0 <= k < m < out@.len() implies out@[k].starts_at <= out@[m].starts_at by {
            let v = sale_views(out@);
            assert(v[k] == out@[k]@ && v[m] == out@[m]@);
            assert(!sale_start_order()(v[m], v[k]));
        }
    }
    out
}

fn find_current(s: &Vec<MinervaSale>, now: i64) -> (res: Option<MinervaSale>)
    ensures
        opt_sale_view(res) == first_current(sale_views(s@), now),
{
    let ghost sv = sale_views(s@);
    let mut k: usize = 0;
    while k < s.len()
        invariant
            k <= s.len(),
            sv == sale_views(s@),
            first_current(sv.take(k as int), now) is None,
        decreases s.len() - k,
    {
        proof {
            assert(sv.take(k + 1).drop_last() =~= sv.take(k as int));
            assert(sv.take(k + 1).last() == s@[k as int]@);
        }
        if s[k].starts_at <= now && now < s[k].ends_at {
            proof {
                lemma_current_prefix(sv, now, k + 1);
            }
            return Some(s[k].clone());
        }
        k = k + 1;
    }
    proof {
        assert(sv.take(k as int) =~= sv);
    }
    None
}

proof fn lemma_current_prefix(s: Seq<MinervaSaleView>, now: i64, n: int)
    requires
        0 <= n <= s.len(),
        first_current(s.take(n), now) is Some,
    ensures
        first_current(s, now) == first_current(s.take(n), now),
    decreases s.len(),
{
    if n < s.len() {
        assert(s.drop_last().take(n) =~= s.take(n));
        lemma_current_prefix(s.drop_last(), now, n);
    } else {
        assert(s.take(n) =~= s);
    }
}

fn find_next(s: &Vec<MinervaSale>, now: i64) -> (res: Option<MinervaSale>)
    ensures
        opt_sale_view(res) == first_next(sale_views(s@), now),
{
    let ghost sv = sale_views(s@);
    let mut k: usize = 0;
    while k < s.len()
        invariant
            k <= s.len(),
            sv == sale_views(s@),
            first_next(sv.take(k as int), now) is None,
        decreases s.len() - k,
    {
        proof {
            assert(sv.take(k + 1).drop_last() =~= sv.take(k as int));
            assert(sv.take(k + 1).last() == s@[k as int]@);
        }
        if s[k].starts_at > now {
            proof {
                lemma_next_prefix(sv, now, k + 1);
            }
            return Some(s[k].clone());
        }
        k = k + 1;
    }
    proof {
        assert(sv.take(k as int) =~= sv);
    }
    None
}

proof fn lemma_next_prefix(s: Seq<MinervaSaleView>, now: i64, n: int)
    requires
        0 <= n <= s.len(),
        first_next(s.take(n), now) is Some,
    ensures
        first_next(s, now) == first_next(s.take(n), now),
    decreases s.len(),
{
    if n < s.len() {
        assert(s.drop_last().take(n) =~= s.take(n));
        lemma_next_prefix(s.drop_last(), now, n);
    } else {
        assert(s.take(n) =~= s);
    }
}

/// The Minerva feed from the schedule and the inventory.
pub fn minerva_feed(schedule: Vec<MinervaSale>, inventory: &HashMap<u32, Vec<MinervaItem>>, locale: &LocaleConfig, now: i64) -> (res: MinervaFeed)
    ensures
        res@ == minerva_feed_spec(sale_views(schedule@), inventory_view(inventory@), locale.nuka_minerva_url@, now),
        forall|i: int, j: int| 0 <= i < j < res@.schedule.len() ==> res@.schedule[i].starts_at <= res@.schedule[j].starts_at,
        res@.current matches Some(c) ==> c.starts_at <= now && now < c.ends_at && res@.schedule.contains(c),
        res@.current is None ==> forall|k: int| 0 <= k < res@.schedule.len() ==> !(#[trigger] res@.schedule[k].starts_at <= now && now < res@.schedule[k].ends_at),
        res@.next matches Some(x) ==> x.starts_at > now && res@.schedule.contains(x) && forall|k: int|
            0 <= k < res@.schedule.len() && #[trigger] res@.schedule[k].starts_at > now ==> x.starts_at <= res@.schedule[k].starts_at,
        res@.next is None ==> forall|k: int| 0 <= k < res@.schedule.len() ==> #[trigger] res@.schedule[k].starts_at <= now,
{
    let merged = merge_inventory(schedule, inventory);
    let sorted = sort_sales_by_start(&merged);
    let current = find_current(&sorted, now);
    let next = find_next(&sorted, now);
    proof {
        let sv = sale_views(sorted@);
        assert forall|i: int, j: int| 0 <= i < j < sv.len() implies sv[i].starts_at <= sv[j].starts_at by {
            assert(sv[i] == sorted@[i]@ && sv[j] == sorted@[j]@);
        }
        lemma_first_current(sv, now);
        lemma_first_next(sv, now);
    }
    MinervaFeed {
        source: SourceRef { provider: String::from_str("Nuka Knights"), url: String::from_str(locale.nuka_minerva_url) },
        current,
        next,
        schedule: sorted,
    }
}

/// The Minerva feed of a schedule page and a home page: the schedule read
/// from the schedule page's lines, refused when empty, with the plans read
/// from the home page's lines.
pub open spec fn minerva_result_spec(schedule_html: Seq<char>, home_html: Seq<char>, locale: LocaleConfig, now: i64) -> Result<MinervaFeedView, FeedError> {
    match schedule_spec(page_lines(schedule_html), locale.code@, locale.timezone, now) {
        Err(e) => Err(e),
        Ok(sched) => if sched.len() == 0 {
            Err(FeedError::NoMinervaSchedule)
        } else {
            match inventory_spec(page_lines(home_html)) {
                Err(e) => Err(e),
                Ok(inv) => Ok(minerva_feed_spec(sched, inv, locale.nuka_minerva_url@, now)),
            }
        },
    }
}

/// Builds the Minerva feed from the fetched schedule page and home page; a
/// schedule without sales is refused so that good data is not overwritten.
pub fn build_minerva_feed(schedule_html: &str, home_html: &str, locale: &LocaleConfig, now: i64) -> (res: Result<MinervaFeed, FeedError>)
    ensures
        match res {
            Ok(f) => minerva_result_spec(schedule_html@, home_html@, *locale, now) == Ok::<MinervaFeedView, FeedError>(f@),
            Err(e) => minerva_result_spec(schedule_html@, home_html@, *locale, now) == Err::<MinervaFeedView, FeedError>(e),
        },
{
    let schedule_page = load_page(schedule_html);
    let schedule = match parse_minerva_schedule(&schedule_page, locale, now) {
        Ok(s) => s,
        Err(e) => return Err(e),
    };
    if schedule.len() == 0 {
        return Err(FeedError::NoMinervaSchedule);
    }
    let home_page = load_page(home_html);
    let inventory = match parse_minerva_inventory(&home_page) {
        Ok(i) => i,
        Err(e) => return Err(e),
    };
    Ok(minerva_feed(schedule, &inventory, locale, now))
}

} // verus!
