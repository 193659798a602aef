//! The monthly Atomic Shop article on fallout.bethesda.net: its tables of
//! offers, each under an `h2`/`h3` heading that may name the week.

use vstd::prelude::*;
use crate::clock::{in_range, noon_eastern, rfc3339_spec, to_local_string, Date, Zone, local_to_utc_spec};
use crate::config::LocaleConfig;
use crate::error::FeedError;
use crate::model::{archived_view, archived_views, clone_opt_string, ArchivedOffer, AtomicShopArchive, offer_views, AtomicOffer, AtomicOfferView, AtomicShopFeed, AtomicShopFeedView, SourceRef, SourceRefView};
use crate::order::{lemma_sort_permutes, lemma_sort_sorted, sorted_by, strict_weak_order, insert_pos, lemma_insert_pos_bounds, lemma_insert_pos_step, lemma_insert_pos_stop, sort_by};
use crate::clock::zone_name;
use crate::dom::{element_text, element_texts, texts_of, element_views, load_page, select_page, select_page_within, select_page_within2, select_spec, select_within_spec, select_within2_spec, ElementData, ElementView, Page, NO_ATTR};
use crate::numbers::{decimal_int, parse_grouped_u32, parse_u32, parse_u32_spec, push_decimal_i64, strip_separators};
use crate::pattern::{find_spec, group, group_spec, regex_captures, regex_captures_spec, regex_find, regex_is_valid, regex_valid_spec, opt_str_view};
use crate::text::{ascii_lower, is_ascii_seq, is_ws, lemma_ascii_case_folds, trim_end_spec, trim_start_spec, node_text, lemma_seq_lt_asymmetric, lemma_seq_lt_total, lemma_seq_lt_transitive, seq_lt, str_lt, ascii_lower_seq, chars_of, contains, contains_seq, lowercase_of, to_ascii_lowercase, to_lowercase, views};
use crate::timeparse::{month_number_spec, month_of_key, month_day_spec, parse_month_day, week_start_from_heading, week_start_spec};

verus! {

/// The English name of a month; "Unknown" outside 1 to 12.
pub open spec fn month_name_spec(month: u32) -> Seq<char> {
    if month == 1 {
        "January"@
    } else if month == 2 {
        "February"@
    } else if month == 3 {
        "March"@
    } else if month == 4 {
        "April"@
    } else if month == 5 {
        "May"@
    } else if month == 6 {
        "June"@
    } else if month == 7 {
        "July"@
    } else if month == 8 {
        "August"@
    } else if month == 9 {
        "September"@
    } else if month == 10 {
        "October"@
    } else if month == 11 {
        "November"@
    } else if month == 12 {
        "December"@
    } else {
        "Unknown"@
    }
}

/// The English name of a month.
pub fn month_name(month: u32) -> (res: &'static str)
    ensures
        res@ == month_name_spec(month),
{
    match month {
        1 => "January",
        2 => "February",
        3 => "March",
        4 => "April",
        5 => "May",
        6 => "June",
        7 => "July",
        8 => "August",
        9 => "September",
        10 => "October",
        11 => "November",
        12 => "December",
        _ => "Unknown",
    }
}

/// A name without surrounding whitespace whose ASCII lowering is a known
/// month key reads back as that month, and so does the key itself.
proof fn lemma_name_reads_back(name: Seq<char>, key: Seq<char>, m: u32)
    requires
        name.len() > 0,
        !is_ws(name[0]),
        !is_ws(name.last()),
        is_ascii_seq(name),
        ascii_lower_seq(name) == key,
        month_of_key(key) == Some(m),
    ensures
        month_number_spec(name) == Some(m),
        month_number_spec(key) == Some(m),
{
    lemma_ascii_case_folds(name);
    assert(trim_start_spec(name) == name);
    assert(trim_end_spec(name) == name);
    assert(key[0] == ascii_lower(name[0]));
    assert(key.last() == ascii_lower(name.last()));
    assert(trim_start_spec(key) == key);
    assert(trim_end_spec(key) == key);
}

/// Reading a month's English name back, as written or lowered, gives the
/// month; "Unknown", the name of every other number, names no month.
pub proof fn lemma_month_name_round_trip(m: u32)
    ensures
        1 <= m <= 12 ==> month_number_spec(month_name_spec(m)) == Some(m),
        1 <= m <= 12 ==> month_number_spec(ascii_lower_seq(month_name_spec(m))) == Some(m),
        !(1 <= m <= 12) ==> month_number_spec(month_name_spec(m)) is None,
{
    reveal_strlit("jan");
    reveal_strlit("january");
    reveal_strlit("januar");
    reveal_strlit("feb");
    reveal_strlit("february");
    reveal_strlit("februar");
    reveal_strlit("mar");
    reveal_strlit("march");
    reveal_strlit("märz");
    reveal_strlit("maerz");
    reveal_strlit("apr");
    reveal_strlit("april");
    reveal_strlit("may");
    reveal_strlit("mai");
    reveal_strlit("jun");
    reveal_strlit("june");
    reveal_strlit("juni");
    reveal_strlit("jul");
    reveal_strlit("july");
    reveal_strlit("juli");
    reveal_strlit("aug");
    reveal_strlit("august");
    reveal_strlit("sep");
    reveal_strlit("sept");
    reveal_strlit("september");
    reveal_strlit("oct");
    reveal_strlit("october");
    reveal_strlit("oktober");
    reveal_strlit("nov");
    reveal_strlit("november");
    reveal_strlit("dec");
    reveal_strlit("december");
    reveal_strlit("dezember");
    reveal_strlit("unknown");
    if m == 1 {
        reveal_strlit("January");
        assert(ascii_lower_seq("January"@) =~= "january"@);
        lemma_name_reads_back("January"@, "january"@, 1);
    } else if m == 2 {
        reveal_strlit("February");
        assert(ascii_lower_seq("February"@) =~= "february"@);
        lemma_name_reads_back("February"@, "february"@, 2);
    } else if m == 3 {
        reveal_strlit("March");
        assert(ascii_lower_seq("March"@) =~= "march"@);
        lemma_name_reads_back("March"@, "march"@, 3);
    } else if m == 4 {
        reveal_strlit("April");
        assert(ascii_lower_seq("April"@) =~= "april"@);
        lemma_name_reads_back("April"@, "april"@, 4);
    } else if m == 5 {
        reveal_strlit("May");
        assert(ascii_lower_seq("May"@) =~= "may"@);
        lemma_name_reads_back("May"@, "may"@, 5);
    } else if m == 6 {
        reveal_strlit("June");
        assert(ascii_lower_seq("June"@) =~= "june"@);
        lemma_name_reads_back("June"@, "june"@, 6);
    } else if m == 7 {
        reveal_strlit("July");
        assert(ascii_lower_seq("July"@) =~= "july"@);
        lemma_name_reads_back("July"@, "july"@, 7);
    } else if m == 8 {
        reveal_strlit("August");
        assert(ascii_lower_seq("August"@) =~= "august"@);
        lemma_name_reads_back("August"@, "august"@, 8);
    } else if m == 9 {
        reveal_strlit("September");
        assert(ascii_lower_seq("September"@) =~= "september"@);
        lemma_name_reads_back("September"@, "september"@, 9);
    } else if m == 10 {
        reveal_strlit("October");
        assert(ascii_lower_seq("October"@) =~= "october"@);
        lemma_name_reads_back("October"@, "october"@, 10);
    } else if m == 11 {
        reveal_strlit("November");
        assert(ascii_lower_seq("November"@) =~= "november"@);
        lemma_name_reads_back("November"@, "november"@, 11);
    } else if m == 12 {
        reveal_strlit("December");
        assert(ascii_lower_seq("December"@) =~= "december"@);
        lemma_name_reads_back("December"@, "december"@, 12);
    } else {
        reveal_strlit("Unknown");
        let n = "Unknown"@;
        lemma_ascii_case_folds(n);
        assert(trim_start_spec(n) == n);
        assert(trim_end_spec(n) == n);
        assert(ascii_lower_seq(n) =~= "unknown"@);
        assert(month_of_key("unknown"@) is None);
    }
}

/// A monthly article to look for.
pub struct ArticleCandidate {
    pub url: String,
    pub year: i32,
    pub month: u32,
}

/// The year and month `k` months before `(year, month)`.
pub open spec fn months_back(year: i32, month: u32, k: nat) -> (int, int)
    decreases k,
{
    if k == 0 {
        (year as int, month as int)
    } else {
        let (y, m) = months_back(year, month, (k - 1) as nat);
        if m == 1 {
            (y - 1, 12)
        } else {
            (y, m - 1)
        }
    }
}

/// The address of the article for a month.
pub open spec fn article_url(bethesda_locale: Seq<char>, year: int, month: u32) -> Seq<char> {
    "https://fallout.bethesda.net/"@ + bethesda_locale + "/news/atomic-shop-monthly-update-"@
        + ascii_lower_seq(month_name_spec(month)) + "-"@ + decimal_int(year)
}

fn article_for(bethesda_locale: &str, year: i32, month: u32) -> (res: ArticleCandidate)
    ensures
        res.year == year,
        res.month == month,
        res.url@ == article_url(bethesda_locale@, year as int, month),
{
    let mut url = String::from_str("https://fallout.bethesda.net/");
    url.append(bethesda_locale);
    url.append("/news/atomic-shop-monthly-update-");
    let name = to_ascii_lowercase(month_name(month));
    url.append(name.as_str());
    url.append("-");
    push_decimal_i64(&mut url, year as i64);
    ArticleCandidate { url, year, month }
}

/// The articles to try, newest first: the current month and the two before
/// it. The first one that exists is the one read.
pub fn article_candidates(bethesda_locale: &str, year: i32, month: u32) -> (res: Vec<
    ArticleCandidate,
>)
    requires
        1 <= month <= 12,
        year > i32::MIN + 2,
    ensures
        res.len() == 3,
        forall|k: int|
            0 <= k < 3 ==> {
                let (y, m) = #[trigger] months_back(year, month, k as nat);
                &&& res[k].year == y
                &&& res[k].month == m
                &&& res[k].url@ == article_url(bethesda_locale@, y, res[k].month)
            },
{
    let mut out: Vec<ArticleCandidate> = Vec::new();
    let mut y = year;
    let mut m = month;
    let mut k: usize = 0;
    while k < 3
        invariant
            k <= 3,
            out.len() == k,
            1 <= m <= 12,
            y >= year - k as int,
            year > i32::MIN + 2,
            months_back(year, month, k as nat) == (y as int, m as int),
            forall|j: int|
                0 <= j < k ==> {
                    let (yy, mm) = #[trigger] months_back(year, month, j as nat);
                    &&& out[j].year == yy
                    &&& out[j].month == mm
                    &&& out[j].url@ == article_url(bethesda_locale@, yy, out[j].month)
                },
        decreases 3 - k,
    {
        out.push(article_for(bethesda_locale, y, m));
        if m == 1 {
            m = 12;
            y = y - 1;
        } else {
            m = m - 1;
        }
        k = k + 1;
    }
    out
}

/// Whether `value`, lowercased, contains one of the needles.
pub open spec fn matches_lower_spec(value: Seq<char>, needles: Seq<Seq<char>>) -> bool {
    exists|k: int| 0 <= k < needles.len() && contains_seq(lowercase_of(value), #[trigger] needles[k])
}

pub open spec fn str_views(v: Seq<&str>) -> Seq<Seq<char>> {
    v.map_values(|s: &str| s@)
}

/// Whether `value`, lowercased, contains one of the needles.
pub fn matches_lower(value: &str, needles: &[&str]) -> (res: bool)
    ensures
        res == matches_lower_spec(value@, str_views(needles@)),
{
    let lower = to_lowercase(value);
    let mut k: usize = 0;
    while k < needles.len()
        invariant
            k <= needles@.len(),
            lower@ == lowercase_of(value@),
            forall|j: int| 0 <= j < k ==> !contains_seq(lower@, #[trigger] str_views(needles@)[j]),
        decreases needles.len() - k,
    {
        if contains(lower.as_str(), needles[k]) {
            proof {
                assert(str_views(needles@)[k as int] == needles@[k as int]@);
            }
            return true;
        }
        proof {
            assert(str_views(needles@)[k as int] == needles@[k as int]@);
        }
        k = k + 1;
    }
    false
}

/// The index of the first header that matches the needles.
pub open spec fn first_match(headers: Seq<Seq<char>>, needles: Seq<Seq<char>>) -> Option<int>
    decreases headers.len(),
{
    if headers.len() == 0 {
        None
    } else {
        match first_match(headers.drop_last(), needles) {
            Some(i) => Some(i),
            None => if matches_lower_spec(headers.last(), needles) {
                Some(headers.len() - 1)
            } else {
                None
            },
        }
    }
}

/// The cell of `row` in the first column whose header matches the needles.
pub open spec fn cell_spec(headers: Seq<Seq<char>>, row: Seq<Seq<char>>, needles: Seq<Seq<char>>) -> Option<Seq<char>> {
    match first_match(headers, needles) {
        Some(i) => if i < row.len() {
            Some(row[i])
        } else {
            None
        },
        None => None,
    }
}

proof fn lemma_first_match_bounds(headers: Seq<Seq<char>>, needles: Seq<Seq<char>>)
    ensures
        first_match(headers, needles) matches Some(i) ==> 0 <= i < headers.len(),
    decreases headers.len(),
{
    if headers.len() > 0 {
        lemma_first_match_bounds(headers.drop_last(), needles);
    }
}

/// The cell of `row` in the first column whose header, lowercased,
/// contains one of the needles.
pub fn cell(headers: &Vec<String>, row: &Vec<String>, needles: &[&str]) -> (res: Option<String>)
    ensures
        opt_str_view(res) == cell_spec(views(headers@), views(row@), str_views(needles@)),
{
    let ghost hv = views(headers@);
    let ghost nv = str_views(needles@);
    let mut i: usize = 0;
    while i < headers.len()
        invariant
            i <= headers.len(),
            hv == views(headers@),
            nv == str_views(needles@),
            first_match(hv.take(i as int), nv) is None,
        decreases headers.len() - i,
    {
        proof {
            assert(hv.take(i + 1).drop_last() =~= hv.take(i as int));
            assert(hv.take(i + 1).last() == headers@[i as int]@);
        }
        if matches_lower(headers[i].as_str(), needles) {
            proof {
                lemma_first_match_bounds(hv, nv);
                lemma_first_match_prefix(hv, nv, i + 1);
            }
            if i < row.len() {
                return Some(row[i].clone());
            } else {
                return None;
            }
        }
        i = i + 1;
    }
    proof {
        assert(hv.take(i as int) =~= hv);
    }
    None
}

proof fn lemma_first_match_prefix(headers: Seq<Seq<char>>, needles: Seq<Seq<char>>, n: int)
    requires
        0 <= n <= headers.len(),
        first_match(headers.take(n), needles) is Some,
    ensures
        first_match(headers, needles) == first_match(headers.take(n), needles),
    decreases headers.len(),
{
    if n < headers.len() {
        assert(headers.drop_last().take(n) =~= headers.take(n));
        lemma_first_match_prefix(headers.drop_last(), needles, n);
    } else {
        assert(headers.take(n) =~= headers);
    }
}

/// A price in Atoms: the first number in the text, separators dropped.
pub const ATOMS_PATTERN: &'static str = r"\d[\d.,]*";

/// A discount: a number followed by a percent sign.
pub const DISCOUNT_PATTERN: &'static str = r"(\d+)\s*%";

pub open spec fn atoms_spec(value: Seq<char>) -> Option<u32> {
    if !regex_valid_spec(ATOMS_PATTERN@) {
        None
    } else {
        match find_spec(ATOMS_PATTERN@, value) {
            Some(m) => parse_u32_spec(strip_separators(m)),
            None => None,
        }
    }
}

pub open spec fn discount_spec(value: Seq<char>) -> Option<u32> {
    match regex_captures_spec(DISCOUNT_PATTERN@, value) {
        Some(c) => match group_spec(c, 1) {
            Some(m) => parse_u32_spec(m),
            None => None,
        },
        None => None,
    }
}

/// The price in Atoms written in a price cell ("1,260 (30% off!)" is 1260).
pub fn parse_atoms(value: &str) -> (res: Option<u32>)
    ensures
        res == atoms_spec(value@),
{
    if !regex_is_valid(ATOMS_PATTERN) {
        return None;
    }
    match regex_find(ATOMS_PATTERN, value) {
        Some(m) => parse_grouped_u32(m.as_str()),
        None => None,
    }
}

/// The discount in percent written in a price cell ("1,260 (30% off!)" is 30).
pub fn parse_discount(value: &str) -> (res: Option<u32>)
    ensures
        res == discount_spec(value@),
{
    let caps = match regex_captures(DISCOUNT_PATTERN, value) {
        Some(c) => c,
        None => return None,
    };
    match group(&caps, 1) {
        Some(m) => parse_u32(m.as_str()),
        None => None,
    }
}

/// The instant `days` days after `t`, unless that leaves chrono's range.
pub open spec fn shifted_spec(t: i64, days: int) -> Result<i64, FeedError> {
    if in_range(t + 86400 * days) {
        Ok((t + 86400 * days) as i64)
    } else {
        Err(FeedError::TimeOutOfRange)
    }
}

fn shift_days(t: i64, days: i64) -> (res: Result<i64, FeedError>)
    requires
        in_range(t as int),
        0 <= days <= 7,
    ensures
        res == shifted_spec(t, days as int),
        res matches Ok(x) ==> in_range(x as int),
{
    if t <= 8210266876799 - 86400 * days {
        Ok(t + 86400 * days)
    } else {
        Err(FeedError::TimeOutOfRange)
    }
}

pub open spec fn noon_spec(d: Date) -> Result<i64, FeedError> {
    match local_to_utc_spec(Zone::NewYork, d.year, d.month, d.day, 12, 0) {
        Some(t) => Ok(t),
        None => Err(FeedError::InvalidEasternDate(d)),
    }
}

pub open spec fn opt_noon_spec(d: Option<Date>) -> Result<Option<i64>, FeedError> {
    match d {
        None => Ok(None),
        Some(d) => match noon_spec(d) {
            Ok(t) => Ok(Some(t)),
            Err(e) => Err(e),
        },
    }
}

pub open spec fn opt_month_day(v: Option<Seq<char>>, year: i32) -> Option<Date> {
    match v {
        Some(s) => month_day_spec(s, year),
        None => None,
    }
}

/// The kind of an offer: "dated" when the table gives dates, "weekly" when
/// its heading names the week, "unscheduled" otherwise.
pub open spec fn offer_type_spec(dated: bool, weekly: bool) -> Seq<char> {
    if dated {
        "dated"@
    } else if weekly {
        "weekly"@
    } else {
        "unscheduled"@
    }
}

/// When an offer runs: a single day (noon to noon, New York time) when the
/// row names the day; otherwise from its first to its last day, falling back
/// to the week of the heading and to seven days after the start.
pub open spec fn window_spec(
    year: i32,
    week_start: Option<Date>,
    on: Option<Seq<char>>,
    from: Option<Seq<char>>,
    until: Option<Seq<char>>,
) -> Result<(Option<i64>, Option<i64>, Seq<char>), FeedError> {
    match opt_month_day(on, year) {
        Some(d) => match noon_spec(d) {
            Err(e) => Err(e),
            Ok(s) => match shifted_spec(s, 1) {
                Err(e) => Err(e),
                Ok(e1) => Ok((Some(s), Some(e1), "daily"@)),
            },
        },
        None => match opt_noon_spec(opt_month_day(from, year)) {
            Err(e) => Err(e),
            Ok(start0) => match opt_noon_spec(opt_month_day(until, year)) {
                Err(e) => Err(e),
                Ok(end0) => {
                    let start1 = if start0 is None {
                        opt_noon_spec(week_start)
                    } else {
                        Ok(start0)
                    };
                    match start1 {
                        Err(e) => Err(e),
                        Ok(start) => {
                            let end1 = if end0 is None {
                                match start {
                                    Some(s) => match shifted_spec(s, 7) {
                                        Ok(x) => Ok(Some(x)),
                                        Err(e) => Err(e),
                                    },
                                    None => Ok(None),
                                }
                            } else {
                                Ok(end0)
                            };
                            match end1 {
                                Err(e) => Err(e),
                                Ok(end) => Ok(
                                    (
                                        start,
                                        end,
                                        offer_type_spec(
                                            from is Some || until is Some,
                                            week_start is Some,
                                        ),
                                    ),
                                ),
                            }
                        },
                    }
                },
            },
        },
    }
}

pub open spec fn window_in_range(w: (Option<i64>, Option<i64>, Seq<char>)) -> bool {
    &&& (w.0 matches Some(s) ==> in_range(s as int))
    &&& (w.1 matches Some(e) ==> in_range(e as int))
}

fn opt_noon(d: Option<Date>) -> (res: Result<Option<i64>, FeedError>)
    ensures
        res == opt_noon_spec(d),
        res matches Ok(Some(t)) ==> in_range(t as int),
{
    match d {
        None => Ok(None),
        Some(d) => match noon_eastern(d) {
            Ok(t) => Ok(Some(t)),
            Err(e) => Err(e),
        },
    }
}

fn opt_parse_month_day(v: &Option<String>, year: i32) -> (res: Option<Date>)
    ensures
        res == opt_month_day(opt_str_view(*v), year),
{
    match v {
        Some(s) => parse_month_day(s.as_str(), year),
        None => None,
    }
}

/// When an offer runs and what kind of offer it is, from the row's
/// "available on", "available from" and "available until" cells and the
/// week named by the table's heading.
pub fn derive_window(
    year: i32,
    week_start: Option<Date>,
    available_on: &Option<String>,
    available_from: &Option<String>,
    available_until: &Option<String>,
) -> (res: Result<(Option<i64>, Option<i64>, String), FeedError>)
    ensures
        match res {
            Ok((s, e, t)) => window_spec(
                year,
                week_start,
                opt_str_view(*available_on),
                opt_str_view(*available_from),
                opt_str_view(*available_until),
            ) == Ok::<(Option<i64>, Option<i64>, Seq<char>), FeedError>((s, e, t@)),
            Err(err) => window_spec(
                year,
                week_start,
                opt_str_view(*available_on),
                opt_str_view(*available_from),
                opt_str_view(*available_until),
            ) == Err::<(Option<i64>, Option<i64>, Seq<char>), FeedError>(err),
        },
        res matches Ok((s, e, t)) ==> window_in_range((s, e, t@)),
{
    if let Some(on) = opt_parse_month_day(available_on, year) {
        let start = match noon_eastern(on) {
            Ok(s) => s,
            Err(e) => return Err(e),
        };
        let end = match shift_days(start, 1) {
            Ok(x) => x,
            Err(e) => return Err(e),
        };
        return Ok((Some(start), Some(end), String::from_str("daily")));
    }
    let mut start = match opt_noon(opt_parse_month_day(available_from, year)) {
        Ok(s) => s,
        Err(e) => return Err(e),
    };
    let mut end = match opt_noon(opt_parse_month_day(available_until, year)) {
        Ok(s) => s,
        Err(e) => return Err(e),
    };
    if start.is_none() {
        start = match opt_noon(week_start) {
            Ok(s) => s,
            Err(e) => return Err(e),
        };
    }
    if end.is_none() {
        end = match start {
            Some(s) => match shift_days(s, 7) {
                Ok(x) => Some(x),
                Err(e) => return Err(e),
            },
            None => None,
        };
    }
    let offer_type = if available_from.is_some() || available_until.is_some() {
        String::from_str("dated")
    } else if week_start.is_some() {
        String::from_str("weekly")
    } else {
        String::from_str("unscheduled")
    };
    Ok((start, end, offer_type))
}

/// Whether an offer is on sale at `now`: it has started, and it has not
/// ended (an offer without an end does not end).
pub open spec fn offer_active_spec(start: Option<i64>, end: Option<i64>, now: i64) -> bool {
    (match start {
        Some(s) => s <= now,
        None => false,
    }) && (match end {
        Some(e) => now < e,
        None => true,
    })
}

pub open spec fn local_opt_spec(t: Option<i64>, zone: Zone) -> Option<Seq<char>> {
    match t {
        Some(t) => Some(rfc3339_spec(t, zone)),
        None => None,
    }
}

/// Needles of the columns the parser reads.
pub open spec fn item_needles() -> Seq<Seq<char>> {
    seq!["item"@, "gegenstand"@]
}

pub open spec fn price_needles() -> Seq<Seq<char>> {
    seq!["atom"@, "price"@, "preis"@]
}

pub open spec fn on_needles() -> Seq<Seq<char>> {
    seq!["available on"@, "erhältlich am"@, "erhaeltlich am"@]
}

pub open spec fn from_needles() -> Seq<Seq<char>> {
    seq!["available from"@, "erhältlich ab"@, "erhaeltlich ab"@, "gültig ab"@, "gueltig ab"@]
}

pub open spec fn until_needles() -> Seq<Seq<char>> {
    seq!["available until"@, "erhältlich bis"@, "erhaeltlich bis"@, "gültig bis"@, "gueltig bis"@]
}

/// The offer in one table row, if the row names an item.
pub open spec fn row_offer_spec(
    headers: Seq<Seq<char>>,
    row: Seq<Seq<char>>,
    h2: Seq<char>,
    h3: Seq<char>,
    week_start: Option<Date>,
    year: i32,
    zone: Zone,
    now: i64,
) -> Result<Option<AtomicOfferView>, FeedError> {
    match cell_spec(headers, row, item_needles()) {
        None => Ok(None),
        Some(item) => if item.len() == 0 {
            Ok(None)
        } else {
            let price = match cell_spec(headers, row, price_needles()) {
                Some(p) => p,
                None => Seq::empty(),
            };
            match window_spec(
                year,
                week_start,
                cell_spec(headers, row, on_needles()),
                cell_spec(headers, row, from_needles()),
                cell_spec(headers, row, until_needles()),
            ) {
                Err(e) => Err(e),
                Ok((s, e, t)) => Ok(
                    Some(
                        AtomicOfferView {
                            item,
                            price_atoms: atoms_spec(price),
                            price_text: price,
                            discount_percent: discount_spec(price),
                            section: h2,
                            subsection: h3,
                            offer_type: t,
                            starts_at: s,
                            ends_at: e,
                            starts_at_local: local_opt_spec(s, zone),
                            ends_at_local: local_opt_spec(e, zone),
                            active: offer_active_spec(s, e, now),
                        },
                    ),
                ),
            }
        },
    }
}

fn local_opt(t: Option<i64>, zone: Zone) -> (res: Option<String>)
    requires
        t matches Some(x) ==> in_range(x as int),
    ensures
        opt_str_view(res) == local_opt_spec(t, zone),
{
    match t {
        Some(x) => Some(to_local_string(x, zone)),
        None => None,
    }
}

/// The first header that matches the needles is found.
proof fn lemma_first_match_at(headers: Seq<Seq<char>>, needles: Seq<Seq<char>>, k: int)
    requires
        0 <= k < headers.len(),
        matches_lower_spec(headers[k], needles),
        forall|j: int| 0 <= j < k ==> !matches_lower_spec(#[trigger] headers[j], needles),
    ensures
        first_match(headers, needles) == Some(k),
    decreases headers.len(),
{
    let p = headers.drop_last();
    if k < headers.len() - 1 {
        assert forall|j: int| 0 <= j < k implies !matches_lower_spec(#[trigger] p[j], needles) by {
            assert(p[j] == headers[j]);
        }
        assert(p[k] == headers[k]);
        lemma_first_match_at(p, needles, k);
    } else {
        lemma_first_match_none(p, needles);
    }
}

proof fn lemma_first_match_none(headers: Seq<Seq<char>>, needles: Seq<Seq<char>>)
    requires
        forall|j: int| 0 <= j < headers.len() ==> !matches_lower_spec(#[trigger] headers[j], needles),
    ensures
        first_match(headers, needles) is None,
    decreases headers.len(),
{
    if headers.len() > 0 {
        let p = headers.drop_last();
        assert forall|j: int| 0 <= j < p.len() implies !matches_lower_spec(#[trigger] p[j], needles) by {
            assert(p[j] == headers[j]);
        }
        lemma_first_match_none(p, needles);
        assert(!matches_lower_spec(headers[headers.len() - 1], needles));
    }
}

/// A row that names its day in the first column headed "available on",
/// "erhältlich am" or "erhaeltlich am" (in any case) is a daily offer: it
/// runs from noon New York time on that day to 24 hours later, and is
/// active exactly while `now` lies in that window.
pub proof fn lemma_available_on_is_daily(
    headers: Seq<Seq<char>>,
    row: Seq<Seq<char>>,
    h2: Seq<char>,
    h3: Seq<char>,
    week_start: Option<Date>,
    year: i32,
    zone: Zone,
    now: i64,
    k: int,
)
    requires
        0 <= k < headers.len(),
        k < row.len(),
        (contains_seq(lowercase_of(headers[k]), "available on"@) || contains_seq(lowercase_of(headers[k]), "erhältlich am"@) || contains_seq(lowercase_of(headers[k]), "erhaeltlich am"@)),
        forall|j: int| 0 <= j < k ==> !(contains_seq(lowercase_of(#[trigger] headers[j]), "available on"@) || contains_seq(lowercase_of(#[trigger] headers[j]), "erhältlich am"@) || contains_seq(lowercase_of(#[trigger] headers[j]), "erhaeltlich am"@)),
        month_day_spec(row[k], year) is Some,
    ensures
        row_offer_spec(headers, row, h2, h3, week_start, year, zone, now) matches Ok(Some(o)) ==> {
            let d = month_day_spec(row[k], year)->0;
            &&& local_to_utc_spec(Zone::NewYork, d.year, d.month, d.day, 12, 0) matches Some(s)
            &&& o.offer_type == "daily"@
            &&& o.starts_at == Some(s)
            &&& o.ends_at == Some((s + 86400) as i64)
            &&& o.active == (s <= now && now < s + 86400)
        },
{
    let nd = on_needles();
    assert forall|h: Seq<char>| matches_lower_spec(h, nd) <==> (contains_seq(lowercase_of(h), "available on"@) || contains_seq(lowercase_of(h), "erhältlich am"@) || contains_seq(lowercase_of(h), "erhaeltlich am"@)) by {
        if (contains_seq(lowercase_of(h), "available on"@) || contains_seq(lowercase_of(h), "erhältlich am"@) || contains_seq(lowercase_of(h), "erhaeltlich am"@)) {
            let lower = lowercase_of(h);
            if contains_seq(lower, "available on"@) {
                assert(contains_seq(lower, nd[0]));
            } else if contains_seq(lower, "erhältlich am"@) {
                assert(contains_seq(lower, nd[1]));
            } else {
                assert(contains_seq(lower, nd[2]));
            }
        }
        if matches_lower_spec(h, nd) {
            let i = choose|i: int| 0 <= i < nd.len() && contains_seq(lowercase_of(h), #[trigger] nd[i]);
            assert(i == 0 || i == 1 || i == 2);
        }
    }
    assert forall|j: int| 0 <= j < k implies !matches_lower_spec(#[trigger] headers[j], nd) by {
        assert(!(contains_seq(lowercase_of(headers[j]), "available on"@) || contains_seq(lowercase_of(headers[j]), "erhältlich am"@) || contains_seq(lowercase_of(headers[j]), "erhaeltlich am"@)));
    }
    lemma_first_match_at(headers, nd, k);
    assert(cell_spec(headers, row, nd) == Some(row[k]));
}

/// The offer in one table row.
pub fn row_offer(
    headers: &Vec<String>,
    row: &Vec<String>,
    h2: &String,
    h3: &String,
    week_start: Option<Date>,
    year: i32,
    zone: Zone,
    now: i64,
) -> (res: Result<Option<AtomicOffer>, FeedError>)
    ensures
        match res {
            Ok(Some(o)) => row_offer_spec(views(headers@), views(row@), h2@, h3@, week_start, year, zone, now) == Ok::<Option<AtomicOfferView>, FeedError>(Some(o@)),
            Ok(None) => row_offer_spec(views(headers@), views(row@), h2@, h3@, week_start, year, zone, now) == Ok::<Option<AtomicOfferView>, FeedError>(None),
            Err(e) => row_offer_spec(views(headers@), views(row@), h2@, h3@, week_start, year, zone, now) == Err::<Option<AtomicOfferView>, FeedError>(e),
        },
{
    proof {
        assert(str_views(["item", "gegenstand"]@) =~= item_needles());
        assert(str_views(["atom", "price", "preis"]@) =~= price_needles());
        assert(str_views(["available on", "erhältlich am", "erhaeltlich am"]@) =~= on_needles());
        assert(str_views(["available from", "erhältlich ab", "erhaeltlich ab", "gültig ab", "gueltig ab"]@) =~= from_needles());
        assert(str_views(["available until", "erhältlich bis", "erhaeltlich bis", "gültig bis", "gueltig bis"]@) =~= until_needles());
    }
    let item = match cell(headers, row, &["item", "gegenstand"]) {
        Some(i) => i,
        None => return Ok(None),
    };
    if item.as_str().is_empty() {
        return Ok(None);
    }
    let price_text = match cell(headers, row, &["atom", "price", "preis"]) {
        Some(p) => p,
        None => String::new(),
    };
    let available_on = cell(headers, row, &["available on", "erhältlich am", "erhaeltlich am"]);
    let available_from = cell(
        headers,
        row,
        &["available from", "erhältlich ab", "erhaeltlich ab", "gültig ab", "gueltig ab"],
    );
    let available_until = cell(
        headers,
        row,
        &["available until", "erhältlich bis", "erhaeltlich bis", "gültig bis", "gueltig bis"],
    );
    let (starts_at, ends_at, offer_type) = match derive_window(
        year,
        week_start,
        &available_on,
        &available_from,
        &available_until,
    ) {
        Ok(w) => w,
        Err(e) => return Err(e),
    };
    let active = (match starts_at {
        Some(s) => s <= now,
        None => false,
    }) && (match ends_at {
        Some(e) => now < e,
        None => true,
    });
    let price_atoms = parse_atoms(price_text.as_str());
    let discount_percent = parse_discount(price_text.as_str());
    Ok(
        Some(
            AtomicOffer {
                item,
                price_atoms,
                price_text,
                discount_percent,
                section: h2.clone(),
                subsection: h3.clone(),
                offer_type,
                starts_at,
                ends_at,
                starts_at_local: local_opt(starts_at, zone),
                ends_at_local: local_opt(ends_at, zone),
                active,
            },
        ),
    )
}

/// What the parser reads from the article, in document order: the `h2`
/// and `h3` headings and the tables (rows of cell texts, empty rows left
/// out).
pub enum Block {
    Heading2(String),
    Heading3(String),
    Table(Vec<Vec<String>>),
}

pub enum BlockView {
    Heading2(Seq<char>),
    Heading3(Seq<char>),
    Table(Seq<Seq<Seq<char>>>),
}

pub open spec fn rows_view(rows: Seq<Vec<String>>) -> Seq<Seq<Seq<char>>> {
    rows.map_values(|r: Vec<String>| views(r@))
}

impl View for Block {
    type V = BlockView;

    open spec fn view(&self) -> BlockView {
        match self {
            Block::Heading2(t) => BlockView::Heading2(t@),
            Block::Heading3(t) => BlockView::Heading3(t@),
            Block::Table(rows) => BlockView::Table(rows_view(rows@)),
        }
    }
}

pub open spec fn block_views(v: Seq<Block>) -> Seq<BlockView> {
    v.map_values(|b: Block| b@)
}

pub open spec fn offers_result(r: Result<Vec<AtomicOffer>, FeedError>) -> Result<Seq<AtomicOfferView>, FeedError> {
    match r {
        Ok(v) => Ok(offer_views(v@)),
        Err(e) => Err(e),
    }
}

/// The offers of rows 1 to `n - 1` of a table (row 0 holds the headers).
pub open spec fn rows_offers_spec(
    rows: Seq<Seq<Seq<char>>>,
    n: nat,
    h2: Seq<char>,
    h3: Seq<char>,
    week_start: Option<Date>,
    year: i32,
    zone: Zone,
    now: i64,
) -> Result<Seq<AtomicOfferView>, FeedError>
    decreases n,
{
    if n <= 1 {
        Ok(Seq::empty())
    } else {
        match rows_offers_spec(rows, (n - 1) as nat, h2, h3, week_start, year, zone, now) {
            Err(e) => Err(e),
            Ok(acc) => match row_offer_spec(rows[0], rows[n - 1], h2, h3, week_start, year, zone, now) {
                Err(e) => Err(e),
                Ok(None) => Ok(acc),
                Ok(Some(o)) => Ok(acc.push(o)),
            },
        }
    }
}

proof fn lemma_rows_error_persists(
    rows: Seq<Seq<Seq<char>>>,
    k: nat,
    n: nat,
    h2: Seq<char>,
    h3: Seq<char>,
    week_start: Option<Date>,
    year: i32,
    zone: Zone,
    now: i64,
)
    requires
        k <= n,
        rows_offers_spec(rows, k, h2, h3, week_start, year, zone, now) is Err,
    ensures
        rows_offers_spec(rows, n, h2, h3, week_start, year, zone, now) == rows_offers_spec(rows, k, h2, h3, week_start, year, zone, now),
    decreases n,
{
    if n > k {
        lemma_rows_error_persists(rows, k, (n - 1) as nat, h2, h3, week_start, year, zone, now);
    }
}

/// The week a table belongs to: the one its `h2` heading names, else the
/// one its `h3` heading names.
pub open spec fn table_week_spec(h2: Seq<char>, h3: Seq<char>, year: i32) -> Option<Date> {
    match week_start_spec(h2, year) {
        Some(d) => Some(d),
        None => week_start_spec(h3, year),
    }
}

/// The offers of one table; a table without a data row has none.
pub open spec fn table_offers_spec(
    rows: Seq<Seq<Seq<char>>>,
    h2: Seq<char>,
    h3: Seq<char>,
    year: i32,
    zone: Zone,
    now: i64,
) -> Result<Seq<AtomicOfferView>, FeedError> {
    if rows.len() < 2 {
        Ok(Seq::empty())
    } else {
        rows_offers_spec(rows, rows.len(), h2, h3, table_week_spec(h2, h3, year), year, zone, now)
    }
}

/// The offers of one table.
pub fn table_offers(
    rows: &Vec<Vec<String>>,
    h2: &String,
    h3: &String,
    year: i32,
    zone: Zone,
    now: i64,
) -> (res: Result<Vec<AtomicOffer>, FeedError>)
    ensures
        offers_result(res) == table_offers_spec(rows_view(rows@), h2@, h3@, year, zone, now),
{
    let ghost rv = rows_view(rows@);
    let mut out: Vec<AtomicOffer> = Vec::new();
    if rows.len() < 2 {
        proof {
            assert(offer_views(out@) =~= Seq::<AtomicOfferView>::empty());
        }
        return Ok(out);
    }
    let week_start = match week_start_from_heading(h2.as_str(), year) {
        Some(d) => Some(d),
        None => week_start_from_heading(h3.as_str(), year),
    };
    let headers = &rows[0];
    let mut i: usize = 1;
    proof {
        assert(offer_views(out@) =~= Seq::<AtomicOfferView>::empty());
    }
    while i < rows.len()
        invariant
            1 <= i <= rows.len(),
            rv == rows_view(rows@),
            headers == rows@[0],
            week_start == table_week_spec(h2@, h3@, year),
            rows_offers_spec(rv, i as nat, h2@, h3@, week_start, year, zone, now) == Ok::<Seq<AtomicOfferView>, FeedError>(offer_views(out@)),
        decreases rows.len() - i,
    {
        proof {
            assert(rv[0] == views(headers@));
            assert(rv[i as int] == views(rows@[i as int]@));
        }
        match row_offer(headers, &rows[i], h2, h3, week_start, year, zone, now) {
            Err(e) => {
                proof {
                    lemma_rows_error_persists(rv, (i + 1) as nat, rows.len() as nat, h2@, h3@, week_start, year, zone, now);
                }
                return Err(e);
            },
            Ok(None) => {},
            Ok(Some(o)) => {
                let ghost prev = out@;
                let ghost ov = o@;
                out.push(o);
                proof {
                    assert(offer_views(out@) =~= offer_views(prev).push(ov));
                }
            },
        }
        i = i + 1;
    }
    Ok(out)
}

/// The running state of the article walk: current `h2`, current `h3` and
/// the offers so far.
pub open spec fn blocks_state_spec(
    blocks: Seq<BlockView>,
    n: nat,
    year: i32,
    zone: Zone,
    now: i64,
) -> Result<(Seq<char>, Seq<char>, Seq<AtomicOfferView>), FeedError>
    decreases n,
{
    if n == 0 {
        Ok((Seq::empty(), Seq::empty(), Seq::empty()))
    } else {
        match blocks_state_spec(blocks, (n - 1) as nat, year, zone, now) {
            Err(e) => Err(e),
            Ok((h2, h3, acc)) => match blocks[n - 1] {
                BlockView::Heading2(t) => Ok((t, Seq::empty(), acc)),
                BlockView::Heading3(t) => Ok((h2, t, acc)),
                BlockView::Table(rows) => match table_offers_spec(rows, h2, h3, year, zone, now) {
                    Err(e) => Err(e),
                    Ok(new) => Ok((h2, h3, acc + new)),
                },
            },
        }
    }
}

proof fn lemma_blocks_error_persists(blocks: Seq<BlockView>, k: nat, n: nat, year: i32, zone: Zone, now: i64)
    requires
        k <= n,
        blocks_state_spec(blocks, k, year, zone, now) is Err,
    ensures
        blocks_state_spec(blocks, n, year, zone, now) == blocks_state_spec(blocks, k, year, zone, now),
    decreases n,
{
    if n > k {
        lemma_blocks_error_persists(blocks, k, (n - 1) as nat, year, zone, now);
    }
}

/// Appends copies of `new` to `offers`.
pub fn append_offers(offers: &mut Vec<AtomicOffer>, new: &Vec<AtomicOffer>)
    ensures
        offer_views(final(offers)@) == offer_views(old(offers)@) + offer_views(new@),
{
    let ghost before = offers@;
    let mut j: usize = 0;
    while j < new.len()
        invariant
            j <= new.len(),
            offer_views(offers@) == offer_views(before) + offer_views(new@).take(j as int),
        decreases new.len() - j,
    {
        let ghost prev = offers@;
        offers.push(new[j].clone());
        proof {
            assert(offer_views(offers@) =~= offer_views(prev).push(new@[j as int]@));
            assert(offer_views(new@).take(j + 1) =~= offer_views(new@).take(j as int).push(new@[j as int]@));
        }
        j = j + 1;
    }
    proof {
        assert(offer_views(new@).take(j as int) =~= offer_views(new@));
    }
}

/// Every offer of the article, in document order; a heading `h2` starts a
/// section and clears the subsection.
pub open spec fn offers_spec(blocks: Seq<BlockView>, year: i32, zone: Zone, now: i64) -> Result<Seq<AtomicOfferView>, FeedError> {
    match blocks_state_spec(blocks, blocks.len(), year, zone, now) {
        Ok((_, _, acc)) => Ok(acc),
        Err(e) => Err(e),
    }
}

/// Every offer of the article's tables, in document order.
pub fn offers_from_blocks(blocks: &Vec<Block>, year: i32, zone: Zone, now: i64) -> (res: Result<Vec<AtomicOffer>, FeedError>)
    ensures
        offers_result(res) == offers_spec(block_views(blocks@), year, zone, now),
{
    let ghost bv = block_views(blocks@);
    let mut h2 = String::new();
    let mut h3 = String::new();
    let mut offers: Vec<AtomicOffer> = Vec::new();
    let mut i: usize = 0;
    proof {
        assert(offer_views(offers@) =~= Seq::<AtomicOfferView>::empty());
    }
    while i < blocks.len()
        invariant
            i <= blocks.len(),
            bv == block_views(blocks@),
            blocks_state_spec(bv, i as nat, year, zone, now) == Ok::<(Seq<char>, Seq<char>, Seq<AtomicOfferView>), FeedError>((h2@, h3@, offer_views(offers@))),
        decreases blocks.len() - i,
    {
        proof {
            assert(bv[i as int] == blocks@[i as int]@);
        }
        match &blocks[i] {
            Block::Heading2(t) => {
                h2 = t.clone();
                h3 = String::new();
            },
            Block::Heading3(t) => {
                h3 = t.clone();
            },
            Block::Table(rows) => {
                match table_offers(rows, &h2, &h3, year, zone, now) {
                    Err(e) => {
                        proof {
                            lemma_blocks_error_persists(bv, (i + 1) as nat, blocks.len() as nat, year, zone, now);
                        }
                        return Err(e);
                    },
                    Ok(new) => {
                        append_offers(&mut offers, &new);
                    },
                }
            },
        }
        i = i + 1;
    }
    proof {
        assert(bv.len() == i);
    }
    Ok(offers)
}

/// `a` sorts strictly before `b` as instants: no instant sorts before any.
pub open spec fn opt_lt(a: Option<i64>, b: Option<i64>) -> bool {
    match (a, b) {
        (None, Some(_)) => true,
        (Some(x), Some(y)) => x < y,
        _ => false,
    }
}

/// Offers are ordered by start, then by item name.
pub open spec fn offer_lt(a: AtomicOfferView, b: AtomicOfferView) -> bool {
    opt_lt(a.starts_at, b.starts_at) || (a.starts_at == b.starts_at && seq_lt(a.item, b.item))
}

pub open spec fn offer_order() -> spec_fn(AtomicOfferView, AtomicOfferView) -> bool {
    |a: AtomicOfferView, b: AtomicOfferView| offer_lt(a, b)
}

fn offer_before(a: &AtomicOffer, b: &AtomicOffer) -> (res: bool)
    ensures
        res == offer_lt(a@, b@),
{
    let earlier = match (a.starts_at, b.starts_at) {
        (None, Some(_)) => true,
        (Some(x), Some(y)) => x < y,
        _ => false,
    };
    earlier || (a.starts_at == b.starts_at && str_lt(a.item.as_str(), b.item.as_str()))
}

/// Ordering offers by start, then by item, is a strict weak order.
pub proof fn lemma_offer_order_weak()
    ensures
        strict_weak_order(offer_order()),
{
    assert forall|a: AtomicOfferView, b: AtomicOfferView| #[trigger] offer_order()(a, b) implies !offer_order()(b, a) by {
        lemma_seq_lt_asymmetric(a.item, b.item);
    }
    assert forall|a: AtomicOfferView, b: AtomicOfferView, c: AtomicOfferView|
        #![trigger offer_order()(a, b), offer_order()(b, c)]
        !offer_order()(a, b) && !offer_order()(b, c) implies !offer_order()(a, c) by {
        lemma_seq_lt_total(a.item, b.item);
        lemma_seq_lt_total(b.item, c.item);
        lemma_seq_lt_transitive(c.item, b.item, a.item);
        lemma_seq_lt_asymmetric(a.item, c.item);
        lemma_seq_lt_asymmetric(c.item, a.item);
        if offer_lt(a, c) {
            if !offer_lt(a, b) && !offer_lt(b, c) {
                lemma_seq_lt_transitive(a.item, c.item, b.item);
                lemma_seq_lt_transitive(b.item, a.item, c.item);
            }
        }
    }
}

/// The offers sorted by start, then by item name; equal ones keep their
/// order.
pub fn sort_offers(offers: &Vec<AtomicOffer>) -> (res: Vec<AtomicOffer>)
    ensures
        offer_views(res@) == sort_by(offer_views(offers@), offer_order()),
        offer_views(res@).to_multiset() == offer_views(offers@).to_multiset(),
        sorted_by(offer_views(res@), offer_order()),
{
    let ghost ord = offer_order();
    let mut out: Vec<AtomicOffer> = Vec::new();
    let mut i: usize = 0;
    proof {
        assert(offer_views(offers@).take(0) =~= Seq::<AtomicOfferView>::empty());
        assert(offer_views(out@) =~= Seq::<AtomicOfferView>::empty());
    }
    while i < offers.len()
        invariant
            i <= offers.len(),
            ord == offer_order(),
            offer_views(out@) == sort_by(offer_views(offers@).take(i as int), ord),
        decreases offers.len() - i,
    {
        let x = offers[i].clone();
        let ghost ov = offer_views(out@);
        let mut j: usize = out.len();
        proof {
            assert(ov.take(j as int) =~= ov);
        }
        while j > 0 && offer_before(&x, &out[j - 1])
            invariant
                j <= out.len(),
                ov == offer_views(out@),
                ord == offer_order(),
                insert_pos(ov, x@, ord) == insert_pos(ov.take(j as int), x@, ord),
            decreases j,
        {
            proof {
                assert(ov[j - 1] == out@[j - 1]@);
                lemma_insert_pos_step(ov, x@, ord, j as int);
            }
            j = j - 1;
        }
        proof {
            if j > 0 {
                assert(ov[j - 1] == out@[j - 1]@);
            }
            lemma_insert_pos_stop(ov, x@, ord, j as int);
        }
        let ghost xv = x@;
        out.insert(j, x);
        proof {
            let t = offer_views(offers@).take(i + 1);
            assert(t.drop_last() =~= offer_views(offers@).take(i as int));
            assert(t.last() == xv);
            assert(offer_views(out@) =~= ov.insert(j as int, xv));
        }
        i = i + 1;
    }
    proof {
        assert(offer_views(offers@).take(i as int) =~= offer_views(offers@));
        lemma_offer_order_weak();
        lemma_sort_sorted(offer_views(offers@), offer_order());
        lemma_sort_permutes(offer_views(offers@), offer_order());
    }
    out
}

/// The offers on sale now.
pub fn active_offers(offers: &Vec<AtomicOffer>) -> (res: Vec<AtomicOffer>)
    ensures
        offer_views(res@) == offer_views(offers@).filter(|o: AtomicOfferView| o.active),
{
    let mut out: Vec<AtomicOffer> = Vec::new();
    let mut i: usize = 0;
    proof {
        assert(offer_views(out@) =~= offer_views(offers@).take(0).filter(|o: AtomicOfferView| o.active));
    }
    while i < offers.len()
        invariant
            i <= offers.len(),
            offer_views(out@) == offer_views(offers@).take(i as int).filter(|o: AtomicOfferView| o.active),
        decreases offers.len() - i,
    {
        let ghost prev = out@;
        proof {
            let t = offer_views(offers@).take(i + 1);
            assert(t.drop_last() =~= offer_views(offers@).take(i as int));
            reveal_with_fuel(Seq::<_>::filter, 1);
        }
        if offers[i].active {
            out.push(offers[i].clone());
            proof {
                assert(offer_views(out@) =~= offer_views(prev).push(offers@[i as int]@));
            }
        }
        i = i + 1;
    }
    proof {
        assert(offer_views(offers@).take(i as int) =~= offer_views(offers@));
    }
    out
}

/// Whether an offer is announced for later: not on sale now and starting
/// after `now`.
pub open spec fn is_upcoming(o: AtomicOfferView, now: i64) -> bool {
    !o.active && (match o.starts_at {
        Some(s) => s > now,
        None => false,
    })
}

/// The offers already announced that start after `now`.
pub fn upcoming_offers(offers: &Vec<AtomicOffer>, now: i64) -> (res: Vec<AtomicOffer>)
    ensures
        offer_views(res@) == offer_views(offers@).filter(|o: AtomicOfferView| is_upcoming(o, now)),
{
    let mut out: Vec<AtomicOffer> = Vec::new();
    let mut i: usize = 0;
    proof {
        assert(offer_views(out@) =~= offer_views(offers@).take(0).filter(|o: AtomicOfferView| is_upcoming(o, now)));
    }
    while i < offers.len()
        invariant
            i <= offers.len(),
            offer_views(out@) == offer_views(offers@).take(i as int).filter(|o: AtomicOfferView| is_upcoming(o, now)),
        decreases offers.len() - i,
    {
        let ghost prev = out@;
        proof {
            let t = offer_views(offers@).take(i + 1);
            assert(t.drop_last() =~= offer_views(offers@).take(i as int));
            reveal_with_fuel(Seq::<_>::filter, 1);
        }
        let later = match offers[i].starts_at {
            Some(s) => s > now,
            None => false,
        };
        if !offers[i].active && later {
            out.push(offers[i].clone());
            proof {
                assert(offer_views(out@) =~= offer_views(prev).push(offers@[i as int]@));
            }
        }
        i = i + 1;
    }
    proof {
        assert(offer_views(offers@).take(i as int) =~= offer_views(offers@));
    }
    out
}

/// The feed of one monthly article.
pub open spec fn atomic_feed_spec(
    url: Seq<char>,
    year: i32,
    month: u32,
    title: Seq<char>,
    offers: Seq<AtomicOfferView>,
    code: Seq<char>,
    zone_text: Seq<char>,
    now: i64,
) -> AtomicShopFeedView {
    let sorted = sort_by(offers, offer_order());
    AtomicShopFeedView {
        schema_version: 1,
        generated_at: now,
        locale: code,
        timezone: zone_text,
        source: SourceRefView { provider: "Bethesda"@, url },
        article_title: title,
        article_year: year,
        article_month: month,
        active: sorted.filter(|o: AtomicOfferView| o.active),
        offers: sorted,
    }
}

pub open spec fn zone_name_spec(zone: Zone) -> Seq<char> {
    match zone {
        Zone::Berlin => "Europe/Berlin"@,
        Zone::NewYork => "America/New_York"@,
    }
}

/// Builds the feed of an article from its title and offers; an article
/// without offers is refused so that good data is not overwritten.
pub fn atomic_shop_feed(
    article: &ArticleCandidate,
    article_title: String,
    offers: &Vec<AtomicOffer>,
    locale: &LocaleConfig,
    now: i64,
) -> (res: Result<AtomicShopFeed, FeedError>)
    ensures
        offers@.len() == 0 <==> res is Err,
        res matches Err(e) ==> e == FeedError::NoOffers,
        res matches Ok(f) ==> f@ == atomic_feed_spec(
            article.url@,
            article.year,
            article.month,
            article_title@,
            offer_views(offers@),
            locale.code@,
            zone_name_spec(locale.timezone),
            now,
        ),
{
    if offers.len() == 0 {
        return Err(FeedError::NoOffers);
    }
    let sorted = sort_offers(offers);
    let active = active_offers(&sorted);
    Ok(
        AtomicShopFeed {
            schema_version: 1,
            generated_at: now,
            locale: String::from_str(locale.code),
            timezone: String::from_str(zone_name(locale.timezone)),
            source: SourceRef { provider: String::from_str("Bethesda"), url: article.url.clone() },
            article_title,
            article_year: article.year,
            article_month: article.month,
            active,
            offers: sorted,
        },
    )
}

/// The headings and tables of an article, in document order.
pub const BLOCKS: &'static str = "h2, h3, table";

/// The rows of a table.
pub const ROWS: &'static str = "tr";

/// The cells of a row.
pub const CELLS: &'static str = "th, td";

/// The rows `0 .. n` of the table that is the `k`-th block of the page:
/// each row the texts of its cells, rows without cells left out; `None`
/// when the cells of a row cannot be selected.
pub open spec fn rows_upto_spec(html: Seq<char>, k: int, n: nat) -> Option<Seq<Seq<Seq<char>>>>
    decreases n,
{
    if n == 0 {
        Some(Seq::empty())
    } else {
        match rows_upto_spec(html, k, (n - 1) as nat) {
            None => None,
            Some(acc) => match select_within2_spec(html, BLOCKS@, k, ROWS@, n - 1, CELLS@, NO_ATTR@) {
                None => None,
                Some(cells) => if cells.len() > 0 {
                    Some(acc.push(texts_of(cells)))
                } else {
                    Some(acc)
                },
            },
        }
    }
}

/// The rows of the table that is the `k`-th block of the page.
pub open spec fn table_rows_spec(html: Seq<char>, k: int) -> Option<Seq<Seq<Seq<char>>>> {
    match select_within_spec(html, BLOCKS@, k, ROWS@, NO_ATTR@) {
        None => None,
        Some(rows) => rows_upto_spec(html, k, rows.len()),
    }
}

pub open spec fn opt_rows_view(o: Option<Vec<Vec<String>>>) -> Option<Seq<Seq<Seq<char>>>> {
    match o {
        Some(rows) => Some(rows_view(rows@)),
        None => None,
    }
}

proof fn lemma_rows_none_persists(html: Seq<char>, k: int, m: nat, n: nat)
    requires
        m <= n,
        rows_upto_spec(html, k, m) is None,
    ensures
        rows_upto_spec(html, k, n) is None,
    decreases n,
{
    if n > m {
        lemma_rows_none_persists(html, k, m, (n - 1) as nat);
    }
}

/// The rows of the table that is the `k`-th block of the page: the texts
/// of each row's `th` and `td` cells, rows without cells left out; `None`
/// when a selector does not parse or there is no such block.
pub fn table_rows(page: &Page, k: usize) -> (res: Option<Vec<Vec<String>>>)
    ensures
        opt_rows_view(res) == table_rows_spec(page@, k as int),
{
    let rows = match select_page_within(page, BLOCKS, k, ROWS, NO_ATTR) {
        Some(r) => r,
        None => return None,
    };
    let mut out: Vec<Vec<String>> = Vec::new();
    let mut r: usize = 0;
    while r < rows.len()
        invariant
            r <= rows.len(),
            select_within_spec(page@, BLOCKS@, k as int, ROWS@, NO_ATTR@) == Some(element_views(rows@)),
            rows_upto_spec(page@, k as int, r as nat) == Some(rows_view(out@)),
        decreases rows.len() - r,
    {
        let cells = match select_page_within2(page, BLOCKS, k, ROWS, r, CELLS, NO_ATTR) {
            Some(c) => c,
            None => {
                proof {
                    lemma_rows_none_persists(page@, k as int, (r + 1) as nat, rows@.len());
                }
                return None;
            },
        };
        let texts = element_texts(&cells);
        proof {
            assert(views(texts@).len() == texts@.len());
            assert(element_views(cells@).len() == cells@.len());
            assert(rows_upto_spec(page@, k as int, (r + 1) as nat) == match rows_upto_spec(page@, k as int, r as nat) {
                None => None,
                Some(acc) => if cells@.len() > 0 {
                    Some(acc.push(views(texts@)))
                } else {
                    Some(acc)
                },
            });
        }
        if texts.len() > 0 {
            let ghost prev = out@;
            out.push(texts);
            proof {
                assert(rows_view(out@) =~= rows_view(prev).push(views(texts@)));
            }
        }
        r = r + 1;
    }
    Some(out)
}

/// The blocks of elements `0 .. n` of the page's block list `els`: an
/// `h2` or `h3` heading with its text, a table with its rows; an error when
/// a table's rows cannot be selected.
pub open spec fn blocks_upto_spec(html: Seq<char>, els: Seq<ElementView>, n: nat) -> Result<Seq<BlockView>, FeedError>
    decreases n,
{
    if n == 0 {
        Ok(Seq::empty())
    } else {
        match blocks_upto_spec(html, els, (n - 1) as nat) {
            Err(e) => Err(e),
            Ok(acc) => {
                let e = els[n - 1];
                if e.name == "h2"@ {
                    Ok(acc.push(BlockView::Heading2(node_text(e.nodes))))
                } else if e.name == "h3"@ {
                    Ok(acc.push(BlockView::Heading3(node_text(e.nodes))))
                } else if e.name == "table"@ {
                    match table_rows_spec(html, n - 1) {
                        None => Err(FeedError::InvalidSelector),
                        Some(rows) => Ok(acc.push(BlockView::Table(rows))),
                    }
                } else {
                    Ok(acc)
                }
            },
        }
    }
}

/// The headings and tables of a page, in document order.
pub open spec fn blocks_spec(html: Seq<char>) -> Result<Seq<BlockView>, FeedError> {
    match select_spec(html, BLOCKS@, NO_ATTR@) {
        None => Err(FeedError::InvalidSelector),
        Some(els) => blocks_upto_spec(html, els, els.len()),
    }
}

pub open spec fn blocks_result(r: Result<Vec<Block>, FeedError>) -> Result<Seq<BlockView>, FeedError> {
    match r {
        Ok(b) => Ok(block_views(b@)),
        Err(e) => Err(e),
    }
}

proof fn lemma_blocks_upto_error_persists(html: Seq<char>, els: Seq<ElementView>, m: nat, n: nat)
    requires
        m <= n,
        blocks_upto_spec(html, els, m) is Err,
    ensures
        blocks_upto_spec(html, els, n) == blocks_upto_spec(html, els, m),
    decreases n,
{
    if n > m {
        lemma_blocks_upto_error_persists(html, els, m, (n - 1) as nat);
    }
}

/// The headings and tables of the article, in document order; an error
/// when a selector does not parse.
pub fn document_blocks(page: &Page) -> (res: Result<Vec<Block>, FeedError>)
    ensures
        blocks_result(res) == blocks_spec(page@),
{
    let elements = match select_page(page, BLOCKS, NO_ATTR) {
        Some(e) => e,
        None => return Err(FeedError::InvalidSelector),
    };
    let ghost ev = element_views(elements@);
    let mut blocks: Vec<Block> = Vec::new();
    let mut i: usize = 0;
    proof {
        assert(block_views(blocks@) =~= Seq::<BlockView>::empty());
    }
    while i < elements.len()
        invariant
            i <= elements.len(),
            ev == element_views(elements@),
            select_spec(page@, BLOCKS@, NO_ATTR@) == Some(ev),
            blocks_upto_spec(page@, ev, i as nat) == Ok::<Seq<BlockView>, FeedError>(block_views(blocks@)),
        decreases elements.len() - i,
    {
        let ghost prev = blocks@;
        proof {
            assert(ev[i as int] == elements@[i as int]@);
        }
        let name = elements[i].name.as_str();
        if crate::text::str_eq(name, "h2") {
            let t = element_text(&elements[i]);
            blocks.push(Block::Heading2(t));
            proof {
                reveal_strlit("h2");
                assert(block_views(blocks@) =~= block_views(prev).push(BlockView::Heading2(t@)));
            }
        } else if crate::text::str_eq(name, "h3") {
            let t = element_text(&elements[i]);
            blocks.push(Block::Heading3(t));
            proof {
                assert(block_views(blocks@) =~= block_views(prev).push(BlockView::Heading3(t@)));
            }
        } else if crate::text::str_eq(name, "table") {
            match table_rows(page, i) {
                Some(rows) => {
                    let ghost rv = rows_view(rows@);
                    blocks.push(Block::Table(rows));
                    proof {
                        assert(block_views(blocks@) =~= block_views(prev).push(BlockView::Table(rv)));
                    }
                },
                None => {
                    proof {
                        lemma_blocks_upto_error_persists(page@, ev, (i + 1) as nat, ev.len());
                    }
                    return Err(FeedError::InvalidSelector);
                },
            }
        }
        i = i + 1;
    }
    Ok(blocks)
}

/// The offers of a page's tables, in document order.
pub open spec fn page_offers_spec(html: Seq<char>, year: i32, zone: Zone, now: i64) -> Result<Seq<AtomicOfferView>, FeedError> {
    match blocks_spec(html) {
        Err(e) => Err(e),
        Ok(b) => offers_spec(b, year, zone, now),
    }
}

/// The offers of the article's tables, in document order.
pub fn parse_offers(page: &Page, year: i32, locale: &LocaleConfig, now: i64) -> (res: Result<
    Vec<AtomicOffer>,
    FeedError,
>)
    ensures
        offers_result(res) == page_offers_spec(page@, year, locale.timezone, now),
{
    let blocks = match document_blocks(page) {
        Ok(b) => b,
        Err(e) => return Err(e),
    };
    offers_from_blocks(&blocks, year, locale.timezone, now)
}

/// The title of an article: the text of its first `h1`, or a generic
/// title when it has none.
pub open spec fn title_spec(html: Seq<char>) -> Result<Seq<char>, FeedError> {
    match select_spec(html, "h1"@, NO_ATTR@) {
        None => Err(FeedError::InvalidSelector),
        Some(hs) => Ok(
            if hs.len() > 0 {
                node_text(hs[0].nodes)
            } else {
                "Atomic Shop Monthly Update"@
            },
        ),
    }
}

/// The article's `h1` heading, or a generic title when it has none.
pub fn article_title(page: &Page) -> (res: Result<String, FeedError>)
    ensures
        match res {
            Ok(t) => title_spec(page@) == Ok::<Seq<char>, FeedError>(t@),
            Err(e) => title_spec(page@) == Err::<Seq<char>, FeedError>(e),
        },
{
    let headings = match select_page(page, "h1", NO_ATTR) {
        Some(h) => h,
        None => return Err(FeedError::InvalidSelector),
    };
    if headings.len() > 0 {
        proof {
            assert(element_views(headings@)[0] == headings@[0]@);
        }
        Ok(element_text(&headings[0]))
    } else {
        Ok(String::from_str("Atomic Shop Monthly Update"))
    }
}

/// The feed of a fetched monthly article: its title and offers, refused
/// when the article has no offers.
pub open spec fn atomic_shop_spec(
    url: Seq<char>,
    year: i32,
    month: u32,
    html: Seq<char>,
    code: Seq<char>,
    zone: Zone,
    now: i64,
) -> Result<AtomicShopFeedView, FeedError> {
    match title_spec(html) {
        Err(e) => Err(e),
        Ok(title) => match page_offers_spec(html, year, zone, now) {
            Err(e) => Err(e),
            Ok(offers) => if offers.len() == 0 {
                Err(FeedError::NoOffers)
            } else {
                Ok(atomic_feed_spec(url, year, month, title, offers, code, zone_name_spec(zone), now))
            },
        },
    }
}

/// Builds the feed of a fetched monthly article: its title, and its offers
/// sorted by start and item, the active ones listed apart. An article
/// without offers is refused so that good data is not overwritten.
pub fn build_atomic_shop(article: &ArticleCandidate, html: &str, locale: &LocaleConfig, now: i64) -> (res: Result<AtomicShopFeed, FeedError>)
    ensures
        match res {
            Ok(f) => atomic_shop_spec(article.url@, article.year, article.month, html@, locale.code@, locale.timezone, now)
                == Ok::<AtomicShopFeedView, FeedError>(f@),
            Err(e) => atomic_shop_spec(article.url@, article.year, article.month, html@, locale.code@, locale.timezone, now)
                == Err::<AtomicShopFeedView, FeedError>(e),
        },
{
    let page = load_page(html);
    let title = match article_title(&page) {
        Ok(t) => t,
        Err(e) => return Err(e),
    };
    let offers = match parse_offers(&page, article.year, locale, now) {
        Ok(o) => o,
        Err(e) => return Err(e),
    };
    atomic_shop_feed(article, title, &offers, locale, now)
}

/// What a monthly archive keeps of an offer.
pub fn archived_offer(o: &AtomicOffer) -> (res: ArchivedOffer)
    ensures
        res@ == archived_view(o@),
{
    ArchivedOffer {
        item: o.item.clone(),
        price_atoms: o.price_atoms,
        price_text: o.price_text.clone(),
        discount_percent: o.discount_percent,
        section: o.section.clone(),
        subsection: o.subsection.clone(),
        offer_type: o.offer_type.clone(),
        starts_at: o.starts_at,
        ends_at: o.ends_at,
        starts_at_local: clone_opt_string(&o.starts_at_local),
        ends_at_local: clone_opt_string(&o.ends_at_local),
    }
}

/// The monthly archive of a feed: the published schedule, without the
/// list of active offers and without each offer's `active` state.
pub fn monthly_archive(feed: &AtomicShopFeed) -> (res: AtomicShopArchive)
    ensures
        res.schema_version == feed.schema_version,
        res.generated_at == feed.generated_at,
        res.locale@ == feed.locale@,
        res.timezone@ == feed.timezone@,
        res.source@ == feed.source@,
        res.article_title@ == feed.article_title@,
        res.article_year == feed.article_year,
        res.article_month == feed.article_month,
        archived_views(res.offers@) == offer_views(feed.offers@).map_values(|o: AtomicOfferView| archived_view(o)),
{
    let mut offers: Vec<ArchivedOffer> = Vec::new();
    let mut i: usize = 0;
    while i < feed.offers.len()
        invariant
            i <= feed.offers.len(),
            archived_views(offers@) == offer_views(feed.offers@).take(i as int).map_values(|o: AtomicOfferView| archived_view(o)),
        decreases feed.offers.len() - i,
    {
        let a = archived_offer(&feed.offers[i]);
        let ghost prev = offers@;
        let ghost av = a@;
        offers.push(a);
        proof {
            assert(archived_views(offers@) =~= archived_views(prev).push(av));
            assert(offer_views(feed.offers@).take(i + 1).map_values(|o: AtomicOfferView| archived_view(o)) =~= offer_views(feed.offers@).take(i as int).map_values(|o: AtomicOfferView| archived_view(o)).push(archived_view(feed.offers@[i as int]@)));
        }
        i = i + 1;
    }
    proof {
        assert(offer_views(feed.offers@).take(i as int) =~= offer_views(feed.offers@));
    }
    AtomicShopArchive {
        schema_version: feed.schema_version,
        generated_at: feed.generated_at,
        locale: feed.locale.clone(),
        timezone: feed.timezone.clone(),
        source: feed.source.clone(),
        article_title: feed.article_title.clone(),
        article_year: feed.article_year,
        article_month: feed.article_month,
        offers,
    }
}

} // verus!
