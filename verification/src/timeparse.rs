//! Dates and times as the fan sites and Bethesda write them: "Mo, 28.09.2026 (18:00)"
//! on German pages, "Mo, 28th Sep 2026 (12:00)" on English ones, and month
//! and day headings such as "September 28" or "28. September".

use vstd::prelude::*;
use crate::clock::{date_is_valid, in_range, local_to_utc, local_to_utc_spec, valid_date, Date, Zone};
use crate::numbers::{parse_i32, parse_i32_spec, parse_u32, parse_u32_spec};
use crate::pattern::{
    group, group_spec, regex_captures, regex_captures_spec, regex_is_valid, regex_valid_spec,
    Captures, CapturesView,
};
use crate::text::{
    ascii_lower_seq, contains, contains_seq, lowercase_of, normalize, normalize_ws, replace,
    replace_spec, str_eq, to_ascii_lowercase, to_lowercase, trim, trim_spec,
};

verus! {

/// A German date and time: "Mo, 28.09.2026 (18:00)".
pub const DE_MOMENT: &'static str =
    r"(?:Mo|Di|Mi|Do|Fr|Sa|So),?\s*(\d{1,2})\.(\d{1,2})\.(\d{4})\s*\((\d{1,2}):(\d{2})\)";

/// Two German dates and times joined by a dash.
pub const DE_RANGE: &'static str =
    r"(?x)(?:Mo|Di|Mi|Do|Fr|Sa|So),?\s*(\d{1,2})\.(\d{1,2})\.(\d{4})\s*\((\d{1,2}):(\d{2})\)\s*[-–]\s*(?:Mo|Di|Mi|Do|Fr|Sa|So),?\s*(\d{1,2})\.(\d{1,2})\.(\d{4})\s*\((\d{1,2}):(\d{2})\)";

/// An English date and time: "Mo, 28th Sep 2026 (12:00)".
pub const EN_MOMENT: &'static str =
    r"(?ix)(?:Mo|Tu|We|Th|Fr|Sa|Su),?\s*(\d{1,2})(?:st|nd|rd|th)?\s+([A-Za-z]+)\s+(\d{4})\s*\((\d{1,2}):(\d{2})\)";

/// Two English dates and times joined by a dash.
pub const EN_RANGE: &'static str =
    r"(?ix)(?:Mo|Tu|We|Th|Fr|Sa|Su),?\s*(\d{1,2})(?:st|nd|rd|th)?\s+([A-Za-z]+)\s+(\d{4})\s*\((\d{1,2}):(\d{2})\)\s*[-–]\s*(?:Mo|Tu|We|Th|Fr|Sa|Su),?\s*(\d{1,2})(?:st|nd|rd|th)?\s+([A-Za-z]+)\s+(\d{4})\s*\((\d{1,2}):(\d{2})\)";

/// An English month and day: "September 28".
pub const EN_MONTH_DAY: &'static str = r"(?i)\b([A-Za-z]+)\s+(\d{1,2})\b";

/// A German day and month: "28. September".
pub const DE_DAY_MONTH: &'static str =
    r"(?i)\b(\d{1,2})\.?\s+(Januar|Februar|März|Maerz|April|Mai|Juni|Juli|August|September|Oktober|November|Dezember)\b";

/// A wall-clock reading as written on a page.
#[derive(Clone, Copy, PartialEq, Eq, Structural, Debug)]
pub struct LocalReading {
    pub year: i32,
    pub month: u32,
    pub day: u32,
    pub hour: u32,
    pub minute: u32,
}

/// The month that an English or German month name (full or abbreviated,
/// any ASCII case) stands for.
pub open spec fn month_of_key(k: Seq<char>) -> Option<u32> {
    if k == "jan"@ || k == "january"@ || k == "januar"@ {
        Some(1)
    } else if k == "feb"@ || k == "february"@ || k == "februar"@ {
        Some(2)
    } else if k == "mar"@ || k == "march"@ || k == "märz"@ || k == "maerz"@ {
        Some(3)
    } else if k == "apr"@ || k == "april"@ {
        Some(4)
    } else if k == "may"@ || k == "mai"@ {
        Some(5)
    } else if k == "jun"@ || k == "june"@ || k == "juni"@ {
        Some(6)
    } else if k == "jul"@ || k == "july"@ || k == "juli"@ {
        Some(7)
    } else if k == "aug"@ || k == "august"@ {
        Some(8)
    } else if k == "sep"@ || k == "sept"@ || k == "september"@ {
        Some(9)
    } else if k == "oct"@ || k == "october"@ || k == "oktober"@ {
        Some(10)
    } else if k == "nov"@ || k == "november"@ {
        Some(11)
    } else if k == "dec"@ || k == "december"@ || k == "dezember"@ {
        Some(12)
    } else {
        None
    }
}

/// `month_number`: the value trimmed and ASCII-lowercased, then looked up.
pub open spec fn month_number_spec(value: Seq<char>) -> Option<u32> {
    month_of_key(ascii_lower_seq(trim_spec(value)))
}

/// The month names read, in any ASCII case and with surrounding
/// whitespace: the English three-letter abbreviations ("sept" too), the
/// English names and the German names, each giving its month.
pub proof fn lemma_month_name_table(value: Seq<char>)
    ensures
        ascii_lower_seq(trim_spec(value)) == "jan"@ ==> month_number_spec(value) == Some(1u32),
        ascii_lower_seq(trim_spec(value)) == "january"@ ==> month_number_spec(value) == Some(1u32),
        ascii_lower_seq(trim_spec(value)) == "januar"@ ==> month_number_spec(value) == Some(1u32),
        ascii_lower_seq(trim_spec(value)) == "feb"@ ==> month_number_spec(value) == Some(2u32),
        ascii_lower_seq(trim_spec(value)) == "february"@ ==> month_number_spec(value) == Some(2u32),
        ascii_lower_seq(trim_spec(value)) == "februar"@ ==> month_number_spec(value) == Some(2u32),
        ascii_lower_seq(trim_spec(value)) == "mar"@ ==> month_number_spec(value) == Some(3u32),
        ascii_lower_seq(trim_spec(value)) == "march"@ ==> month_number_spec(value) == Some(3u32),
        ascii_lower_seq(trim_spec(value)) == "märz"@ ==> month_number_spec(value) == Some(3u32),
        ascii_lower_seq(trim_spec(value)) == "maerz"@ ==> month_number_spec(value) == Some(3u32),
        ascii_lower_seq(trim_spec(value)) == "apr"@ ==> month_number_spec(value) == Some(4u32),
        ascii_lower_seq(trim_spec(value)) == "april"@ ==> month_number_spec(value) == Some(4u32),
        ascii_lower_seq(trim_spec(value)) == "may"@ ==> month_number_spec(value) == Some(5u32),
        ascii_lower_seq(trim_spec(value)) == "mai"@ ==> month_number_spec(value) == Some(5u32),
        ascii_lower_seq(trim_spec(value)) == "jun"@ ==> month_number_spec(value) == Some(6u32),
        ascii_lower_seq(trim_spec(value)) == "june"@ ==> month_number_spec(value) == Some(6u32),
        ascii_lower_seq(trim_spec(value)) == "juni"@ ==> month_number_spec(value) == Some(6u32),
        ascii_lower_seq(trim_spec(value)) == "jul"@ ==> month_number_spec(value) == Some(7u32),
        ascii_lower_seq(trim_spec(value)) == "july"@ ==> month_number_spec(value) == Some(7u32),
        ascii_lower_seq(trim_spec(value)) == "juli"@ ==> month_number_spec(value) == Some(7u32),
        ascii_lower_seq(trim_spec(value)) == "aug"@ ==> month_number_spec(value) == Some(8u32),
        ascii_lower_seq(trim_spec(value)) == "august"@ ==> month_number_spec(value) == Some(8u32),
        ascii_lower_seq(trim_spec(value)) == "sep"@ ==> month_number_spec(value) == Some(9u32),
        ascii_lower_seq(trim_spec(value)) == "sept"@ ==> month_number_spec(value) == Some(9u32),
        ascii_lower_seq(trim_spec(value)) == "september"@ ==> month_number_spec(value) == Some(9u32),
        ascii_lower_seq(trim_spec(value)) == "oct"@ ==> month_number_spec(value) == Some(10u32),
        ascii_lower_seq(trim_spec(value)) == "october"@ ==> month_number_spec(value) == Some(10u32),
        ascii_lower_seq(trim_spec(value)) == "oktober"@ ==> month_number_spec(value) == Some(10u32),
        ascii_lower_seq(trim_spec(value)) == "nov"@ ==> month_number_spec(value) == Some(11u32),
        ascii_lower_seq(trim_spec(value)) == "november"@ ==> month_number_spec(value) == Some(11u32),
        ascii_lower_seq(trim_spec(value)) == "dec"@ ==> month_number_spec(value) == Some(12u32),
        ascii_lower_seq(trim_spec(value)) == "december"@ ==> month_number_spec(value) == Some(12u32),
        ascii_lower_seq(trim_spec(value)) == "dezember"@ ==> month_number_spec(value) == Some(12u32),
{
    let key = ascii_lower_seq(trim_spec(value));
    if key == "jan"@ {
        reveal_strlit("jan");
        assert(key =~= seq!['j', 'a', 'n']);
    }
    if key == "january"@ {
        reveal_strlit("january");
        assert(key =~= seq!['j', 'a', 'n', 'u', 'a', 'r', 'y']);
    }
    if key == "januar"@ {
        reveal_strlit("januar");
        assert(key =~= seq!['j', 'a', 'n', 'u', 'a', 'r']);
    }
    if key == "feb"@ {
        reveal_strlit("feb");
        assert(key =~= seq!['f', 'e', 'b']);
    }
    if key == "february"@ {
        reveal_strlit("february");
        assert(key =~= seq!['f', 'e', 'b', 'r', 'u', 'a', 'r', 'y']);
    }
    if key == "februar"@ {
        reveal_strlit("februar");
        assert(key =~= seq!['f', 'e', 'b', 'r', 'u', 'a', 'r']);
    }
    if key == "mar"@ {
        reveal_strlit("mar");
        assert(key =~= seq!['m', 'a', 'r']);
    }
    if key == "march"@ {
        reveal_strlit("march");
        assert(key =~= seq!['m', 'a', 'r', 'c', 'h']);
    }
    if key == "märz"@ {
        reveal_strlit("märz");
        assert(key =~= seq!['m', 'ä', 'r', 'z']);
    }
    if key == "maerz"@ {
        reveal_strlit("maerz");
        assert(key =~= seq!['m', 'a', 'e', 'r', 'z']);
    }
    if key == "apr"@ {
        reveal_strlit("apr");
        assert(key =~= seq!['a', 'p', 'r']);
    }
    if key == "april"@ {
        reveal_strlit("april");
        assert(key =~= seq!['a', 'p', 'r', 'i', 'l']);
    }
    if key == "may"@ {
        reveal_strlit("may");
        assert(key =~= seq!['m', 'a', 'y']);
    }
    if key == "mai"@ {
        reveal_strlit("mai");
        assert(key =~= seq!['m', 'a', 'i']);
    }
    if key == "jun"@ {
        reveal_strlit("jun");
        assert(key =~= seq!['j', 'u', 'n']);
    }
    if key == "june"@ {
        reveal_strlit("june");
        assert(key =~= seq!['j', 'u', 'n', 'e']);
    }
    if key == "juni"@ {
        reveal_strlit("juni");
        assert(key =~= seq!['j', 'u', 'n', 'i']);
    }
    if key == "jul"@ {
        reveal_strlit("jul");
        assert(key =~= seq!['j', 'u', 'l']);
    }
    if key == "july"@ {
        reveal_strlit("july");
        assert(key =~= seq!['j', 'u', 'l', 'y']);
    }
    if key == "juli"@ {
        reveal_strlit("juli");
        assert(key =~= seq!['j', 'u', 'l', 'i']);
    }
    if key == "aug"@ {
        reveal_strlit("aug");
        assert(key =~= seq!['a', 'u', 'g']);
    }
    if key == "august"@ {
        reveal_strlit("august");
        assert(key =~= seq!['a', 'u', 'g', 'u', 's', 't']);
    }
    if key == "sep"@ {
        reveal_strlit("sep");
        assert(key =~= seq!['s', 'e', 'p']);
    }
    if key == "sept"@ {
        reveal_strlit("sept");
        assert(key =~= seq!['s', 'e', 'p', 't']);
    }
    if key == "september"@ {
        reveal_strlit("september");
        assert(key =~= seq!['s', 'e', 'p', 't', 'e', 'm', 'b', 'e', 'r']);
    }
    if key == "oct"@ {
        reveal_strlit("oct");
        assert(key =~= seq!['o', 'c', 't']);
    }
    if key == "october"@ {
        reveal_strlit("october");
        assert(key =~= seq!['o', 'c', 't', 'o', 'b', 'e', 'r']);
    }
    if key == "oktober"@ {
        reveal_strlit("oktober");
        assert(key =~= seq!['o', 'k', 't', 'o', 'b', 'e', 'r']);
    }
    if key == "nov"@ {
        reveal_strlit("nov");
        assert(key =~= seq!['n', 'o', 'v']);
    }
    if key == "november"@ {
        reveal_strlit("november");
        assert(key =~= seq!['n', 'o', 'v', 'e', 'm', 'b', 'e', 'r']);
    }
    if key == "dec"@ {
        reveal_strlit("dec");
        assert(key =~= seq!['d', 'e', 'c']);
    }
    if key == "december"@ {
        reveal_strlit("december");
        assert(key =~= seq!['d', 'e', 'c', 'e', 'm', 'b', 'e', 'r']);
    }
    if key == "dezember"@ {
        reveal_strlit("dezember");
        assert(key =~= seq!['d', 'e', 'z', 'e', 'm', 'b', 'e', 'r']);
    }
}

/// The month number (1 to 12) of an English or German month name.
pub fn month_number(value: &str) -> (res: Option<u32>)
    ensures
        res == month_number_spec(value@),
        res matches Some(m) ==> 1 <= m <= 12,
{
    let trimmed = trim(value);
    let key = to_ascii_lowercase(trimmed.as_str());
    let k = key.as_str();
    if str_eq(k, "jan") || str_eq(k, "january") || str_eq(k, "januar") {
        Some(1)
    } else if str_eq(k, "feb") || str_eq(k, "february") || str_eq(k, "februar") {
        Some(2)
    } else if str_eq(k, "mar") || str_eq(k, "march") || str_eq(k, "märz") || str_eq(k, "maerz") {
        Some(3)
    } else if str_eq(k, "apr") || str_eq(k, "april") {
        Some(4)
    } else if str_eq(k, "may") || str_eq(k, "mai") {
        Some(5)
    } else if str_eq(k, "jun") || str_eq(k, "june") || str_eq(k, "juni") {
        Some(6)
    } else if str_eq(k, "jul") || str_eq(k, "july") || str_eq(k, "juli") {
        Some(7)
    } else if str_eq(k, "aug") || str_eq(k, "august") {
        Some(8)
    } else if str_eq(k, "sep") || str_eq(k, "sept") || str_eq(k, "september") {
        Some(9)
    } else if str_eq(k, "oct") || str_eq(k, "october") || str_eq(k, "oktober") {
        Some(10)
    } else if str_eq(k, "nov") || str_eq(k, "november") {
        Some(11)
    } else if str_eq(k, "dec") || str_eq(k, "december") || str_eq(k, "dezember") {
        Some(12)
    } else {
        None
    }
}

/// Capture group `k` read as a `u32`.
pub open spec fn group_u32_spec(c: CapturesView, k: int) -> Option<u32> {
    match group_spec(c, k) {
        Some(s) => parse_u32_spec(s),
        None => None,
    }
}

/// Capture group `k` read as an `i32`.
pub open spec fn group_i32_spec(c: CapturesView, k: int) -> Option<i32> {
    match group_spec(c, k) {
        Some(s) => parse_i32_spec(s),
        None => None,
    }
}

/// Capture group `k` read as a month name.
pub open spec fn group_month_spec(c: CapturesView, k: int) -> Option<u32> {
    match group_spec(c, k) {
        Some(s) => month_number_spec(s),
        None => None,
    }
}

pub fn group_u32(c: &Captures, k: usize) -> (res: Option<u32>)
    ensures
        res == group_u32_spec(c@, k as int),
{
    match group(c, k) {
        Some(s) => parse_u32(s.as_str()),
        None => None,
    }
}

pub fn group_i32(c: &Captures, k: usize) -> (res: Option<i32>)
    ensures
        res == group_i32_spec(c@, k as int),
{
    match group(c, k) {
        Some(s) => parse_i32(s.as_str()),
        None => None,
    }
}

pub fn group_month(c: &Captures, k: usize) -> (res: Option<u32>)
    ensures
        res == group_month_spec(c@, k as int),
{
    match group(c, k) {
        Some(s) => month_number(s.as_str()),
        None => None,
    }
}

/// Builds a reading from its five parts, when all of them were read.
pub open spec fn reading_of(
    year: Option<i32>,
    month: Option<u32>,
    day: Option<u32>,
    hour: Option<u32>,
    minute: Option<u32>,
) -> Option<LocalReading> {
    match (year, month, day, hour, minute) {
        (Some(y), Some(mo), Some(d), Some(h), Some(mi)) => Some(
            LocalReading { year: y, month: mo, day: d, hour: h, minute: mi },
        ),
        _ => None,
    }
}

/// The reading in groups `base+1` to `base+5`: day, month, year, hour and
/// minute, with the month written as a number (German) or a name (English).
pub open spec fn reading_spec(c: CapturesView, base: int, english: bool) -> Option<LocalReading> {
    reading_of(
        group_i32_spec(c, base + 3),
        if english {
            group_month_spec(c, base + 2)
        } else {
            group_u32_spec(c, base + 2)
        },
        group_u32_spec(c, base + 1),
        group_u32_spec(c, base + 4),
        group_u32_spec(c, base + 5),
    )
}

/// Reads the date and time in groups `base+1` to `base+5` of a match.
pub fn reading_from_captures(c: &Captures, base: usize, english: bool) -> (res: Option<
    LocalReading,
>)
    requires
        base <= 5,
    ensures
        res == reading_spec(c@, base as int, english),
{
    let year = group_i32(c, base + 3);
    let month = if english {
        group_month(c, base + 2)
    } else {
        group_u32(c, base + 2)
    };
    let day = group_u32(c, base + 1);
    let hour = group_u32(c, base + 4);
    let minute = group_u32(c, base + 5);
    match (year, month, day, hour, minute) {
        (Some(y), Some(mo), Some(d), Some(h), Some(mi)) => Some(
            LocalReading { year: y, month: mo, day: d, hour: h, minute: mi },
        ),
        _ => None,
    }
}

/// The instant a reading denotes in `zone`.
pub open spec fn reading_utc_spec(zone: Zone, r: LocalReading) -> Option<i64> {
    local_to_utc_spec(zone, r.year, r.month, r.day, r.hour, r.minute)
}

pub open spec fn moment_from_spec(c: CapturesView, zone: Zone, english: bool) -> Option<i64> {
    match reading_spec(c, 0, english) {
        Some(r) => reading_utc_spec(zone, r),
        None => None,
    }
}

pub open spec fn range_from_spec(c: CapturesView, zone: Zone, english: bool) -> Option<
    (i64, i64),
> {
    match (moment_from_spec(c, zone, english), match reading_spec(c, 5, english) {
        Some(r) => reading_utc_spec(zone, r),
        None => None,
    }) {
        (Some(s), Some(e)) => Some((s, e)),
        _ => None,
    }
}

/// The instant of the first date and time in a match.
pub fn moment_from_captures(c: &Captures, zone: Zone, english: bool) -> (res: Option<i64>)
    ensures
        res == moment_from_spec(c@, zone, english),
        res matches Some(t) ==> in_range(t as int),
{
    match reading_from_captures(c, 0, english) {
        Some(r) => local_to_utc(zone, r.year, r.month, r.day, r.hour, r.minute),
        None => None,
    }
}

/// The two instants of a match holding a range.
pub fn range_from_captures(c: &Captures, zone: Zone, english: bool) -> (res: Option<(i64, i64)>)
    ensures
        res == range_from_spec(c@, zone, english),
        res matches Some((s, e)) ==> in_range(s as int) && in_range(e as int),
{
    let start = match moment_from_captures(c, zone, english) {
        Some(s) => s,
        None => return None,
    };
    let end = match reading_from_captures(c, 5, english) {
        Some(r) => local_to_utc(zone, r.year, r.month, r.day, r.hour, r.minute),
        None => None,
    };
    match end {
        Some(e) => Some((start, e)),
        None => None,
    }
}

/// The first range in `text`, read in the page's language.
pub open spec fn nuka_range_spec(text: Seq<char>, locale: Seq<char>, zone: Zone) -> Option<
    (i64, i64),
> {
    let english = locale != "de-DE"@;
    let pattern = if english {
        EN_RANGE@
    } else {
        DE_RANGE@
    };
    match regex_captures_spec(pattern, normalize(text)) {
        Some(c) => range_from_spec(c, zone, english),
        None => None,
    }
}

/// The first single date and time in `text`, read in the page's language.
pub open spec fn nuka_moment_spec(text: Seq<char>, locale: Seq<char>, zone: Zone) -> Option<i64> {
    let english = locale != "de-DE"@;
    let pattern = if english {
        EN_MOMENT@
    } else {
        DE_MOMENT@
    };
    match regex_captures_spec(pattern, normalize(text)) {
        Some(c) => moment_from_spec(c, zone, english),
        None => None,
    }
}

/// The start and end of the first range written in `text` ("de-DE" pages
/// write German dates, every other locale English ones).
pub fn parse_nuka_range(text: &str, locale: &str, timezone: Zone) -> (res: Option<(i64, i64)>)
    ensures
        res == nuka_range_spec(text@, locale@, timezone),
        res matches Some((s, e)) ==> in_range(s as int) && in_range(e as int),
{
    let english = !str_eq(locale, "de-DE");
    let normalized = normalize_ws(text);
    let caps = if english {
        regex_captures(EN_RANGE, normalized.as_str())
    } else {
        regex_captures(DE_RANGE, normalized.as_str())
    };
    match caps {
        Some(c) => range_from_captures(&c, timezone, english),
        None => None,
    }
}

/// The first single date and time written in `text`.
pub fn parse_nuka_moment(text: &str, locale: &str, timezone: Zone) -> (res: Option<i64>)
    ensures
        res == nuka_moment_spec(text@, locale@, timezone),
        res matches Some(t) ==> in_range(t as int),
{
    let english = !str_eq(locale, "de-DE");
    let normalized = normalize_ws(text);
    let caps = if english {
        regex_captures(EN_MOMENT, normalized.as_str())
    } else {
        regex_captures(DE_MOMENT, normalized.as_str())
    };
    match caps {
        Some(c) => moment_from_captures(&c, timezone, english),
        None => None,
    }
}

/// The text `parse_month_day` searches: normalised, commas dropped and the
/// ordinal suffixes "st ", "nd ", "rd ", "th " turned into a space.
pub open spec fn month_day_text(text: Seq<char>) -> Seq<char> {
    let a = replace_spec(normalize(text), ","@, ""@);
    let b = replace_spec(a, "st "@, " "@);
    let c = replace_spec(b, "nd "@, " "@);
    let d = replace_spec(c, "rd "@, " "@);
    replace_spec(d, "th "@, " "@)
}

/// The date with the given parts, when all were read and the date exists.
pub open spec fn date_of(year: i32, month: Option<u32>, day: Option<u32>) -> Option<Date> {
    match (month, day) {
        (Some(m), Some(d)) => if valid_date(year as int, m as int, d as int) {
            Some(Date { year, month: m, day: d })
        } else {
            None
        },
        _ => None,
    }
}

pub open spec fn month_day_spec(text: Seq<char>, year: i32) -> Option<Date> {
    let cleaned = month_day_text(text);
    if !regex_valid_spec(EN_MONTH_DAY@) {
        None
    } else {
        match regex_captures_spec(EN_MONTH_DAY@, cleaned) {
            Some(c) => date_of(year, group_month_spec(c, 1), group_u32_spec(c, 2)),
            None => match regex_captures_spec(DE_DAY_MONTH@, cleaned) {
                Some(c) => date_of(year, group_month_spec(c, 2), group_u32_spec(c, 1)),
                None => None,
            },
        }
    }
}

/// The date of `year` written as "September 28" or "28. September" in
/// `text`. An English match decides the result even when its month name
/// is unknown.
pub fn parse_month_day(text: &str, year: i32) -> (res: Option<Date>)
    ensures
        res == month_day_spec(text@, year),
{
    let n = normalize_ws(text);
    proof {
        reveal_strlit(",");
        reveal_strlit("st ");
        reveal_strlit("nd ");
        reveal_strlit("rd ");
        reveal_strlit("th ");
    }
    let a = replace(n.as_str(), ",", "");
    let b = replace(a.as_str(), "st ", " ");
    let c = replace(b.as_str(), "nd ", " ");
    let d = replace(c.as_str(), "rd ", " ");
    let cleaned = replace(d.as_str(), "th ", " ");
    if !regex_is_valid(EN_MONTH_DAY) {
        return None;
    }
    let (month, day) = match regex_captures(EN_MONTH_DAY, cleaned.as_str()) {
        Some(caps) => (group_month(&caps, 1), group_u32(&caps, 2)),
        None => match regex_captures(DE_DAY_MONTH, cleaned.as_str()) {
            Some(caps) => (group_month(&caps, 2), group_u32(&caps, 1)),
            None => return None,
        },
    };
    match (month, day) {
        (Some(m), Some(dd)) => if date_is_valid(year, m, dd) {
            Some(Date { year, month: m, day: dd })
        } else {
            None
        },
        _ => None,
    }
}

/// Whether a heading announces a week ("Week of ..." or "Woche ...").
pub open spec fn is_week_heading(normalized: Seq<char>) -> bool {
    contains_seq(lowercase_of(normalized), "week of"@) || contains_seq(
        lowercase_of(normalized),
        "woche"@,
    )
}

pub open spec fn week_start_spec(text: Seq<char>, year: i32) -> Option<Date> {
    let normalized = normalize(text);
    if !is_week_heading(normalized) {
        None
    } else {
        month_day_spec(normalized, year)
    }
}

/// The first day of the week that a heading such as "Week of September 22"
/// announces; `None` for any other heading.
pub fn week_start_from_heading(text: &str, year: i32) -> (res: Option<Date>)
    ensures
        res == week_start_spec(text@, year),
{
    let normalized = normalize_ws(text);
    let lower = to_lowercase(normalized.as_str());
    if !(contains(lower.as_str(), "week of") || contains(lower.as_str(), "woche")) {
        return None;
    }
    parse_month_day(normalized.as_str(), year)
}

} // verus!
