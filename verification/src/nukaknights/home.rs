//! The widgets of the Nuka Knights home page: the daily and weekly
//! challenges, Daily Ops, this week's launch codes and the season.

use vstd::prelude::*;
use crate::clock::{
    add_days, add_days_spec, date_is_valid, valid_date, in_range, local_parts, local_parts_spec, local_to_utc,
    local_to_utc_spec, rfc3339_spec, to_local_string, zone_name, Zone,
};
use crate::config::LocaleConfig;
use crate::error::FeedError;
use crate::bethesda::{str_views, zone_name_spec};
use crate::dom::{
    element_text, element_texts, element_views, lines_from_nodes, lines_spec, load_page, select_page,
    select_page_within, select_page_within2, select_spec, select_within_spec, select_within2_spec,
    texts_of, ElementData, ElementView, Page, NO_ATTR,
};
use crate::model::{
    challenge_views, Challenge, ChallengeView, ChallengesFeed, ChallengesFeedView, DailyOpsFeed,
    DailyOpsFeedView, NukaHomeFeed, NukeCodesFeed, NukeCodesFeedView, SeasonFeed, SeasonFeedView, SourceRef,
    SourceRefView,
};
use crate::numbers::{parse_grouped_u32, parse_u32_spec, strip_separators};
use crate::pattern::{
    escape, escape_spec, find_spec, group, group_spec, opt_str_view, regex_captures,
    regex_captures_spec, regex_find, regex_is_valid, regex_remove_first, regex_valid_spec,
    remove_first_spec,
};
use crate::text::{
    ascii_lower_seq, contains, contains_seq, eq_ignore_ascii_case, lowercase_of, node_text,
    normalize, normalize_ws, str_eq, text_of_nodes, to_lowercase, views,
};
use crate::timeparse::{
    group_i32, group_i32_spec, group_month, group_month_spec, group_u32, group_u32_spec,
    moment_from_captures, moment_from_spec,
};

verus! {

/// The Daily Ops period: "28.09.2026 (18:00)".
pub const DAILY_OPS_PERIOD: &'static str =
    r"(\d{1,2})\.(\d{1,2})\.(\d{4})\s*\((\d{1,2}):(\d{2})\)";

/// A launch code: eight digits standing alone.
pub const NUKE_CODE: &'static str = r"\b([0-9]{8})\b";

/// A German launch-code week: "22.09.-29.09.2026 (02:00)".
pub const DE_NUKE_PERIOD: &'static str =
    r"(\d{1,2})\.(\d{1,2})\.-(\d{1,2})\.(\d{1,2})\.(\d{4})\s*\((\d{1,2}):(\d{2})\)";

/// An English launch-code week: "21st Sep -28th Sep 2026 (20:00)".
pub const EN_NUKE_PERIOD: &'static str =
    r"(?i)(\d{1,2})(?:st|nd|rd|th)?\s+([A-Za-z]+)\s*-(\d{1,2})(?:st|nd|rd|th)?\s+([A-Za-z]+)\s+(\d{4})\s*\((\d{1,2}):(\d{2})\)";

/// The instant `days` calendar days after `value`, at the same wall-clock
/// hour and minute in `zone`.
pub open spec fn add_local_days_spec(value: i64, zone: Zone, days: i64) -> Result<i64, FeedError> {
    let local = local_parts_spec(value, zone);
    if !valid_date(local.date.year as int, local.date.month as int, local.date.day as int) {
        Err(FeedError::TimeOutOfRange)
    } else {
        match add_days_spec(local.date, days) {
            None => Err(FeedError::TimeOutOfRange),
            Some(d) => match local_to_utc_spec(zone, d.year, d.month, d.day, local.hour, local.minute) {
                Some(t) => Ok(t),
                None => Err(FeedError::InvalidLocalResetTime),
            },
        }
    }
}

/// The instant `days` calendar days after `value`, at the same wall-clock
/// hour and minute in `timezone`; an error when that reading does not exist
/// there or the date leaves chrono's range.
pub fn add_local_days(value: i64, timezone: Zone, days: i64) -> (res: Result<i64, FeedError>)
    requires
        in_range(value as int),
        -106751991167 <= days <= 106751991167,
    ensures
        res == add_local_days_spec(value, timezone, days),
        res matches Ok(t) ==> in_range(t as int),
{
    let local = local_parts(value, timezone);
    if !date_is_valid(local.date.year, local.date.month, local.date.day) {
        return Err(FeedError::TimeOutOfRange);
    }
    let date = match add_days(local.date, days) {
        Some(d) => d,
        None => return Err(FeedError::TimeOutOfRange),
    };
    match local_to_utc(timezone, date.year, date.month, date.day, local.hour, local.minute) {
        Some(t) => Ok(t),
        None => Err(FeedError::InvalidLocalResetTime),
    }
}

/// How many days a weekday (0 = Monday) lies after the last Tuesday.
pub open spec fn days_since_tuesday(weekday: u32) -> int {
    if weekday == 0 {
        6
    } else {
        weekday - 1
    }
}

/// The weekly challenges run from Tuesday noon in New York to the next
/// Tuesday noon; this is the week holding `daily_start`.
pub open spec fn challenge_week_spec(daily_start: i64) -> Result<(i64, i64), FeedError> {
    let local = local_parts_spec(daily_start, Zone::NewYork);
    if !valid_date(local.date.year as int, local.date.month as int, local.date.day as int) {
        Err(FeedError::TimeOutOfRange)
    } else {
        match add_days_spec(local.date, (-days_since_tuesday(local.weekday)) as i64) {
            None => Err(FeedError::TimeOutOfRange),
            Some(d) => match local_to_utc_spec(Zone::NewYork, d.year, d.month, d.day, 12, 0) {
                None => Err(FeedError::InvalidWeeklyStart),
                Some(start) => match add_local_days_spec(start, Zone::NewYork, 7) {
                    Ok(end) => Ok((start, end)),
                    Err(e) => Err(e),
                },
            },
        }
    }
}

/// The weekly period starts at noon, New York time, on the Tuesday of the
/// week holding `daily_start`: the date `b` days before `daily_start`'s
/// local date, where `b` (0 to 6) is the one step back that lands on a
/// Tuesday (weekday 1, counting Monday as 0). It ends seven local days
/// later at the same wall-clock time.
pub proof fn lemma_challenge_week_starts_on_tuesday(daily_start: i64, b: int)
    requires
        0 <= b <= 6,
        local_parts_spec(daily_start, Zone::NewYork).weekday < 7,
        (local_parts_spec(daily_start, Zone::NewYork).weekday - b) % 7 == 1,
    ensures
        challenge_week_spec(daily_start) matches Ok((start, end)) ==> {
            &&& add_days_spec(local_parts_spec(daily_start, Zone::NewYork).date, (-b) as i64) matches Some(d)
            &&& local_to_utc_spec(Zone::NewYork, d.year, d.month, d.day, 12, 0) == Some(start)
            &&& add_local_days_spec(start, Zone::NewYork, 7) == Ok::<i64, FeedError>(end)
        },
{
    let w = local_parts_spec(daily_start, Zone::NewYork).weekday;
    assert(days_since_tuesday(w) == b) by {
        if w == 0 {
            assert(b == 6);
        } else if w == 1 {
            assert(b == 0);
        } else if w == 2 {
            assert(b == 1);
        } else if w == 3 {
            assert(b == 2);
        } else if w == 4 {
            assert(b == 3);
        } else if w == 5 {
            assert(b == 4);
        } else {
            assert(b == 5);
        }
    }
}

/// The weekly challenge period holding the instant `daily_start`.
pub fn challenge_week(daily_start: i64) -> (res: Result<(i64, i64), FeedError>)
    requires
        in_range(daily_start as int),
    ensures
        res == challenge_week_spec(daily_start),
        res matches Ok((s, e)) ==> in_range(s as int) && in_range(e as int),
{
    let local = local_parts(daily_start, Zone::NewYork);
    if !date_is_valid(local.date.year, local.date.month, local.date.day) {
        return Err(FeedError::TimeOutOfRange);
    }
    let back: i64 = if local.weekday == 0 {
        6
    } else {
        (local.weekday - 1) as i64
    };
    let date = match add_days(local.date, -back) {
        Some(d) => d,
        None => return Err(FeedError::TimeOutOfRange),
    };
    let start = match local_to_utc(Zone::NewYork, date.year, date.month, date.day, 12, 0) {
        Some(t) => t,
        None => return Err(FeedError::InvalidWeeklyStart),
    };
    match add_local_days(start, Zone::NewYork, 7) {
        Ok(end) => Ok((start, end)),
        Err(e) => Err(e),
    }
}

/// The instant written as "28.09.2026 (18:00)" somewhere in `text`.
pub open spec fn numeric_moment_spec(text: Seq<char>, zone: Zone) -> Option<i64> {
    if !regex_valid_spec(DAILY_OPS_PERIOD@) {
        None
    } else {
        match regex_captures_spec(DAILY_OPS_PERIOD@, text) {
            Some(c) => moment_from_spec(c, zone, false),
            None => None,
        }
    }
}

/// Reads the first "28.09.2026 (18:00)" in `text` as local time in
/// `timezone`.
pub fn parse_numeric_local_datetime(text: &str, timezone: Zone) -> (res: Option<i64>)
    ensures
        res == numeric_moment_spec(text@, timezone),
        res matches Some(t) ==> in_range(t as int),
{
    if !regex_is_valid(DAILY_OPS_PERIOD) {
        return None;
    }
    match regex_captures(DAILY_OPS_PERIOD, text) {
        Some(c) => moment_from_captures(&c, timezone, false),
        None => None,
    }
}

/// The eight-digit code in a cell.
pub open spec fn nuke_code_spec(cell: Seq<char>) -> Result<Seq<char>, FeedError> {
    if !regex_valid_spec(NUKE_CODE@) {
        Err(FeedError::InvalidPattern)
    } else {
        match regex_captures_spec(NUKE_CODE@, cell) {
            None => Err(FeedError::InvalidNukeCode),
            Some(c) => match group_spec(c, 1) {
                Some(code) => Ok(code),
                None => Err(FeedError::InvalidNukeCode),
            },
        }
    }
}

/// Reads the eight-digit code in a cell.
pub fn nuke_code(cell: &str) -> (res: Result<String, FeedError>)
    ensures
        match res {
            Ok(s) => nuke_code_spec(cell@) == Ok::<Seq<char>, FeedError>(s@),
            Err(e) => nuke_code_spec(cell@) == Err::<Seq<char>, FeedError>(e),
        },
{
    if !regex_is_valid(NUKE_CODE) {
        return Err(FeedError::InvalidPattern);
    }
    match regex_captures(NUKE_CODE, cell) {
        None => Err(FeedError::InvalidNukeCode),
        Some(c) => match group(&c, 1) {
            Some(code) => Ok(code),
            None => Err(FeedError::InvalidNukeCode),
        },
    }
}

/// The two instants of a launch-code week, once its numbers are read: the
/// start lies a year earlier when its month comes after the end's month.
pub open spec fn nuke_instants_spec(
    c: crate::pattern::CapturesView,
    zone: Zone,
    year: i32,
    start_month: u32,
    end_month: u32,
) -> Result<(i64, i64), FeedError> {
    let start_year: int = if start_month > end_month {
        year - 1
    } else {
        year as int
    };
    if start_year < i32::MIN {
        Err(FeedError::InvalidNukeStart)
    } else {
        match (group_u32_spec(c, 1), group_u32_spec(c, 6), group_u32_spec(c, 7)) {
            (Some(day), Some(hour), Some(minute)) => match local_to_utc_spec(
                zone,
                start_year as i32,
                start_month,
                day,
                hour,
                minute,
            ) {
                None => Err(FeedError::InvalidNukeStart),
                Some(start) => match group_u32_spec(c, 3) {
                    None => Err(FeedError::InvalidNukeNumber),
                    Some(end_day) => match local_to_utc_spec(
                        zone,
                        year,
                        end_month,
                        end_day,
                        hour,
                        minute,
                    ) {
                        None => Err(FeedError::InvalidNukeReset),
                        Some(end) => Ok((start, end)),
                    },
                },
            },
            _ => Err(FeedError::InvalidNukeNumber),
        }
    }
}

/// The launch-code week written in `text`, read in the page's language:
/// numeric months on German pages, month names on the others.
pub open spec fn nuke_period_spec(text: Seq<char>, code: Seq<char>, zone: Zone) -> Result<
    (i64, i64),
    FeedError,
> {
    let german = code == "de-DE"@;
    let pattern = if german {
        DE_NUKE_PERIOD@
    } else {
        EN_NUKE_PERIOD@
    };
    if !regex_valid_spec(pattern) {
        Err(FeedError::InvalidPattern)
    } else {
        match regex_captures_spec(pattern, text) {
            None => Err(FeedError::InvalidNukePeriod),
            Some(c) => match group_i32_spec(c, 5) {
                None => Err(FeedError::InvalidNukeNumber),
                Some(year) => {
                    let months = if german {
                        (group_u32_spec(c, 2), group_u32_spec(c, 4))
                    } else {
                        (group_month_spec(c, 2), group_month_spec(c, 4))
                    };
                    match months {
                        (Some(sm), Some(em)) => nuke_instants_spec(c, zone, year, sm, em),
                        _ => if german {
                            Err(FeedError::InvalidNukeNumber)
                        } else {
                            Err(FeedError::InvalidNukeMonth)
                        },
                    }
                },
            },
        }
    }
}

/// Reads the launch-code week in `text`: its start and its reset.
pub fn parse_nuke_period(text: &str, locale: &LocaleConfig) -> (res: Result<(i64, i64), FeedError>)
    ensures
        res == nuke_period_spec(text@, locale.code@, locale.timezone),
        res matches Ok((s, e)) ==> in_range(s as int) && in_range(e as int),
{
    let german = str_eq(locale.code, "de-DE");
    let pattern = if german {
        DE_NUKE_PERIOD
    } else {
        EN_NUKE_PERIOD
    };
    if !regex_is_valid(pattern) {
        return Err(FeedError::InvalidPattern);
    }
    let c = match regex_captures(pattern, text) {
        Some(c) => c,
        None => return Err(FeedError::InvalidNukePeriod),
    };
    let year = match group_i32(&c, 5) {
        Some(y) => y,
        None => return Err(FeedError::InvalidNukeNumber),
    };
    let (sm, em) = if german {
        (group_u32(&c, 2), group_u32(&c, 4))
    } else {
        (group_month(&c, 2), group_month(&c, 4))
    };
    let (start_month, end_month) = match (sm, em) {
        (Some(s), Some(e)) => (s, e),
        _ => return if german {
            Err(FeedError::InvalidNukeNumber)
        } else {
            Err(FeedError::InvalidNukeMonth)
        },
    };
    let start_year = if start_month > end_month {
        match year.checked_sub(1) {
            Some(y) => y,
            None => return Err(FeedError::InvalidNukeStart),
        }
    } else {
        year
    };
    let (day, hour, minute) = match (group_u32(&c, 1), group_u32(&c, 6), group_u32(&c, 7)) {
        (Some(d), Some(h), Some(m)) => (d, h, m),
        _ => return Err(FeedError::InvalidNukeNumber),
    };
    let start = match local_to_utc(locale.timezone, start_year, start_month, day, hour, minute) {
        Some(t) => t,
        None => return Err(FeedError::InvalidNukeStart),
    };
    let end_day = match group_u32(&c, 3) {
        Some(d) => d,
        None => return Err(FeedError::InvalidNukeNumber),
    };
    match local_to_utc(locale.timezone, year, end_month, end_day, hour, minute) {
        Some(end) => Ok((start, end)),
        None => Err(FeedError::InvalidNukeReset),
    }
}

/// A challenge's target, written in brackets at the end of its name:
/// "Kill 5 Scorched (5)".
pub const CHALLENGE_TARGET: &'static str = r"\(\s*([0-9][0-9.,]*)\s*\)\s*$";

/// The rank some names start with: "1. ".
pub const CHALLENGE_RANK: &'static str = r"^\d+\S*\s+";

/// A number, possibly with thousands separators.
pub const GROUPED_NUMBER: &'static str = r"[0-9][0-9.,]*";

/// What a challenge list item holds: the text nodes of its name cell, and
/// those of its reward badge. `None` where the item has no such element.
pub struct ChallengeParts {
    pub name_nodes: Option<Vec<String>>,
    pub reward_nodes: Option<Vec<String>>,
}

pub struct ChallengePartsView {
    pub name_nodes: Option<Seq<Seq<char>>>,
    pub reward_nodes: Option<Seq<Seq<char>>>,
}

pub open spec fn opt_nodes_view(o: Option<Vec<String>>) -> Option<Seq<Seq<char>>> {
    match o {
        Some(v) => Some(views(v@)),
        None => None,
    }
}

impl View for ChallengeParts {
    type V = ChallengePartsView;

    open spec fn view(&self) -> ChallengePartsView {
        ChallengePartsView {
            name_nodes: opt_nodes_view(self.name_nodes),
            reward_nodes: opt_nodes_view(self.reward_nodes),
        }
    }
}

pub open spec fn parts_views(v: Seq<ChallengeParts>) -> Seq<ChallengePartsView> {
    v.map_values(|p: ChallengeParts| p@)
}

/// The heading of the tips that follow a challenge's name.
pub open spec fn is_tips(t: Seq<char>) -> bool {
    ascii_lower_seq(t) == ascii_lower_seq("tips"@) || ascii_lower_seq(t) == ascii_lower_seq(
        "tipps"@,
    )
}

/// The index of the first text node that heads the tips, or the number of
/// nodes when none does.
pub open spec fn tips_index(nodes: Seq<Seq<char>>) -> int
    decreases nodes.len(),
{
    if nodes.len() == 0 {
        0
    } else {
        let k = tips_index(nodes.drop_last());
        if k < nodes.len() - 1 {
            k
        } else if is_tips(normalize(nodes.last())) {
            nodes.len() - 1
        } else {
            nodes.len() as int
        }
    }
}

proof fn lemma_tips_index_prefix(nodes: Seq<Seq<char>>, n: int)
    requires
        0 <= n <= nodes.len(),
        tips_index(nodes.take(n)) < n,
    ensures
        tips_index(nodes) == tips_index(nodes.take(n)),
    decreases nodes.len(),
{
    if n < nodes.len() {
        assert(nodes.drop_last().take(n) =~= nodes.take(n));
        lemma_tips_index_prefix(nodes.drop_last(), n);
    } else {
        assert(nodes.take(n) =~= nodes);
    }
}

/// The pieces of a challenge's name: its text nodes before the tips,
/// normalised, the empty ones dropped.
pub open spec fn name_pieces_spec(nodes: Seq<Seq<char>>) -> Seq<Seq<char>> {
    lines_spec(nodes.take(tips_index(nodes)))
}

/// The pieces of a challenge's name.
pub fn name_pieces(nodes: &Vec<String>) -> (res: Vec<String>)
    ensures
        views(res@) == name_pieces_spec(views(nodes@)),
{
    let ghost v = views(nodes@);
    let mut k: usize = 0;
    proof {
        assert(v.take(0) =~= Seq::<Seq<char>>::empty());
        assert(v.take(nodes.len() as int) =~= v);
    }
    while k < nodes.len()
        invariant_except_break
            k <= nodes.len(),
            v == views(nodes@),
            v.take(nodes.len() as int) == v,
            tips_index(v.take(k as int)) == k,
        ensures
            k <= nodes.len(),
            tips_index(v) == k,
        decreases nodes.len() - k,
    {
        proof {
            assert(v.take(k + 1).drop_last() =~= v.take(k as int));
            assert(v.take(k + 1).last() == nodes@[k as int]@);
        }
        let t = normalize_ws(nodes[k].as_str());
        if eq_ignore_ascii_case(t.as_str(), "tips") || eq_ignore_ascii_case(t.as_str(), "tipps") {
            proof {
                lemma_tips_index_prefix(v, k + 1);
            }
            break;
        }
        k = k + 1;
    }
    let mut prefix: Vec<String> = Vec::new();
    let mut j: usize = 0;
    while j < k
        invariant
            j <= k <= nodes.len(),
            v == views(nodes@),
            views(prefix@) == v.take(j as int),
        decreases k - j,
    {
        let piece = nodes[j].clone();
        let ghost before = prefix@;
        prefix.push(piece);
        proof {
            assert(v.take(j + 1) =~= v.take(j as int).push(v[j as int]));
            assert(views(prefix@) =~= views(before).push(nodes@[j as int]@));
        }
        j = j + 1;
    }
    lines_from_nodes(&prefix)
}

/// A number read from group `k` of the first match of `pattern`, its
/// separators dropped.
pub open spec fn grouped_number_spec(pattern: Seq<char>, text: Seq<char>, k: int) -> Option<u32> {
    match regex_captures_spec(pattern, text) {
        Some(c) => match group_spec(c, k) {
            Some(g) => parse_u32_spec(strip_separators(g)),
            None => None,
        },
        None => None,
    }
}

/// The number a reward badge shows: its first number, separators dropped.
pub open spec fn reward_spec(text: Seq<char>) -> Option<u32> {
    match find_spec(GROUPED_NUMBER@, text) {
        Some(g) => parse_u32_spec(strip_separators(g)),
        None => None,
    }
}

/// The challenge a list item describes: its name without target and rank,
/// the target in brackets, and the reward. An item without a name cell,
/// with an empty name or without a readable reward is no challenge.
pub open spec fn challenge_spec(p: ChallengePartsView) -> Option<ChallengeView> {
    match p.name_nodes {
        None => None,
        Some(nodes) => {
            let raw = node_text(name_pieces_spec(nodes));
            let target = grouped_number_spec(CHALLENGE_TARGET@, raw, 1);
            let name = normalize(
                remove_first_spec(CHALLENGE_RANK@, remove_first_spec(CHALLENGE_TARGET@, raw)),
            );
            let reward = match p.reward_nodes {
                Some(r) => reward_spec(node_text(r)),
                None => None,
            };
            match reward {
                Some(score) => if name.len() > 0 {
                    Some(ChallengeView { name, target, score_reward: score })
                } else {
                    None
                },
                None => None,
            }
        },
    }
}

/// The three challenge patterns compile.
pub open spec fn challenge_patterns_valid() -> bool {
    &&& regex_valid_spec(CHALLENGE_TARGET@)
    &&& regex_valid_spec(CHALLENGE_RANK@)
    &&& regex_valid_spec(GROUPED_NUMBER@)
}

/// Reads the challenge a list item describes.
pub fn challenge_from_parts(p: &ChallengeParts) -> (res: Option<Challenge>)
    requires
        challenge_patterns_valid(),
    ensures
        match res {
            Some(c) => challenge_spec(p@) == Some(c@),
            None => challenge_spec(p@) is None,
        },
{
    let nodes = match &p.name_nodes {
        Some(n) => n,
        None => return None,
    };
    let pieces = name_pieces(nodes);
    let raw = text_of_nodes(&pieces);
    let target = match regex_captures(CHALLENGE_TARGET, raw.as_str()) {
        Some(c) => match group(&c, 1) {
            Some(g) => parse_grouped_u32(g.as_str()),
            None => None,
        },
        None => None,
    };
    let without_target = match regex_remove_first(CHALLENGE_TARGET, raw.as_str()) {
        Some(t) => t,
        None => return None,
    };
    let without_rank = match regex_remove_first(CHALLENGE_RANK, without_target.as_str()) {
        Some(t) => t,
        None => return None,
    };
    let name = normalize_ws(without_rank.as_str());
    let reward = match &p.reward_nodes {
        Some(r) => {
            let text = text_of_nodes(r);
            match regex_find(GROUPED_NUMBER, text.as_str()) {
                Some(g) => parse_grouped_u32(g.as_str()),
                None => None,
            }
        },
        None => None,
    };
    match reward {
        Some(score) => if !name.as_str().is_empty() {
            Some(Challenge { name, target, score_reward: score })
        } else {
            None
        },
        None => None,
    }
}

/// The challenges of the first `n` list items, in order.
pub open spec fn challenges_upto(parts: Seq<ChallengePartsView>, n: nat) -> Seq<ChallengeView>
    decreases n,
{
    if n == 0 {
        Seq::empty()
    } else {
        let acc = challenges_upto(parts, (n - 1) as nat);
        match challenge_spec(parts[n - 1]) {
            Some(c) => acc.push(c),
            None => acc,
        }
    }
}

/// The challenges of a widget's list items, in order.
pub open spec fn challenges_spec(parts: Seq<ChallengePartsView>) -> Seq<ChallengeView> {
    challenges_upto(parts, parts.len())
}

/// Reads the challenges of a widget's list items.
pub fn challenges_from_parts(parts: &Vec<ChallengeParts>) -> (res: Vec<Challenge>)
    requires
        challenge_patterns_valid(),
    ensures
        challenge_views(res@) == challenges_spec(parts_views(parts@)),
{
    let ghost pv = parts_views(parts@);
    let mut out: Vec<Challenge> = Vec::new();
    let mut i: usize = 0;
    proof {
        assert(challenge_views(out@) =~= Seq::<ChallengeView>::empty());
    }
    while i < parts.len()
        invariant
            i <= parts.len(),
            pv == parts_views(parts@),
            challenge_patterns_valid(),
            challenge_views(out@) == challenges_upto(pv, i as nat),
        decreases parts.len() - i,
    {
        proof {
            assert(pv[i as int] == parts@[i as int]@);
        }
        match challenge_from_parts(&parts[i]) {
            Some(c) => {
                let ghost prev = out@;
                let ghost cv = c@;
                out.push(c);
                proof {
                    assert(challenge_views(out@) =~= challenge_views(prev).push(cv));
                }
            },
            None => {},
        }
        i = i + 1;
    }
    out
}

/// The feed of a challenge widget: refused when a pattern does not compile
/// or no item is a challenge.
pub open spec fn challenges_feed_spec(
    parts: Seq<ChallengePartsView>,
    code: Seq<char>,
    zone: Zone,
    now: i64,
    source: SourceRefView,
    period_start: i64,
    reset_at: i64,
) -> Result<ChallengesFeedView, FeedError> {
    if !challenge_patterns_valid() {
        Err(FeedError::InvalidPattern)
    } else {
        let challenges = challenges_spec(parts);
        if challenges.len() == 0 {
            Err(FeedError::NoChallenges)
        } else {
            Ok(
                ChallengesFeedView {
                    schema_version: 1,
                    generated_at: now,
                    locale: code,
                    timezone: zone_name_spec(zone),
                    source,
                    period_start,
                    period_start_local: rfc3339_spec(period_start, zone),
                    reset_at,
                    reset_at_local: rfc3339_spec(reset_at, zone),
                    challenges,
                },
            )
        }
    }
}

/// Builds the feed of a challenge widget from its list items.
pub fn challenges_feed(
    parts: &Vec<ChallengeParts>,
    locale: &LocaleConfig,
    now: i64,
    source: SourceRef,
    period_start: i64,
    reset_at: i64,
) -> (res: Result<ChallengesFeed, FeedError>)
    requires
        in_range(period_start as int),
        in_range(reset_at as int),
    ensures
        match res {
            Ok(f) => challenges_feed_spec(parts_views(parts@), locale.code@, locale.timezone, now, source@, period_start, reset_at) == Ok::<ChallengesFeedView, FeedError>(f@),
            Err(e) => challenges_feed_spec(parts_views(parts@), locale.code@, locale.timezone, now, source@, period_start, reset_at) == Err::<ChallengesFeedView, FeedError>(e),
        },
{
    if !regex_is_valid(CHALLENGE_TARGET) || !regex_is_valid(CHALLENGE_RANK) || !regex_is_valid(
        GROUPED_NUMBER,
    ) {
        return Err(FeedError::InvalidPattern);
    }
    let challenges = challenges_from_parts(parts);
    if challenges.len() == 0 {
        return Err(FeedError::NoChallenges);
    }
    Ok(
        ChallengesFeed {
            schema_version: 1,
            generated_at: now,
            locale: String::from_str(locale.code),
            timezone: String::from_str(zone_name(locale.timezone)),
            source,
            period_start,
            period_start_local: to_local_string(period_start, locale.timezone),
            reset_at,
            reset_at_local: to_local_string(reset_at, locale.timezone),
            challenges,
        },
    )
}

/// The texts that are not empty, in order.
pub open spec fn nonempty(texts: Seq<Seq<char>>) -> Seq<Seq<char>> {
    texts.filter(|t: Seq<char>| t.len() > 0)
}

/// Keeps the texts that are not empty.
pub fn keep_nonempty(texts: &Vec<String>) -> (res: Vec<String>)
    ensures
        views(res@) == nonempty(views(texts@)),
{
    let ghost v = views(texts@);
    let mut out: Vec<String> = Vec::new();
    let mut i: usize = 0;
    proof {
        assert(views(out@) =~= nonempty(v.take(0)));
    }
    while i < texts.len()
        invariant
            i <= texts.len(),
            v == views(texts@),
            views(out@) == nonempty(v.take(i as int)),
        decreases texts.len() - i,
    {
        let ghost prev = out@;
        proof {
            let t = v.take(i + 1);
            assert(t.drop_last() =~= v.take(i as int));
            assert(t.last() == texts@[i as int]@);
            reveal_with_fuel(Seq::<_>::filter, 1);
        }
        if !texts[i].as_str().is_empty() {
            let piece = texts[i].clone();
            out.push(piece);
            proof {
                assert(views(out@) =~= views(prev).push(texts@[i as int]@));
            }
        }
        i = i + 1;
    }
    proof {
        assert(v.take(i as int) =~= v);
    }
    out
}

/// Today's Daily Ops, read from the period text and the texts of the mode
/// and column cells: the mode is the first mode cell, the mutations the
/// second mode cell and the second column, location and enemies the third
/// and fourth columns (empty cells do not count). The operation resets one
/// day after it started, at the same local time.
pub open spec fn daily_ops_spec(
    period: Seq<char>,
    types: Seq<Seq<char>>,
    columns: Seq<Seq<char>>,
    code: Seq<char>,
    zone: Zone,
    now: i64,
    source: SourceRefView,
) -> Result<DailyOpsFeedView, FeedError> {
    match numeric_moment_spec(period, zone) {
        None => Err(FeedError::InvalidDailyOpsPeriod),
        Some(start) => match add_local_days_spec(start, zone, 1) {
            Err(e) => Err(e),
            Ok(reset) => {
                let tv = nonempty(types);
                let cv = nonempty(columns);
                if tv.len() < 2 || cv.len() < 4 {
                    Err(FeedError::IncompleteDailyOps)
                } else {
                    Ok(
                        DailyOpsFeedView {
                            schema_version: 1,
                            generated_at: now,
                            locale: code,
                            timezone: zone_name_spec(zone),
                            source,
                            mode: tv[0],
                            location: cv[2],
                            enemies: cv[3],
                            mutations: seq![tv[1], cv[1]],
                            period_start: start,
                            period_start_local: rfc3339_spec(start, zone),
                            reset_at: reset,
                            reset_at_local: rfc3339_spec(reset, zone),
                        },
                    )
                }
            },
        },
    }
}

/// Builds the Daily Ops feed from the widget's texts.
pub fn daily_ops_feed(
    period: &str,
    types: &Vec<String>,
    columns: &Vec<String>,
    locale: &LocaleConfig,
    now: i64,
    source: SourceRef,
) -> (res: Result<DailyOpsFeed, FeedError>)
    ensures
        match res {
            Ok(f) => daily_ops_spec(period@, views(types@), views(columns@), locale.code@, locale.timezone, now, source@) == Ok::<DailyOpsFeedView, FeedError>(f@),
            Err(e) => daily_ops_spec(period@, views(types@), views(columns@), locale.code@, locale.timezone, now, source@) == Err::<DailyOpsFeedView, FeedError>(e),
        },
        res matches Ok(f) ==> in_range(f.period_start as int) && in_range(f.reset_at as int),
{
    let start = match parse_numeric_local_datetime(period, locale.timezone) {
        Some(t) => t,
        None => return Err(FeedError::InvalidDailyOpsPeriod),
    };
    let reset = match add_local_days(start, locale.timezone, 1) {
        Ok(t) => t,
        Err(e) => return Err(e),
    };
    let tv = keep_nonempty(types);
    let cv = keep_nonempty(columns);
    if tv.len() < 2 || cv.len() < 4 {
        return Err(FeedError::IncompleteDailyOps);
    }
    proof {
        assert(views(tv@)[0] == tv@[0]@ && views(tv@)[1] == tv@[1]@);
        assert(views(cv@)[1] == cv@[1]@ && views(cv@)[2] == cv@[2]@ && views(cv@)[3] == cv@[3]@);
    }
    let mut mutations: Vec<String> = Vec::new();
    mutations.push(tv[1].clone());
    mutations.push(cv[1].clone());
    proof {
        assert(views(mutations@) =~= seq![tv@[1]@, cv@[1]@]);
    }
    Ok(
        DailyOpsFeed {
            schema_version: 1,
            generated_at: now,
            locale: String::from_str(locale.code),
            timezone: String::from_str(zone_name(locale.timezone)),
            source,
            mode: tv[0].clone(),
            location: cv[2].clone(),
            enemies: cv[3].clone(),
            mutations,
            period_start: start,
            period_start_local: to_local_string(start, locale.timezone),
            reset_at: reset,
            reset_at_local: to_local_string(reset, locale.timezone),
        },
    )
}

/// This week's launch codes, read from the texts of the code row's cells:
/// the period in the first, the codes for Alpha, Bravo and Charlie in the
/// next three.
pub open spec fn nuke_codes_spec(
    cells: Seq<Seq<char>>,
    code: Seq<char>,
    zone: Zone,
    now: i64,
    source: SourceRefView,
) -> Result<NukeCodesFeedView, FeedError> {
    if cells.len() < 4 {
        Err(FeedError::IncompleteNukeCodes)
    } else {
        match nuke_period_spec(cells[0], code, zone) {
            Err(e) => Err(e),
            Ok((valid_from, resets_at)) => match nuke_code_spec(cells[1]) {
                Err(e) => Err(e),
                Ok(alpha) => match nuke_code_spec(cells[2]) {
                    Err(e) => Err(e),
                    Ok(bravo) => match nuke_code_spec(cells[3]) {
                        Err(e) => Err(e),
                        Ok(charlie) => Ok(
                            NukeCodesFeedView {
                                schema_version: 1,
                                generated_at: now,
                                locale: code,
                                timezone: zone_name_spec(zone),
                                source,
                                alpha,
                                bravo,
                                charlie,
                                valid_from,
                                valid_from_local: rfc3339_spec(valid_from, zone),
                                resets_at,
                                resets_at_local: rfc3339_spec(resets_at, zone),
                            },
                        ),
                    },
                },
            },
        }
    }
}

/// Builds the launch-code feed from the texts of the code row's cells.
pub fn nuke_codes_feed(cells: &Vec<String>, locale: &LocaleConfig, now: i64, source: SourceRef) -> (res:
    Result<NukeCodesFeed, FeedError>)
    ensures
        match res {
            Ok(f) => nuke_codes_spec(views(cells@), locale.code@, locale.timezone, now, source@) == Ok::<NukeCodesFeedView, FeedError>(f@),
            Err(e) => nuke_codes_spec(views(cells@), locale.code@, locale.timezone, now, source@) == Err::<NukeCodesFeedView, FeedError>(e),
        },
{
    if cells.len() < 4 {
        return Err(FeedError::IncompleteNukeCodes);
    }
    proof {
        assert(views(cells@)[0] == cells@[0]@ && views(cells@)[1] == cells@[1]@);
        assert(views(cells@)[2] == cells@[2]@ && views(cells@)[3] == cells@[3]@);
    }
    let (valid_from, resets_at) = match parse_nuke_period(cells[0].as_str(), locale) {
        Ok(p) => p,
        Err(e) => return Err(e),
    };
    let alpha = match nuke_code(cells[1].as_str()) {
        Ok(c) => c,
        Err(e) => return Err(e),
    };
    let bravo = match nuke_code(cells[2].as_str()) {
        Ok(c) => c,
        Err(e) => return Err(e),
    };
    let charlie = match nuke_code(cells[3].as_str()) {
        Ok(c) => c,
        Err(e) => return Err(e),
    };
    Ok(
        NukeCodesFeed {
            schema_version: 1,
            generated_at: now,
            locale: String::from_str(locale.code),
            timezone: String::from_str(zone_name(locale.timezone)),
            source,
            alpha,
            bravo,
            charlie,
            valid_from,
            valid_from_local: to_local_string(valid_from, locale.timezone),
            resets_at,
            resets_at_local: to_local_string(resets_at, locale.timezone),
        },
    )
}

/// The season line: `Season 20: "Ghoul Within"`.
pub const SEASON_PATTERN: &'static str =
    r#"(?i)(?:Season|Saison)\s+(\d+)\s*:\s*[\"']([^\"']+)[\"']"#;

/// The days left of the season: "Still 12 / 70 Days Left".
pub const REMAINING_PATTERN: &'static str =
    r"(?i)(?:Still|Noch)\s+(\d+)\s*/\s*(\d+)\s+(?:Days Left|Tage)";

/// What follows a label in a German date: ": 28.09.2026 18:00".
pub const DE_LABEL_TAIL: &'static str =
    r":\s*(\d{1,2})\.(\d{1,2})\.(\d{4})\s+(\d{1,2}):(\d{2})";

/// What follows a label in an English date: ": 28th September 2026 18:00".
pub const EN_LABEL_TAIL: &'static str =
    r":\s*(\d{1,2})(?:st|nd|rd|th)?\s+([A-Za-z]+)\s+(\d{4})\s+(\d{1,2}):(\d{2})";

/// The pattern of a labelled date: the label, escaped, matched in any case,
/// then the date.
pub open spec fn label_pattern(label: Seq<char>, tail: Seq<char>) -> Seq<char> {
    "(?i)"@ + escape_spec(label) + tail
}

/// Builds the pattern of a labelled date.
pub fn label_pattern_exec(label: &str, tail: &str) -> (res: String)
    ensures
        res@ == label_pattern(label@, tail@),
{
    let mut p = String::from_str("(?i)");
    let escaped = escape(label);
    p.append(escaped.as_str());
    p.append(tail);
    p
}

/// The instant written after the first of `labels` that is followed by a
/// date, German form first: "Start: 28.09.2026 18:00" or "End: 28th
/// September 2026 18:00". Reading stops at the first label that is
/// followed by a date, whether or not that date exists.
pub open spec fn labeled_spec(text: Seq<char>, labels: Seq<Seq<char>>, zone: Zone) -> Option<i64>
    decreases labels.len(),
{
    if labels.len() == 0 {
        None
    } else {
        let de = label_pattern(labels[0], DE_LABEL_TAIL@);
        let en = label_pattern(labels[0], EN_LABEL_TAIL@);
        if !regex_valid_spec(de) {
            None
        } else {
            match regex_captures_spec(de, text) {
                Some(c) => moment_from_spec(c, zone, false),
                None => if !regex_valid_spec(en) {
                    None
                } else {
                    match regex_captures_spec(en, text) {
                        Some(c) => moment_from_spec(c, zone, true),
                        None => labeled_spec(text, labels.drop_first(), zone),
                    }
                },
            }
        }
    }
}

/// Reads the instant written after one of `labels` in `text`, local time
/// in `timezone`.
pub fn parse_labeled_datetime(text: &str, labels: &[&str], timezone: Zone) -> (res: Option<i64>)
    ensures
        res == labeled_spec(text@, str_views(labels@), timezone),
        res matches Some(t) ==> in_range(t as int),
{
    let ghost ls = str_views(labels@);
    let mut i: usize = 0;
    proof {
        assert(ls.skip(0) =~= ls);
    }
    while i < labels.len()
        invariant
            i <= labels.len(),
            ls == str_views(labels@),
            labeled_spec(text@, ls, timezone) == labeled_spec(text@, ls.skip(i as int), timezone),
        decreases labels.len() - i,
    {
        let label = labels[i];
        proof {
            assert(ls.skip(i as int)[0] == label@);
            assert(ls.skip(i as int).drop_first() =~= ls.skip(i + 1));
        }
        let de = label_pattern_exec(label, DE_LABEL_TAIL);
        if !regex_is_valid(de.as_str()) {
            return None;
        }
        match regex_captures(de.as_str(), text) {
            Some(c) => return moment_from_captures(&c, timezone, false),
            None => {},
        }
        let en = label_pattern_exec(label, EN_LABEL_TAIL);
        if !regex_is_valid(en.as_str()) {
            return None;
        }
        match regex_captures(en.as_str(), text) {
            Some(c) => return moment_from_captures(&c, timezone, true),
            None => {},
        }
        i = i + 1;
    }
    None
}

/// The text of an optional instant in a zone's local time.
pub open spec fn opt_local_spec(t: Option<i64>, zone: Zone) -> Option<Seq<char>> {
    match t {
        Some(v) => Some(rfc3339_spec(v, zone)),
        None => None,
    }
}

fn opt_local_string(t: Option<i64>, zone: Zone) -> (res: Option<String>)
    requires
        t matches Some(v) ==> in_range(v as int),
    ensures
        opt_str_view(res) == opt_local_spec(t, zone),
{
    match t {
        Some(v) => Some(to_local_string(v, zone)),
        None => None,
    }
}

/// The current season, read from the widget's visible text and from the
/// `data-content` of its info button: number and name from the visible
/// text, the days left when they are given, start and end from the button
/// text, and whether that text calls the end an estimate.
pub open spec fn season_spec(
    visible: Seq<char>,
    content: Seq<char>,
    code: Seq<char>,
    zone: Zone,
    now: i64,
    source: SourceRefView,
) -> Result<SeasonFeedView, FeedError> {
    if !regex_valid_spec(SEASON_PATTERN@) {
        Err(FeedError::InvalidPattern)
    } else {
        match regex_captures_spec(SEASON_PATTERN@, visible) {
            None => Err(FeedError::InvalidSeasonName),
            Some(sc) => if !regex_valid_spec(REMAINING_PATTERN@) {
                Err(FeedError::InvalidPattern)
            } else {
                let remaining = regex_captures_spec(REMAINING_PATTERN@, visible);
                let starts_at = labeled_spec(content, seq!["Start"@], zone);
                let ends_at = labeled_spec(content, seq!["End"@, "Ende"@], zone);
                let lower = lowercase_of(content);
                match group_u32_spec(sc, 1) {
                    None => Err(FeedError::InvalidSeasonNumber),
                    Some(number) => match group_spec(sc, 2) {
                        None => Err(FeedError::InvalidSeasonName),
                        Some(name) => Ok(
                            SeasonFeedView {
                                schema_version: 1,
                                generated_at: now,
                                locale: code,
                                timezone: zone_name_spec(zone),
                                source,
                                season_number: number,
                                season_name: name,
                                starts_at,
                                starts_at_local: opt_local_spec(starts_at, zone),
                                ends_at,
                                ends_at_local: opt_local_spec(ends_at, zone),
                                end_estimated: contains_seq(lower, "estimated"@) || contains_seq(
                                    lower,
                                    "schätzung"@,
                                ),
                                remaining_days: match remaining {
                                    Some(c) => group_u32_spec(c, 1),
                                    None => None,
                                },
                                total_days: match remaining {
                                    Some(c) => group_u32_spec(c, 2),
                                    None => None,
                                },
                            },
                        ),
                    },
                }
            },
        }
    }
}

/// Builds the season feed from the widget's visible text and the text of
/// its info button.
pub fn season_feed(visible: &str, content: &str, locale: &LocaleConfig, now: i64, source: SourceRef) -> (res:
    Result<SeasonFeed, FeedError>)
    ensures
        match res {
            Ok(f) => season_spec(visible@, content@, locale.code@, locale.timezone, now, source@) == Ok::<SeasonFeedView, FeedError>(f@),
            Err(e) => season_spec(visible@, content@, locale.code@, locale.timezone, now, source@) == Err::<SeasonFeedView, FeedError>(e),
        },
{
    if !regex_is_valid(SEASON_PATTERN) {
        return Err(FeedError::InvalidPattern);
    }
    let sc = match regex_captures(SEASON_PATTERN, visible) {
        Some(c) => c,
        None => return Err(FeedError::InvalidSeasonName),
    };
    if !regex_is_valid(REMAINING_PATTERN) {
        return Err(FeedError::InvalidPattern);
    }
    let remaining = regex_captures(REMAINING_PATTERN, visible);
    let mut start_labels: Vec<&str> = Vec::new();
    start_labels.push("Start");
    let mut end_labels: Vec<&str> = Vec::new();
    end_labels.push("End");
    end_labels.push("Ende");
    proof {
        assert(str_views(start_labels@) =~= seq!["Start"@]);
        assert(str_views(end_labels@) =~= seq!["End"@, "Ende"@]);
    }
    let starts_at = parse_labeled_datetime(content, start_labels.as_slice(), locale.timezone);
    let ends_at = parse_labeled_datetime(content, end_labels.as_slice(), locale.timezone);
    let lower = to_lowercase(content);
    let number = match group_u32(&sc, 1) {
        Some(n) => n,
        None => return Err(FeedError::InvalidSeasonNumber),
    };
    let name = match group(&sc, 2) {
        Some(n) => n,
        None => return Err(FeedError::InvalidSeasonName),
    };
    let (remaining_days, total_days) = match &remaining {
        Some(c) => (group_u32(c, 1), group_u32(c, 2)),
        None => (None, None),
    };
    Ok(
        SeasonFeed {
            schema_version: 1,
            generated_at: now,
            locale: String::from_str(locale.code),
            timezone: String::from_str(zone_name(locale.timezone)),
            source,
            season_number: number,
            season_name: name,
            starts_at,
            starts_at_local: opt_local_string(starts_at, locale.timezone),
            ends_at,
            ends_at_local: opt_local_string(ends_at, locale.timezone),
            end_estimated: contains(lower.as_str(), "estimated") || contains(
                lower.as_str(),
                "schätzung",
            ),
            remaining_days,
            total_days,
        },
    )
}

/// The list items of a challenge widget.
pub const CHALLENGE_ITEMS: &'static str = "li.list-group-item";

/// The name cell of a challenge item.
pub const CHALLENGE_NAME: &'static str = ".col-9";

/// The reward badge of a challenge item.
pub const CHALLENGE_REWARD: &'static str = ".badge-secondary";

/// The text nodes of the first of some elements, if there is one.
pub open spec fn first_nodes_spec(els: Seq<ElementView>) -> Option<Seq<Seq<char>>> {
    if els.len() > 0 {
        Some(els[0].nodes)
    } else {
        None
    }
}

/// What list items `0 .. n` of the first widget matching `root` hold;
/// `None` when their cells cannot be selected.
pub open spec fn parts_upto_spec(html: Seq<char>, root: Seq<char>, n: nat) -> Option<Seq<ChallengePartsView>>
    decreases n,
{
    if n == 0 {
        Some(Seq::empty())
    } else {
        match parts_upto_spec(html, root, (n - 1) as nat) {
            None => None,
            Some(acc) => match select_within2_spec(html, root, 0, CHALLENGE_ITEMS@, n - 1, CHALLENGE_NAME@, NO_ATTR@) {
                None => None,
                Some(names) => match select_within2_spec(html, root, 0, CHALLENGE_ITEMS@, n - 1, CHALLENGE_REWARD@, NO_ATTR@) {
                    None => None,
                    Some(rewards) => Some(
                        acc.push(ChallengePartsView { name_nodes: first_nodes_spec(names), reward_nodes: first_nodes_spec(rewards) }),
                    ),
                },
            },
        }
    }
}

proof fn lemma_parts_none_persists(html: Seq<char>, root: Seq<char>, m: nat, n: nat)
    requires
        m <= n,
        parts_upto_spec(html, root, m) is None,
    ensures
        parts_upto_spec(html, root, n) is None,
    decreases n,
{
    if n > m {
        lemma_parts_none_persists(html, root, m, (n - 1) as nat);
    }
}

/// The list items of the first widget of a page matching `root`.
pub open spec fn challenge_parts_spec(html: Seq<char>, root: Seq<char>) -> Result<Seq<ChallengePartsView>, FeedError> {
    match select_spec(html, root, NO_ATTR@) {
        None => Err(FeedError::InvalidSelector),
        Some(roots) => if roots.len() == 0 {
            Err(FeedError::MissingChallenges)
        } else {
            match select_within_spec(html, root, 0, CHALLENGE_ITEMS@, NO_ATTR@) {
                None => Err(FeedError::InvalidSelector),
                Some(items) => match parts_upto_spec(html, root, items.len()) {
                    None => Err(FeedError::InvalidSelector),
                    Some(p) => Ok(p),
                },
            }
        },
    }
}

/// The feed of the challenge widget of a page that `root` finds.
pub open spec fn challenges_page_spec(
    html: Seq<char>,
    root: Seq<char>,
    code: Seq<char>,
    zone: Zone,
    now: i64,
    source: SourceRefView,
    period_start: i64,
    reset_at: i64,
) -> Result<ChallengesFeedView, FeedError> {
    if !challenge_patterns_valid() {
        Err(FeedError::InvalidPattern)
    } else {
        match challenge_parts_spec(html, root) {
            Err(e) => Err(e),
            Ok(p) => challenges_feed_spec(p, code, zone, now, source, period_start, reset_at),
        }
    }
}

/// The text nodes of the first element, if there is one.
fn first_nodes(elements: Vec<ElementData>) -> (res: Option<Vec<String>>)
    ensures
        opt_nodes_view(res) == first_nodes_spec(element_views(elements@)),
{
    if elements.len() > 0 {
        let mut elements = elements;
        let ghost ev = element_views(elements@);
        let first = elements.remove(0);
        proof {
            assert(ev[0] == first@);
        }
        Some(first.nodes)
    } else {
        None
    }
}

/// Reads the challenge widget that `root_selector` finds: each list item's
/// name cell and reward badge.
pub fn parse_challenges(
    page: &Page,
    root_selector: &str,
    locale: &LocaleConfig,
    now: i64,
    source: SourceRef,
    period_start: i64,
    reset_at: i64,
) -> (res: Result<ChallengesFeed, FeedError>)
    requires
        in_range(period_start as int),
        in_range(reset_at as int),
    ensures
        match res {
            Ok(f) => challenges_page_spec(page@, root_selector@, locale.code@, locale.timezone, now, source@, period_start, reset_at)
                == Ok::<ChallengesFeedView, FeedError>(f@),
            Err(e) => challenges_page_spec(page@, root_selector@, locale.code@, locale.timezone, now, source@, period_start, reset_at)
                == Err::<ChallengesFeedView, FeedError>(e),
        },
{
    if !regex_is_valid(CHALLENGE_TARGET) || !regex_is_valid(CHALLENGE_RANK) || !regex_is_valid(
        GROUPED_NUMBER,
    ) {
        return Err(FeedError::InvalidPattern);
    }
    let roots = match select_page(page, root_selector, NO_ATTR) {
        Some(r) => r,
        None => return Err(FeedError::InvalidSelector),
    };
    if roots.len() == 0 {
        proof {
            assert(element_views(roots@).len() == roots@.len());
        }
        return Err(FeedError::MissingChallenges);
    }
    let items = match select_page_within(page, root_selector, 0, CHALLENGE_ITEMS, NO_ATTR) {
        Some(i) => i,
        None => return Err(FeedError::InvalidSelector),
    };
    let mut parts: Vec<ChallengeParts> = Vec::new();
    let mut i: usize = 0;
    proof {
        assert(parts_views(parts@) =~= Seq::<ChallengePartsView>::empty());
        assert(element_views(roots@).len() == roots@.len());
        assert(element_views(items@).len() == items@.len());
    }
    while i < items.len()
        invariant
            i <= items.len(),
            challenge_patterns_valid(),
            select_spec(page@, root_selector@, NO_ATTR@) == Some(element_views(roots@)),
            element_views(roots@).len() > 0,
            select_within_spec(page@, root_selector@, 0, CHALLENGE_ITEMS@, NO_ATTR@) == Some(element_views(items@)),
            parts_upto_spec(page@, root_selector@, i as nat) == Some(parts_views(parts@)),
        decreases items.len() - i,
    {
        let names = match select_page_within2(page, root_selector, 0, CHALLENGE_ITEMS, i, CHALLENGE_NAME, NO_ATTR) {
            Some(n) => n,
            None => {
                proof {
                    lemma_parts_none_persists(page@, root_selector@, (i + 1) as nat, items@.len());
                }
                return Err(FeedError::InvalidSelector);
            },
        };
        let rewards = match select_page_within2(page, root_selector, 0, CHALLENGE_ITEMS, i, CHALLENGE_REWARD, NO_ATTR) {
            Some(r) => r,
            None => {
                proof {
                    lemma_parts_none_persists(page@, root_selector@, (i + 1) as nat, items@.len());
                }
                return Err(FeedError::InvalidSelector);
            },
        };
        let p = ChallengeParts { name_nodes: first_nodes(names), reward_nodes: first_nodes(rewards) };
        let ghost prev = parts@;
        let ghost pv = p@;
        parts.push(p);
        proof {
            assert(parts_views(parts@) =~= parts_views(prev).push(pv));
        }
        i = i + 1;
    }
    proof {
        assert(element_views(roots@).len() == roots@.len());
        assert(element_views(items@).len() == items@.len());
        assert(challenge_parts_spec(page@, root_selector@) == Ok::<Seq<ChallengePartsView>, FeedError>(parts_views(parts@)));
    }
    challenges_feed(&parts, locale, now, source, period_start, reset_at)
}

/// The Daily Ops widget.
pub const DAILY_OPS_ROOT: &'static str = ".mod_dailyops_widget";

/// The period line of the Daily Ops widget.
pub const DAILY_OPS_PERIOD_LINE: &'static str = "h4 + small";

/// The mode cells of the Daily Ops widget.
pub const DAILY_OPS_TYPES: &'static str = ".dailyopstype .col-12";

/// The column cells of the Daily Ops widget.
pub const DAILY_OPS_COLUMNS: &'static str = ".row.p-2 > .col-6";

/// The Daily Ops feed of a page: read from the first Daily Ops widget, its
/// first period line, and the texts of its mode and column cells.
pub open spec fn daily_ops_page_spec(
    html: Seq<char>,
    code: Seq<char>,
    zone: Zone,
    now: i64,
    source: SourceRefView,
) -> Result<DailyOpsFeedView, FeedError> {
    match select_spec(html, DAILY_OPS_ROOT@, NO_ATTR@) {
        None => Err(FeedError::InvalidSelector),
        Some(roots) => if roots.len() == 0 {
            Err(FeedError::MissingDailyOps)
        } else {
            match select_within_spec(html, DAILY_OPS_ROOT@, 0, DAILY_OPS_PERIOD_LINE@, NO_ATTR@) {
                None => Err(FeedError::InvalidSelector),
                Some(smalls) => if smalls.len() == 0 {
                    Err(FeedError::MissingDailyOpsPeriod)
                } else {
                    match select_within_spec(html, DAILY_OPS_ROOT@, 0, DAILY_OPS_TYPES@, NO_ATTR@) {
                        None => Err(FeedError::InvalidSelector),
                        Some(types) => match select_within_spec(html, DAILY_OPS_ROOT@, 0, DAILY_OPS_COLUMNS@, NO_ATTR@) {
                            None => Err(FeedError::InvalidSelector),
                            Some(columns) => daily_ops_spec(
                                node_text(smalls[0].nodes),
                                texts_of(types),
                                texts_of(columns),
                                code,
                                zone,
                                now,
                                source,
                            ),
                        },
                    }
                },
            }
        },
    }
}

/// Reads the Daily Ops widget: its period line, its mode cells and its
/// columns.
pub fn parse_daily_ops(page: &Page, locale: &LocaleConfig, now: i64, source: SourceRef) -> (res: Result<
    DailyOpsFeed,
    FeedError,
>)
    ensures
        match res {
            Ok(f) => daily_ops_page_spec(page@, locale.code@, locale.timezone, now, source@) == Ok::<DailyOpsFeedView, FeedError>(f@),
            Err(e) => daily_ops_page_spec(page@, locale.code@, locale.timezone, now, source@) == Err::<DailyOpsFeedView, FeedError>(e),
        },
        res matches Ok(f) ==> in_range(f.period_start as int) && in_range(f.reset_at as int),
{
    let roots = match select_page(page, DAILY_OPS_ROOT, NO_ATTR) {
        Some(r) => r,
        None => return Err(FeedError::InvalidSelector),
    };
    if roots.len() == 0 {
        return Err(FeedError::MissingDailyOps);
    }
    let smalls = match select_page_within(page, DAILY_OPS_ROOT, 0, DAILY_OPS_PERIOD_LINE, NO_ATTR) {
        Some(s) => s,
        None => return Err(FeedError::InvalidSelector),
    };
    if smalls.len() == 0 {
        return Err(FeedError::MissingDailyOpsPeriod);
    }
    proof {
        assert(element_views(smalls@)[0] == smalls@[0]@);
    }
    let period = element_text(&smalls[0]);
    let type_cells = match select_page_within(page, DAILY_OPS_ROOT, 0, DAILY_OPS_TYPES, NO_ATTR) {
        Some(t) => t,
        None => return Err(FeedError::InvalidSelector),
    };
    let column_cells = match select_page_within(page, DAILY_OPS_ROOT, 0, DAILY_OPS_COLUMNS, NO_ATTR) {
        Some(c) => c,
        None => return Err(FeedError::InvalidSelector),
    };
    let types = element_texts(&type_cells);
    let columns = element_texts(&column_cells);
    daily_ops_feed(period.as_str(), &types, &columns, locale, now, source)
}

/// The launch-code row of the home page.
pub const NUKE_CODES_ROW: &'static str = ".nuke-codes .row.d-none.d-md-flex";

/// The cells of the launch-code row.
pub const NUKE_CODES_CELLS: &'static str = ":scope > div";

/// The launch-code feed of a page: read from the texts of the cells of its
/// first launch-code row.
pub open spec fn nuke_codes_page_spec(
    html: Seq<char>,
    code: Seq<char>,
    zone: Zone,
    now: i64,
    source: SourceRefView,
) -> Result<NukeCodesFeedView, FeedError> {
    match select_spec(html, NUKE_CODES_ROW@, NO_ATTR@) {
        None => Err(FeedError::InvalidSelector),
        Some(rows) => if rows.len() == 0 {
            Err(FeedError::MissingNukeCodes)
        } else {
            match select_within_spec(html, NUKE_CODES_ROW@, 0, NUKE_CODES_CELLS@, NO_ATTR@) {
                None => Err(FeedError::InvalidSelector),
                Some(cells) => nuke_codes_spec(texts_of(cells), code, zone, now, source),
            }
        },
    }
}

/// Reads the launch-code row: the texts of its cells.
pub fn parse_nuke_codes(page: &Page, locale: &LocaleConfig, now: i64, source: SourceRef) -> (res: Result<
    NukeCodesFeed,
    FeedError,
>)
    ensures
        match res {
            Ok(f) => nuke_codes_page_spec(page@, locale.code@, locale.timezone, now, source@) == Ok::<NukeCodesFeedView, FeedError>(f@),
            Err(e) => nuke_codes_page_spec(page@, locale.code@, locale.timezone, now, source@) == Err::<NukeCodesFeedView, FeedError>(e),
        },
{
    let rows = match select_page(page, NUKE_CODES_ROW, NO_ATTR) {
        Some(r) => r,
        None => return Err(FeedError::InvalidSelector),
    };
    if rows.len() == 0 {
        return Err(FeedError::MissingNukeCodes);
    }
    let cell_elements = match select_page_within(page, NUKE_CODES_ROW, 0, NUKE_CODES_CELLS, NO_ATTR) {
        Some(c) => c,
        None => return Err(FeedError::InvalidSelector),
    };
    let cells = element_texts(&cell_elements);
    nuke_codes_feed(&cells, locale, now, source)
}

/// The season widget.
pub const SEASON_ROOT: &'static str = ".season_desc";

/// The info button of the season widget.
pub const SEASON_BUTTON: &'static str = "button[data-content]";

/// The attribute of the info button that holds the season's dates.
pub const SEASON_CONTENT: &'static str = "data-content";

/// The `data-content` of the first info button, empty when there is none.
pub open spec fn button_content(buttons: Seq<ElementView>) -> Seq<char> {
    if buttons.len() > 0 {
        match buttons[0].attr {
            Some(c) => c,
            None => Seq::empty(),
        }
    } else {
        Seq::empty()
    }
}

/// The season feed of a page: read from the text of its first season
/// widget and the `data-content` of that widget's first info button.
pub open spec fn season_page_spec(
    html: Seq<char>,
    code: Seq<char>,
    zone: Zone,
    now: i64,
    source: SourceRefView,
) -> Result<SeasonFeedView, FeedError> {
    match select_spec(html, SEASON_ROOT@, NO_ATTR@) {
        None => Err(FeedError::InvalidSelector),
        Some(roots) => if roots.len() == 0 {
            Err(FeedError::MissingSeason)
        } else {
            match select_within_spec(html, SEASON_ROOT@, 0, SEASON_BUTTON@, SEASON_CONTENT@) {
                None => Err(FeedError::InvalidSelector),
                Some(buttons) => season_spec(node_text(roots[0].nodes), button_content(buttons), code, zone, now, source),
            }
        },
    }
}

/// Reads the season widget: its visible text and the `data-content` of its
/// info button (empty when there is none).
pub fn parse_season(page: &Page, locale: &LocaleConfig, now: i64, source: SourceRef) -> (res: Result<
    SeasonFeed,
    FeedError,
>)
    ensures
        match res {
            Ok(f) => season_page_spec(page@, locale.code@, locale.timezone, now, source@) == Ok::<SeasonFeedView, FeedError>(f@),
            Err(e) => season_page_spec(page@, locale.code@, locale.timezone, now, source@) == Err::<SeasonFeedView, FeedError>(e),
        },
{
    let roots = match select_page(page, SEASON_ROOT, NO_ATTR) {
        Some(r) => r,
        None => return Err(FeedError::InvalidSelector),
    };
    if roots.len() == 0 {
        return Err(FeedError::MissingSeason);
    }
    proof {
        assert(element_views(roots@)[0] == roots@[0]@);
    }
    let visible = element_text(&roots[0]);
    let buttons = match select_page_within(page, SEASON_ROOT, 0, SEASON_BUTTON, SEASON_CONTENT) {
        Some(b) => b,
        None => return Err(FeedError::InvalidSelector),
    };
    let content = if buttons.len() > 0 {
        proof {
            assert(element_views(buttons@)[0] == buttons@[0]@);
        }
        match &buttons[0].attr {
            Some(c) => c.clone(),
            None => String::new(),
        }
    } else {
        String::new()
    };
    season_feed(visible.as_str(), content.as_str(), locale, now, source)
}

/// Where the home page's feeds say they come from.
pub open spec fn home_source(locale: LocaleConfig) -> SourceRefView {
    SourceRefView { provider: "Nuka Knights"@, url: locale.nuka_home_url@ }
}

/// The daily challenge widget.
pub const DAILY_CHALLENGES: &'static str = ".mod_fallout76challenges_daily";

/// The weekly challenge widget.
pub const WEEKLY_CHALLENGES: &'static str = ".mod_fallout76challenges_weekly";

/// The feeds of a home page, in the order they are read: Daily Ops, the
/// daily challenges over the Daily Ops period, the weekly challenges over
/// the challenge week holding its start, the launch codes and the season.
pub open spec fn home_spec(html: Seq<char>, locale: LocaleConfig, now: i64) -> Result<
    (DailyOpsFeedView, ChallengesFeedView, ChallengesFeedView, NukeCodesFeedView, SeasonFeedView),
    FeedError,
> {
    let code = locale.code@;
    let zone = locale.timezone;
    let src = home_source(locale);
    match daily_ops_page_spec(html, code, zone, now, src) {
        Err(e) => Err(e),
        Ok(d) => match challenges_page_spec(html, DAILY_CHALLENGES@, code, zone, now, src, d.period_start, d.reset_at) {
            Err(e) => Err(e),
            Ok(daily) => match challenge_week_spec(d.period_start) {
                Err(e) => Err(e),
                Ok(week) => match challenges_page_spec(html, WEEKLY_CHALLENGES@, code, zone, now, src, week.0, week.1) {
                    Err(e) => Err(e),
                    Ok(weekly) => match nuke_codes_page_spec(html, code, zone, now, src) {
                        Err(e) => Err(e),
                        Ok(n) => match season_page_spec(html, code, zone, now, src) {
                            Err(e) => Err(e),
                            Ok(s) => Ok((d, daily, weekly, n, s)),
                        },
                    },
                },
            },
        },
    }
}

/// Builds every feed of a fetched home page. The daily challenges run over
/// the Daily Ops period; the weekly ones over the challenge week holding
/// its start. The page itself is kept, since the Minerva inventory is read
/// from it.
pub fn build_home_feed(html: String, locale: &LocaleConfig, now: i64) -> (res: Result<
    NukaHomeFeed,
    FeedError,
>)
    ensures
        match res {
            Ok(f) => f.html@ == html@ && home_spec(html@, *locale, now) == Ok::<
                (DailyOpsFeedView, ChallengesFeedView, ChallengesFeedView, NukeCodesFeedView, SeasonFeedView),
                FeedError,
            >((f.daily_ops@, f.daily_challenges@, f.weekly_challenges@, f.nuke_codes@, f.season@)),
            Err(e) => home_spec(html@, *locale, now) == Err::<
                (DailyOpsFeedView, ChallengesFeedView, ChallengesFeedView, NukeCodesFeedView, SeasonFeedView),
                FeedError,
            >(e),
        },
{
    let page = load_page(html.as_str());
    let source = SourceRef { provider: String::from_str("Nuka Knights"), url: String::from_str(locale.nuka_home_url) };
    proof {
        assert(source@ == home_source(*locale));
    }
    let daily_ops = match parse_daily_ops(&page, locale, now, source.clone()) {
        Ok(d) => d,
        Err(e) => return Err(e),
    };
    let daily_challenges = match parse_challenges(
        &page,
        DAILY_CHALLENGES,
        locale,
        now,
        source.clone(),
        daily_ops.period_start,
        daily_ops.reset_at,
    ) {
        Ok(c) => c,
        Err(e) => return Err(e),
    };
    let (week_start, week_end) = match challenge_week(daily_ops.period_start) {
        Ok(w) => w,
        Err(e) => return Err(e),
    };
    let weekly_challenges = match parse_challenges(
        &page,
        WEEKLY_CHALLENGES,
        locale,
        now,
        source.clone(),
        week_start,
        week_end,
    ) {
        Ok(c) => c,
        Err(e) => return Err(e),
    };
    let nuke_codes = match parse_nuke_codes(&page, locale, now, source.clone()) {
        Ok(n) => n,
        Err(e) => return Err(e),
    };
    let season = match parse_season(&page, locale, now, source) {
        Ok(s) => s,
        Err(e) => return Err(e),
    };
    Ok(NukaHomeFeed { html, daily_challenges, weekly_challenges, daily_ops, nuke_codes, season })
}

} // verus!
