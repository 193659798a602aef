//! The event calendar and the tags that classify events.

use vstd::prelude::*;
use crate::clock::{in_range, rfc3339_spec, to_local_string, zone_name, Zone};
use crate::config::LocaleConfig;
use crate::dom::{element_text, element_views, load_page, select_page, select_spec, ElementView, Page};
use crate::error::FeedError;
use crate::link::{url_join, url_join_spec, url_text, url_text_spec, url_valid_spec};
use crate::model::{event_views, Event, EventView, EventsFeed, EventsFeedView, SourceRef, SourceRefView};
use crate::order::{lemma_sort_permutes, lemma_sort_sorted, strict_weak_order, insert_pos, insert_sorted, lemma_insert_pos_step, lemma_insert_pos_bounds, lemma_insert_pos_stop, sort_by};
use crate::pattern::opt_str_view;
use crate::text::{node_text, lemma_seq_lt_transitive, any_alphabetic, has_alphabetic, occurs_at, seq_lt, starts_with, str_eq, str_lt, views, contains, contains_seq, lowercase_of, to_lowercase, ascii_lower_seq, ascii_upper_seq, is_ascii_seq, lemma_ascii_case_folds};
use crate::timeparse::{nuka_moment_spec, nuka_range_spec, parse_nuka_moment, parse_nuka_range};

verus! {

/// `lower` contains one of the needles.
#[verifier::opaque]
pub open spec fn any_in(lower: Seq<char>, needles: Seq<Seq<char>>) -> bool {
    exists|k: int| 0 <= k < needles.len() && contains_seq(lower, #[trigger] needles[k])
}

/// Whether `lower` contains one of the needles.
fn any_contained(lower: &str, needles: &[&str]) -> (res: bool)
    ensures
        res == any_in(lower@, needles@.map_values(|s: &str| s@)),
{
    let ghost nv = needles@.map_values(|s: &str| s@);
    let mut k: usize = 0;
    while k < needles.len()
        invariant
            k <= needles@.len(),
            nv == needles@.map_values(|s: &str| s@),
            forall|j: int| 0 <= j < k ==> !contains_seq(lower@, #[trigger] nv[j]),
        decreases needles.len() - k,
    {
        proof {
            assert(nv[k as int] == needles@[k as int]@);
        }
        if contains(lower, needles[k]) {
            proof {
                reveal(any_in);
                assert(contains_seq(lower@, nv[k as int]));
            }
            return true;
        }
        k = k + 1;
    }
    proof {
        reveal(any_in);
    }
    false
}

#[verifier::opaque]
pub open spec fn add_if(s: Seq<Seq<char>>, b: bool, t: Seq<char>) -> Seq<Seq<char>> {
    if b {
        s.push(t)
    } else {
        s
    }
}

/// The needles of each tag.
#[verifier::opaque]
pub open spec fn treasure_hunter(l: Seq<char>) -> bool {
    any_in(l, seq!["treasure hunter"@, "schatzsucher"@])
}

#[verifier::opaque]
pub open spec fn double_score(l: Seq<char>) -> bool {
    any_in(l, seq!["double score"@, "doppelte score"@, "doppelter score"@, "doppel-score"@])
}

#[verifier::opaque]
pub open spec fn double_xp(l: Seq<char>) -> bool {
    any_in(l, seq!["double xp"@, "doppelte ep"@, "doppelter ep"@, "doppel ep"@])
}

#[verifier::opaque]
pub open spec fn mutated_events(l: Seq<char>) -> bool {
    any_in(l, seq!["mutated public events"@, "mutierte öffentliche events"@, "mutierte events"@])
}

#[verifier::opaque]
pub open spec fn double_mutations(l: Seq<char>) -> bool {
    any_in(l, seq!["double mutations"@, "doppelte mutationen"@, "doppelmutationen"@])
}

#[verifier::opaque]
pub open spec fn spooky_scorched(l: Seq<char>) -> bool {
    any_in(l, seq!["spooky scorched"@, "gruselige verbrannte"@])
}

#[verifier::opaque]
pub open spec fn fasnacht(l: Seq<char>) -> bool {
    any_in(l, seq!["fasnacht"@])
}

#[verifier::opaque]
pub open spec fn minerva(l: Seq<char>) -> bool {
    any_in(l, seq!["minerva"@])
}

#[verifier::opaque]
pub open spec fn maintenance(l: Seq<char>) -> bool {
    any_in(l, seq!["maintenance"@, "wartung"@])
}

#[verifier::opaque]
pub open spec fn caps_a_plenty(l: Seq<char>) -> bool {
    any_in(l, seq!["caps-a-plenty"@, "reichlich kronkorken"@])
}

#[verifier::opaque]
pub open spec fn gold_rush(l: Seq<char>) -> bool {
    any_in(l, seq!["gold rush"@, "goldrausch"@])
}

#[verifier::opaque]
pub open spec fn legendary_sale(l: Seq<char>) -> bool {
    any_in(l, seq!["legendary sale"@, "legendäre angebote"@])
}

#[verifier::opaque]
pub open spec fn holiday_scorched(l: Seq<char>) -> bool {
    any_in(l, seq!["holiday scorched"@, "feiertags verbrannte"@])
}

#[verifier::opaque]
pub open spec fn mothman_equinox(l: Seq<char>) -> bool {
    any_in(l, seq!["mothman equinox"@, "mottenmann äquinoktium"@])
}

#[verifier::opaque]
pub open spec fn meat_week(l: Seq<char>) -> bool {
    any_in(l, seq!["meat week"@, "fleischwoche"@])
}

#[verifier::opaque]
pub open spec fn invaders_from_beyond(l: Seq<char>) -> bool {
    any_in(l, seq!["invaders from beyond"@, "invasoren aus dem all"@])
}

#[verifier::opaque]
pub open spec fn mischief_night(l: Seq<char>) -> bool {
    any_in(l, seq!["mischief night"@, "nacht des unfugs"@])
}

#[verifier::opaque]
pub open spec fn anniversary(l: Seq<char>) -> bool {
    any_in(l, seq!["anniversary"@, "geburtstags event"@])
}

#[verifier::opaque]
pub open spec fn seasonal_fish(l: Seq<char>) -> bool {
    any_in(l, seq!["seasonal fish"@, "saisonale fisch"@])
}

/// Words that mark a seasonal event on their own.
#[verifier::opaque]
pub open spec fn seasonal_words(l: Seq<char>) -> bool {
    any_in(
        l,
        seq![
            "fasnacht"@,
            "mothman equinox"@,
            "mottenmann äquinoktium"@,
            "meat week"@,
            "fleischwoche"@,
            "invaders from beyond"@,
            "invasoren aus dem all"@,
            "spooky scorched"@,
            "gruselige verbrannte"@,
            "holiday scorched"@,
            "festliche verbrannte"@,
            "mischief night"@,
            "nacht des unfugs"@,
            "seasonal event"@,
            "saisonales event"@,
        ],
    )
}

/// A seasonal event: one of the seasonal words, or a tag of a seasonal
/// event.
pub open spec fn seasonal_event(l: Seq<char>) -> bool {
    seasonal_words(l) || treasure_hunter(l) || spooky_scorched(l) || fasnacht(l)
        || holiday_scorched(l) || mothman_equinox(l) || meat_week(l) || invaders_from_beyond(l)
        || mischief_night(l) || seasonal_fish(l)
}

/// The name of tag `k` in alphabetical order.
#[verifier::opaque]
pub open spec fn tag_name(k: int) -> Seq<char> {
    if k == 0 {
        "anniversary"@
    } else if k == 1 {
        "caps_a_plenty"@
    } else if k == 2 {
        "double_mutations"@
    } else if k == 3 {
        "double_score"@
    } else if k == 4 {
        "double_xp"@
    } else if k == 5 {
        "fasnacht"@
    } else if k == 6 {
        "gold_rush"@
    } else if k == 7 {
        "holiday_scorched"@
    } else if k == 8 {
        "invaders_from_beyond"@
    } else if k == 9 {
        "legendary_sale"@
    } else if k == 10 {
        "maintenance"@
    } else if k == 11 {
        "meat_week"@
    } else if k == 12 {
        "minerva"@
    } else if k == 13 {
        "mischief_night"@
    } else if k == 14 {
        "mothman_equinox"@
    } else if k == 15 {
        "mutated_events"@
    } else if k == 16 {
        "seasonal_event"@
    } else if k == 17 {
        "seasonal_fish"@
    } else if k == 18 {
        "spooky_scorched"@
    } else if k == 19 {
        "treasure_hunter"@
    } else {
        Seq::empty()
    }
}

fn tag_literal(k: usize) -> (res: &'static str)
    requires
        k < 20,
    ensures
        res@ == tag_name(k as int),
{
    proof {
        reveal(tag_name);
    }
    match k {
        0 => "anniversary",
        1 => "caps_a_plenty",
        2 => "double_mutations",
        3 => "double_score",
        4 => "double_xp",
        5 => "fasnacht",
        6 => "gold_rush",
        7 => "holiday_scorched",
        8 => "invaders_from_beyond",
        9 => "legendary_sale",
        10 => "maintenance",
        11 => "meat_week",
        12 => "minerva",
        13 => "mischief_night",
        14 => "mothman_equinox",
        15 => "mutated_events",
        16 => "seasonal_event",
        17 => "seasonal_fish",
        18 => "spooky_scorched",
        _ => "treasure_hunter",
    }
}

/// Whether tag `k` (in alphabetical order) applies to a lowercased title.
pub open spec fn flag(l: Seq<char>, k: int) -> bool {
    if k == 0 {
        anniversary(l)
    } else if k == 1 {
        caps_a_plenty(l)
    } else if k == 2 {
        double_mutations(l)
    } else if k == 3 {
        double_score(l)
    } else if k == 4 {
        double_xp(l)
    } else if k == 5 {
        fasnacht(l)
    } else if k == 6 {
        gold_rush(l)
    } else if k == 7 {
        holiday_scorched(l)
    } else if k == 8 {
        invaders_from_beyond(l)
    } else if k == 9 {
        legendary_sale(l)
    } else if k == 10 {
        maintenance(l)
    } else if k == 11 {
        meat_week(l)
    } else if k == 12 {
        minerva(l)
    } else if k == 13 {
        mischief_night(l)
    } else if k == 14 {
        mothman_equinox(l)
    } else if k == 15 {
        mutated_events(l)
    } else if k == 16 {
        self::seasonal_event(l)
    } else if k == 17 {
        seasonal_fish(l)
    } else if k == 18 {
        spooky_scorched(l)
    } else if k == 19 {
        treasure_hunter(l)
    } else {
        false
    }
}

/// The names of the first `n` tags whose flags are set.
pub open spec fn tags_upto(l: Seq<char>, n: nat) -> Seq<Seq<char>>
    decreases n,
{
    if n == 0 {
        Seq::empty()
    } else {
        add_if(tags_upto(l, (n - 1) as nat), flag(l, n - 1), tag_name(n - 1))
    }
}

/// The tags of a lowercased title, sorted and without repeats.
pub open spec fn tags_spec(l: Seq<char>) -> Seq<Seq<char>> {
    tags_upto(l, 20)
}

/// The texts of a list of strings, kept abstract while tags are added.
#[verifier::opaque]
pub open spec fn names_of(v: Seq<String>) -> Seq<Seq<char>> {
    views(v)
}

fn push_if(tags: Vec<String>, b: bool, k: usize) -> (res: Vec<String>)
    requires
        k < 20,
    ensures
        names_of(res@) == add_if(names_of(tags@), b, tag_name(k as int)),
{
    proof {
        reveal(add_if);
        reveal(names_of);
    }
    let mut tags = tags;
    if b {
        let ghost prev = tags@;
        tags.push(String::from_str(tag_literal(k)));
        proof {
            assert(views(tags@) =~= views(prev).push(tag_name(k as int)));
        }
    }
    tags
}

fn has_treasure_hunter(l: &str) -> (res: bool)
    ensures
        res == treasure_hunter(l@),
{
    proof {
        reveal(treasure_hunter);
        assert(["treasure hunter", "schatzsucher"]@.map_values(|s: &str| s@) =~= seq!["treasure hunter"@, "schatzsucher"@]);
    }
    any_contained(l, &["treasure hunter", "schatzsucher"])
}

fn has_double_score(l: &str) -> (res: bool)
    ensures
        res == double_score(l@),
{
    proof {
        reveal(double_score);
        assert(["double score", "doppelte score", "doppelter score", "doppel-score"]@.map_values(|s: &str| s@) =~= seq!["double score"@, "doppelte score"@, "doppelter score"@, "doppel-score"@]);
    }
    any_contained(l, &["double score", "doppelte score", "doppelter score", "doppel-score"])
}

fn has_double_xp(l: &str) -> (res: bool)
    ensures
        res == double_xp(l@),
{
    proof {
        reveal(double_xp);
        assert(["double xp", "doppelte ep", "doppelter ep", "doppel ep"]@.map_values(|s: &str| s@) =~= seq!["double xp"@, "doppelte ep"@, "doppelter ep"@, "doppel ep"@]);
    }
    any_contained(l, &["double xp", "doppelte ep", "doppelter ep", "doppel ep"])
}

fn has_mutated_events(l: &str) -> (res: bool)
    ensures
        res == mutated_events(l@),
{
    proof {
        reveal(mutated_events);
        assert(["mutated public events", "mutierte öffentliche events", "mutierte events"]@.map_values(|s: &str| s@) =~= seq!["mutated public events"@, "mutierte öffentliche events"@, "mutierte events"@]);
    }
    any_contained(l, &["mutated public events", "mutierte öffentliche events", "mutierte events"])
}

fn has_double_mutations(l: &str) -> (res: bool)
    ensures
        res == double_mutations(l@),
{
    proof {
        reveal(double_mutations);
        assert(["double mutations", "doppelte mutationen", "doppelmutationen"]@.map_values(|s: &str| s@) =~= seq!["double mutations"@, "doppelte mutationen"@, "doppelmutationen"@]);
    }
    any_contained(l, &["double mutations", "doppelte mutationen", "doppelmutationen"])
}

fn has_spooky_scorched(l: &str) -> (res: bool)
    ensures
        res == spooky_scorched(l@),
{
    proof {
        reveal(spooky_scorched);
        assert(["spooky scorched", "gruselige verbrannte"]@.map_values(|s: &str| s@) =~= seq!["spooky scorched"@, "gruselige verbrannte"@]);
    }
    any_contained(l, &["spooky scorched", "gruselige verbrannte"])
}

fn has_fasnacht(l: &str) -> (res: bool)
    ensures
        res == fasnacht(l@),
{
    proof {
        reveal(fasnacht);
        assert(["fasnacht"]@.map_values(|s: &str| s@) =~= seq!["fasnacht"@]);
    }
    any_contained(l, &["fasnacht"])
}

fn has_minerva(l: &str) -> (res: bool)
    ensures
        res == minerva(l@),
{
    proof {
        reveal(minerva);
        assert(["minerva"]@.map_values(|s: &str| s@) =~= seq!["minerva"@]);
    }
    any_contained(l, &["minerva"])
}

fn has_maintenance(l: &str) -> (res: bool)
    ensures
        res == maintenance(l@),
{
    proof {
        reveal(maintenance);
        assert(["maintenance", "wartung"]@.map_values(|s: &str| s@) =~= seq!["maintenance"@, "wartung"@]);
    }
    any_contained(l, &["maintenance", "wartung"])
}

fn has_caps_a_plenty(l: &str) -> (res: bool)
    ensures
        res == caps_a_plenty(l@),
{
    proof {
        reveal(caps_a_plenty);
        assert(["caps-a-plenty", "reichlich kronkorken"]@.map_values(|s: &str| s@) =~= seq!["caps-a-plenty"@, "reichlich kronkorken"@]);
    }
    any_contained(l, &["caps-a-plenty", "reichlich kronkorken"])
}

fn has_gold_rush(l: &str) -> (res: bool)
    ensures
        res == gold_rush(l@),
{
    proof {
        reveal(gold_rush);
        assert(["gold rush", "goldrausch"]@.map_values(|s: &str| s@) =~= seq!["gold rush"@, "goldrausch"@]);
    }
    any_contained(l, &["gold rush", "goldrausch"])
}

fn has_legendary_sale(l: &str) -> (res: bool)
    ensures
        res == legendary_sale(l@),
{
    proof {
        reveal(legendary_sale);
        assert(["legendary sale", "legendäre angebote"]@.map_values(|s: &str| s@) =~= seq!["legendary sale"@, "legendäre angebote"@]);
    }
    any_contained(l, &["legendary sale", "legendäre angebote"])
}

fn has_holiday_scorched(l: &str) -> (res: bool)
    ensures
        res == holiday_scorched(l@),
{
    proof {
        reveal(holiday_scorched);
        assert(["holiday scorched", "feiertags verbrannte"]@.map_values(|s: &str| s@) =~= seq!["holiday scorched"@, "feiertags verbrannte"@]);
    }
    any_contained(l, &["holiday scorched", "feiertags verbrannte"])
}

fn has_mothman_equinox(l: &str) -> (res: bool)
    ensures
        res == mothman_equinox(l@),
{
    proof {
        reveal(mothman_equinox);
        assert(["mothman equinox", "mottenmann äquinoktium"]@.map_values(|s: &str| s@) =~= seq!["mothman equinox"@, "mottenmann äquinoktium"@]);
    }
    any_contained(l, &["mothman equinox", "mottenmann äquinoktium"])
}

fn has_meat_week(l: &str) -> (res: bool)
    ensures
        res == meat_week(l@),
{
    proof {
        reveal(meat_week);
        assert(["meat week", "fleischwoche"]@.map_values(|s: &str| s@) =~= seq!["meat week"@, "fleischwoche"@]);
    }
    any_contained(l, &["meat week", "fleischwoche"])
}

fn has_invaders_from_beyond(l: &str) -> (res: bool)
    ensures
        res == invaders_from_beyond(l@),
{
    proof {
        reveal(invaders_from_beyond);
        assert(["invaders from beyond", "invasoren aus dem all"]@.map_values(|s: &str| s@) =~= seq!["invaders from beyond"@, "invasoren aus dem all"@]);
    }
    any_contained(l, &["invaders from beyond", "invasoren aus dem all"])
}

fn has_mischief_night(l: &str) -> (res: bool)
    ensures
        res == mischief_night(l@),
{
    proof {
        reveal(mischief_night);
        assert(["mischief night", "nacht des unfugs"]@.map_values(|s: &str| s@) =~= seq!["mischief night"@, "nacht des unfugs"@]);
    }
    any_contained(l, &["mischief night", "nacht des unfugs"])
}

fn has_anniversary(l: &str) -> (res: bool)
    ensures
        res == anniversary(l@),
{
    proof {
        reveal(anniversary);
        assert(["anniversary", "geburtstags event"]@.map_values(|s: &str| s@) =~= seq!["anniversary"@, "geburtstags event"@]);
    }
    any_contained(l, &["anniversary", "geburtstags event"])
}

fn has_seasonal_fish(l: &str) -> (res: bool)
    ensures
        res == seasonal_fish(l@),
{
    proof {
        reveal(seasonal_fish);
        assert(["seasonal fish", "saisonale fisch"]@.map_values(|s: &str| s@) =~= seq!["seasonal fish"@, "saisonale fisch"@]);
    }
    any_contained(l, &["seasonal fish", "saisonale fisch"])
}

fn has_seasonal_words(l: &str) -> (res: bool)
    ensures
        res == seasonal_words(l@),
{
    proof {
        reveal(seasonal_words);
        assert(["fasnacht", "mothman equinox", "mottenmann äquinoktium", "meat week", "fleischwoche", "invaders from beyond", "invasoren aus dem all", "spooky scorched", "gruselige verbrannte", "holiday scorched", "festliche verbrannte", "mischief night", "nacht des unfugs", "seasonal event", "saisonales event"]@.map_values(|s: &str| s@) =~= seq!["fasnacht"@, "mothman equinox"@, "mottenmann äquinoktium"@, "meat week"@, "fleischwoche"@, "invaders from beyond"@, "invasoren aus dem all"@, "spooky scorched"@, "gruselige verbrannte"@, "holiday scorched"@, "festliche verbrannte"@, "mischief night"@, "nacht des unfugs"@, "seasonal event"@, "saisonales event"@]);
    }
    any_contained(l, &["fasnacht", "mothman equinox", "mottenmann äquinoktium", "meat week", "fleischwoche", "invaders from beyond", "invasoren aus dem all", "spooky scorched", "gruselige verbrannte", "holiday scorched", "festliche verbrannte", "mischief night", "nacht des unfugs", "seasonal event", "saisonales event"])
}

/// Whether tag `k` applies to a lowercased title.
fn flag_value(l: &str, k: usize) -> (res: bool)
    requires
        k < 20,
    ensures
        res == flag(l@, k as int),
{
    match k {
        0 => has_anniversary(l),
        1 => has_caps_a_plenty(l),
        2 => has_double_mutations(l),
        3 => has_double_score(l),
        4 => has_double_xp(l),
        5 => has_fasnacht(l),
        6 => has_gold_rush(l),
        7 => has_holiday_scorched(l),
        8 => has_invaders_from_beyond(l),
        9 => has_legendary_sale(l),
        10 => has_maintenance(l),
        11 => has_meat_week(l),
        12 => has_minerva(l),
        13 => has_mischief_night(l),
        14 => has_mothman_equinox(l),
        15 => has_mutated_events(l),
        16 => has_seasonal_words(l) || has_treasure_hunter(l) || has_spooky_scorched(l)
            || has_fasnacht(l) || has_holiday_scorched(l) || has_mothman_equinox(l)
            || has_meat_week(l) || has_invaders_from_beyond(l) || has_mischief_night(l)
            || has_seasonal_fish(l),
        17 => has_seasonal_fish(l),
        18 => has_spooky_scorched(l),
        _ => has_treasure_hunter(l),
    }
}

/// The tags of a lowercased title, sorted and without repeats.
pub fn tags_from_lowercase(l: &str) -> (res: Vec<String>)
    ensures
        views(res@) == tags_spec(l@),
{
    let mut tags: Vec<String> = Vec::new();
    proof {
        reveal(names_of);
        assert(views(tags@) =~= Seq::<Seq<char>>::empty());
    }
    let mut k: usize = 0;
    while k < 20
        invariant
            k <= 20,
            names_of(tags@) == tags_upto(l@, k as nat),
        decreases 20 - k,
    {
        let b = flag_value(l, k);
        tags = push_if(tags, b, k);
        k = k + 1;
    }
    proof {
        reveal(names_of);
    }
    tags
}

/// Event tags ignore the letter case of an ASCII title: the title raised
/// or lowered to ASCII upper or lower case is tagged as the title is.
pub proof fn lemma_tags_ignore_ascii_case(title: Seq<char>)
    requires
        is_ascii_seq(title),
    ensures
        is_ascii_seq(ascii_upper_seq(title)),
        is_ascii_seq(ascii_lower_seq(title)),
        tags_spec(ascii_lower_seq(ascii_upper_seq(title))) == tags_spec(ascii_lower_seq(title)),
        tags_spec(ascii_lower_seq(ascii_lower_seq(title))) == tags_spec(ascii_lower_seq(title)),
{
    lemma_ascii_case_folds(title);
}

/// The tags that classify an event by its title: each tag whose words occur
/// in the lowercased title, plus "seasonal_event" for seasonal events;
/// sorted and without repeats.
pub fn event_tags(title: &str) -> (res: Vec<String>)
    ensures
        views(res@) == tags_spec(lowercase_of(title@)),
        is_ascii_seq(title@) ==> views(res@) == tags_spec(ascii_lower_seq(title@)),
        forall|i: int, j: int| 0 <= i < j < res@.len() ==> seq_lt(#[trigger] res@[i]@, #[trigger] res@[j]@),
{
    let lower = to_lowercase(title);
    let res = tags_from_lowercase(lower.as_str());
    proof {
        lemma_tags_sorted(lower@);
        assert forall|i: int, j: int| 0 <= i < j < res@.len() implies seq_lt(#[trigger] res@[i]@, #[trigger] res@[j]@) by {
            assert(views(res@)[i] == res@[i]@ && views(res@)[j] == res@[j]@);
        }
    }
    res
}

/// A calendar link as read from the page: its `href` and its text.
pub struct Anchor {
    pub href: String,
    pub text: String,
}

pub struct AnchorView {
    pub href: Seq<char>,
    pub text: Seq<char>,
}

impl View for Anchor {
    type V = AnchorView;

    open spec fn view(&self) -> AnchorView {
        AnchorView { href: self.href@, text: self.text@ }
    }
}

pub open spec fn anchor_views(v: Seq<Anchor>) -> Seq<AnchorView> {
    v.map_values(|a: Anchor| a@)
}

/// The distinct texts of the links to one event page.
pub struct LinkGroup {
    pub url: String,
    pub texts: Vec<String>,
}

pub struct LinkGroupView {
    pub url: Seq<char>,
    pub texts: Seq<Seq<char>>,
}

impl View for LinkGroup {
    type V = LinkGroupView;

    open spec fn view(&self) -> LinkGroupView {
        LinkGroupView { url: self.url@, texts: views(self.texts@) }
    }
}

pub open spec fn group_views(v: Seq<LinkGroup>) -> Seq<LinkGroupView> {
    v.map_values(|g: LinkGroup| g@)
}

/// The index of the group of `url`.
pub open spec fn find_group(gs: Seq<LinkGroupView>, url: Seq<char>) -> Option<int>
    decreases gs.len(),
{
    if gs.len() == 0 {
        None
    } else {
        match find_group(gs.drop_last(), url) {
            Some(i) => Some(i),
            None => if gs.last().url == url {
                Some(gs.len() - 1)
            } else {
                None
            },
        }
    }
}

/// Groups are kept in the order of their addresses.
pub open spec fn group_order() -> spec_fn(LinkGroupView, LinkGroupView) -> bool {
    |a: LinkGroupView, b: LinkGroupView| seq_lt(a.url, b.url)
}

/// Adds a link text to the group of its address: a new text is appended,
/// a known one ignored, and an unknown address starts a new group.
pub open spec fn add_link(gs: Seq<LinkGroupView>, url: Seq<char>, text: Seq<char>) -> Seq<LinkGroupView> {
    match find_group(gs, url) {
        Some(i) => if gs[i].texts.contains(text) {
            gs
        } else {
            gs.update(i, LinkGroupView { url: gs[i].url, texts: gs[i].texts.push(text) })
        },
        None => insert_sorted(gs, LinkGroupView { url, texts: seq![text] }, group_order()),
    }
}

/// The address a link points at: `href` resolved against `base`, or the
/// address of `base` itself when `href` does not resolve.
pub open spec fn resolve_spec(base: Seq<char>, href: Seq<char>) -> Seq<char> {
    match url_join_spec(base, href) {
        Some(u) => u,
        None => url_text_spec(base),
    }
}

/// The groups of the first `n` links; links without text are ignored.
pub open spec fn groups_upto(anchors: Seq<AnchorView>, base: Seq<char>, n: nat) -> Seq<LinkGroupView>
    decreases n,
{
    if n == 0 {
        Seq::empty()
    } else {
        let g = groups_upto(anchors, base, (n - 1) as nat);
        let a = anchors[n - 1];
        if a.text.len() == 0 {
            g
        } else {
            add_link(g, resolve_spec(base, a.href), a.text)
        }
    }
}

proof fn lemma_find_group_bounds(gs: Seq<LinkGroupView>, url: Seq<char>)
    ensures
        find_group(gs, url) matches Some(i) ==> 0 <= i < gs.len() && gs[i].url == url,
        find_group(gs, url) is None ==> forall|k: int| 0 <= k < gs.len() ==> gs[k].url != url,
    decreases gs.len(),
{
    if gs.len() > 0 {
        lemma_find_group_bounds(gs.drop_last(), url);
        if find_group(gs.drop_last(), url) is None {
            assert forall|k: int| 0 <= k < gs.len() - 1 implies gs[k].url != url by {
                assert(gs.drop_last()[k] == gs[k]);
            }
        }
    }
}

fn find_group_exec(gs: &Vec<LinkGroup>, url: &String) -> (res: Option<usize>)
    ensures
        match res {
            Some(i) => find_group(group_views(gs@), url@) == Some(i as int),
            None => find_group(group_views(gs@), url@) is None,
        },
{
    let ghost gv = group_views(gs@);
    let mut i: usize = 0;
    while i < gs.len()
        invariant
            i <= gs.len(),
            gv == group_views(gs@),
            find_group(gv.take(i as int), url@) is None,
        decreases gs.len() - i,
    {
        proof {
            assert(gv.take(i + 1).drop_last() =~= gv.take(i as int));
            assert(gv.take(i + 1).last() == gs@[i as int]@);
        }
        if str_eq(gs[i].url.as_str(), url.as_str()) {
            proof {
                lemma_find_group_prefix(gv, url@, i + 1);
            }
            return Some(i);
        }
        i = i + 1;
    }
    proof {
        assert(gv.take(i as int) =~= gv);
    }
    None
}

proof fn lemma_find_group_prefix(gs: Seq<LinkGroupView>, url: Seq<char>, n: int)
    requires
        0 <= n <= gs.len(),
        find_group(gs.take(n), url) is Some,
    ensures
        find_group(gs, url) == find_group(gs.take(n), url),
    decreases gs.len(),
{
    if n < gs.len() {
        assert(gs.drop_last().take(n) =~= gs.take(n));
        lemma_find_group_prefix(gs.drop_last(), url, n);
    } else {
        assert(gs.take(n) =~= gs);
    }
}

fn contains_text(texts: &Vec<String>, t: &String) -> (res: bool)
    ensures
        res == views(texts@).contains(t@),
{
    let mut i: usize = 0;
    while i < texts.len()
        invariant
            i <= texts.len(),
            forall|k: int| 0 <= k < i ==> views(texts@)[k] != t@,
        decreases texts.len() - i,
    {
        if str_eq(texts[i].as_str(), t.as_str()) {
            proof {
                assert(views(texts@)[i as int] == t@);
            }
            return true;
        }
        i = i + 1;
    }
    false
}

fn clone_texts(v: &Vec<String>) -> (res: Vec<String>)
    ensures
        views(res@) == views(v@),
{
    crate::model::clone_strings(v)
}

/// Adds one link text to the groups.
fn add_link_exec(gs: Vec<LinkGroup>, url: String, text: String) -> (res: Vec<LinkGroup>)
    ensures
        group_views(res@) == add_link(group_views(gs@), url@, text@),
{
    let mut gs = gs;
    let ghost gv = group_views(gs@);
    proof {
        lemma_find_group_bounds(gv, url@);
    }
    match find_group_exec(&gs, &url) {
        Some(i) => {
            if contains_text(&gs[i].texts, &text) {
                return gs;
            }
            let mut texts = clone_texts(&gs[i].texts);
            let ghost tv = text@;
            texts.push(text);
            let g = LinkGroup { url: gs[i].url.clone(), texts };
            let ghost g_view = g@;
            gs.set(i, g);
            proof {
                assert(views(g.texts@) =~= gv[i as int].texts.push(tv));
                assert(group_views(gs@) =~= gv.update(i as int, g_view));
            }
            gs
        },
        None => {
            let ghost ord = group_order();
            let mut j: usize = gs.len();
            proof {
                assert(gv.take(j as int) =~= gv);
            }
            while j > 0 && str_lt(url.as_str(), gs[j - 1].url.as_str())
                invariant
                    j <= gs.len(),
                    gv == group_views(gs@),
                    ord == group_order(),
                    insert_pos(gv, LinkGroupView { url: url@, texts: seq![text@] }, ord) == insert_pos(gv.take(j as int), LinkGroupView { url: url@, texts: seq![text@] }, ord),
                decreases j,
            {
                proof {
                    assert(gv[j - 1] == gs@[j - 1]@);
                    lemma_insert_pos_step(gv, LinkGroupView { url: url@, texts: seq![text@] }, ord, j as int);
                }
                j = j - 1;
            }
            proof {
                if j > 0 {
                    assert(gv[j - 1] == gs@[j - 1]@);
                }
                lemma_insert_pos_stop(gv, LinkGroupView { url: url@, texts: seq![text@] }, ord, j as int);
            }
            let ghost uv = url@;
            let ghost tv = text@;
            let mut texts: Vec<String> = Vec::new();
            texts.push(text);
            let g = LinkGroup { url, texts };
            proof {
                assert(views(g.texts@) =~= seq![tv]);
            }
            gs.insert(j, g);
            proof {
                assert(group_views(gs@) =~= gv.insert(j as int, LinkGroupView { url: uv, texts: seq![tv] }));
            }
            gs
        },
    }
}

/// The links grouped by the address they resolve to, in address order,
/// each with its distinct non-empty texts in page order. A link that does
/// not resolve counts as pointing at `base`; `None` when `base` is not an
/// address.
pub fn group_links(anchors: &Vec<Anchor>, base: &str) -> (res: Option<Vec<LinkGroup>>)
    ensures
        res is Some <==> url_valid_spec(base@),
        res matches Some(gs) ==> group_views(gs@) == groups_upto(anchor_views(anchors@), base@, anchors@.len()),
{
    let base_text = match url_text(base) {
        Some(t) => t,
        None => return None,
    };
    let ghost av = anchor_views(anchors@);
    let mut gs: Vec<LinkGroup> = Vec::new();
    let mut i: usize = 0;
    proof {
        assert(group_views(gs@) =~= Seq::<LinkGroupView>::empty());
    }
    while i < anchors.len()
        invariant
            i <= anchors.len(),
            av == anchor_views(anchors@),
            url_valid_spec(base@),
            base_text@ == url_text_spec(base@),
            group_views(gs@) == groups_upto(av, base@, i as nat),
        decreases anchors.len() - i,
    {
        proof {
            assert(av[i as int] == anchors@[i as int]@);
        }
        let absolute = match url_join(base, anchors[i].href.as_str()) {
            Some(u) => u,
            None => base_text.clone(),
        };
        if !anchors[i].text.as_str().is_empty() {
            gs = add_link_exec(gs, absolute, anchors[i].text.clone());
        }
        i = i + 1;
    }
    Some(gs)
}

/// The first text that holds a range.
pub open spec fn first_range(texts: Seq<Seq<char>>, code: Seq<char>, zone: Zone) -> Option<(i64, i64)>
    decreases texts.len(),
{
    if texts.len() == 0 {
        None
    } else {
        match first_range(texts.drop_last(), code, zone) {
            Some(r) => Some(r),
            None => nuka_range_spec(texts.last(), code, zone),
        }
    }
}

/// The first text that holds a single date and time.
pub open spec fn first_moment(texts: Seq<Seq<char>>, code: Seq<char>, zone: Zone) -> Option<i64>
    decreases texts.len(),
{
    if texts.len() == 0 {
        None
    } else {
        match first_moment(texts.drop_last(), code, zone) {
            Some(r) => Some(r),
            None => nuka_moment_spec(texts.last(), code, zone),
        }
    }
}

/// Whether a link text can be an event's title: it holds no date, holds a
/// letter, and is not a countdown ("starts in ...", "endet in ...").
pub open spec fn title_candidate(t: Seq<char>, code: Seq<char>, zone: Zone) -> bool {
    let lower = lowercase_of(t);
    &&& nuka_range_spec(t, code, zone) is None
    &&& nuka_moment_spec(t, code, zone) is None
    &&& has_alphabetic(t)
    &&& !occurs_at(lower, "starts in"@, 0)
    &&& !occurs_at(lower, "ends in"@, 0)
    &&& !occurs_at(lower, "start in"@, 0)
    &&& !occurs_at(lower, "ende in"@, 0)
    &&& !occurs_at(lower, "startet in"@, 0)
    &&& !occurs_at(lower, "endet in"@, 0)
}

/// The length of a text in UTF-8 bytes (`str::len`).
pub open spec fn byte_len(t: Seq<char>) -> int {
    vstd::utf8::encode_utf8(t).len() as int
}

/// The longest title candidate (in bytes); of equally long ones the last.
pub open spec fn best_title(texts: Seq<Seq<char>>, code: Seq<char>, zone: Zone) -> Option<Seq<char>>
    decreases texts.len(),
{
    if texts.len() == 0 {
        None
    } else {
        let b = best_title(texts.drop_last(), code, zone);
        let t = texts.last();
        if !title_candidate(t, code, zone) {
            b
        } else {
            match b {
                None => Some(t),
                Some(x) => if byte_len(t) >= byte_len(x) {
                    Some(t)
                } else {
                    Some(x)
                },
            }
        }
    }
}

/// When an event runs: the first range among its texts, else the first
/// single date (with no end).
pub open spec fn event_times(texts: Seq<Seq<char>>, code: Seq<char>, zone: Zone) -> Option<(i64, Option<i64>)> {
    match first_range(texts, code, zone) {
        Some((s, e)) => Some((s, Some(e))),
        None => match first_moment(texts, code, zone) {
            Some(s) => Some((s, None)),
            None => None,
        },
    }
}

/// Whether an event runs at `now`; an event without an end is not running.
pub open spec fn event_active(start: i64, end: Option<i64>, now: i64) -> bool {
    start <= now && match end {
        Some(e) => now < e,
        None => false,
    }
}

/// The event of one page address, when its links give a time and a title.
pub open spec fn event_of(g: LinkGroupView, code: Seq<char>, zone: Zone, now: i64) -> Option<EventView> {
    match event_times(g.texts, code, zone) {
        None => None,
        Some((start, end)) => match best_title(g.texts, code, zone) {
            None => None,
            Some(title) => Some(
                EventView {
                    title,
                    url: g.url,
                    tags: tags_spec(lowercase_of(title)),
                    starts_at: start,
                    ends_at: end,
                    starts_at_local: rfc3339_spec(start, zone),
                    ends_at_local: match end {
                        Some(e) => Some(rfc3339_spec(e, zone)),
                        None => None,
                    },
                    active: event_active(start, end, now),
                },
            ),
        },
    }
}

fn first_range_exec(texts: &Vec<String>, code: &str, zone: Zone) -> (res: Option<(i64, i64)>)
    ensures
        res == first_range(views(texts@), code@, zone),
        res matches Some((s, e)) ==> in_range(s as int) && in_range(e as int),
{
    let ghost tv = views(texts@);
    let mut i: usize = 0;
    while i < texts.len()
        invariant
            i <= texts.len(),
            tv == views(texts@),
            first_range(tv.take(i as int), code@, zone) is None,
        decreases texts.len() - i,
    {
        proof {
            assert(tv.take(i + 1).drop_last() =~= tv.take(i as int));
            assert(tv.take(i + 1).last() == texts@[i as int]@);
        }
        let r = parse_nuka_range(texts[i].as_str(), code, zone);
        if r.is_some() {
            proof {
                lemma_first_range_prefix(tv, code@, zone, i + 1);
            }
            return r;
        }
        i = i + 1;
    }
    proof {
        assert(tv.take(i as int) =~= tv);
    }
    None
}

proof fn lemma_first_range_prefix(texts: Seq<Seq<char>>, code: Seq<char>, zone: Zone, n: int)
    requires
        0 <= n <= texts.len(),
        first_range(texts.take(n), code, zone) is Some,
    ensures
        first_range(texts, code, zone) == first_range(texts.take(n), code, zone),
    decreases texts.len(),
{
    if n < texts.len() {
        assert(texts.drop_last().take(n) =~= texts.take(n));
        lemma_first_range_prefix(texts.drop_last(), code, zone, n);
    } else {
        assert(texts.take(n) =~= texts);
    }
}

fn first_moment_exec(texts: &Vec<String>, code: &str, zone: Zone) -> (res: Option<i64>)
    ensures
        res == first_moment(views(texts@), code@, zone),
        res matches Some(s) ==> in_range(s as int),
{
    let ghost tv = views(texts@);
    let mut i: usize = 0;
    while i < texts.len()
        invariant
            i <= texts.len(),
            tv == views(texts@),
            first_moment(tv.take(i as int), code@, zone) is None,
        decreases texts.len() - i,
    {
        proof {
            assert(tv.take(i + 1).drop_last() =~= tv.take(i as int));
            assert(tv.take(i + 1).last() == texts@[i as int]@);
        }
        let r = parse_nuka_moment(texts[i].as_str(), code, zone);
        if r.is_some() {
            proof {
                lemma_first_moment_prefix(tv, code@, zone, i + 1);
            }
            return r;
        }
        i = i + 1;
    }
    proof {
        assert(tv.take(i as int) =~= tv);
    }
    None
}

proof fn lemma_first_moment_prefix(texts: Seq<Seq<char>>, code: Seq<char>, zone: Zone, n: int)
    requires
        0 <= n <= texts.len(),
        first_moment(texts.take(n), code, zone) is Some,
    ensures
        first_moment(texts, code, zone) == first_moment(texts.take(n), code, zone),
    decreases texts.len(),
{
    if n < texts.len() {
        assert(texts.drop_last().take(n) =~= texts.take(n));
        lemma_first_moment_prefix(texts.drop_last(), code, zone, n);
    } else {
        assert(texts.take(n) =~= texts);
    }
}

/// Whether a link text can be an event's title.
pub fn is_title_candidate(t: &str, code: &str, zone: Zone) -> (res: bool)
    ensures
        res == title_candidate(t@, code@, zone),
{
    if parse_nuka_range(t, code, zone).is_some() {
        return false;
    }
    if parse_nuka_moment(t, code, zone).is_some() {
        return false;
    }
    if !any_alphabetic(t) {
        return false;
    }
    let lower = to_lowercase(t);
    let l = lower.as_str();
    !starts_with(l, "starts in") && !starts_with(l, "ends in") && !starts_with(l, "start in")
        && !starts_with(l, "ende in") && !starts_with(l, "startet in") && !starts_with(l, "endet in")
}

/// The longest title candidate among the texts; of equally long ones the
/// last.
pub fn best_title_exec(texts: &Vec<String>, code: &str, zone: Zone) -> (res: Option<String>)
    ensures
        opt_str_view(res) == best_title(views(texts@), code@, zone),
{
    let ghost tv = views(texts@);
    let mut best: Option<String> = None;
    let mut i: usize = 0;
    proof {
        assert(tv.take(0) =~= Seq::<Seq<char>>::empty());
    }
    while i < texts.len()
        invariant
            i <= texts.len(),
            tv == views(texts@),
            opt_str_view(best) == best_title(tv.take(i as int), code@, zone),
        decreases texts.len() - i,
    {
        proof {
            assert(tv.take(i + 1).drop_last() =~= tv.take(i as int));
            assert(tv.take(i + 1).last() == texts@[i as int]@);
        }
        if is_title_candidate(texts[i].as_str(), code, zone) {
            let take_new = match &best {
                None => true,
                Some(x) => {
                    let a = texts[i].as_str().as_bytes();
                    let b = x.as_str().as_bytes();
                    a.len() >= b.len()
                },
            };
            if take_new {
                best = Some(texts[i].clone());
            }
        }
        i = i + 1;
    }
    proof {
        assert(tv.take(i as int) =~= tv);
    }
    best
}

/// The event of one page address, when its links give a time and a title.
pub fn event_from_group(g: &LinkGroup, code: &str, zone: Zone, now: i64) -> (res: Option<Event>)
    ensures
        match res {
            Some(e) => event_of(g@, code@, zone, now) == Some(e@),
            None => event_of(g@, code@, zone, now) is None,
        },
{
    let (starts_at, ends_at) = match first_range_exec(&g.texts, code, zone) {
        Some((s, e)) => (s, Some(e)),
        None => match first_moment_exec(&g.texts, code, zone) {
            Some(s) => (s, None),
            None => return None,
        },
    };
    let title = match best_title_exec(&g.texts, code, zone) {
        Some(t) => t,
        None => return None,
    };
    let active = starts_at <= now && match ends_at {
        Some(e) => now < e,
        None => false,
    };
    let tags = event_tags(title.as_str());
    let ends_at_local = match ends_at {
        Some(e) => Some(to_local_string(e, zone)),
        None => None,
    };
    let starts_at_local = to_local_string(starts_at, zone);
    let url = g.url.clone();
    Some(Event { title, url, tags, starts_at, ends_at, starts_at_local, ends_at_local, active })
}

/// The events of the first `n` groups, in group order.
pub open spec fn events_upto(gs: Seq<LinkGroupView>, code: Seq<char>, zone: Zone, now: i64, n: nat) -> Seq<EventView>
    decreases n,
{
    if n == 0 {
        Seq::empty()
    } else {
        let acc = events_upto(gs, code, zone, now, (n - 1) as nat);
        match event_of(gs[n - 1], code, zone, now) {
            Some(e) => acc.push(e),
            None => acc,
        }
    }
}

/// Events are ordered by start.
pub open spec fn start_order() -> spec_fn(EventView, EventView) -> bool {
    |a: EventView, b: EventView| a.starts_at < b.starts_at
}

/// `dedup_by` on the address: an event whose address equals that of the
/// event kept before it is dropped.
pub open spec fn dedup_by_url(s: Seq<EventView>) -> Seq<EventView>
    decreases s.len(),
{
    if s.len() == 0 {
        s
    } else {
        let d = dedup_by_url(s.drop_last());
        if d.len() > 0 && d.last().url == s.last().url {
            d
        } else {
            d.push(s.last())
        }
    }
}

/// The events of the calendar links, ordered by start.
pub open spec fn events_spec(anchors: Seq<AnchorView>, base: Seq<char>, code: Seq<char>, zone: Zone, now: i64) -> Result<Seq<EventView>, FeedError> {
    if !url_valid_spec(base) {
        Err(FeedError::InvalidBaseUrl)
    } else {
        let gs = groups_upto(anchors, base, anchors.len());
        Ok(dedup_by_url(sort_by(events_upto(gs, code, zone, now, gs.len()), start_order())))
    }
}

/// No two groups share an address.
pub open spec fn distinct_group_urls(gs: Seq<LinkGroupView>) -> bool {
    forall|i: int, j: int| 0 <= i < j < gs.len() ==> #[trigger] gs[i].url != #[trigger] gs[j].url
}

/// No two events share an address.
pub open spec fn distinct_event_urls(s: Seq<EventView>) -> bool {
    forall|i: int, j: int| 0 <= i < j < s.len() ==> #[trigger] s[i].url != #[trigger] s[j].url
}

proof fn lemma_add_link_distinct(gs: Seq<LinkGroupView>, url: Seq<char>, text: Seq<char>)
    requires
        distinct_group_urls(gs),
    ensures
        distinct_group_urls(add_link(gs, url, text)),
{
    lemma_find_group_bounds(gs, url);
    let r = add_link(gs, url, text);
    match find_group(gs, url) {
        Some(k) => {
            assert forall|i: int, j: int| 0 <= i < j < r.len() implies #[trigger] r[i].url != #[trigger] r[j].url by {
                assert(r[i].url == gs[i].url && r[j].url == gs[j].url);
            }
        },
        None => {
            let x = LinkGroupView { url, texts: seq![text] };
            let p = insert_pos(gs, x, group_order());
            lemma_insert_pos_bounds(gs, x, group_order());
            assert forall|i: int, j: int| 0 <= i < j < r.len() implies #[trigger] r[i].url != #[trigger] r[j].url by {
                if i < p {
                    assert(r[i] == gs[i]);
                    if j < p {
                        assert(r[j] == gs[j]);
                    } else if j > p {
                        assert(r[j] == gs[j - 1]);
                    }
                } else if i == p {
                    assert(r[j] == gs[j - 1]);
                } else {
                    assert(r[i] == gs[i - 1] && r[j] == gs[j - 1]);
                }
            }
        },
    }
}

/// The groups of a page's links have pairwise different addresses.
proof fn lemma_groups_distinct(anchors: Seq<AnchorView>, base: Seq<char>, n: nat)
    ensures
        distinct_group_urls(groups_upto(anchors, base, n)),
    decreases n,
{
    if n > 0 {
        lemma_groups_distinct(anchors, base, (n - 1) as nat);
        let a = anchors[n - 1];
        if a.text.len() > 0 {
            lemma_add_link_distinct(groups_upto(anchors, base, (n - 1) as nat), resolve_spec(base, a.href), a.text);
        }
    }
}

/// The events of the first `n` groups come from different groups, in
/// order, each with its group's address.
proof fn lemma_events_upto_distinct(gs: Seq<LinkGroupView>, code: Seq<char>, zone: Zone, now: i64, n: nat)
    requires
        distinct_group_urls(gs),
        n <= gs.len(),
    ensures
        distinct_event_urls(events_upto(gs, code, zone, now, n)),
        forall|i: int| 0 <= i < events_upto(gs, code, zone, now, n).len() ==> exists|k: int|
            0 <= k < n && #[trigger] events_upto(gs, code, zone, now, n)[i].url == gs[k].url,
    decreases n,
{
    if n > 0 {
        lemma_events_upto_distinct(gs, code, zone, now, (n - 1) as nat);
        let acc = events_upto(gs, code, zone, now, (n - 1) as nat);
        let r = events_upto(gs, code, zone, now, n);
        match event_of(gs[n - 1], code, zone, now) {
            Some(e) => {
                assert(r == acc.push(e));
                assert forall|i: int| 0 <= i < r.len() implies exists|k: int| 0 <= k < n && #[trigger] r[i].url == gs[k].url by {
                    if i < acc.len() {
                        assert(r[i] == acc[i]);
                        let k = choose|k: int| 0 <= k < n - 1 && acc[i].url == gs[k].url;
                        assert(0 <= k < n && r[i].url == gs[k].url);
                    } else {
                        assert(r[i].url == gs[n - 1].url);
                    }
                }
                assert forall|i: int, j: int| 0 <= i < j < r.len() implies #[trigger] r[i].url != #[trigger] r[j].url by {
                    if j < acc.len() {
                        assert(r[i] == acc[i] && r[j] == acc[j]);
                    } else {
                        assert(r[i] == acc[i]);
                        let k = choose|k: int| 0 <= k < n - 1 && acc[i].url == gs[k].url;
                        assert(gs[k].url != gs[n - 1].url);
                    }
                }
            },
            None => {},
        }
    }
}

/// Sorting keeps the elements, so it keeps addresses pairwise different.
proof fn lemma_sort_keeps_distinct(s: Seq<EventView>, lt: spec_fn(EventView, EventView) -> bool)
    requires
        distinct_event_urls(s),
    ensures
        distinct_event_urls(sort_by(s, lt)),
        forall|i: int| 0 <= i < sort_by(s, lt).len() ==> s.contains(#[trigger] sort_by(s, lt)[i]),
    decreases s.len(),
{
    if s.len() > 0 {
        let p = s.drop_last();
        assert forall|i: int, j: int| 0 <= i < j < p.len() implies #[trigger] p[i].url != #[trigger] p[j].url by {
            assert(p[i] == s[i] && p[j] == s[j]);
        }
        lemma_sort_keeps_distinct(p, lt);
        let t = sort_by(p, lt);
        let x = s.last();
        let q = insert_pos(t, x, lt);
        lemma_insert_pos_bounds(t, x, lt);
        let r = sort_by(s, lt);
        assert(r == t.insert(q, x));
        assert forall|i: int| 0 <= i < t.len() implies #[trigger] t[i].url != x.url && s.contains(t[i]) by {
            assert(p.contains(t[i]));
            let k = choose|k: int| 0 <= k < p.len() && p[k] == t[i];
            assert(s[k] == p[k]);
            assert(s[s.len() - 1] == x);
        }
        assert forall|i: int| 0 <= i < r.len() implies s.contains(#[trigger] r[i]) by {
            if i < q {
                assert(r[i] == t[i]);
            } else if i == q {
                assert(s[s.len() - 1] == x);
            } else {
                assert(r[i] == t[i - 1]);
            }
        }
        assert forall|i: int, j: int| 0 <= i < j < r.len() implies #[trigger] r[i].url != #[trigger] r[j].url by {
            if i < q {
                assert(r[i] == t[i]);
                if j < q {
                    assert(r[j] == t[j]);
                } else if j > q {
                    assert(r[j] == t[j - 1]);
                }
            } else if i == q {
                assert(r[j] == t[j - 1]);
            } else {
                assert(r[i] == t[i - 1] && r[j] == t[j - 1]);
            }
        }
    }
}

/// Dropping neighbouring repeats changes nothing when no two events share
/// an address.
proof fn lemma_dedup_distinct(s: Seq<EventView>)
    requires
        distinct_event_urls(s),
    ensures
        dedup_by_url(s) == s,
    decreases s.len(),
{
    if s.len() > 0 {
        let p = s.drop_last();
        assert forall|i: int, j: int| 0 <= i < j < p.len() implies #[trigger] p[i].url != #[trigger] p[j].url by {
            assert(p[i] == s[i] && p[j] == s[j]);
        }
        lemma_dedup_distinct(p);
        if p.len() > 0 {
            assert(p.last() == s[s.len() - 2]);
            assert(s[s.len() - 2].url != s[s.len() - 1].url);
        }
        assert(p.push(s.last()) =~= s);
    }
}

/// The title chosen among a group's texts is one of them, holds a letter,
/// and is no countdown: its lowercase form starts with none of "starts
/// in", "ends in", "start in", "ende in", "startet in", "endet in".
pub proof fn lemma_best_title_not_countdown(texts: Seq<Seq<char>>, code: Seq<char>, zone: Zone)
    ensures
        best_title(texts, code, zone) matches Some(t) ==> texts.contains(t) && has_alphabetic(t)
            && !occurs_at(lowercase_of(t), "starts in"@, 0) && !occurs_at(lowercase_of(t), "ends in"@, 0) && !occurs_at(lowercase_of(t), "start in"@, 0) && !occurs_at(lowercase_of(t), "ende in"@, 0) && !occurs_at(lowercase_of(t), "startet in"@, 0) && !occurs_at(lowercase_of(t), "endet in"@, 0),
    decreases texts.len(),
{
    if texts.len() > 0 {
        lemma_best_title_not_countdown(texts.drop_last(), code, zone);
        let b = best_title(texts.drop_last(), code, zone);
        if b is Some {
            let x = b->0;
            let k = choose|k: int| 0 <= k < texts.drop_last().len() && texts.drop_last()[k] == x;
            assert(texts[k] == x);
        }
        assert(texts[texts.len() - 1] == texts.last());
    }
}

/// The events of the first `n` groups are each the event of one of them.
proof fn lemma_events_upto_from_groups(gs: Seq<LinkGroupView>, code: Seq<char>, zone: Zone, now: i64, n: nat)
    requires
        n <= gs.len(),
    ensures
        forall|i: int| 0 <= i < events_upto(gs, code, zone, now, n).len() ==> exists|k: int|
            0 <= k < n && event_of(gs[k], code, zone, now) == Some(#[trigger] events_upto(gs, code, zone, now, n)[i]),
    decreases n,
{
    if n > 0 {
        lemma_events_upto_from_groups(gs, code, zone, now, (n - 1) as nat);
        let acc = events_upto(gs, code, zone, now, (n - 1) as nat);
        let r = events_upto(gs, code, zone, now, n);
        assert forall|i: int| 0 <= i < r.len() implies exists|k: int|
            0 <= k < n && event_of(gs[k], code, zone, now) == Some(#[trigger] r[i]) by {
            if i < acc.len() {
                assert(r[i] == acc[i]);
                let k = choose|k: int| 0 <= k < n - 1 && event_of(gs[k], code, zone, now) == Some(acc[i]);
                assert(0 <= k < n && event_of(gs[k], code, zone, now) == Some(r[i]));
            } else {
                assert(event_of(gs[n - 1], code, zone, now) == Some(r[i]));
            }
        }
    }
}

/// No event of a calendar is titled by a countdown: every title holds a
/// letter, and its lowercase form starts with none of "starts in", "ends
/// in", "start in", "ende in", "startet in", "endet in".
pub proof fn lemma_event_titles_not_countdowns(anchors: Seq<AnchorView>, base: Seq<char>, code: Seq<char>, zone: Zone, now: i64)
    ensures
        events_spec(anchors, base, code, zone, now) matches Ok(s) ==> forall|i: int| 0 <= i < s.len() ==> {
            let t = #[trigger] s[i].title;
            has_alphabetic(t) && !occurs_at(lowercase_of(t), "starts in"@, 0) && !occurs_at(lowercase_of(t), "ends in"@, 0) && !occurs_at(lowercase_of(t), "start in"@, 0) && !occurs_at(lowercase_of(t), "ende in"@, 0) && !occurs_at(lowercase_of(t), "startet in"@, 0) && !occurs_at(lowercase_of(t), "endet in"@, 0)
        },
{
    if url_valid_spec(base) {
        let gs = groups_upto(anchors, base, anchors.len());
        lemma_groups_distinct(anchors, base, anchors.len());
        lemma_events_upto_distinct(gs, code, zone, now, gs.len());
        lemma_events_upto_from_groups(gs, code, zone, now, gs.len());
        let ev = events_upto(gs, code, zone, now, gs.len());
        lemma_sort_keeps_distinct(ev, start_order());
        let sv = sort_by(ev, start_order());
        lemma_dedup_distinct(sv);
        assert forall|i: int| 0 <= i < sv.len() implies {
            let t = #[trigger] sv[i].title;
            has_alphabetic(t) && !occurs_at(lowercase_of(t), "starts in"@, 0) && !occurs_at(lowercase_of(t), "ends in"@, 0) && !occurs_at(lowercase_of(t), "start in"@, 0) && !occurs_at(lowercase_of(t), "ende in"@, 0) && !occurs_at(lowercase_of(t), "startet in"@, 0) && !occurs_at(lowercase_of(t), "endet in"@, 0)
        } by {
            assert(ev.contains(sv[i]));
            let j = choose|j: int| 0 <= j < ev.len() && ev[j] == sv[i];
            let k = choose|k: int| 0 <= k < gs.len() && event_of(gs[k], code, zone, now) == Some(ev[j]);
            lemma_best_title_not_countdown(gs[k].texts, code, zone);
        }
    }
}

/// No two events of a calendar share an address: each event stands for
/// the links to one address.
pub proof fn lemma_events_distinct(anchors: Seq<AnchorView>, base: Seq<char>, code: Seq<char>, zone: Zone, now: i64)
    ensures
        events_spec(anchors, base, code, zone, now) matches Ok(s) ==> distinct_event_urls(s),
{
    if url_valid_spec(base) {
        let gs = groups_upto(anchors, base, anchors.len());
        lemma_groups_distinct(anchors, base, anchors.len());
        lemma_events_upto_distinct(gs, code, zone, now, gs.len());
        let ev = events_upto(gs, code, zone, now, gs.len());
        lemma_sort_keeps_distinct(ev, start_order());
        lemma_dedup_distinct(sort_by(ev, start_order()));
    }
}

/// Ordering events by start is a strict weak order.
pub proof fn lemma_start_order_weak()
    ensures
        strict_weak_order(start_order()),
{
}

/// The events sorted by start; equal starts keep their order.
pub fn sort_events_by_start(events: &Vec<Event>) -> (res: Vec<Event>)
    ensures
        event_views(res@) == sort_by(event_views(events@), start_order()),
        event_views(res@).to_multiset() == event_views(events@).to_multiset(),
        forall|k: int, m: int| 0 <= k < m < res@.len() ==> res@[k].starts_at <= res@[m].starts_at,
{
    let ghost ord = start_order();
    let mut out: Vec<Event> = Vec::new();
    let mut i: usize = 0;
    proof {
        assert(event_views(events@).take(0) =~= Seq::<EventView>::empty());
        assert(event_views(out@) =~= Seq::<EventView>::empty());
    }
    while i < events.len()
        invariant
            i <= events.len(),
            ord == start_order(),
            event_views(out@) == sort_by(event_views(events@).take(i as int), ord),
        decreases events.len() - i,
    {
        let x = events[i].clone();
        let ghost ov = event_views(out@);
        let mut j: usize = out.len();
        proof {
            assert(ov.take(j as int) =~= ov);
        }
        while j > 0 && x.starts_at < out[j - 1].starts_at
            invariant
                j <= out.len(),
                ov == event_views(out@),
                ord == start_order(),
                insert_pos(ov, x@, ord) == insert_pos(ov.take(j as int), x@, ord),
            decreases j,
        {
            proof {
                assert(ov[j - 1] == out@[j - 1]@);
                lemma_insert_pos_step(ov, x@, ord, j as int);
            }
            j = j - 1;
        }
        proof {
            if j > 0 {
                assert(ov[j - 1] == out@[j - 1]@);
            }
            lemma_insert_pos_stop(ov, x@, ord, j as int);
        }
        let ghost xv = x@;
        out.insert(j, x);
        proof {
            let t = event_views(events@).take(i + 1);
            assert(t.drop_last() =~= event_views(events@).take(i as int));
            assert(t.last() == xv);
            assert(event_views(out@) =~= ov.insert(j as int, xv));
        }
        i = i + 1;
    }
    proof {
        assert(event_views(events@).take(i as int) =~= event_views(events@));
        lemma_start_order_weak();
        lemma_sort_sorted(event_views(events@), start_order());
        lemma_sort_permutes(event_views(events@), start_order());
        assert forall|k: int, m: int| 0 <= k < m < out@.len() implies out@[k].starts_at <= out@[m].starts_at by {
            let v = event_views(out@);
            assert(v[k] == out@[k]@ && v[m] == out@[m]@);
            assert(!start_order()(v[m], v[k]));
        }
    }
    out
}

/// Drops each event whose address equals that of the event kept before it.
pub fn dedup_events_by_url(events: &Vec<Event>) -> (res: Vec<Event>)
    ensures
        event_views(res@) == dedup_by_url(event_views(events@)),
        forall|k: int| 0 < k < res@.len() ==> res@[k - 1].url@ != #[trigger] res@[k].url@,
{
    let ghost ev = event_views(events@);
    let mut out: Vec<Event> = Vec::new();
    let mut i: usize = 0;
    proof {
        assert(event_views(out@) =~= dedup_by_url(ev.take(0)));
    }
    while i < events.len()
        invariant
            i <= events.len(),
            ev == event_views(events@),
            event_views(out@) == dedup_by_url(ev.take(i as int)),
        decreases events.len() - i,
    {
        proof {
            assert(ev.take(i + 1).drop_last() =~= ev.take(i as int));
            assert(ev.take(i + 1).last() == events@[i as int]@);
        }
        let same = out.len() > 0 && str_eq(out[out.len() - 1].url.as_str(), events[i].url.as_str());
        proof {
            if out.len() > 0 {
                assert(event_views(out@).last() == out@[out.len() - 1]@);
            }
        }
        if !same {
            let ghost prev = out@;
            out.push(events[i].clone());
            proof {
                assert(event_views(out@) =~= event_views(prev).push(events@[i as int]@));
            }
        }
        i = i + 1;
    }
    proof {
        assert(ev.take(i as int) =~= ev);
        lemma_dedup_adjacent(ev);
        assert forall|k: int| 0 < k < out@.len() implies out@[k - 1].url@ != #[trigger] out@[k].url@ by {
            let d = event_views(out@);
            assert(d[k - 1] == out@[k - 1]@ && d[k] == out@[k]@);
        }
    }
    out
}

/// After dropping repeats, no two neighbours share an address.
pub proof fn lemma_dedup_adjacent(s: Seq<EventView>)
    ensures
        forall|k: int| 0 < k < dedup_by_url(s).len() ==> dedup_by_url(s)[k - 1].url != #[trigger] dedup_by_url(s)[k].url,
    decreases s.len(),
{
    if s.len() > 0 {
        lemma_dedup_adjacent(s.drop_last());
        let d = dedup_by_url(s.drop_last());
        let r = dedup_by_url(s);
        assert forall|k: int| 0 < k < r.len() implies r[k - 1].url != #[trigger] r[k].url by {
            if k < d.len() {
                assert(r[k - 1] == d[k - 1] && r[k] == d[k]);
            }
        }
    }
}

/// Dropping repeats keeps events that are in start order in start order.
pub proof fn lemma_dedup_sorted(s: Seq<EventView>)
    requires
        forall|i: int, j: int| 0 <= i < j < s.len() ==> s[i].starts_at <= s[j].starts_at,
    ensures
        forall|i: int, j: int| 0 <= i < j < dedup_by_url(s).len() ==> dedup_by_url(s)[i].starts_at <= dedup_by_url(s)[j].starts_at,
        forall|i: int| 0 <= i < dedup_by_url(s).len() ==> s.contains(#[trigger] dedup_by_url(s)[i]),
    decreases s.len(),
{
    if s.len() > 0 {
        let p = s.drop_last();
        assert forall|i: int, j: int| 0 <= i < j < p.len() implies p[i].starts_at <= p[j].starts_at by {
            assert(p[i] == s[i] && p[j] == s[j]);
        }
        lemma_dedup_sorted(p);
        let d = dedup_by_url(p);
        let r = dedup_by_url(s);
        assert forall|i: int| 0 <= i < r.len() implies s.contains(#[trigger] r[i]) by {
            if i < d.len() {
                assert(r[i] == d[i]);
                let k = choose|k: int| 0 <= k < p.len() && p[k] == d[i];
                assert(s[k] == p[k]);
            } else {
                assert(r[i] == s[s.len() - 1]);
            }
        }
        assert forall|i: int, j: int| 0 <= i < j < r.len() implies r[i].starts_at <= r[j].starts_at by {
            if j < d.len() {
                assert(r[i] == d[i] && r[j] == d[j]);
            } else {
                assert(r[i] == d[i]);
                let k = choose|k: int| 0 <= k < p.len() && p[k] == d[i];
                assert(s[k] == p[k]);
                assert(r[j] == s[s.len() - 1]);
            }
        }
    }
}

/// The events of the calendar links, ordered by start, one per address.
#[verifier::rlimit(40)]
pub fn events_from_anchors(anchors: &Vec<Anchor>, locale: &LocaleConfig, now: i64) -> (res: Result<Vec<Event>, FeedError>)
    ensures
        match res {
            Ok(v) => events_spec(anchor_views(anchors@), locale.nuka_events_url@, locale.code@, locale.timezone, now) == Ok::<Seq<EventView>, FeedError>(event_views(v@)),
            Err(e) => events_spec(anchor_views(anchors@), locale.nuka_events_url@, locale.code@, locale.timezone, now) == Err::<Seq<EventView>, FeedError>(e),
        },
        res matches Ok(v) ==> forall|i: int, j: int| 0 <= i < j < v@.len() ==> v@[i].starts_at <= v@[j].starts_at,
        res matches Ok(v) ==> forall|i: int, j: int| 0 <= i < j < v@.len() ==> #[trigger] v@[i].url@ != #[trigger] v@[j].url@,
        res matches Ok(v) ==> forall|i: int| 0 <= i < v@.len() ==> !occurs_at(lowercase_of(#[trigger] v@[i].title@), "starts in"@, 0) && !occurs_at(lowercase_of(#[trigger] v@[i].title@), "ends in"@, 0) && !occurs_at(lowercase_of(#[trigger] v@[i].title@), "start in"@, 0) && !occurs_at(lowercase_of(#[trigger] v@[i].title@), "ende in"@, 0) && !occurs_at(lowercase_of(#[trigger] v@[i].title@), "startet in"@, 0) && !occurs_at(lowercase_of(#[trigger] v@[i].title@), "endet in"@, 0),
{
    let groups = match group_links(anchors, locale.nuka_events_url) {
        Some(g) => g,
        None => return Err(FeedError::InvalidBaseUrl),
    };
    let ghost gv = group_views(groups@);
    let mut events: Vec<Event> = Vec::new();
    let mut i: usize = 0;
    proof {
        assert(event_views(events@) =~= Seq::<EventView>::empty());
    }
    while i < groups.len()
        invariant
            i <= groups.len(),
            gv == group_views(groups@),
            event_views(events@) == events_upto(gv, locale.code@, locale.timezone, now, i as nat),
        decreases groups.len() - i,
    {
        proof {
            assert(gv[i as int] == groups@[i as int]@);
        }
        match event_from_group(&groups[i], locale.code, locale.timezone, now) {
            Some(e) => {
                let ghost prev = events@;
                let ghost e_view = e@;
                events.push(e);
                proof {
                    assert(event_views(events@) =~= event_views(prev).push(e_view));
                }
            },
            None => {},
        }
        i = i + 1;
    }
    let sorted = sort_events_by_start(&events);
    let deduped = dedup_events_by_url(&sorted);
    proof {
        let sv = event_views(sorted@);
        assert forall|i: int, j: int| 0 <= i < j < sv.len() implies sv[i].starts_at <= sv[j].starts_at by {
            assert(sv[i] == sorted@[i]@ && sv[j] == sorted@[j]@);
        }
        lemma_dedup_sorted(sv);
        let dv = event_views(deduped@);
        assert forall|i: int, j: int| 0 <= i < j < deduped@.len() implies deduped@[i].starts_at <= deduped@[j].starts_at by {
            assert(dv[i] == deduped@[i]@ && dv[j] == deduped@[j]@);
        }
        lemma_events_distinct(anchor_views(anchors@), locale.nuka_events_url@, locale.code@, locale.timezone, now);
        assert(events_spec(anchor_views(anchors@), locale.nuka_events_url@, locale.code@, locale.timezone, now) == Ok::<Seq<EventView>, FeedError>(dv));
        assert(distinct_event_urls(dv));
        assert forall|i: int, j: int| 0 <= i < j < deduped@.len() implies #[trigger] deduped@[i].url@ != #[trigger] deduped@[j].url@ by {
            assert(dv[i] == deduped@[i]@ && dv[j] == deduped@[j]@);
            assert(dv[i].url != dv[j].url);
        }
        lemma_event_titles_not_countdowns(anchor_views(anchors@), locale.nuka_events_url@, locale.code@, locale.timezone, now);
        assert forall|i: int| 0 <= i < deduped@.len() implies !occurs_at(lowercase_of(#[trigger] deduped@[i].title@), "starts in"@, 0) && !occurs_at(lowercase_of(#[trigger] deduped@[i].title@), "ends in"@, 0) && !occurs_at(lowercase_of(#[trigger] deduped@[i].title@), "start in"@, 0) && !occurs_at(lowercase_of(#[trigger] deduped@[i].title@), "ende in"@, 0) && !occurs_at(lowercase_of(#[trigger] deduped@[i].title@), "startet in"@, 0) && !occurs_at(lowercase_of(#[trigger] deduped@[i].title@), "endet in"@, 0) by {
            assert(dv[i] == deduped@[i]@);
            assert(dv[i].title == deduped@[i].title@);
        }
    }
    Ok(deduped)
}

/// The first `n` elements of `s`, or all of them when there are fewer.
pub open spec fn first_n<V>(s: Seq<V>, n: int) -> Seq<V> {
    if s.len() <= n {
        s
    } else {
        s.take(n)
    }
}

/// The events feed: the running events and the next hundred starting
/// after `now`, each list ordered by start.
pub open spec fn events_feed_spec(events: Seq<EventView>, code: Seq<char>, zone_text: Seq<char>, url: Seq<char>, now: i64) -> EventsFeedView {
    EventsFeedView {
        schema_version: 1,
        generated_at: now,
        locale: code,
        timezone: zone_text,
        source: SourceRefView { provider: "Nuka Knights"@, url },
        active: sort_by(events.filter(|e: EventView| e.active), start_order()),
        upcoming: sort_by(first_n(events.filter(|e: EventView| e.starts_at > now), 100), start_order()),
    }
}

/// The running events.
fn active_events(events: &Vec<Event>) -> (res: Vec<Event>)
    ensures
        event_views(res@) == event_views(events@).filter(|e: EventView| e.active),
{
    let mut out: Vec<Event> = Vec::new();
    let mut i: usize = 0;
    proof {
        assert(event_views(out@) =~= event_views(events@).take(0).filter(|e: EventView| e.active));
    }
    while i < events.len()
        invariant
            i <= events.len(),
            event_views(out@) == event_views(events@).take(i as int).filter(|e: EventView| e.active),
        decreases events.len() - i,
    {
        let ghost prev = out@;
        proof {
            let t = event_views(events@).take(i + 1);
            assert(t.drop_last() =~= event_views(events@).take(i as int));
            reveal_with_fuel(Seq::<_>::filter, 1);
        }
        if events[i].active {
            out.push(events[i].clone());
            proof {
                assert(event_views(out@) =~= event_views(prev).push(events@[i as int]@));
            }
        }
        i = i + 1;
    }
    proof {
        assert(event_views(events@).take(i as int) =~= event_views(events@));
    }
    out
}

/// The first hundred events starting after `now`.
fn upcoming_events(events: &Vec<Event>, now: i64) -> (res: Vec<Event>)
    ensures
        event_views(res@) == first_n(event_views(events@).filter(|e: EventView| e.starts_at > now), 100),
{
    let mut out: Vec<Event> = Vec::new();
    let mut i: usize = 0;
    let ghost f = event_views(events@).filter(|e: EventView| e.starts_at > now);
    proof {
        assert(event_views(out@) =~= event_views(events@).take(0).filter(|e: EventView| e.starts_at > now));
    }
    while i < events.len() && out.len() < 100
        invariant
            i <= events.len(),
            out.len() <= 100,
            f == event_views(events@).filter(|e: EventView| e.starts_at > now),
            event_views(out@) == event_views(events@).take(i as int).filter(|e: EventView| e.starts_at > now),
        decreases events.len() - i,
    {
        let ghost prev = out@;
        proof {
            let t = event_views(events@).take(i + 1);
            assert(t.drop_last() =~= event_views(events@).take(i as int));
            reveal_with_fuel(Seq::<_>::filter, 1);
        }
        if events[i].starts_at > now {
            out.push(events[i].clone());
            proof {
                assert(event_views(out@) =~= event_views(prev).push(events@[i as int]@));
            }
        }
        i = i + 1;
    }
    proof {
        lemma_filter_prefix(event_views(events@), |e: EventView| e.starts_at > now, i as int);
        if i == events.len() {
            assert(event_views(events@).take(i as int) =~= event_views(events@));
        }
    }
    out
}

/// Filtering a prefix gives a prefix of the filtered sequence.
proof fn lemma_filter_prefix<V>(s: Seq<V>, p: spec_fn(V) -> bool, n: int)
    requires
        0 <= n <= s.len(),
    ensures
        s.take(n).filter(p) == s.filter(p).take(s.take(n).filter(p).len() as int),
        s.take(n).filter(p).len() <= s.filter(p).len(),
    decreases s.len() - n,
{
    if n == s.len() {
        assert(s.take(n) =~= s);
        assert(s.filter(p).take(s.filter(p).len() as int) =~= s.filter(p));
    } else {
        lemma_filter_prefix(s, p, n + 1);
        let t = s.take(n + 1);
        assert(t.drop_last() =~= s.take(n));
        reveal_with_fuel(Seq::<_>::filter, 1);
        let a = s.take(n).filter(p);
        let b = s.filter(p);
        let c = t.filter(p);
        assert(c == if p(t.last()) { a.push(t.last()) } else { a });
        assert(a =~= b.take(a.len() as int)) by {
            assert(c =~= b.take(c.len() as int));
            assert forall|k: int| 0 <= k < a.len() implies a[k] == b[k] by {
                assert(a[k] == c[k]);
            }
        }
    }
}

/// Builds the events feed; a calendar without events is refused so that
/// good data is not overwritten.
pub fn events_feed(events: &Vec<Event>, locale: &LocaleConfig, now: i64) -> (res: Result<EventsFeed, FeedError>)
    ensures
        events@.len() == 0 <==> res is Err,
        res matches Err(e) ==> e == FeedError::NoEvents,
        res matches Ok(f) ==> f@ == events_feed_spec(event_views(events@), locale.code@, crate::bethesda::zone_name_spec(locale.timezone), locale.nuka_events_url@, now),
{
    if events.len() == 0 {
        return Err(FeedError::NoEvents);
    }
    let active = active_events(events);
    let upcoming = upcoming_events(events, now);
    Ok(
        EventsFeed {
            schema_version: 1,
            generated_at: now,
            locale: String::from_str(locale.code),
            timezone: String::from_str(zone_name(locale.timezone)),
            source: SourceRef { provider: String::from_str("Nuka Knights"), url: String::from_str(locale.nuka_events_url) },
            active: sort_events_by_start(&active),
            upcoming: sort_events_by_start(&upcoming),
        },
    )
}

/// The links that point at an event page.
pub const CALENDAR_LINKS: &'static str = "a[href*='/event/'], a[href*='/events/']";

/// The calendar links among selected elements: each one with an `href`,
/// with its text, in document order.
pub open spec fn anchors_of(els: Seq<ElementView>) -> Seq<AnchorView>
    decreases els.len(),
{
    if els.len() == 0 {
        Seq::empty()
    } else {
        let a = anchors_of(els.drop_last());
        match els.last().attr {
            Some(h) => a.push(AnchorView { href: h, text: node_text(els.last().nodes) }),
            None => a,
        }
    }
}

/// The calendar links of a page.
pub open spec fn calendar_spec(html: Seq<char>) -> Result<Seq<AnchorView>, FeedError> {
    match select_spec(html, CALENDAR_LINKS@, "href"@) {
        None => Err(FeedError::InvalidSelector),
        Some(els) => Ok(anchors_of(els)),
    }
}

/// The calendar links of a page: the anchors whose `href` points at an
/// event, with their text; anchors without `href` are skipped.
pub fn calendar_anchors(page: &Page) -> (res: Result<Vec<Anchor>, FeedError>)
    ensures
        match res {
            Ok(a) => calendar_spec(page@) == Ok::<Seq<AnchorView>, FeedError>(anchor_views(a@)),
            Err(e) => calendar_spec(page@) == Err::<Seq<AnchorView>, FeedError>(e),
        },
{
    let elements = match select_page(page, CALENDAR_LINKS, "href") {
        Some(e) => e,
        None => return Err(FeedError::InvalidSelector),
    };
    let ghost ev = element_views(elements@);
    let mut anchors: Vec<Anchor> = Vec::new();
    let mut i: usize = 0;
    proof {
        assert(anchor_views(anchors@) =~= anchors_of(ev.take(0)));
    }
    while i < elements.len()
        invariant
            i <= elements.len(),
            ev == element_views(elements@),
            anchor_views(anchors@) == anchors_of(ev.take(i as int)),
        decreases elements.len() - i,
    {
        proof {
            assert(ev.take(i + 1).drop_last() =~= ev.take(i as int));
            assert(ev.take(i + 1).last() == elements@[i as int]@);
        }
        match &elements[i].attr {
            Some(href) => {
                let text = element_text(&elements[i]);
                let ghost prev = anchors@;
                let a = Anchor { href: href.clone(), text };
                let ghost av = a@;
                anchors.push(a);
                proof {
                    assert(anchor_views(anchors@) =~= anchor_views(prev).push(av));
                }
            },
            None => {},
        }
        i = i + 1;
    }
    proof {
        assert(ev.take(i as int) =~= ev);
    }
    Ok(anchors)
}

/// The events of a calendar page.
pub open spec fn page_events_spec(html: Seq<char>, locale: LocaleConfig, now: i64) -> Result<Seq<EventView>, FeedError> {
    match calendar_spec(html) {
        Err(e) => Err(e),
        Ok(a) => events_spec(a, locale.nuka_events_url@, locale.code@, locale.timezone, now),
    }
}

/// The events of a calendar page, ordered by start.
pub fn parse_events(page: &Page, locale: &LocaleConfig, now: i64) -> (res: Result<Vec<Event>, FeedError>)
    ensures
        match res {
            Ok(v) => page_events_spec(page@, *locale, now) == Ok::<Seq<EventView>, FeedError>(event_views(v@)),
            Err(e) => page_events_spec(page@, *locale, now) == Err::<Seq<EventView>, FeedError>(e),
        },
        res matches Ok(v) ==> forall|i: int, j: int| 0 <= i < j < v@.len() ==> #[trigger] v@[i].url@ != #[trigger] v@[j].url@,
        res matches Ok(v) ==> forall|i: int| 0 <= i < v@.len() ==> !occurs_at(lowercase_of(#[trigger] v@[i].title@), "starts in"@, 0) && !occurs_at(lowercase_of(#[trigger] v@[i].title@), "ends in"@, 0) && !occurs_at(lowercase_of(#[trigger] v@[i].title@), "start in"@, 0) && !occurs_at(lowercase_of(#[trigger] v@[i].title@), "ende in"@, 0) && !occurs_at(lowercase_of(#[trigger] v@[i].title@), "startet in"@, 0) && !occurs_at(lowercase_of(#[trigger] v@[i].title@), "endet in"@, 0),
{
    let anchors = match calendar_anchors(page) {
        Ok(a) => a,
        Err(e) => return Err(e),
    };
    events_from_anchors(&anchors, locale, now)
}

/// The events feed of a calendar page; refused when the page holds no
/// event.
pub open spec fn events_result_spec(html: Seq<char>, locale: LocaleConfig, now: i64) -> Result<EventsFeedView, FeedError> {
    match page_events_spec(html, locale, now) {
        Err(e) => Err(e),
        Ok(v) => if v.len() == 0 {
            Err(FeedError::NoEvents)
        } else {
            Ok(events_feed_spec(v, locale.code@, crate::bethesda::zone_name_spec(locale.timezone), locale.nuka_events_url@, now))
        },
    }
}

/// Builds the events feed of a fetched calendar page.
pub fn build_events_feed(html: &str, locale: &LocaleConfig, now: i64) -> (res: Result<EventsFeed, FeedError>)
    ensures
        match res {
            Ok(f) => events_result_spec(html@, *locale, now) == Ok::<EventsFeedView, FeedError>(f@),
            Err(e) => events_result_spec(html@, *locale, now) == Err::<EventsFeedView, FeedError>(e),
        },
{
    let page = load_page(html);
    let events = match parse_events(&page, locale, now) {
        Ok(e) => e,
        Err(e) => return Err(e),
    };
    events_feed(&events, locale, now)
}

/// Each tag name sorts before the next one.
proof fn lemma_tag_name_step(k: int)
    requires
        0 <= k < 19,
    ensures
        seq_lt(tag_name(k), tag_name(k + 1)),
{
    reveal(tag_name);
    reveal_with_fuel(seq_lt, 11);
    if k == 0 {
        reveal_strlit("anniversary");
        reveal_strlit("caps_a_plenty");
    } else if k == 1 {
        reveal_strlit("caps_a_plenty");
        reveal_strlit("double_mutations");
    } else if k == 2 {
        reveal_strlit("double_mutations");
        reveal_strlit("double_score");
    } else if k == 3 {
        reveal_strlit("double_score");
        reveal_strlit("double_xp");
    } else if k == 4 {
        reveal_strlit("double_xp");
        reveal_strlit("fasnacht");
    } else if k == 5 {
        reveal_strlit("fasnacht");
        reveal_strlit("gold_rush");
    } else if k == 6 {
        reveal_strlit("gold_rush");
        reveal_strlit("holiday_scorched");
    } else if k == 7 {
        reveal_strlit("holiday_scorched");
        reveal_strlit("invaders_from_beyond");
    } else if k == 8 {
        reveal_strlit("invaders_from_beyond");
        reveal_strlit("legendary_sale");
    } else if k == 9 {
        reveal_strlit("legendary_sale");
        reveal_strlit("maintenance");
    } else if k == 10 {
        reveal_strlit("maintenance");
        reveal_strlit("meat_week");
    } else if k == 11 {
        reveal_strlit("meat_week");
        reveal_strlit("minerva");
    } else if k == 12 {
        reveal_strlit("minerva");
        reveal_strlit("mischief_night");
    } else if k == 13 {
        reveal_strlit("mischief_night");
        reveal_strlit("mothman_equinox");
    } else if k == 14 {
        reveal_strlit("mothman_equinox");
        reveal_strlit("mutated_events");
    } else if k == 15 {
        reveal_strlit("mutated_events");
        reveal_strlit("seasonal_event");
    } else if k == 16 {
        reveal_strlit("seasonal_event");
        reveal_strlit("seasonal_fish");
    } else if k == 17 {
        reveal_strlit("seasonal_fish");
        reveal_strlit("spooky_scorched");
    } else {
        reveal_strlit("spooky_scorched");
        reveal_strlit("treasure_hunter");
    }
}

/// Tag names sort in the order of their indices.
proof fn lemma_tag_names_increasing(i: int, j: int)
    requires
        0 <= i < j < 20,
    ensures
        seq_lt(tag_name(i), tag_name(j)),
    decreases j - i,
{
    lemma_tag_name_step(j - 1);
    if i < j - 1 {
        lemma_tag_names_increasing(i, j - 1);
        lemma_seq_lt_transitive(tag_name(i), tag_name(j - 1), tag_name(j));
    }
}

/// The tags of the first `n` flags are in strictly increasing order, and
/// all of them sort before the next tag name.
proof fn lemma_tags_upto_sorted(l: Seq<char>, n: nat)
    requires
        n <= 20,
    ensures
        forall|i: int, j: int| 0 <= i < j < tags_upto(l, n).len() ==> seq_lt(#[trigger] tags_upto(l, n)[i], #[trigger] tags_upto(l, n)[j]),
        n < 20 ==> forall|i: int| 0 <= i < tags_upto(l, n).len() ==> seq_lt(#[trigger] tags_upto(l, n)[i], tag_name(n as int)),
    decreases n,
{
    reveal(add_if);
    if n > 0 {
        let m = (n - 1) as nat;
        lemma_tags_upto_sorted(l, m);
        let prev = tags_upto(l, m);
        let t = tags_upto(l, n);
        if n < 20 {
            lemma_tag_name_step(m as int);
            assert forall|i: int| 0 <= i < t.len() implies seq_lt(#[trigger] t[i], tag_name(n as int)) by {
                if i < prev.len() {
                    assert(t[i] == prev[i]);
                    lemma_seq_lt_transitive(prev[i], tag_name(m as int), tag_name(n as int));
                }
            }
        }
        assert forall|i: int, j: int| 0 <= i < j < t.len() implies seq_lt(#[trigger] t[i], #[trigger] t[j]) by {
            if j < prev.len() {
                assert(t[i] == prev[i] && t[j] == prev[j]);
            } else {
                assert(t[i] == prev[i]);
            }
        }
    }
}

/// The tags of a title are in strictly increasing order, so none repeats.
pub proof fn lemma_tags_sorted(l: Seq<char>)
    ensures
        forall|i: int, j: int| 0 <= i < j < tags_spec(l).len() ==> seq_lt(#[trigger] tags_spec(l)[i], #[trigger] tags_spec(l)[j]),
{
    lemma_tags_upto_sorted(l, 20);
}

} // verus!
