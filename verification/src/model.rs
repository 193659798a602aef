//! The published records. Instants are Unix timestamps in seconds (UTC);
//! each instant is paired with its RFC 3339 text in the locale's zone.

use vstd::prelude::*;
use crate::pattern::opt_str_view;
use crate::text::views;

verus! {

/// Where a feed's data came from.
pub struct SourceRef {
    pub provider: String,
    pub url: String,
}

pub struct SourceRefView {
    pub provider: Seq<char>,
    pub url: Seq<char>,
}

impl View for SourceRef {
    type V = SourceRefView;

    open spec fn view(&self) -> SourceRefView {
        SourceRefView { provider: self.provider@, url: self.url@ }
    }
}

impl Clone for SourceRef {
    fn clone(&self) -> (res: Self)
        ensures
            res@ == self@,
    {
        SourceRef { provider: self.provider.clone(), url: self.url.clone() }
    }
}

/// One plan sold by Minerva.
pub struct MinervaItem {
    pub name: String,
    pub price_gold: u32,
}

pub struct MinervaItemView {
    pub name: Seq<char>,
    pub price_gold: u32,
}

impl View for MinervaItem {
    type V = MinervaItemView;

    open spec fn view(&self) -> MinervaItemView {
        MinervaItemView { name: self.name@, price_gold: self.price_gold }
    }
}

impl Clone for MinervaItem {
    fn clone(&self) -> (res: Self)
        ensures
            res@ == self@,
    {
        MinervaItem { name: self.name.clone(), price_gold: self.price_gold }
    }
}

pub open spec fn item_views(v: Seq<MinervaItem>) -> Seq<MinervaItemView> {
    v.map_values(|i: MinervaItem| i@)
}

/// A copy of a list of items.
pub fn clone_items(v: &Vec<MinervaItem>) -> (res: Vec<MinervaItem>)
    ensures
        item_views(res@) == item_views(v@),
{
    let mut out: Vec<MinervaItem> = Vec::new();
    let mut i: usize = 0;
    while i < v.len()
        invariant
            i <= v.len(),
            item_views(out@) == item_views(v@.take(i as int)),
        decreases v.len() - i,
    {
        out.push(v[i].clone());
        proof {
            assert(item_views(v@.take(i + 1)) =~= item_views(v@.take(i as int)).push(v@[i as int]@));
            assert(item_views(out@) =~= item_views(v@.take(i + 1)));
        }
        i = i + 1;
    }
    proof {
        assert(v@.take(i as int) =~= v@);
    }
    out
}

/// One visit of the travelling vendor Minerva.
pub struct MinervaSale {
    pub list: u32,
    pub big_sale: bool,
    pub location: String,
    pub starts_at: i64,
    pub ends_at: i64,
    pub starts_at_local: String,
    pub ends_at_local: String,
    pub active: bool,
    pub inventory_complete: bool,
    pub items: Vec<MinervaItem>,
}

pub struct MinervaSaleView {
    pub list: u32,
    pub big_sale: bool,
    pub location: Seq<char>,
    pub starts_at: i64,
    pub ends_at: i64,
    pub starts_at_local: Seq<char>,
    pub ends_at_local: Seq<char>,
    pub active: bool,
    pub inventory_complete: bool,
    pub items: Seq<MinervaItemView>,
}

impl View for MinervaSale {
    type V = MinervaSaleView;

    open spec fn view(&self) -> MinervaSaleView {
        MinervaSaleView {
            list: self.list,
            big_sale: self.big_sale,
            location: self.location@,
            starts_at: self.starts_at,
            ends_at: self.ends_at,
            starts_at_local: self.starts_at_local@,
            ends_at_local: self.ends_at_local@,
            active: self.active,
            inventory_complete: self.inventory_complete,
            items: item_views(self.items@),
        }
    }
}

impl Clone for MinervaSale {
    fn clone(&self) -> (res: Self)
        ensures
            res@ == self@,
    {
        MinervaSale {
            list: self.list,
            big_sale: self.big_sale,
            location: self.location.clone(),
            starts_at: self.starts_at,
            ends_at: self.ends_at,
            starts_at_local: self.starts_at_local.clone(),
            ends_at_local: self.ends_at_local.clone(),
            active: self.active,
            inventory_complete: self.inventory_complete,
            items: clone_items(&self.items),
        }
    }
}

pub open spec fn sale_views(v: Seq<MinervaSale>) -> Seq<MinervaSaleView> {
    v.map_values(|s: MinervaSale| s@)
}

pub open spec fn opt_sale_view(o: Option<MinervaSale>) -> Option<MinervaSaleView> {
    match o {
        Some(s) => Some(s@),
        None => None,
    }
}

/// The Minerva schedule with the sale running now and the next one.
pub struct MinervaFeed {
    pub source: SourceRef,
    pub current: Option<MinervaSale>,
    pub next: Option<MinervaSale>,
    pub schedule: Vec<MinervaSale>,
}

pub struct MinervaFeedView {
    pub source: SourceRefView,
    pub current: Option<MinervaSaleView>,
    pub next: Option<MinervaSaleView>,
    pub schedule: Seq<MinervaSaleView>,
}

impl View for MinervaFeed {
    type V = MinervaFeedView;

    open spec fn view(&self) -> MinervaFeedView {
        MinervaFeedView {
            source: self.source@,
            current: opt_sale_view(self.current),
            next: opt_sale_view(self.next),
            schedule: sale_views(self.schedule@),
        }
    }
}

/// A calendar event.
pub struct Event {
    pub title: String,
    pub url: String,
    pub tags: Vec<String>,
    pub starts_at: i64,
    pub ends_at: Option<i64>,
    pub starts_at_local: String,
    pub ends_at_local: Option<String>,
    pub active: bool,
}

pub struct EventView {
    pub title: Seq<char>,
    pub url: Seq<char>,
    pub tags: Seq<Seq<char>>,
    pub starts_at: i64,
    pub ends_at: Option<i64>,
    pub starts_at_local: Seq<char>,
    pub ends_at_local: Option<Seq<char>>,
    pub active: bool,
}

impl View for Event {
    type V = EventView;

    open spec fn view(&self) -> EventView {
        EventView {
            title: self.title@,
            url: self.url@,
            tags: views(self.tags@),
            starts_at: self.starts_at,
            ends_at: self.ends_at,
            starts_at_local: self.starts_at_local@,
            ends_at_local: opt_str_view(self.ends_at_local),
            active: self.active,
        }
    }
}

/// A copy of a list of strings.
pub fn clone_strings(v: &Vec<String>) -> (res: Vec<String>)
    ensures
        views(res@) == views(v@),
{
    let mut out: Vec<String> = Vec::new();
    let mut i: usize = 0;
    while i < v.len()
        invariant
            i <= v.len(),
            views(out@) == views(v@.take(i as int)),
        decreases v.len() - i,
    {
        out.push(v[i].clone());
        proof {
            assert(views(v@.take(i + 1)) =~= views(v@.take(i as int)).push(v@[i as int]@));
            assert(views(out@) =~= views(v@.take(i + 1)));
        }
        i = i + 1;
    }
    proof {
        assert(v@.take(i as int) =~= v@);
    }
    out
}

/// A copy of an optional string.
pub fn clone_opt_string(o: &Option<String>) -> (res: Option<String>)
    ensures
        opt_str_view(res) == opt_str_view(*o),
{
    match o {
        Some(s) => Some(s.clone()),
        None => None,
    }
}

impl Clone for Event {
    fn clone(&self) -> (res: Self)
        ensures
            res@ == self@,
    {
        Event {
            title: self.title.clone(),
            url: self.url.clone(),
            tags: clone_strings(&self.tags),
            starts_at: self.starts_at,
            ends_at: self.ends_at,
            starts_at_local: self.starts_at_local.clone(),
            ends_at_local: clone_opt_string(&self.ends_at_local),
            active: self.active,
        }
    }
}

pub open spec fn event_views(v: Seq<Event>) -> Seq<EventView> {
    v.map_values(|e: Event| e@)
}

/// The events running now and the next ones.
pub struct EventsFeed {
    pub schema_version: u32,
    pub generated_at: i64,
    pub locale: String,
    pub timezone: String,
    pub source: SourceRef,
    pub active: Vec<Event>,
    pub upcoming: Vec<Event>,
}

pub struct EventsFeedView {
    pub schema_version: u32,
    pub generated_at: i64,
    pub locale: Seq<char>,
    pub timezone: Seq<char>,
    pub source: SourceRefView,
    pub active: Seq<EventView>,
    pub upcoming: Seq<EventView>,
}

impl View for EventsFeed {
    type V = EventsFeedView;

    open spec fn view(&self) -> EventsFeedView {
        EventsFeedView {
            schema_version: self.schema_version,
            generated_at: self.generated_at,
            locale: self.locale@,
            timezone: self.timezone@,
            source: self.source@,
            active: event_views(self.active@),
            upcoming: event_views(self.upcoming@),
        }
    }
}

/// One row of an Atomic Shop table.
pub struct AtomicOffer {
    pub item: String,
    pub price_atoms: Option<u32>,
    pub price_text: String,
    pub discount_percent: Option<u32>,
    pub section: String,
    pub subsection: String,
    pub offer_type: String,
    pub starts_at: Option<i64>,
    pub ends_at: Option<i64>,
    pub starts_at_local: Option<String>,
    pub ends_at_local: Option<String>,
    pub active: bool,
}

pub struct AtomicOfferView {
    pub item: Seq<char>,
    pub price_atoms: Option<u32>,
    pub price_text: Seq<char>,
    pub discount_percent: Option<u32>,
    pub section: Seq<char>,
    pub subsection: Seq<char>,
    pub offer_type: Seq<char>,
    pub starts_at: Option<i64>,
    pub ends_at: Option<i64>,
    pub starts_at_local: Option<Seq<char>>,
    pub ends_at_local: Option<Seq<char>>,
    pub active: bool,
}

impl View for AtomicOffer {
    type V = AtomicOfferView;

    open spec fn view(&self) -> AtomicOfferView {
        AtomicOfferView {
            item: self.item@,
            price_atoms: self.price_atoms,
            price_text: self.price_text@,
            discount_percent: self.discount_percent,
            section: self.section@,
            subsection: self.subsection@,
            offer_type: self.offer_type@,
            starts_at: self.starts_at,
            ends_at: self.ends_at,
            starts_at_local: opt_str_view(self.starts_at_local),
            ends_at_local: opt_str_view(self.ends_at_local),
            active: self.active,
        }
    }
}

impl Clone for AtomicOffer {
    fn clone(&self) -> (res: Self)
        ensures
            res@ == self@,
    {
        AtomicOffer {
            item: self.item.clone(),
            price_atoms: self.price_atoms,
            price_text: self.price_text.clone(),
            discount_percent: self.discount_percent,
            section: self.section.clone(),
            subsection: self.subsection.clone(),
            offer_type: self.offer_type.clone(),
            starts_at: self.starts_at,
            ends_at: self.ends_at,
            starts_at_local: clone_opt_string(&self.starts_at_local),
            ends_at_local: clone_opt_string(&self.ends_at_local),
            active: self.active,
        }
    }
}

pub open spec fn offer_views(v: Seq<AtomicOffer>) -> Seq<AtomicOfferView> {
    v.map_values(|o: AtomicOffer| o@)
}

/// The offers of one monthly Atomic Shop article.
pub struct AtomicShopFeed {
    pub schema_version: u32,
    pub generated_at: i64,
    pub locale: String,
    pub timezone: String,
    pub source: SourceRef,
    pub article_title: String,
    pub article_year: i32,
    pub article_month: u32,
    pub active: Vec<AtomicOffer>,
    pub offers: Vec<AtomicOffer>,
}

pub struct AtomicShopFeedView {
    pub schema_version: u32,
    pub generated_at: i64,
    pub locale: Seq<char>,
    pub timezone: Seq<char>,
    pub source: SourceRefView,
    pub article_title: Seq<char>,
    pub article_year: i32,
    pub article_month: u32,
    pub active: Seq<AtomicOfferView>,
    pub offers: Seq<AtomicOfferView>,
}

impl View for AtomicShopFeed {
    type V = AtomicShopFeedView;

    open spec fn view(&self) -> AtomicShopFeedView {
        AtomicShopFeedView {
            schema_version: self.schema_version,
            generated_at: self.generated_at,
            locale: self.locale@,
            timezone: self.timezone@,
            source: self.source@,
            article_title: self.article_title@,
            article_year: self.article_year,
            article_month: self.article_month,
            active: offer_views(self.active@),
            offers: offer_views(self.offers@),
        }
    }
}

/// An offer as a monthly archive keeps it: what was published, without the
/// `active` state, which changes with time.
pub struct ArchivedOffer {
    pub item: String,
    pub price_atoms: Option<u32>,
    pub price_text: String,
    pub discount_percent: Option<u32>,
    pub section: String,
    pub subsection: String,
    pub offer_type: String,
    pub starts_at: Option<i64>,
    pub ends_at: Option<i64>,
    pub starts_at_local: Option<String>,
    pub ends_at_local: Option<String>,
}

pub struct ArchivedOfferView {
    pub item: Seq<char>,
    pub price_atoms: Option<u32>,
    pub price_text: Seq<char>,
    pub discount_percent: Option<u32>,
    pub section: Seq<char>,
    pub subsection: Seq<char>,
    pub offer_type: Seq<char>,
    pub starts_at: Option<i64>,
    pub ends_at: Option<i64>,
    pub starts_at_local: Option<Seq<char>>,
    pub ends_at_local: Option<Seq<char>>,
}

impl View for ArchivedOffer {
    type V = ArchivedOfferView;

    open spec fn view(&self) -> ArchivedOfferView {
        ArchivedOfferView {
            item: self.item@,
            price_atoms: self.price_atoms,
            price_text: self.price_text@,
            discount_percent: self.discount_percent,
            section: self.section@,
            subsection: self.subsection@,
            offer_type: self.offer_type@,
            starts_at: self.starts_at,
            ends_at: self.ends_at,
            starts_at_local: opt_str_view(self.starts_at_local),
            ends_at_local: opt_str_view(self.ends_at_local),
        }
    }
}

pub open spec fn archived_views(v: Seq<ArchivedOffer>) -> Seq<ArchivedOfferView> {
    v.map_values(|o: ArchivedOffer| o@)
}

/// What the archive keeps of an offer: everything but `active`.
pub open spec fn archived_view(o: AtomicOfferView) -> ArchivedOfferView {
    ArchivedOfferView {
        item: o.item,
        price_atoms: o.price_atoms,
        price_text: o.price_text,
        discount_percent: o.discount_percent,
        section: o.section,
        subsection: o.subsection,
        offer_type: o.offer_type,
        starts_at: o.starts_at,
        ends_at: o.ends_at,
        starts_at_local: o.starts_at_local,
        ends_at_local: o.ends_at_local,
    }
}

/// The published monthly schedule of the Atomic Shop, as archived.
pub struct AtomicShopArchive {
    pub schema_version: u32,
    pub generated_at: i64,
    pub locale: String,
    pub timezone: String,
    pub source: SourceRef,
    pub article_title: String,
    pub article_year: i32,
    pub article_month: u32,
    pub offers: Vec<ArchivedOffer>,
}

/// A daily or weekly challenge.
pub struct Challenge {
    pub name: String,
    pub target: Option<u32>,
    pub score_reward: u32,
}

pub struct ChallengeView {
    pub name: Seq<char>,
    pub target: Option<u32>,
    pub score_reward: u32,
}

impl View for Challenge {
    type V = ChallengeView;

    open spec fn view(&self) -> ChallengeView {
        ChallengeView { name: self.name@, target: self.target, score_reward: self.score_reward }
    }
}

pub open spec fn challenge_views(v: Seq<Challenge>) -> Seq<ChallengeView> {
    v.map_values(|c: Challenge| c@)
}

/// The challenges of one daily or weekly period.
pub struct ChallengesFeed {
    pub schema_version: u32,
    pub generated_at: i64,
    pub locale: String,
    pub timezone: String,
    pub source: SourceRef,
    pub period_start: i64,
    pub period_start_local: String,
    pub reset_at: i64,
    pub reset_at_local: String,
    pub challenges: Vec<Challenge>,
}

pub struct ChallengesFeedView {
    pub schema_version: u32,
    pub generated_at: i64,
    pub locale: Seq<char>,
    pub timezone: Seq<char>,
    pub source: SourceRefView,
    pub period_start: i64,
    pub period_start_local: Seq<char>,
    pub reset_at: i64,
    pub reset_at_local: Seq<char>,
    pub challenges: Seq<ChallengeView>,
}

impl View for ChallengesFeed {
    type V = ChallengesFeedView;

    open spec fn view(&self) -> ChallengesFeedView {
        ChallengesFeedView {
            schema_version: self.schema_version,
            generated_at: self.generated_at,
            locale: self.locale@,
            timezone: self.timezone@,
            source: self.source@,
            period_start: self.period_start,
            period_start_local: self.period_start_local@,
            reset_at: self.reset_at,
            reset_at_local: self.reset_at_local@,
            challenges: challenge_views(self.challenges@),
        }
    }
}

/// Today's Daily Ops.
pub struct DailyOpsFeed {
    pub schema_version: u32,
    pub generated_at: i64,
    pub locale: String,
    pub timezone: String,
    pub source: SourceRef,
    pub mode: String,
    pub location: String,
    pub enemies: String,
    pub mutations: Vec<String>,
    pub period_start: i64,
    pub period_start_local: String,
    pub reset_at: i64,
    pub reset_at_local: String,
}

pub struct DailyOpsFeedView {
    pub schema_version: u32,
    pub generated_at: i64,
    pub locale: Seq<char>,
    pub timezone: Seq<char>,
    pub source: SourceRefView,
    pub mode: Seq<char>,
    pub location: Seq<char>,
    pub enemies: Seq<char>,
    pub mutations: Seq<Seq<char>>,
    pub period_start: i64,
    pub period_start_local: Seq<char>,
    pub reset_at: i64,
    pub reset_at_local: Seq<char>,
}

impl View for DailyOpsFeed {
    type V = DailyOpsFeedView;

    open spec fn view(&self) -> DailyOpsFeedView {
        DailyOpsFeedView {
            schema_version: self.schema_version,
            generated_at: self.generated_at,
            locale: self.locale@,
            timezone: self.timezone@,
            source: self.source@,
            mode: self.mode@,
            location: self.location@,
            enemies: self.enemies@,
            mutations: views(self.mutations@),
            period_start: self.period_start,
            period_start_local: self.period_start_local@,
            reset_at: self.reset_at,
            reset_at_local: self.reset_at_local@,
        }
    }
}

/// This week's launch codes.
pub struct NukeCodesFeed {
    pub schema_version: u32,
    pub generated_at: i64,
    pub locale: String,
    pub timezone: String,
    pub source: SourceRef,
    pub alpha: String,
    pub bravo: String,
    pub charlie: String,
    pub valid_from: i64,
    pub valid_from_local: String,
    pub resets_at: i64,
    pub resets_at_local: String,
}

pub struct NukeCodesFeedView {
    pub schema_version: u32,
    pub generated_at: i64,
    pub locale: Seq<char>,
    pub timezone: Seq<char>,
    pub source: SourceRefView,
    pub alpha: Seq<char>,
    pub bravo: Seq<char>,
    pub charlie: Seq<char>,
    pub valid_from: i64,
    pub valid_from_local: Seq<char>,
    pub resets_at: i64,
    pub resets_at_local: Seq<char>,
}

impl View for NukeCodesFeed {
    type V = NukeCodesFeedView;

    open spec fn view(&self) -> NukeCodesFeedView {
        NukeCodesFeedView {
            schema_version: self.schema_version,
            generated_at: self.generated_at,
            locale: self.locale@,
            timezone: self.timezone@,
            source: self.source@,
            alpha: self.alpha@,
            bravo: self.bravo@,
            charlie: self.charlie@,
            valid_from: self.valid_from,
            valid_from_local: self.valid_from_local@,
            resets_at: self.resets_at,
            resets_at_local: self.resets_at_local@,
        }
    }
}

/// The current season of the scoreboard.
pub struct SeasonFeed {
    pub schema_version: u32,
    pub generated_at: i64,
    pub locale: String,
    pub timezone: String,
    pub source: SourceRef,
    pub season_number: u32,
    pub season_name: String,
    pub starts_at: Option<i64>,
    pub starts_at_local: Option<String>,
    pub ends_at: Option<i64>,
    pub ends_at_local: Option<String>,
    pub end_estimated: bool,
    pub remaining_days: Option<u32>,
    pub total_days: Option<u32>,
}

pub struct SeasonFeedView {
    pub schema_version: u32,
    pub generated_at: i64,
    pub locale: Seq<char>,
    pub timezone: Seq<char>,
    pub source: SourceRefView,
    pub season_number: u32,
    pub season_name: Seq<char>,
    pub starts_at: Option<i64>,
    pub starts_at_local: Option<Seq<char>>,
    pub ends_at: Option<i64>,
    pub ends_at_local: Option<Seq<char>>,
    pub end_estimated: bool,
    pub remaining_days: Option<u32>,
    pub total_days: Option<u32>,
}

impl View for SeasonFeed {
    type V = SeasonFeedView;

    open spec fn view(&self) -> SeasonFeedView {
        SeasonFeedView {
            schema_version: self.schema_version,
            generated_at: self.generated_at,
            locale: self.locale@,
            timezone: self.timezone@,
            source: self.source@,
            season_number: self.season_number,
            season_name: self.season_name@,
            starts_at: self.starts_at,
            starts_at_local: opt_str_view(self.starts_at_local),
            ends_at: self.ends_at,
            ends_at_local: opt_str_view(self.ends_at_local),
            end_estimated: self.end_estimated,
            remaining_days: self.remaining_days,
            total_days: self.total_days,
        }
    }
}

/// Everything read from the Nuka Knights home page.
pub struct NukaHomeFeed {
    pub html: String,
    pub daily_challenges: ChallengesFeed,
    pub weekly_challenges: ChallengesFeed,
    pub daily_ops: DailyOpsFeed,
    pub nuke_codes: NukeCodesFeed,
    pub season: SeasonFeed,
}

} // verus!
