use chrono::TimeZone;
use overseer::bethesda::monthly_archive;
use overseer::bethesda::{
    article_candidates, build_atomic_shop, cell, derive_window, matches_lower, month_name,
    parse_atoms, parse_discount, parse_offers, upcoming_offers, ArticleCandidate,
};
use overseer::clock::Date;
use overseer::config::{locales, LocaleConfig};
use overseer::error::FeedError;

fn locale(code: &str) -> LocaleConfig {
    *locales().iter().find(|l| l.code == code).unwrap()
}

fn utc(y: i32, mo: u32, d: u32, h: u32, mi: u32) -> i64 {
    chrono::Utc.with_ymd_and_hms(y, mo, d, h, mi, 0).unwrap().timestamp()
}

fn strings(v: &[&str]) -> Vec<String> {
    v.iter().map(|s| s.to_string()).collect()
}

#[test]
fn parses_atom_price_and_discount() {
    assert_eq!(parse_atoms("1,260 (30% off!)"), Some(1260));
    assert_eq!(parse_discount("1,260 (30% off!)"), Some(30));
}

#[test]
fn parses_representative_table() {
    let html = r#"
        <h2>Week of September 22</h2>
        <h3>Weekly Offers</h3>
        <table>
          <tr><th>Item</th><th>Discounted Atoms Price</th><th>Available on</th></tr>
          <tr><td>Grognak Axe Paint</td><td>350 (30% off!)</td><td>September 24</td></tr>
        </table>
    "#;
    let document = overseer::dom::load_page(html);
    let locale = locale("en-US");
    let now = chrono::DateTime::parse_from_rfc3339("2026-09-24T17:00:00Z").unwrap().timestamp();
    let offers = parse_offers(&document, 2026, &locale, now).unwrap();
    assert_eq!(offers.len(), 1);
    assert_eq!(offers[0].item, "Grognak Axe Paint");
    assert_eq!(offers[0].price_atoms, Some(350));
}

#[test]
fn representative_offer_runs_for_one_day_from_noon_eastern() {
    let html = r#"
        <h2>Week of September 22</h2>
        <table>
          <tr><th>Item</th><th>Price</th><th>Available on</th></tr>
          <tr><td>Grognak Axe Paint</td><td>350 (30% off!)</td><td>September 24</td></tr>
        </table>
    "#;
    let document = overseer::dom::load_page(html);
    let now = utc(2026, 9, 24, 17, 0);
    let offers = parse_offers(&document, 2026, &locale("en-US"), now).unwrap();
    assert_eq!(offers[0].starts_at, Some(utc(2026, 9, 24, 16, 0)));
    assert_eq!(offers[0].ends_at, Some(utc(2026, 9, 25, 16, 0)));
    assert_eq!(offers[0].offer_type, "daily");
    assert_eq!(offers[0].discount_percent, Some(30));
    assert_eq!(offers[0].section, "Week of September 22");
    assert!(offers[0].active);
}

#[test]
fn atoms_and_discount_edge_cases() {
    assert_eq!(parse_atoms("Free"), None);
    assert_eq!(parse_atoms("1.000 Atome"), Some(1000));
    assert_eq!(parse_discount("no discount"), None);
}

#[test]
fn month_names() {
    assert_eq!(month_name(1), "January");
    assert_eq!(month_name(12), "December");
    assert_eq!(month_name(13), "Unknown");
}

#[test]
fn article_candidates_go_back_two_months() {
    let c = article_candidates("en-US", 2026, 2);
    assert_eq!(c.len(), 3);
    assert_eq!(
        c[0].url,
        "https://fallout.bethesda.net/en-US/news/atomic-shop-monthly-update-february-2026"
    );
    assert_eq!((c[1].year, c[1].month), (2026, 1));
    assert_eq!((c[2].year, c[2].month), (2025, 12));
    assert_eq!(
        c[2].url,
        "https://fallout.bethesda.net/en-US/news/atomic-shop-monthly-update-december-2025"
    );
}

#[test]
fn matching_headers_ignores_case() {
    assert!(matches_lower("Available On", &["available on"]));
    assert!(matches_lower("ERHÄLTLICH AB", &["erhältlich ab"]));
    assert!(!matches_lower("Price", &["item", "gegenstand"]));
}

#[test]
fn cell_takes_the_column_of_the_first_matching_header() {
    let headers = strings(&["Item", "Price", "Item again"]);
    let row = strings(&["Axe", "350"]);
    assert_eq!(cell(&headers, &row, &["item"]), Some("Axe".to_string()));
    assert_eq!(cell(&headers, &row, &["price"]), Some("350".to_string()));
    assert_eq!(cell(&headers, &row, &["missing"]), None);
    let short = strings(&["Axe"]);
    assert_eq!(cell(&headers, &short, &["price"]), None);
}

#[test]
fn window_kinds() {
    let week = Some(Date { year: 2026, month: 9, day: 22 });
    let (s, e, t) = derive_window(2026, week, &None, &None, &None).unwrap();
    assert_eq!(t, "weekly");
    assert_eq!(s, Some(utc(2026, 9, 22, 16, 0)));
    assert_eq!(e, Some(utc(2026, 9, 29, 16, 0)));

    let (s, e, t) =
        derive_window(2026, None, &None, &Some("September 1".to_string()), &Some("September 30".to_string()))
            .unwrap();
    assert_eq!(t, "dated");
    assert_eq!(s, Some(utc(2026, 9, 1, 16, 0)));
    assert_eq!(e, Some(utc(2026, 9, 30, 16, 0)));

    let (s, e, t) = derive_window(2026, None, &None, &None, &None).unwrap();
    assert_eq!((s, e, t.as_str()), (None, None, "unscheduled"));

    let (s, e, t) = derive_window(2026, None, &None, &None, &Some("September 30".to_string())).unwrap();
    assert_eq!(t, "dated");
    assert_eq!((s, e), (None, Some(utc(2026, 9, 30, 16, 0))));
}

#[test]
fn upcoming_offers_start_later_and_are_not_on_sale() {
    let html = r#"
        <h2>Week of September 22</h2>
        <table>
          <tr><th>Item</th><th>Price</th><th>Available on</th></tr>
          <tr><td>Today</td><td>100</td><td>September 24</td></tr>
          <tr><td>Later</td><td>200</td><td>September 26</td></tr>
          <tr><td>Before</td><td>300</td><td>September 20</td></tr>
        </table>
    "#;
    let document = overseer::dom::load_page(html);
    let now = utc(2026, 9, 24, 17, 0);
    let offers = parse_offers(&document, 2026, &locale("en-US"), now).unwrap();
    let upcoming = upcoming_offers(&offers, now);
    assert_eq!(upcoming.len(), 1);
    assert_eq!(upcoming[0].item, "Later");
}

#[test]
fn atomic_shop_feed_sorts_offers_and_lists_active_ones() {
    let html = r#"<html><body><h1>Atomic Shop Update</h1>
        <h2>Week of September 22</h2>
        <table>
          <tr><th>Item</th><th>Price</th><th>Available on</th></tr>
          <tr><td>Zeta</td><td>100</td><td>September 24</td></tr>
          <tr><td>Later</td><td>200</td><td>September 26</td></tr>
          <tr><td>Alpha</td><td>300</td><td>September 24</td></tr>
        </table></body></html>
    "#;
    let article = ArticleCandidate {
        url: "https://fallout.bethesda.net/en-US/news/x".to_string(),
        year: 2026,
        month: 9,
    };
    let now = utc(2026, 9, 24, 17, 0);
    let feed = build_atomic_shop(&article, html, &locale("en-US"), now).unwrap();
    assert_eq!(feed.article_title, "Atomic Shop Update");
    let items: Vec<&str> = feed.offers.iter().map(|o| o.item.as_str()).collect();
    assert_eq!(items, vec!["Alpha", "Zeta", "Later"]);
    let active: Vec<&str> = feed.active.iter().map(|o| o.item.as_str()).collect();
    assert_eq!(active, vec!["Alpha", "Zeta"]);

    assert_eq!(
        build_atomic_shop(&article, "<p>nothing</p>", &locale("en-US"), now).err(),
        Some(FeedError::NoOffers)
    );
}

#[test]
fn monthly_archive_drops_active_state() {
    let html = r#"<html><body><h2>Week of September 22</h2>
        <table>
          <tr><th>Item</th><th>Price</th><th>Available on</th></tr>
          <tr><td>Zeta</td><td>100</td><td>September 24</td></tr>
        </table></body></html>"#;
    let article = ArticleCandidate { url: "u".to_string(), year: 2026, month: 9 };
    let now = utc(2026, 9, 24, 17, 0);
    let feed = build_atomic_shop(&article, html, &locale("en-US"), now).unwrap();
    assert!(feed.offers[0].active);
    let archive = monthly_archive(&feed);
    assert_eq!(archive.offers.len(), 1);
    assert_eq!(archive.offers[0].item, "Zeta");
    assert_eq!(archive.offers[0].starts_at, feed.offers[0].starts_at);
    assert_eq!(archive.article_month, 9);
}

#[test]
fn article_blocks_follow_their_tag_names() {
    let page = overseer::dom::load_page(
        "<h1> Atomic  Shop </h1><h2>Week of Sept 1</h2><h3>Bundles</h3>\
         <table><tr><th>Item</th><th>Price</th></tr><tr></tr><tr><td>Plan A</td><td>400 Atoms</td></tr></table>",
    );
    assert_eq!(overseer::bethesda::article_title(&page).unwrap(), "Atomic Shop");
    let rows = overseer::bethesda::table_rows(&page, 2).unwrap();
    assert_eq!(rows.len(), 2);
    assert_eq!(rows[0], vec!["Item", "Price"]);
    assert_eq!(rows[1], vec!["Plan A", "400 Atoms"]);
    assert!(overseer::bethesda::table_rows(&page, 9).is_none());
    let blocks = overseer::bethesda::document_blocks(&page).unwrap();
    assert_eq!(blocks.len(), 3);
    assert!(matches!(&blocks[0], overseer::bethesda::Block::Heading2(t) if t == "Week of Sept 1"));
    assert!(matches!(&blocks[1], overseer::bethesda::Block::Heading3(t) if t == "Bundles"));
    assert!(matches!(&blocks[2], overseer::bethesda::Block::Table(r) if r.len() == 2));
    let untitled = overseer::dom::load_page("<p>no heading</p>");
    assert_eq!(overseer::bethesda::article_title(&untitled).unwrap(), "Atomic Shop Monthly Update");
}

#[test]
fn month_names_read_back_as_their_months() {
    for m in 1..=12u32 {
        assert_eq!(overseer::timeparse::month_number(month_name(m)), Some(m));
        assert_eq!(overseer::timeparse::month_number(&month_name(m).to_ascii_lowercase()), Some(m));
    }
    assert_eq!(month_name(0), "Unknown");
    assert_eq!(overseer::timeparse::month_number("Unknown"), None);
}
