use chrono::TimeZone;
use overseer::config::{locales, LocaleConfig};
use overseer::error::FeedError;
use overseer::nukaknights::minerva::{build_minerva_feed, inventory_from_lines, schedule_from_lines};

fn locale(code: &str) -> LocaleConfig {
    *locales().iter().find(|l| l.code == code).unwrap()
}

fn utc(y: i32, mo: u32, d: u32, h: u32, mi: u32) -> i64 {
    chrono::Utc.with_ymd_and_hms(y, mo, d, h, mi, 0).unwrap().timestamp()
}

fn strings(v: &[&str]) -> Vec<String> {
    v.iter().map(|s| s.to_string()).collect()
}

fn schedule_page() -> &'static str {
    r#"<html><body>
      <h3>Minerva List 5</h3>
      <p>Location: Foundation</p>
      <p>Mo, 05.10.2026 (18:00) - Mi, 07.10.2026 (18:00)</p>
      <h3>Minerva Big Sale List 2</h3>
      <p>Ort: Fort Atlas</p>
      <p>Mo, 28.09.2026 (18:00) - Mi, 30.09.2026 (18:00)</p>
      <h3>Minerva List 7</h3>
      <p>Location: Crater</p>
      <p>Mo, 21.09.2026 (18:00) - Mi, 23.09.2026 (18:00)</p>
    </body></html>"#
}

#[test]
fn minerva_schedule_lists_each_sale_once() {
    let lines = strings(&[
        "Minerva List 5",
        "Location: Foundation",
        "Mo, 05.10.2026 (18:00) - Mi, 07.10.2026 (18:00)",
        "Minerva Liste 5",
        "Mo, 05.10.2026 (18:00) - Mi, 07.10.2026 (18:00)",
        "Ort: Foundation",
    ]);
    let now = utc(2026, 9, 29, 0, 0);
    let sales = schedule_from_lines(&lines, &locale("de-DE"), now).unwrap();
    assert_eq!(sales.len(), 1);
    assert_eq!(sales[0].list, 5);
    assert_eq!(sales[0].location, "Foundation");
    assert_eq!(sales[0].starts_at, utc(2026, 10, 5, 16, 0));
    assert!(!sales[0].active);
}

#[test]
fn minerva_list_number_must_fit() {
    let lines = strings(&["Minerva List 99999999999", "Location: X", "Mo, 05.10.2026 (18:00) - Mi, 07.10.2026 (18:00)"]);
    assert_eq!(
        schedule_from_lines(&lines, &locale("de-DE"), 0).err(),
        Some(FeedError::InvalidListNumber)
    );
}

#[test]
fn minerva_inventory_reads_plans_and_prices() {
    let lines = strings(&[
        "Minerva Liste 5",
        "Plan: Gauss shotgun",
        "1.500 Gold",
        "Plan: Tesla rifle",
        "no price here",
    ]);
    let inventory = inventory_from_lines(&lines).unwrap();
    assert_eq!(inventory.len(), 1);
    let items = &inventory[&5];
    assert_eq!(items.len(), 1);
    assert_eq!(items[0].name, "Plan: Gauss shotgun");
    assert_eq!(items[0].price_gold, 1500);
}

#[test]
fn minerva_feed_has_current_and_next_sale() {
    let home = r#"<html><body><p>Minerva List 2</p><p>Plan: Ski sword</p><p>250 Gold</p></body></html>"#;
    let now = utc(2026, 9, 29, 12, 0);
    let feed = build_minerva_feed(schedule_page(), home, &locale("de-DE"), now).unwrap();
    let lists: Vec<u32> = feed.schedule.iter().map(|s| s.list).collect();
    assert_eq!(lists, vec![7, 2, 5]);
    let current = feed.current.unwrap();
    assert_eq!(current.list, 2);
    assert!(current.big_sale);
    assert!(current.inventory_complete);
    assert_eq!(current.items[0].price_gold, 250);
    assert_eq!(feed.next.unwrap().list, 5);
    assert_eq!(feed.source.url, "https://nukaknights.com/minerva.html");

    assert_eq!(
        build_minerva_feed("<p>nothing</p>", home, &locale("de-DE"), now).err(),
        Some(FeedError::NoMinervaSchedule)
    );
}

#[test]
fn minerva_inventory_keeps_the_first_list_of_a_number() {
    let lines = strings(&[
        "Minerva Liste 5",
        "Plan: Gauss shotgun",
        "1.500 Gold",
        "Minerva Liste 5",
        "Plan: Tesla rifle",
        "900 Gold",
        "Minerva List 6",
        "Plan: Ski sword",
        "250 Gold",
    ]);
    let inventory = inventory_from_lines(&lines).unwrap();
    assert_eq!(inventory.len(), 2);
    assert_eq!(inventory[&5].len(), 2);
    assert_eq!(inventory[&5][0].name, "Plan: Gauss shotgun");
    assert_eq!(inventory[&5][1].price_gold, 900);
    assert_eq!(inventory[&6][0].price_gold, 250);
}
