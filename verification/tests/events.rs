use chrono::TimeZone;
use overseer::config::{locales, LocaleConfig};
use overseer::error::FeedError;
use overseer::nukaknights::events::{build_events_feed, events_from_anchors, Anchor};

fn locale(code: &str) -> LocaleConfig {
    *locales().iter().find(|l| l.code == code).unwrap()
}

fn utc(y: i32, mo: u32, d: u32, h: u32, mi: u32) -> i64 {
    chrono::Utc.with_ymd_and_hms(y, mo, d, h, mi, 0).unwrap().timestamp()
}

fn anchor(href: &str, text: &str) -> Anchor {
    Anchor { href: href.to_string(), text: text.to_string() }
}

#[test]
fn events_group_links_by_address() {
    let anchors = vec![
        anchor("/event/fish", "Seasonal Fish Run"),
        anchor("/event/fish", "Mo, 28.09.2026 (18:00) - Mi, 30.09.2026 (18:00)"),
        anchor("/event/xp", "Doppelte EP"),
        anchor("/event/xp", "Fr, 25.09.2026 (18:00) - So, 27.09.2026 (18:00)"),
        anchor("/event/none", "No date here"),
    ];
    let now = utc(2026, 9, 29, 0, 0);
    let events = events_from_anchors(&anchors, &locale("de-DE"), now).unwrap();
    assert_eq!(events.len(), 2);
    assert_eq!(events[0].title, "Doppelte EP");
    assert_eq!(events[0].url, "https://nukaknights.com/event/xp");
    assert_eq!(events[0].tags, vec!["double_xp"]);
    assert!(!events[0].active);
    assert_eq!(events[1].title, "Seasonal Fish Run");
    assert!(events[1].active);
    assert_eq!(events[1].ends_at, Some(utc(2026, 9, 30, 16, 0)));
}

#[test]
fn events_feed_splits_active_and_upcoming() {
    let html = r#"<html><body>
      <a href="/event/fish">Seasonal Fish Run</a>
      <a href="/event/fish">Mo, 28.09.2026 (18:00) - Mi, 30.09.2026 (18:00)</a>
      <a href="/events/meat">Meat Week</a>
      <a href="/events/meat">Do, 01.10.2026 (18:00) - Do, 08.10.2026 (18:00)</a>
    </body></html>"#;
    let now = utc(2026, 9, 29, 0, 0);
    let feed = build_events_feed(html, &locale("de-DE"), now).unwrap();
    assert_eq!(feed.active.len(), 1);
    assert_eq!(feed.active[0].title, "Seasonal Fish Run");
    assert_eq!(feed.upcoming.len(), 1);
    assert_eq!(feed.upcoming[0].tags, vec!["meat_week", "seasonal_event"]);
    assert_eq!(feed.source.url, "https://nukaknights.com/events-kalender.html");

    assert_eq!(
        build_events_feed("<p>quiet</p>", &locale("de-DE"), now).err(),
        Some(FeedError::NoEvents)
    );
}

#[test]
fn event_titles_need_letters_and_the_base_must_parse() {
    let anchors = vec![
        anchor("/event/a", "2026"),
        anchor("/event/a", "Mo, 28.09.2026 (18:00) - Mi, 30.09.2026 (18:00)"),
        anchor("/event/b", "Startet in 3 Tagen"),
        anchor("/event/b", "Fasnacht Parade"),
        anchor("/event/b", "Do, 01.10.2026 (18:00) - Do, 08.10.2026 (18:00)"),
    ];
    let now = utc(2026, 9, 29, 0, 0);
    let events = events_from_anchors(&anchors, &locale("de-DE"), now).unwrap();
    assert_eq!(events.len(), 1);
    assert_eq!(events[0].title, "Fasnacht Parade");
    assert_eq!(events[0].tags, vec!["fasnacht", "seasonal_event"]);

    let mut broken = locale("de-DE");
    broken.nuka_events_url = "not a url";
    assert_eq!(
        events_from_anchors(&anchors, &broken, now).err(),
        Some(FeedError::InvalidBaseUrl)
    );
}

#[test]
fn calendar_links_keep_href_and_text_and_unresolvable_links_point_at_the_base() {
    let page = overseer::dom::load_page(
        r#"<body><a href="/event/fish"> Fish  Run </a><a href="/about">About</a><a title="t" href="https://nukaknights.com/events/xp">XP</a></body>"#,
    );
    let anchors = overseer::nukaknights::events::calendar_anchors(&page).unwrap();
    assert_eq!(anchors.len(), 2);
    assert_eq!(anchors[0].href, "/event/fish");
    assert_eq!(anchors[0].text, "Fish Run");
    assert_eq!(anchors[1].href, "https://nukaknights.com/events/xp");
    let groups = overseer::nukaknights::events::group_links(
        &vec![anchor("http://[::1", "Broken"), anchor("/event/fish", "Fish Run")],
        "https://nukaknights.com/events",
    )
    .unwrap();
    assert_eq!(groups.len(), 2);
    assert_eq!(groups[0].url, "https://nukaknights.com/event/fish");
    assert_eq!(groups[1].url, "https://nukaknights.com/events");
    assert!(overseer::nukaknights::events::group_links(&vec![], "not an address").is_none());
}

#[test]
fn page_lines_are_the_non_empty_body_texts() {
    let page = overseer::dom::load_page("<head><title>T</title></head><body><p> a  b </p><p>\n</p><p>c</p></body>");
    assert_eq!(overseer::dom::flatten_text(&page), vec!["a b", "c"]);
}
