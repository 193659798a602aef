use chrono::TimeZone;
use overseer::clock::Zone;
use overseer::timeparse::{month_number, parse_month_day, parse_nuka_moment, parse_nuka_range, week_start_from_heading};

fn utc(y: i32, mo: u32, d: u32, h: u32, mi: u32) -> i64 {
    chrono::Utc.with_ymd_and_hms(y, mo, d, h, mi, 0).unwrap().timestamp()
}

#[test]
fn parses_german_nuka_range() {
    let (start, end) =
        parse_nuka_range("Mo, 28.09.2026 (18:00) - Mi, 30.09.2026 (18:00)", "de-DE", Zone::Berlin)
            .unwrap();

    assert!(end > start);
}

#[test]
fn parses_english_nuka_range() {
    let (start, end) = parse_nuka_range(
        "Mo, 28th Sep 2026 (12:00) - We, 30th Sep 2026 (12:00)",
        "en-US",
        Zone::NewYork,
    )
    .unwrap();

    assert!(end > start);
}

#[test]
fn parses_atomic_month_day() {
    assert_eq!(parse_month_day("September 28", 2026).unwrap().day, 28);

    assert_eq!(parse_month_day("28. September", 2026).unwrap().day, 28);
}

#[test]
fn nuka_range_instants_are_exact() {
    let (start, end) =
        parse_nuka_range("Mo, 28.09.2026 (18:00) - Mi, 30.09.2026 (18:00)", "de-DE", Zone::Berlin)
            .unwrap();
    assert_eq!(start, utc(2026, 9, 28, 16, 0));
    assert_eq!(end, utc(2026, 9, 30, 16, 0));
    let (start, end) = parse_nuka_range(
        "Mo, 28th Sep 2026 (12:00) - We, 30th Sep 2026 (12:00)",
        "en-US",
        Zone::NewYork,
    )
    .unwrap();
    assert_eq!(start, utc(2026, 9, 28, 16, 0));
    assert_eq!(end, utc(2026, 9, 30, 16, 0));
}

#[test]
fn nuka_moment_reads_the_first_date() {
    assert_eq!(
        parse_nuka_moment("Fr, 02.10.2026 (20:00)", "de-DE", Zone::Berlin),
        Some(utc(2026, 10, 2, 18, 0))
    );
    assert_eq!(parse_nuka_moment("Fr, 31.02.2026 (20:00)", "de-DE", Zone::Berlin), None);
    assert_eq!(parse_nuka_moment("no date", "en-US", Zone::NewYork), None);
}

#[test]
fn month_names_in_both_languages() {
    assert_eq!(month_number("Sep"), Some(9));
    assert_eq!(month_number("SEPTEMBER"), Some(9));
    assert_eq!(month_number("März"), Some(3));
    assert_eq!(month_number("Dezember"), Some(12));
    assert_eq!(month_number("Smarch"), None);
}

#[test]
fn month_day_rejects_missing_days() {
    assert!(parse_month_day("February 30", 2026).is_none());
    assert_eq!(parse_month_day("February 29", 2028).unwrap().month, 2);
}

#[test]
fn week_heading_names_its_first_day() {
    let d = week_start_from_heading("Week of September 22", 2026).unwrap();
    assert_eq!((d.year, d.month, d.day), (2026, 9, 22));
    assert!(week_start_from_heading("Weekly Offers", 2026).is_none());
}

#[test]
fn local_text_reaches_the_first_and_last_instants() {
    let first = overseer::clock::to_local_string(-8334601228800, Zone::NewYork);
    assert!(first.contains('T') && first.starts_with('-'));
    let last = overseer::clock::to_local_string(8210266876799, Zone::Berlin);
    assert!(last.contains('T') && last.starts_with('+'));
    assert!(chrono::DateTime::from_timestamp(-8334601228800 - 1, 0).is_none());
    assert!(chrono::DateTime::from_timestamp(8210266876799 + 1, 0).is_none());
}
