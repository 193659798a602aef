use chrono::TimeZone;
use overseer::clock::Zone;
use overseer::store::{dated_archive_path, monthly_archive_path, season_archive_path, year_string};
use overseer::store::{
    archive_path_for_snapshot, json_equal, padded_decimal, same_content, semantic, stable_update,
    versioned_update, JsonMember, JsonNumber, JsonValue, Update,
};

fn s(v: &str) -> JsonValue {
    JsonValue::String(v.to_string())
}

fn obj(members: Vec<(&str, JsonValue)>) -> JsonValue {
    JsonValue::Object(
        members.into_iter().map(|(k, v)| JsonMember { key: k.to_string(), value: v }).collect(),
    )
}

fn snapshot(generated_at: &str, sale: &str) -> JsonValue {
    obj(vec![
        ("generated_at", s(generated_at)),
        ("locale", s("de-DE")),
        (
            "sale",
            obj(vec![
                ("fetched_at", s("2026-09-24T10:00:00Z")),
                ("items", JsonValue::Array(vec![s(sale), JsonValue::Number(JsonNumber::PosInt(3))])),
            ]),
        ),
        ("schema_version", JsonValue::Number(JsonNumber::PosInt(1))),
    ])
}

#[test]
fn timestamps_do_not_count_as_content() {
    let old = snapshot("2026-09-24T17:00:00+00:00", "Plan A");
    let fresh = snapshot("2026-09-25T17:00:00+00:00", "Plan A");
    assert!(same_content(&old, &fresh));
    assert!(!json_equal(&old, &fresh));
    let changed = snapshot("2026-09-25T17:00:00+00:00", "Plan B");
    assert!(!same_content(&old, &changed));
}

#[test]
fn semantic_drops_volatile_members_at_every_depth() {
    let v = snapshot("2026-09-24T17:00:00+00:00", "Plan A");
    let expected = obj(vec![
        ("locale", s("de-DE")),
        (
            "sale",
            obj(vec![(
                "items",
                JsonValue::Array(vec![s("Plan A"), JsonValue::Number(JsonNumber::PosInt(3))]),
            )]),
        ),
        ("schema_version", JsonValue::Number(JsonNumber::PosInt(1))),
    ]);
    assert!(json_equal(&semantic(&v), &expected));
    assert!(json_equal(&semantic(&semantic(&v)), &semantic(&v)));
}

#[test]
fn json_equality_compares_kind_and_order() {
    assert!(json_equal(&JsonValue::Null, &JsonValue::Null));
    assert!(!json_equal(&JsonValue::Null, &JsonValue::Bool(false)));
    assert!(!json_equal(
        &JsonValue::Number(JsonNumber::PosInt(1)),
        &JsonValue::Number(JsonNumber::Float(1.0f64.to_bits()))
    ));
    assert!(!json_equal(
        &JsonValue::Array(vec![s("a"), s("b")]),
        &JsonValue::Array(vec![s("b"), s("a")])
    ));
    assert!(!json_equal(&JsonValue::Array(vec![s("a")]), &JsonValue::Array(vec![])));
}

#[test]
fn archive_path_uses_year_and_month_of_generation() {
    let v = snapshot("2026-09-24T17:00:00+00:00", "Plan A");
    assert_eq!(
        archive_path_for_snapshot(&v),
        vec!["2026", "09", "2026-09-24T17-00-00-00-00.json"]
    );
    let odd = snapshot("yesterday at 5", "Plan A");
    assert_eq!(archive_path_for_snapshot(&odd), vec!["unknown", "yesterday-at-5.json"]);
    let none = obj(vec![("locale", s("de-DE"))]);
    assert_eq!(archive_path_for_snapshot(&none), vec!["unknown", "unknown.json"]);
    let number = obj(vec![("generated_at", JsonValue::Number(JsonNumber::PosInt(5)))]);
    assert_eq!(archive_path_for_snapshot(&number), vec!["unknown", "unknown.json"]);
    assert_eq!(archive_path_for_snapshot(&JsonValue::Null), vec!["unknown", "unknown.json"]);
}

#[test]
fn padding_is_with_leading_zeros() {
    assert_eq!(padded_decimal(7, 4), "0007");
    assert_eq!(padded_decimal(2026, 4), "2026");
    assert_eq!(padded_decimal(12345, 4), "12345");
    assert_eq!(padded_decimal(0, 2), "00");
}

#[test]
fn versioned_update_archives_only_changed_content() {
    let old = snapshot("2026-09-24T17:00:00+00:00", "Plan A");
    let same = snapshot("2026-09-25T17:00:00+00:00", "Plan A");
    let changed = snapshot("2026-09-25T17:00:00+00:00", "Plan B");
    assert!(matches!(versioned_update(&None, &same), Update::Write));
    assert!(matches!(versioned_update(&Some(old), &same), Update::Unchanged));
    let old = snapshot("2026-09-24T17:00:00+00:00", "Plan A");
    match versioned_update(&Some(old), &changed) {
        Update::ArchiveThenWrite(p) => {
            assert_eq!(p, vec!["2026", "09", "2026-09-24T17-00-00-00-00.json"])
        }
        _ => panic!("expected an archive"),
    }
}

#[test]
fn stable_update_writes_only_changed_content() {
    let old = snapshot("2026-09-24T17:00:00+00:00", "Plan A");
    let same = snapshot("2026-09-25T17:00:00+00:00", "Plan A");
    let changed = snapshot("2026-09-25T17:00:00+00:00", "Plan B");
    assert!(matches!(stable_update(&Some(old), &same), Update::Unchanged));
    let old = snapshot("2026-09-24T17:00:00+00:00", "Plan A");
    assert!(matches!(stable_update(&Some(old), &changed), Update::Write));
    assert!(matches!(stable_update(&None, &changed), Update::Write));
}

#[test]
fn period_archives_use_the_local_start_date() {
    // 22:30 UTC on 28 Sep is already 29 Sep in Berlin.
    let t = chrono::Utc.with_ymd_and_hms(2026, 9, 28, 22, 30, 0).unwrap().timestamp();
    assert_eq!(dated_archive_path(t, Zone::Berlin), vec!["2026", "09", "29.json"]);
    assert_eq!(dated_archive_path(t, Zone::NewYork), vec!["2026", "09", "28.json"]);
    assert_eq!(season_archive_path(22), vec!["22.json"]);
    assert_eq!(monthly_archive_path(2026, 9), vec!["2026", "09.json"]);
}

#[test]
fn years_are_written_with_four_characters() {
    assert_eq!(year_string(2026), "2026");
    assert_eq!(year_string(987), "0987");
    assert_eq!(year_string(-5), "-005");
}

#[test]
fn documents_without_volatile_members_keep_their_content() {
    let v = obj(vec![
        ("locale", s("en-US")),
        ("items", JsonValue::Array(vec![obj(vec![("name", s("Plan A"))]), JsonValue::Null])),
    ]);
    assert!(json_equal(&semantic(&v), &v));
}

fn stored_events() -> JsonValue {
    obj(vec![
        ("generated_at", s("2026-09-24T17:00:00+00:00")),
        ("events", JsonValue::Array(vec![obj(vec![("updated_at", s("a")), ("title", s("Fish Run"))])])),
    ])
}

#[test]
fn nested_timestamp_changes_leave_a_stable_file_unchanged() {
    let fresh = obj(vec![
        ("events", JsonValue::Array(vec![obj(vec![("title", s("Fish Run")), ("fetched_at", s("b"))])])),
        ("generated_at", s("2026-09-25T17:00:00+00:00")),
    ]);
    assert!(matches!(stable_update(&Some(stored_events()), &fresh), Update::Unchanged));
    assert!(matches!(versioned_update(&Some(stored_events()), &fresh), Update::Unchanged));
    let renamed = obj(vec![("events", JsonValue::Array(vec![obj(vec![("title", s("Fish Run!"))])]))]);
    assert!(matches!(stable_update(&Some(stored_events()), &renamed), Update::Write));
}
