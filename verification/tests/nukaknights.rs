use chrono::TimeZone;
use overseer::clock::Zone;
use overseer::config::{locales, LocaleConfig};
use overseer::error::FeedError;
use overseer::model::SourceRef;
use overseer::nukaknights::events::event_tags;
use overseer::nukaknights::home::{
    add_local_days, build_home_feed, challenge_from_parts, challenge_week, challenges_feed,
    daily_ops_feed, name_pieces, nuke_code, nuke_codes_feed, parse_challenges,
    parse_labeled_datetime, parse_nuke_period, parse_numeric_local_datetime, season_feed,
    ChallengeParts,
};

fn locale(code: &str) -> LocaleConfig {
    *locales().iter().find(|l| l.code == code).unwrap()
}

fn utc(y: i32, mo: u32, d: u32, h: u32, mi: u32) -> i64 {
    chrono::Utc.with_ymd_and_hms(y, mo, d, h, mi, 0).unwrap().timestamp()
}

fn source() -> SourceRef {
    SourceRef { provider: "Nuka Knights".to_string(), url: "https://example.com".to_string() }
}

fn strings(v: &[&str]) -> Vec<String> {
    v.iter().map(|s| s.to_string()).collect()
}

#[test]
fn parses_challenges_without_modal_tip_content() {
    let document = overseer::dom::load_page(
        r#"
        <div class="mod_fallout76challenges_daily">
          <li class="list-group-item">
            <div class="col-9"><b>1st</b> Kill a Gulper (<b>3</b>)
              <button>Tips</button><div class="modal">Challenge: wrong text</div>
            </div>
            <div><span class="badge badge-secondary">250</span></div>
          </li>
        </div>
        "#,
    );
    let start = utc(2026, 9, 24, 16, 0);
    let reset = utc(2026, 9, 25, 16, 0);
    let feed = parse_challenges(
        &document,
        ".mod_fallout76challenges_daily",
        &locale("en-US"),
        start,
        SourceRef { provider: "Nuka Knights".to_string(), url: "https://example.com".to_string() },
        start,
        reset,
    )
    .unwrap();

    assert_eq!(feed.challenges.len(), 1);
    assert_eq!(feed.challenges[0].name, "Kill a Gulper");
    assert_eq!(feed.challenges[0].target, Some(3));
    assert_eq!(feed.challenges[0].score_reward, 250);
}

#[test]
fn parses_localized_nuke_periods_as_the_same_instant() {
    let en = parse_nuke_period("Nuke Codes (Week: 24th Sep -1st Oct 2026 (20:00))", &locale("en-US"))
        .unwrap();
    let de = parse_nuke_period(
        "Atomraketen Startcodes (Woche: 25.09.-02.10.2026 (02:00))",
        &locale("de-DE"),
    )
    .unwrap();

    assert_eq!(en, de);
}

#[test]
fn classifies_compound_and_seasonal_events() {
    assert_eq!(
        event_tags("Seasonal Fish Run, Treasure Hunter and Double Mutations"),
        vec!["double_mutations", "seasonal_event", "seasonal_fish", "treasure_hunter"]
    );
    assert_eq!(event_tags("Update / Wartung für Patch 70"), vec!["maintenance"]);
}

#[test]
fn nuke_period_start_and_reset_are_exact() {
    let (start, end) =
        parse_nuke_period("Woche: 25.09.-02.10.2026 (02:00)", &locale("de-DE")).unwrap();
    assert_eq!(start, utc(2026, 9, 25, 0, 0));
    assert_eq!(end, utc(2026, 10, 2, 0, 0));
}

#[test]
fn nuke_period_across_new_year_starts_the_year_before() {
    let (start, end) =
        parse_nuke_period("Woche: 29.12.-05.01.2027 (02:00)", &locale("de-DE")).unwrap();
    assert_eq!(start, utc(2026, 12, 29, 1, 0));
    assert_eq!(end, utc(2027, 1, 5, 1, 0));
}

#[test]
fn nuke_period_errors() {
    assert_eq!(
        parse_nuke_period("no week here", &locale("de-DE")),
        Err(FeedError::InvalidNukePeriod)
    );
    assert_eq!(
        parse_nuke_period("Week: 24th Foo -1st Oct 2026 (20:00)", &locale("en-US")),
        Err(FeedError::InvalidNukeMonth)
    );
    assert_eq!(
        parse_nuke_period("Woche: 31.09.-02.10.2026 (02:00)", &locale("de-DE")),
        Err(FeedError::InvalidNukeStart)
    );
    assert_eq!(
        parse_nuke_period("Woche: 25.09.-31.10.2026 (25:00)", &locale("de-DE")),
        Err(FeedError::InvalidNukeStart)
    );
    assert_eq!(
        parse_nuke_period("Woche: 25.09.-32.10.2026 (02:00)", &locale("de-DE")),
        Err(FeedError::InvalidNukeReset)
    );
}

#[test]
fn nuke_code_is_eight_digits() {
    assert_eq!(nuke_code("Alpha 12345678"), Ok("12345678".to_string()));
    assert_eq!(nuke_code("Alpha 1234567"), Err(FeedError::InvalidNukeCode));
    assert_eq!(nuke_code("Alpha 123456789"), Err(FeedError::InvalidNukeCode));
}

#[test]
fn nuke_codes_feed_reads_the_cells() {
    let cells = strings(&[
        "Woche: 25.09.-02.10.2026 (02:00)",
        "Alpha 11111111",
        "Bravo 22222222",
        "Charlie 33333333",
    ]);
    let now = utc(2026, 9, 26, 0, 0);
    let feed = nuke_codes_feed(&cells, &locale("de-DE"), now, source()).unwrap();
    assert_eq!(feed.alpha, "11111111");
    assert_eq!(feed.bravo, "22222222");
    assert_eq!(feed.charlie, "33333333");
    assert_eq!(feed.valid_from, utc(2026, 9, 25, 0, 0));
    assert_eq!(feed.resets_at, utc(2026, 10, 2, 0, 0));
    assert_eq!(feed.valid_from_local, "2026-09-25T02:00:00+02:00");
    assert_eq!(feed.timezone, "Europe/Berlin");
    assert_eq!(feed.locale, "de-DE");
    assert_eq!(feed.generated_at, now);
    assert_eq!(feed.schema_version, 1);

    let short = strings(&["Woche: 25.09.-02.10.2026 (02:00)", "Alpha 11111111"]);
    assert_eq!(
        nuke_codes_feed(&short, &locale("de-DE"), now, source()).err(),
        Some(FeedError::IncompleteNukeCodes)
    );
    let bad = strings(&["Woche: 25.09.-02.10.2026 (02:00)", "11111111", "x", "33333333"]);
    assert_eq!(
        nuke_codes_feed(&bad, &locale("de-DE"), now, source()).err(),
        Some(FeedError::InvalidNukeCode)
    );
}

#[test]
fn numeric_local_datetime_is_read_in_the_zone() {
    assert_eq!(
        parse_numeric_local_datetime("Mo, 28.09.2026 (18:00)", Zone::Berlin),
        Some(utc(2026, 9, 28, 16, 0))
    );
    assert_eq!(parse_numeric_local_datetime("28.13.2026 (18:00)", Zone::Berlin), None);
    assert_eq!(parse_numeric_local_datetime("no date", Zone::Berlin), None);
}

#[test]
fn add_local_days_keeps_the_wall_clock_across_dst() {
    // 24 Oct 2026 18:00 in Berlin is CEST; one day later it is CET.
    let start = utc(2026, 10, 24, 16, 0);
    assert_eq!(add_local_days(start, Zone::Berlin, 1), Ok(utc(2026, 10, 25, 17, 0)));
    assert_eq!(add_local_days(start, Zone::Berlin, 7), Ok(utc(2026, 10, 31, 17, 0)));
}

#[test]
fn challenge_week_runs_from_tuesday_noon_in_new_york() {
    // Thursday 24 Sep 2026 16:00 UTC.
    let (start, end) = challenge_week(utc(2026, 9, 24, 16, 0)).unwrap();
    assert_eq!(start, utc(2026, 9, 22, 16, 0));
    assert_eq!(end, utc(2026, 9, 29, 16, 0));
    // A Monday belongs to the week that started six days before.
    let (start, _) = challenge_week(utc(2026, 9, 28, 16, 0)).unwrap();
    assert_eq!(start, utc(2026, 9, 22, 16, 0));
    // A Tuesday starts its own week.
    let (start, _) = challenge_week(utc(2026, 9, 29, 20, 0)).unwrap();
    assert_eq!(start, utc(2026, 9, 29, 16, 0));
}

#[test]
fn name_pieces_stop_at_the_tips() {
    let nodes = strings(&[" 1st ", " Kill a Gulper ( ", "3", ") ", "  ", "TIPPS", "wrong"]);
    assert_eq!(name_pieces(&nodes), strings(&["1st", "Kill a Gulper (", "3", ")"]));
}

#[test]
fn challenge_needs_a_name_and_a_reward() {
    let with = |name: &[&str], reward: Option<&[&str]>| ChallengeParts {
        name_nodes: Some(strings(name)),
        reward_nodes: reward.map(strings),
    };
    let c = challenge_from_parts(&with(&["2. Craft 1,000 Ammo (1.000)"], Some(&["+ 1,500 S.C.O.R.E."])))
        .unwrap();
    assert_eq!(c.name, "Craft 1,000 Ammo");
    assert_eq!(c.target, Some(1000));
    assert_eq!(c.score_reward, 1500);
    assert!(challenge_from_parts(&with(&["Kill a Gulper"], None)).is_none());
    assert!(challenge_from_parts(&with(&["(3)"], Some(&["250"]))).is_none());
    let no_target = challenge_from_parts(&with(&["Eat food"], Some(&["100"]))).unwrap();
    assert_eq!(no_target.target, None);
    assert!(challenge_from_parts(&ChallengeParts { name_nodes: None, reward_nodes: None }).is_none());
}

#[test]
fn challenges_feed_refuses_an_empty_widget() {
    let start = utc(2026, 9, 24, 16, 0);
    let parts = vec![ChallengeParts { name_nodes: Some(strings(&["Nothing"])), reward_nodes: None }];
    assert_eq!(
        challenges_feed(&parts, &locale("en-US"), start, source(), start, start).err(),
        Some(FeedError::NoChallenges)
    );
    let parts = vec![ChallengeParts {
        name_nodes: Some(strings(&["Kill a Gulper (3)"])),
        reward_nodes: Some(strings(&["250"])),
    }];
    let feed = challenges_feed(&parts, &locale("en-US"), start, source(), start, start).unwrap();
    assert_eq!(feed.period_start_local, "2026-09-24T12:00:00-04:00");
    assert_eq!(feed.timezone, "America/New_York");
}

#[test]
fn missing_challenge_widget_is_an_error() {
    let document = overseer::dom::load_page("<div></div>");
    let start = utc(2026, 9, 24, 16, 0);
    assert_eq!(
        parse_challenges(&document, ".mod_fallout76challenges_weekly", &locale("en-US"), start, source(), start, start)
            .err(),
        Some(FeedError::MissingChallenges)
    );
    assert_eq!(
        parse_challenges(&document, "[[", &locale("en-US"), start, source(), start, start).err(),
        Some(FeedError::InvalidSelector)
    );
}

#[test]
fn daily_ops_feed_reads_mode_columns_and_period() {
    let types = strings(&["Uplink", "", "Lingering Death"]);
    let columns = strings(&["Mutations", "Volatile", "Location", "The Burrows", "Enemies: Ghouls"]);
    let now = utc(2026, 9, 28, 17, 0);
    let feed = daily_ops_feed("28.09.2026 (18:00)", &types, &columns, &locale("de-DE"), now, source())
        .unwrap();
    assert_eq!(feed.mode, "Uplink");
    assert_eq!(feed.mutations, strings(&["Lingering Death", "Volatile"]));
    assert_eq!(feed.location, "Location");
    assert_eq!(feed.enemies, "The Burrows");
    assert_eq!(feed.period_start, utc(2026, 9, 28, 16, 0));
    assert_eq!(feed.reset_at, utc(2026, 9, 29, 16, 0));
    assert_eq!(feed.reset_at_local, "2026-09-29T18:00:00+02:00");

    assert_eq!(
        daily_ops_feed("soon", &types, &columns, &locale("de-DE"), now, source()).err(),
        Some(FeedError::InvalidDailyOpsPeriod)
    );
    assert_eq!(
        daily_ops_feed("28.09.2026 (18:00)", &types, &strings(&["a", "b", "c"]), &locale("de-DE"), now, source())
            .err(),
        Some(FeedError::IncompleteDailyOps)
    );
}

#[test]
fn labeled_datetime_reads_both_languages() {
    assert_eq!(
        parse_labeled_datetime("Start: 02.09.2026 18:00 Ende: 09.12.2026 18:00", &["Start"], Zone::Berlin),
        Some(utc(2026, 9, 2, 16, 0))
    );
    assert_eq!(
        parse_labeled_datetime("Start: 02.09.2026 18:00 Ende: 09.12.2026 18:00", &["End", "Ende"], Zone::Berlin),
        Some(utc(2026, 12, 9, 17, 0))
    );
    assert_eq!(
        parse_labeled_datetime("end: 9th December 2026 12:00 (estimated)", &["End", "Ende"], Zone::NewYork),
        Some(utc(2026, 12, 9, 17, 0))
    );
    assert_eq!(parse_labeled_datetime("nothing", &["Start"], Zone::NewYork), None);
}

#[test]
fn season_feed_reads_name_days_and_dates() {
    let now = utc(2026, 9, 28, 0, 0);
    let feed = season_feed(
        "Season 22: \"Ghoul Within\" Still 12 / 70 Days Left",
        "Start: 2nd September 2026 12:00 End: 9th December 2026 12:00 (estimated)",
        &locale("en-US"),
        now,
        source(),
    )
    .unwrap();
    assert_eq!(feed.season_number, 22);
    assert_eq!(feed.season_name, "Ghoul Within");
    assert_eq!(feed.remaining_days, Some(12));
    assert_eq!(feed.total_days, Some(70));
    assert_eq!(feed.starts_at, Some(utc(2026, 9, 2, 16, 0)));
    assert_eq!(feed.ends_at, Some(utc(2026, 12, 9, 17, 0)));
    assert_eq!(feed.ends_at_local.as_deref(), Some("2026-12-09T12:00:00-05:00"));
    assert!(feed.end_estimated);

    let bare = season_feed("Saison 22: 'Ghul'", "", &locale("de-DE"), now, source()).unwrap();
    assert_eq!(bare.season_name, "Ghul");
    assert_eq!(bare.starts_at, None);
    assert_eq!(bare.remaining_days, None);
    assert!(!bare.end_estimated);

    assert_eq!(
        season_feed("no season", "", &locale("de-DE"), now, source()).err(),
        Some(FeedError::InvalidSeasonName)
    );
    assert_eq!(
        season_feed("Season 99999999999: \"Big\"", "", &locale("de-DE"), now, source()).err(),
        Some(FeedError::InvalidSeasonNumber)
    );
}

#[test]
fn home_page_feeds_share_the_daily_period() {
    let html = r#"<html><body>
      <div class="mod_dailyops_widget">
        <h4>Daily Ops</h4><small>Mo, 28.09.2026 (18:00)</small>
        <div class="dailyopstype"><div class="col-12">Uplink</div><div class="col-12">Lingering Death</div></div>
        <div class="row p-2"><div class="col-6">Mutations</div><div class="col-6">Volatile</div>
          <div class="col-6">Location</div><div class="col-6">The Burrows</div></div>
      </div>
      <div class="mod_fallout76challenges_daily"><ul>
        <li class="list-group-item"><div class="col-9">Kill a Gulper (3)</div><span class="badge badge-secondary">250</span></li>
      </ul></div>
      <div class="mod_fallout76challenges_weekly"><ul>
        <li class="list-group-item"><div class="col-9">Kill 5 Scorched (5)</div><span class="badge badge-secondary">1,000</span></li>
      </ul></div>
      <div class="nuke-codes"><div class="row d-none d-md-flex">
        <div>Woche: 22.09.-29.09.2026 (18:00)</div><div>Alpha 11111111</div><div>Bravo 22222222</div><div>Charlie 33333333</div>
      </div></div>
      <div class="season_desc">Saison 22: "Ghul" Noch 12 / 70 Tage
        <button data-content="Start: 02.09.2026 18:00 Ende: 09.12.2026 18:00 (Schätzung)">i</button></div>
    </body></html>"#;
    let now = utc(2026, 9, 28, 17, 0);
    let feed = build_home_feed(html.to_string(), &locale("de-DE"), now).unwrap();
    assert_eq!(feed.html, html);
    assert_eq!(feed.daily_challenges.period_start, feed.daily_ops.period_start);
    assert_eq!(feed.daily_challenges.reset_at, feed.daily_ops.reset_at);
    assert_eq!(feed.weekly_challenges.period_start, utc(2026, 9, 22, 16, 0));
    assert_eq!(feed.weekly_challenges.reset_at, utc(2026, 9, 29, 16, 0));
    assert_eq!(feed.weekly_challenges.challenges[0].score_reward, 1000);
    assert_eq!(feed.nuke_codes.charlie, "33333333");
    assert!(feed.season.end_estimated);
    assert_eq!(feed.season.total_days, Some(70));
    assert_eq!(feed.daily_ops.source.url, "https://nukaknights.com/");

    assert_eq!(
        build_home_feed("<p>empty</p>".to_string(), &locale("de-DE"), now).err(),
        Some(FeedError::MissingDailyOps)
    );
}

#[test]
fn event_tags_ignore_ascii_letter_case() {
    let title = "Seasonal Fish Run, Treasure Hunter and Double Mutations";
    assert_eq!(event_tags(title), event_tags(&title.to_ascii_uppercase()));
    assert_eq!(event_tags(title), event_tags(&title.to_ascii_lowercase()));
    assert!(!event_tags(&title.to_ascii_uppercase()).is_empty());
}
