use checkin_report::aggregate::{aggregate, MonthBlock};
use checkin_report::events::{build_timeline, normalize_events, RawMessage};
use checkin_report::report::compute_report;
use checkin_report::time::CivilDate;
use chrono::TimeZone;

const TITLE: &str = "Month | Morning | Evening | Proper | Missed | Infractions | Alternate Time Zones\n";

/// The UTC instant (in seconds) of the given New York local wall-clock time.
fn ny_secs(y: i32, mo: u32, d: u32, h: u32, mi: u32) -> i64 {
    chrono_tz::America::New_York
        .with_ymd_and_hms(y, mo, d, h, mi, 0)
        .single()
        .expect("unambiguous local time")
        .timestamp()
}

fn msg(author_id: u64, utc_secs: i64, body: &str) -> RawMessage {
    RawMessage {
        author_id,
        utc_secs,
        body: body.to_string(),
    }
}

fn blocks_of(msgs: &Vec<RawMessage>, today: &CivilDate) -> Vec<MonthBlock> {
    let (events, _dropped) = normalize_events(msgs);
    let lines = build_timeline(&events);
    aggregate(&lines, today)
}

fn find_block<'a>(blocks: &'a [MonthBlock], year: i32, month: u8) -> &'a MonthBlock {
    blocks
        .iter()
        .find(|b| b.year == year && b.month == month)
        .expect("month block present")
}

#[test]
fn full_march_of_proper_mornings() {
    let mut msgs = Vec::new();
    for d in 1..=31u32 {
        msgs.push(msg(1, ny_secs(2024, 3, d as u32, 6, 7), "pants off"));
    }
    let today = CivilDate { year: 2024, month: 4, day: 15 };
    let blocks = blocks_of(&msgs, &today);
    let march = find_block(&blocks, 2024, 3);
    assert_eq!(march.rows.len(), 1);
    let rec = &march.rows[0].record;
    assert_eq!(rec.morning_count, 31);
    assert_eq!(rec.proper_count, 31);
    assert_eq!(rec.missed_days, 0);
    assert_eq!(rec.infraction_count, 0);
    assert_eq!(rec.evening_count, 0);
    assert_eq!(rec.alternate_count, 0);
}

#[test]
fn off_minute_event_is_infraction_and_day_missed() {
    let msgs = vec![msg(7, ny_secs(2024, 3, 5, 6, 12), "pants off")];
    let today = CivilDate { year: 2024, month: 3, day: 31 };
    let blocks = blocks_of(&msgs, &today);
    let march = find_block(&blocks, 2024, 3);
    let rec = &march.rows[0].record;
    assert_eq!(rec.infraction_count, 1);
    assert_eq!(rec.morning_count, 0);
    assert_eq!(rec.evening_count, 0);
    assert_eq!(rec.alternate_count, 0);
    assert_eq!(rec.proper_count, 0);
    // every day of March is missed, including the day of the infraction
    assert_eq!(rec.missed_days, 31);
}

#[test]
fn empty_event_set_renders_no_rows() {
    let msgs: Vec<RawMessage> = Vec::new();
    let names: Vec<(u64, String)> = Vec::new();
    let today = CivilDate { year: 2024, month: 3, day: 31 };
    let summary = compute_report(&msgs, &names, false, &today);
    let full = compute_report(&msgs, &names, true, &today);
    assert_eq!(summary, TITLE);
    assert_eq!(full, TITLE);
}

#[test]
fn morning_and_evening_same_day_both_count() {
    let msgs = vec![
        msg(3, ny_secs(2024, 3, 5, 6, 7), "pants off"),
        msg(3, ny_secs(2024, 3, 5, 18, 7), "Pants Off again"),
    ];
    let today = CivilDate { year: 2024, month: 3, day: 31 };
    let blocks = blocks_of(&msgs, &today);
    let march = find_block(&blocks, 2024, 3);
    let rec = &march.rows[0].record;
    assert_eq!(rec.morning_count, 1);
    assert_eq!(rec.evening_count, 1);
    assert_eq!(rec.proper_count, 2);
    assert_eq!(rec.alternate_count, 0);
    assert_eq!(rec.infraction_count, 0);
    // the other 30 days of March are missed
    assert_eq!(rec.missed_days, 30);
}

#[test]
fn alternate_hour_counts_as_alternate() {
    let msgs = vec![msg(4, ny_secs(2024, 3, 5, 12, 7), "no match here")];
    let today = CivilDate { year: 2024, month: 3, day: 31 };
    let blocks = blocks_of(&msgs, &today);
    let march = find_block(&blocks, 2024, 3);
    let rec = &march.rows[0].record;
    assert_eq!(rec.alternate_count, 1);
    assert_eq!(rec.proper_count, 0);
    assert_eq!(rec.morning_count, 0);
    assert_eq!(rec.missed_days, 30);
}

#[test]
fn quiet_period_suppresses_months_before_first_event() {
    let msgs = vec![msg(9, ny_secs(2024, 2, 10, 6, 7), "pants off")];
    let today = CivilDate { year: 2024, month: 3, day: 15 };
    let blocks = blocks_of(&msgs, &today);
    // nothing before February 2024; February and March both emitted
    assert_eq!(blocks.len(), 2);
    assert_eq!((blocks[0].year, blocks[0].month), (2024, 2));
    assert_eq!((blocks[1].year, blocks[1].month), (2024, 3));
    // March has a record for the author even though it has no events
    assert_eq!(blocks[1].rows.len(), 1);
    assert_eq!(blocks[1].rows[0].record.missed_days, 15);
}

#[test]
fn malformed_timestamps_are_dropped() {
    let msgs = vec![
        msg(1, 5_000_000_000_000, "pants off"),
        msg(1, ny_secs(2024, 3, 5, 6, 7), "pants off"),
    ];
    let (events, dropped) = normalize_events(&msgs);
    assert_eq!(dropped, 1);
    assert_eq!(events.len(), 1);
}

#[test]
fn report_is_idempotent() {
    let msgs = vec![
        msg(1, ny_secs(2024, 3, 5, 6, 7), "pants off"),
        msg(2, ny_secs(2024, 3, 6, 18, 7), "nothing"),
    ];
    let names = vec![(1u64, "alice".to_string())];
    let today = CivilDate { year: 2024, month: 3, day: 31 };
    let a = compute_report(&msgs, &names, false, &today);
    let b = compute_report(&msgs, &names, false, &today);
    assert_eq!(a, b);
    let c = compute_report(&msgs, &names, true, &today);
    let d = compute_report(&msgs, &names, true, &today);
    assert_eq!(c, d);
}

#[test]
fn report_contains_header_and_named_row() {
    let msgs = vec![msg(1, ny_secs(2024, 3, 5, 6, 7), "pants off")];
    let names = vec![(1u64, "alice".to_string())];
    let today = CivilDate { year: 2024, month: 3, day: 31 };
    let text = compute_report(&msgs, &names, true, &today);
    assert!(text.contains("March, 2024\n"));
    assert!(text.contains("alice | 1 | 0 | 1 | 30 | 0 | 0\n"));
}

#[test]
fn unresolved_author_falls_back_to_id() {
    let msgs = vec![msg(42, ny_secs(2024, 3, 5, 6, 7), "pants off")];
    let names: Vec<(u64, String)> = Vec::new();
    let today = CivilDate { year: 2024, month: 3, day: 31 };
    let text = compute_report(&msgs, &names, true, &today);
    assert!(text.contains("42 | 1 | 0 | 1 | 30 | 0 | 0\n"));
}

#[test]
fn summary_truncates_to_budget_keeping_a_suffix() {
    let mut msgs = Vec::new();
    let mut names = Vec::new();
    for a in 1..=80u64 {
        msgs.push(msg(a, ny_secs(2024, 3, 5, 6, 7), "pants off"));
        names.push((a, format!("member_number_{:03}", a)));
    }
    let today = CivilDate { year: 2024, month: 3, day: 31 };
    let full = compute_report(&msgs, &names, true, &today);
    assert!(full.chars().count() > 2000);
    let summary = compute_report(&msgs, &names, false, &today);
    assert!(summary.chars().count() <= 2000);
    // truncation removes whole lines from the front only: the summary
    // body is a suffix of the full body, order kept
    let body = summary.strip_prefix(TITLE).expect("title kept");
    assert!(full.ends_with(body));
}

#[test]
fn future_months_are_not_emitted() {
    let msgs = vec![msg(1, ny_secs(2024, 3, 5, 6, 7), "pants off")];
    let today = CivilDate { year: 2024, month: 3, day: 31 };
    let blocks = blocks_of(&msgs, &today);
    assert!(blocks.iter().all(|b| b.year < 2024 || (b.year == 2024 && b.month <= 3)));
}

#[test]
fn events_before_start_year_never_surface() {
    let msgs = vec![msg(1, ny_secs(2019, 6, 5, 6, 7), "pants off")];
    let today = CivilDate { year: 2024, month: 3, day: 31 };
    let blocks = blocks_of(&msgs, &today);
    // the pre-2020 event is never drained, so the quiet period never lifts
    assert_eq!(blocks.len(), 0);
}

#[test]
fn dst_transition_morning_still_counts() {
    // 2024-03-10 is the spring-forward date in America/New_York
    let msgs = vec![msg(1, ny_secs(2024, 3, 10, 6, 7), "pants off")];
    let today = CivilDate { year: 2024, month: 3, day: 31 };
    let blocks = blocks_of(&msgs, &today);
    let march = find_block(&blocks, 2024, 3);
    assert_eq!(march.rows[0].record.morning_count, 1);
}

#[test]
fn leap_day_is_a_real_day() {
    // 2024 is a leap year: February has 29 days
    let msgs = vec![msg(1, ny_secs(2024, 2, 29, 6, 7), "pants off")];
    let today = CivilDate { year: 2024, month: 2, day: 29 };
    let blocks = blocks_of(&msgs, &today);
    let feb = find_block(&blocks, 2024, 2);
    let rec = &feb.rows[0].record;
    assert_eq!(rec.morning_count, 1);
    assert_eq!(rec.missed_days, 28);
}

#[test]
fn infractions_count_even_on_counted_days() {
    // one off-minute event and one proper morning on the same day
    let msgs = vec![
        msg(1, ny_secs(2024, 3, 5, 6, 12), "pants off"),
        msg(1, ny_secs(2024, 3, 5, 6, 7), "pants off"),
    ];
    let today = CivilDate { year: 2024, month: 3, day: 5 };
    let blocks = blocks_of(&msgs, &today);
    let march = find_block(&blocks, 2024, 3);
    let rec = &march.rows[0].record;
    assert_eq!(rec.morning_count, 1);
    assert_eq!(rec.infraction_count, 1);
    assert_eq!(rec.missed_days, 4);
}

#[test]
fn authors_keep_first_occurrence_order() {
    let msgs = vec![
        msg(5, ny_secs(2024, 3, 5, 6, 7), "pants off"),
        msg(2, ny_secs(2024, 3, 5, 18, 7), "pants off"),
        msg(5, ny_secs(2024, 3, 6, 6, 7), "pants off"),
    ];
    let (events, _dropped) = normalize_events(&msgs);
    let lines = build_timeline(&events);
    assert_eq!(lines.len(), 2);
    assert_eq!(lines[0].author_id, 5);
    assert_eq!(lines[1].author_id, 2);
    assert_eq!(lines[0].events.len(), 2);
}
