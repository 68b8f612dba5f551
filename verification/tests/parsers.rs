use chrono::{Datelike, Local, NaiveDate, TimeZone, Weekday};
use vergissmeinnicht::parsers::{
    due_intent, due_panics, is_valid_recur, next_due_after, parse_due_date, parse_quick_capture,
    parse_recur, recur_panics, try_is_valid_recur, try_next_due_after, try_parse_due_date,
    DueIntent, Period,
};

// ── Quick capture ───────────────────────────────────────────────────────────

#[test]
fn quick_capture_plain_description() {
    let p = parse_quick_capture("Milch kaufen");
    assert_eq!(p.description, "Milch kaufen");
    assert!(p.tags.is_empty());
    assert_eq!(p.project, None);
}

#[test]
fn quick_capture_full_tokens() {
    let p = parse_quick_capture("Bericht schreiben +arbeit +wichtig project:Büro due:tomorrow priority:H");
    assert_eq!(p.description, "Bericht schreiben");
    assert_eq!(p.tags, vec!["arbeit", "wichtig"]);
    assert_eq!(p.project.as_deref(), Some("Büro"));
    assert_eq!(p.due.as_deref(), Some("tomorrow"));
    assert_eq!(p.priority.as_deref(), Some("H"));
}

#[test]
fn quick_capture_priority_normalized_and_validated() {
    let p = parse_quick_capture("Aufgabe priority:m");
    assert_eq!(p.priority.as_deref(), Some("M"));
    let p = parse_quick_capture("Aufgabe priority:X");
    assert_eq!(p.priority, None);
    assert_eq!(p.description, "Aufgabe priority:X");
}

#[test]
fn quick_capture_escaped_space() {
    let p = parse_quick_capture("meeting\\ notes +work");
    assert_eq!(p.description, "meeting notes");
    assert_eq!(p.tags, vec!["work"]);
}

#[test]
fn quick_capture_bare_plus_is_description() {
    let p = parse_quick_capture("2 + 2 rechnen");
    assert_eq!(p.description, "2 + 2 rechnen");
    assert!(p.tags.is_empty());
}

#[test]
fn quick_capture_empty_operator_values_stay_description() {
    let p = parse_quick_capture("project: due: priority: text");
    assert_eq!(p.description, "project: due: priority: text");
    assert_eq!(p.project, None);
}

#[test]
fn quick_capture_later_project_wins_and_tags_keep_order() {
    let p = parse_quick_capture("a project:x +t1 b project:y +t2");
    assert_eq!(p.description, "a b");
    assert_eq!(p.project.as_deref(), Some("y"));
    assert_eq!(p.tags, vec!["t1", "t2"]);
    assert_eq!(p.due, None);
}

#[test]
fn quick_capture_empty_input() {
    let p = parse_quick_capture("   ");
    assert_eq!(p.description, "");
    assert!(p.tags.is_empty());
}

// ── Due dates ───────────────────────────────────────────────────────────────

const NOW: i64 = 1_800_000_000;

#[test]
fn due_today_is_end_of_day() {
    let ts = parse_due_date("today", NOW).unwrap();
    assert!(ts >= NOW, "end of day lies before now");
    assert!(ts - NOW < 24 * 3600);
    assert_eq!(parse_due_date("heute", NOW), Some(ts));
}

#[test]
fn due_tomorrow_after_today() {
    let today = parse_due_date("today", NOW).unwrap();
    let tomorrow = parse_due_date("tomorrow", NOW).unwrap();
    assert_eq!(tomorrow - today, 24 * 3600);
    assert_eq!(parse_due_date("morgen", NOW), Some(tomorrow));
}

#[test]
fn due_relative_days_weeks() {
    let today = parse_due_date("today", NOW).unwrap();
    assert_eq!(parse_due_date("+3d", NOW).unwrap() - today, 3 * 24 * 3600);
    assert_eq!(parse_due_date("+2w", NOW).unwrap() - today, 14 * 24 * 3600);
}

#[test]
fn due_iso_date() {
    let ts = parse_due_date("2027-01-15", NOW).unwrap();
    let date = Local.timestamp_opt(ts, 0).single().unwrap().date_naive();
    assert_eq!(date, NaiveDate::from_ymd_opt(2027, 1, 15).unwrap());
}

#[test]
fn due_invalid_is_none() {
    assert_eq!(parse_due_date("irgendwann", NOW), None);
    assert_eq!(parse_due_date("+3x", NOW), None);
    assert_eq!(parse_due_date("", NOW), None);
}

#[test]
fn due_date_cli_synonyms() {
    let now = Local.with_ymd_and_hms(2026, 7, 17, 12, 0, 0).unwrap().timestamp();
    let d = |ts: i64| Local.timestamp_opt(ts, 0).unwrap().date_naive();

    assert_eq!(d(parse_due_date("eow", now).unwrap()), NaiveDate::from_ymd_opt(2026, 7, 19).unwrap());
    assert_eq!(d(parse_due_date("eoww", now).unwrap()), NaiveDate::from_ymd_opt(2026, 7, 17).unwrap());
    assert_eq!(d(parse_due_date("sow", now).unwrap()), NaiveDate::from_ymd_opt(2026, 7, 20).unwrap());
    assert_eq!(d(parse_due_date("eom", now).unwrap()), NaiveDate::from_ymd_opt(2026, 7, 31).unwrap());
    assert_eq!(d(parse_due_date("som", now).unwrap()), NaiveDate::from_ymd_opt(2026, 8, 1).unwrap());
    assert_eq!(d(parse_due_date("eoq", now).unwrap()), NaiveDate::from_ymd_opt(2026, 9, 30).unwrap());
    assert_eq!(d(parse_due_date("eoy", now).unwrap()), NaiveDate::from_ymd_opt(2026, 12, 31).unwrap());
    assert_eq!(d(parse_due_date("monday", now).unwrap()), NaiveDate::from_ymd_opt(2026, 7, 20).unwrap());
    assert_eq!(d(parse_due_date("fri", now).unwrap()), NaiveDate::from_ymd_opt(2026, 7, 24).unwrap());
    assert_eq!(d(parse_due_date("23rd", now).unwrap()), NaiveDate::from_ymd_opt(2026, 7, 23).unwrap());
    assert_eq!(d(parse_due_date("17th", now).unwrap()), NaiveDate::from_ymd_opt(2026, 8, 17).unwrap());
    assert_eq!(d(parse_due_date("gestern", now).unwrap()), NaiveDate::from_ymd_opt(2026, 7, 16).unwrap());
    assert_eq!(parse_due_date("someday", now), Some(253_402_124_400));
    assert_eq!(parse_due_date("now", now), Some(now));
}

#[test]
fn due_intent_words() {
    assert_eq!(due_intent("  Heute "), DueIntent::Today);
    assert_eq!(due_intent("EOD"), DueIntent::Today);
    assert_eq!(due_intent("soww"), DueIntent::Period(Period::StartOfWeek));
    assert_eq!(due_intent("wed"), DueIntent::NextWeekday(2));
    assert_eq!(due_intent("1st"), DueIntent::NextOrdinal(1));
    assert_eq!(due_intent("32nd"), DueIntent::IsoDate);
    assert_eq!(due_intent("+10d"), DueIntent::DaysAhead(10));
    assert_eq!(due_intent("+-2w"), DueIntent::WeeksAhead(-2));
    assert_eq!(due_intent("+d"), DueIntent::Invalid);
    assert_eq!(due_intent("+3x"), DueIntent::Invalid);
    assert_eq!(due_intent(""), DueIntent::Invalid);
    assert_eq!(due_intent("2027-01-15"), DueIntent::IsoDate);
}

#[test]
fn due_ordinal_out_of_range_is_not_a_date() {
    assert_eq!(parse_due_date("32nd", NOW), None);
    assert_eq!(parse_due_date("0th", NOW), None);
}

// ── Recurrence ──────────────────────────────────────────────────────────────

#[test]
fn recur_standard_words() {
    let due = NOW;
    assert_eq!(next_due_after("daily", due).unwrap() - due, 24 * 3600);
    assert_eq!(next_due_after("weekly", due).unwrap() - due, 7 * 24 * 3600);
    assert!(next_due_after("monthly", due).is_some());
    assert!(next_due_after("yearly", due).is_some());
}

#[test]
fn recur_n_units() {
    let due = NOW;
    assert_eq!(next_due_after("3d", due).unwrap() - due, 3 * 24 * 3600);
    assert_eq!(next_due_after("2w", due).unwrap() - due, 14 * 24 * 3600);
    assert!(next_due_after("6m", due).is_some());
    assert!(next_due_after("1y", due).is_some());
}

#[test]
fn recur_invalid_is_none() {
    assert_eq!(next_due_after("fortnightly", NOW), None);
    assert_eq!(next_due_after("0d", NOW), None);
    assert_eq!(next_due_after("", NOW), None);
    assert!(!is_valid_recur("quatsch"));
    assert!(is_valid_recur("weekly"));
}

#[test]
fn recur_taskwarrior_synonyms() {
    let due = NOW;
    assert_eq!(next_due_after("biweekly", due), next_due_after("2w", due));
    assert_eq!(next_due_after("fortnight", due), next_due_after("2w", due));
    assert_eq!(next_due_after("quarterly", due), next_due_after("3m", due));
    assert_eq!(next_due_after("semiannual", due), next_due_after("6m", due));
    assert_eq!(next_due_after("annual", due), next_due_after("yearly", due));
    assert_eq!(next_due_after("biannual", due), next_due_after("2y", due));
    assert_eq!(next_due_after("3wks", due), next_due_after("3w", due));
    assert_eq!(next_due_after("2mo", due), next_due_after("2m", due));
    assert_eq!(next_due_after("1qtr", due), next_due_after("3m", due));
    assert_eq!(next_due_after("2yrs", due), next_due_after("2y", due));
    assert!(is_valid_recur("weekdays"));
    assert!(!is_valid_recur("9hrs"));
}

#[test]
fn recur_weekdays_skips_weekend() {
    let friday = Local.with_ymd_and_hms(2026, 7, 17, 12, 0, 0).unwrap().timestamp();
    let next = next_due_after("weekdays", friday).unwrap();
    let next_local = Local.timestamp_opt(next, 0).unwrap();
    assert_eq!(next_local.weekday(), Weekday::Mon);
    assert_eq!(next - friday, 3 * 24 * 3600);
    let tuesday = Local.with_ymd_and_hms(2026, 7, 14, 12, 0, 0).unwrap().timestamp();
    assert_eq!(next_due_after("weekdays", tuesday).unwrap() - tuesday, 24 * 3600);
}

#[test]
fn recur_parse_counts_and_units() {
    assert_eq!(parse_recur(" Weekly "), Some((1, 'w')));
    assert_eq!(parse_recur("quarterly"), Some((1, 'q')));
    assert_eq!(parse_recur("12months"), Some((12, 'm')));
    assert_eq!(parse_recur("4294967295d"), Some((4294967295, 'd')));
    assert_eq!(parse_recur("4294967296d"), None);
    assert_eq!(parse_recur("3"), None);
    assert_eq!(parse_recur("d"), None);
    assert_eq!(parse_recur("3hrs"), None);
}

#[test]
fn recur_days_and_weeks_are_whole_days() {
    let due = 1_800_000_000;
    assert_eq!(next_due_after("daily", due), Some(due + 86_400));
    assert_eq!(next_due_after("3d", due), Some(due + 3 * 86_400));
    assert_eq!(next_due_after("2w", due), Some(due + 14 * 86_400));
    assert_eq!(next_due_after("biweekly", due), Some(due + 14 * 86_400));
    let next = next_due_after("weekdays", due).unwrap();
    assert_eq!((next - due) % 86_400, 0);
    assert!(next - due >= 86_400 && next - due <= 7 * 86_400);
    assert_eq!(parse_due_date("now", due), Some(due));
    assert_eq!(parse_due_date("someday", due), Some(253_402_124_400));
}

#[test]
fn inputs_that_cannot_be_read_are_flagged() {
    assert!(due_panics("+5ä"));
    assert!(due_panics("+200000000000d"));
    assert!(!due_panics("+3d"));
    assert!(!due_panics("tomorrow"));
    assert!(recur_panics("2000000000q"));
    assert!(recur_panics("2147483647y"));
    assert!(!recur_panics("quarterly"));
    assert!(!recur_panics("kaputt"));
}

#[test]
fn weekdays_always_find_a_workday_within_a_week() {
    for k in 0..14i64 {
        let due = 1_700_000_000 + k * 86_400;
        let next = next_due_after("weekdays", due).unwrap();
        assert_eq!((next - due) % 86_400, 0);
        assert!(next - due >= 86_400 && next - due <= 7 * 86_400);
    }
}

#[test]
fn huge_year_steps_give_none_without_panicking() {
    assert!(!recur_panics("2147200000y"));
    assert!(recur_panics("2147300000y"));
    assert_eq!(next_due_after("2147200000y", 1_700_000_000), None);
}

#[test]
fn month_quarter_and_year_steps_move_forward() {
    for due in [1_700_000_000i64, 1_709_164_800, 1_735_603_200] {
        for recur in ["monthly", "quarterly", "3m", "yearly", "2y"] {
            assert!(next_due_after(recur, due).unwrap() > due);
        }
    }
}

#[test]
fn due_days_end_at_their_last_second() {
    let now = 1_800_000_000;
    let today = parse_due_date("today", now).unwrap();
    let tomorrow = parse_due_date("tomorrow", now).unwrap();
    assert!(today >= now);
    assert!(tomorrow - today >= 82_800 && tomorrow - today <= 90_000);
    let start = parse_due_date("som", now).unwrap();
    assert!(start > now);
}

#[test]
fn quarter_steps_are_three_months() {
    for due in [1_700_000_000i64, 1_709_164_800, 1_735_603_200] {
        let q = next_due_after("quarterly", due).unwrap() - due;
        let m = next_due_after("monthly", due).unwrap() - due;
        assert!(q >= 84 * 86_400 - 2 * 86_400 && q <= 93 * 86_400 + 2 * 86_400);
        assert!(m >= 28 * 86_400 - 2 * 86_400 && m <= 31 * 86_400 + 2 * 86_400);
        assert_eq!(next_due_after("3m", due), next_due_after("quarterly", due));
    }
}

#[test]
fn a_wrapped_year_count_steps_back() {
    let due = 1_700_000_000;
    let back = next_due_after("4294967295y", due).unwrap();
    assert!(back < due);
    assert!(next_due_after("1y", due).unwrap() > due);
}

#[test]
fn checked_entry_points_refuse_what_would_overflow() {
    assert_eq!(try_next_due_after("2147483647y", 1_700_000_000), None);
    assert_eq!(try_next_due_after("2d", 1_700_000_000), Some(Some(1_700_000_000 + 2 * 86_400)));
    assert_eq!(try_next_due_after("kaputt", 1_700_000_000), Some(None));
    assert_eq!(try_is_valid_recur("weekdays"), Some(true));
    assert_eq!(try_is_valid_recur("2147483647y"), None);
    assert_eq!(try_parse_due_date("now", 1_700_000_000), Some(Some(1_700_000_000)));
    assert_eq!(try_parse_due_date("quatsch", 1_700_000_000), Some(None));
}

#[test]
fn checked_due_reading_refuses_overflowing_offsets() {
    assert_eq!(try_parse_due_date("+200000000000d", 1_700_000_000), None);
}

#[test]
fn recurrence_synonyms_read_alike() {
    for (a, b) in [
        ("biweekly", "2w"),
        ("fortnight", "2w"),
        ("quarterly", "1q"),
        ("semiannual", "6m"),
        ("annual", "yearly"),
        ("biannual", "2y"),
        ("3wks", "3w"),
        ("2mo", "2m"),
        ("1qtr", "1q"),
        ("2yrs", "2y"),
    ] {
        assert_eq!(parse_recur(a), parse_recur(b));
    }
}

#[test]
fn month_and_year_steps_keep_the_local_day_and_time() {
    let due = Local.with_ymd_and_hms(2025, 1, 31, 12, 0, 0).single().unwrap().timestamp();
    let next = Local.timestamp_opt(next_due_after("monthly", due).unwrap(), 0).single().unwrap();
    assert_eq!((next.year(), next.month(), next.day()), (2025, 2, 28));
    let leap = Local.with_ymd_and_hms(2024, 2, 29, 9, 30, 0).single().unwrap().timestamp();
    let next = Local.timestamp_opt(next_due_after("yearly", leap).unwrap(), 0).single().unwrap();
    assert_eq!((next.year(), next.month(), next.day()), (2025, 2, 28));
    let next = Local.timestamp_opt(next_due_after("4y", leap).unwrap(), 0).single().unwrap();
    assert_eq!((next.year(), next.month(), next.day()), (2028, 2, 29));
}
