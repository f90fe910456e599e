use chrono::{Datelike, NaiveDate};
use noteplan_organizer::models::NoteKind;
use noteplan_organizer::parser::period::{calendar_period, daily_within_window};

fn day(y: i32, m: u32, d: u32) -> i32 {
    NaiveDate::from_ymd_opt(y, m, d).unwrap().num_days_from_ce()
}

#[test]
fn test_calendar_period_formats() {
    assert_eq!(
        calendar_period(&NoteKind::Daily, "Calendar/20260702.md").as_deref(),
        Some("2026-07-02")
    );
    assert_eq!(
        calendar_period(&NoteKind::Weekly, "Calendar/2026-W27.md").as_deref(),
        Some("2026-W27")
    );
    assert_eq!(
        calendar_period(&NoteKind::Monthly, "Calendar/2026-07.md").as_deref(),
        Some("2026-07")
    );
    assert_eq!(
        calendar_period(&NoteKind::Quarterly, "Calendar/2026-Q3.md").as_deref(),
        Some("2026-Q3")
    );
    assert_eq!(
        calendar_period(&NoteKind::Yearly, "Calendar/2026.md").as_deref(),
        Some("2026")
    );
    assert_eq!(calendar_period(&NoteKind::Regular, "Notes/x.md"), None);
    assert_eq!(calendar_period(&NoteKind::Daily, "Calendar/garbage.md"), None);
}

#[test]
fn test_daily_window() {
    let today = day(2026, 7, 5);
    assert!(daily_within_window("Calendar/20260705.md", today));
    assert!(daily_within_window("Calendar/20260605.md", today)); // exactly 30 days
    assert!(!daily_within_window("Calendar/20260604.md", today)); // 31 days
    assert!(daily_within_window("Calendar/20260801.md", today)); // future: in-window
    assert!(!daily_within_window("Calendar/20240101.md", today));
    assert!(!daily_within_window("Calendar/garbage.md", today));
}
