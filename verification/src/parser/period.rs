//! Calendar periods of calendar notes and the recency window for daily notes.
use vstd::prelude::*;
use chrono::{Datelike, NaiveDate};
use crate::models::NoteKind;
use crate::parser::markdown::{file_stem, file_stem_chars};
use crate::text::{chars_of, string_of};

verus! {

/// Recency window, in days, for harvesting open tasks from daily notes.
pub const DAILY_WINDOW_DAYS: i64 = 30;

/// The name of what chrono gives for a daily-note file stem parsed with the
/// format `%Y%m%d`: the date's day number (`Datelike::num_days_from_ce`) and
/// its `%Y-%m-%d` rendering; `None` when chrono refuses the stem.
pub uninterp spec fn daily_stem_date(stem: Seq<char>) -> Option<(i32, Seq<char>)>;

/// Parses a daily-note stem with `NaiveDate::parse_from_str(stem, "%Y%m%d")`
/// and hands back the day number and the `%Y-%m-%d` rendering of the date.
/// The result is a function of the stem alone and is named
/// `daily_stem_date`; nothing more is claimed of it.
#[verifier::external_body]
fn parse_daily_stem(stem: &str) -> (r: Option<(i32, String)>)
    ensures
        r.deep_view() == daily_stem_date(stem@),
{
    match NaiveDate::parse_from_str(stem, "%Y%m%d") {
        Ok(d) => Some((d.num_days_from_ce(), d.format("%Y-%m-%d").to_string())),
        Err(_) => None,
    }
}

/// The display period of a calendar note: a daily stem `YYYYMMDD` rendered
/// `YYYY-MM-DD`; the other calendar stems as they are; `None` for other
/// kinds, a missing stem, or a daily stem chrono refuses.
pub open spec fn period_of(kind: NoteKind, relative_path: Seq<char>) -> Option<Seq<char>> {
    let stem = file_stem(relative_path);
    if stem.len() == 0 {
        None
    } else {
        match kind {
            NoteKind::Daily => match daily_stem_date(stem) {
                Some((_, shown)) => Some(shown),
                None => None,
            },
            NoteKind::Weekly | NoteKind::Monthly | NoteKind::Quarterly | NoteKind::Yearly => Some(stem),
            _ => None,
        }
    }
}

pub fn calendar_period(kind: &NoteKind, relative_path: &str) -> (r: Option<String>)
    ensures
        r.deep_view() == period_of(*kind, relative_path@),
{
    let stem = file_stem_chars(&chars_of(relative_path));
    if stem.len() == 0 {
        return None;
    }
    match kind {
        NoteKind::Daily => {
            let s = string_of(&stem);
            match parse_daily_stem(s.as_str()) {
                Some((_, shown)) => Some(shown),
                None => None,
            }
        },
        NoteKind::Weekly | NoteKind::Monthly | NoteKind::Quarterly | NoteKind::Yearly => Some(
            string_of(&stem),
        ),
        _ => None,
    }
}

/// Whether a daily note lies inside the window ending at day number
/// `today`: at most `DAILY_WINDOW_DAYS` days old (future dates included); an
/// unparseable stem is outside.
pub open spec fn within_window(relative_path: Seq<char>, today: i32) -> bool {
    let stem = file_stem(relative_path);
    stem.len() > 0 && match daily_stem_date(stem) {
        Some((d, _)) => today - d <= 30,
        None => false,
    }
}

pub fn daily_within_window(relative_path: &str, today: i32) -> (b: bool)
    ensures
        b == within_window(relative_path@, today),
{
    let stem = file_stem_chars(&chars_of(relative_path));
    if stem.len() == 0 {
        return false;
    }
    let s = string_of(&stem);
    match parse_daily_stem(s.as_str()) {
        Some((d, _)) => (today as i64) - (d as i64) <= DAILY_WINDOW_DAYS,
        None => false,
    }
}

} // verus!
