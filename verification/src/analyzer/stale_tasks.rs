//! Stale tasks: open tasks in daily and weekly notes rescheduled long ago or
//! overdue.
use vstd::prelude::*;
use chrono::{Datelike, NaiveDate};
use crate::analyzer::{make_finding, Analyzer};
use crate::models::{Finding, FindingCategory, FindingV, Note, NoteKind, NoteV, Severity, Task, TaskState, TaskV};
use crate::parser::NoteStore;
use crate::text::{chars_of, chars_of_string, concat, decimal, decimal_of, truncate_bytes, truncated_bytes};

verus! {

pub struct StaleTaskAnalyzer;

/// Tasks older or more overdue than this many days are stale.
pub const STALE_DAYS: i64 = 14;

/// The name of the day number (`Datelike::num_days_from_ce`) of the date
/// chrono reads from a text with the format `%Y-%m-%d`; `None` when chrono
/// refuses the text.
pub uninterp spec fn iso_day(s: Seq<char>) -> Option<i32>;

/// Parses a date with `NaiveDate::parse_from_str(s, "%Y-%m-%d")` and hands
/// back its day number. The result is a function of the text alone and is
/// named `iso_day`; nothing more is claimed of it.
#[verifier::external_body]
fn parse_iso_day(s: &str) -> (r: Option<i32>)
    ensures
        r == iso_day(s@),
{
    NaiveDate::parse_from_str(s, "%Y-%m-%d").ok().map(|d| d.num_days_from_ce())
}

/// How many days ago `date` was, if chrono reads it.
pub open spec fn days_since(date: Option<Seq<char>>, today: i32) -> Option<int> {
    match date {
        Some(d) => match iso_day(d) {
            Some(n) => Some(today - n),
            None => None,
        },
        None => None,
    }
}

pub open spec fn severity_for(days: int) -> Severity {
    if days > 30 {
        Severity::Warning
    } else {
        Severity::Info
    }
}

/// How many days ago `date` was, when that is more than the stale limit.
pub open spec fn stale_days(date: Option<Seq<char>>, today: i32) -> Option<int> {
    match days_since(date, today) {
        Some(x) => if x > STALE_DAYS {
            Some(x)
        } else {
            None
        },
        None => None,
    }
}

/// The finding for an open task, if its rescheduled-from date is stale, or
/// else its scheduled date is overdue.
pub open spec fn stale_of(n: NoteV, t: TaskV, today: i32) -> Option<FindingV> {
    if t.state != TaskState::Open {
        None
    } else {
        match stale_days(t.rescheduled_from, today) {
            Some(age) => Some(
                FindingV {
                    severity: severity_for(age),
                    category: FindingCategory::StaleTask,
                    file_path: n.relative_path,
                    description: "Task rescheduled from "@ + t.rescheduled_from->0 + " ("@ + decimal(age as nat)
                        + " days ago): "@ + truncated_bytes(t.text, 80),
                    suggestion: Some("Consider completing, cancelling, or moving to a project note"@),
                    line_number: Some(t.line_number),
                    context: Some(t.text),
                    is_folder: false,
                },
            ),
            None => match stale_days(t.scheduled_to, today) {
                Some(overdue) => Some(
                    FindingV {
                        severity: severity_for(overdue),
                        category: FindingCategory::StaleTask,
                        file_path: n.relative_path,
                        description: "Task scheduled for "@ + t.scheduled_to->0 + " is "@ + decimal(overdue as nat)
                            + " days overdue: "@ + truncated_bytes(t.text, 80),
                        suggestion: Some("Reschedule, complete, or cancel this overdue task"@),
                        line_number: Some(t.line_number),
                        context: Some(t.text),
                        is_folder: false,
                    },
                ),
                None => None,
            },
        }
    }
}

pub open spec fn stale_in(n: NoteV, ts: Seq<TaskV>, today: i32) -> Seq<FindingV>
    decreases ts.len(),
{
    if ts.len() == 0 {
        Seq::empty()
    } else {
        match stale_of(n, ts.last(), today) {
            Some(f) => stale_in(n, ts.drop_last(), today).push(f),
            None => stale_in(n, ts.drop_last(), today),
        }
    }
}

/// The stale-task findings of the daily and weekly notes, on day `today`.
pub open spec fn stale_task_findings(nv: Seq<NoteV>, today: i32) -> Seq<FindingV>
    decreases nv.len(),
{
    if nv.len() == 0 {
        Seq::empty()
    } else if nv.last().kind == NoteKind::Daily || nv.last().kind == NoteKind::Weekly {
        stale_task_findings(nv.drop_last(), today) + stale_in(nv.last(), nv.last().tasks, today)
    } else {
        stale_task_findings(nv.drop_last(), today)
    }
}

fn days_since_exec(date: &Option<String>, today: i32) -> (r: Option<i64>)
    ensures
        match r {
            Some(x) => days_since(date.deep_view(), today) == Some(x as int),
            None => days_since(date.deep_view(), today) is None,
        },
{
    match date {
        Some(d) => match parse_iso_day(d.as_str()) {
            Some(n) => Some(today as i64 - n as i64),
            None => None,
        },
        None => None,
    }
}

fn stale_check(note: &Note, task: &Task, today: i32) -> (r: Option<Finding>)
    ensures
        r.deep_view() == stale_of(note.deep_view(), task.deep_view(), today),
{
    if task.state != TaskState::Open {
        return None;
    }
    let text = chars_of_string(&task.text);
    match days_since_exec(&task.rescheduled_from, today) {
        Some(age) => {
            if age > STALE_DAYS {
                let from = chars_of_string(task.rescheduled_from.as_ref().unwrap());
                assert(age <= 0xffff_ffff);
                let desc = concat(
                    &concat(&concat(&chars_of("Task rescheduled from "), &from), &chars_of(" (")),
                    &concat(&concat(&decimal_of(age as usize), &chars_of(" days ago): ")), &truncate_bytes(&text, 80)),
                );
                let mut f = make_finding(
                    if age > 30 { Severity::Warning } else { Severity::Info },
                    FindingCategory::StaleTask,
                    &chars_of_string(&note.relative_path),
                    &desc,
                    Some(chars_of("Consider completing, cancelling, or moving to a project note")),
                    Some(text),
                    false,
                );
                f.line_number = Some(task.line_number);
                assert(desc@ =~= stale_of(note.deep_view(), task.deep_view(), today)->0.description);
                return Some(f);
            }
        },
        None => {},
    }
    match days_since_exec(&task.scheduled_to, today) {
        Some(overdue) => {
            if overdue > STALE_DAYS {
                let to = chars_of_string(task.scheduled_to.as_ref().unwrap());
                assert(overdue <= 0xffff_ffff);
                let desc = concat(
                    &concat(&concat(&chars_of("Task scheduled for "), &to), &chars_of(" is ")),
                    &concat(&concat(&decimal_of(overdue as usize), &chars_of(" days overdue: ")), &truncate_bytes(&text, 80)),
                );
                let mut f = make_finding(
                    if overdue > 30 { Severity::Warning } else { Severity::Info },
                    FindingCategory::StaleTask,
                    &chars_of_string(&note.relative_path),
                    &desc,
                    Some(chars_of("Reschedule, complete, or cancel this overdue task")),
                    Some(text),
                    false,
                );
                f.line_number = Some(task.line_number);
                assert(desc@ =~= stale_of(note.deep_view(), task.deep_view(), today)->0.description);
                return Some(f);
            }
        },
        None => {},
    }
    None
}

/// The stale-task findings on day `today` (a `num_days_from_ce` day
/// number): open tasks of daily and weekly notes whose rescheduled-from
/// date is more than 14 days back, or else whose scheduled date is more
/// than 14 days overdue; a warning past 30 days.
pub fn find_stale_tasks(store: &NoteStore, today: i32) -> (r: Vec<Finding>)
    ensures
        r.deep_view() == stale_task_findings(store.notes.deep_view(), today),
{
    let ghost nv = store.notes.deep_view();
    let mut findings: Vec<Finding> = Vec::new();
    let mut i: usize = 0;
    while i < store.notes.len()
        invariant
            i <= store.notes.len(),
            nv == store.notes.deep_view(),
            findings.deep_view() == stale_task_findings(nv.take(i as int), today),
        decreases store.notes.len() - i,
    {
        proof {
            assert(nv.take(i + 1).drop_last() =~= nv.take(i as int));
            assert(nv[i as int] == store.notes[i as int].deep_view());
        }
        let note = &store.notes[i];
        if note.kind == NoteKind::Daily || note.kind == NoteKind::Weekly {
            let ghost base = findings.deep_view();
            let ghost tv = note.tasks.deep_view();
            let mut t: usize = 0;
            while t < note.tasks.len()
                invariant
                    t <= note.tasks.len(),
                    tv == note.tasks.deep_view(),
                    findings.deep_view() == base + stale_in(note.deep_view(), tv.take(t as int), today),
                decreases note.tasks.len() - t,
            {
                proof {
                    assert(tv.take(t + 1).drop_last() =~= tv.take(t as int));
                    assert(tv[t as int] == note.tasks[t as int].deep_view());
                }
                match stale_check(note, &note.tasks[t], today) {
                    Some(f) => {
                        let ghost f0 = findings.deep_view();
                        findings.push(f);
                        assert(findings.deep_view() =~= f0.push(f.deep_view()));
                    },
                    None => {},
                }
                t += 1;
            }
            assert(tv.take(t as int) =~= tv);
        }
        i += 1;
    }
    assert(nv.take(i as int) =~= nv);
    findings
}

/// The findings of the check on a day that is the local date of a clock
/// reading: within a day of the UTC day of some instant a signed 64-bit
/// count of nanoseconds from the epoch can hold (1677 to 2262).
pub open spec fn stale_task_result(nv: Seq<NoteV>, r: Seq<FindingV>) -> bool {
    exists|t: i64, today: i32|
        #![trigger crate::clock::utc_day_of_nanos(t), stale_task_findings(nv, today)]
        crate::clock::utc_day_of_nanos(t) - 1 <= today <= crate::clock::utc_day_of_nanos(t) + 1
            && r == stale_task_findings(nv, today)
}

impl Analyzer for StaleTaskAnalyzer {
    /// The stale-task findings as of today's local date.
    fn analyze(&self, store: &NoteStore) -> (r: Vec<Finding>)
        ensures
            stale_task_result(store.notes.deep_view(), r.deep_view()),
            exists|today: i32| #[trigger] all_stale_sourced(store.notes.deep_view(), today, r.deep_view()),
    {
        let today = crate::clock::today_day();
        let r = find_stale_tasks(store, today);
        assert(r.deep_view() == stale_task_findings(store.notes.deep_view(), today));
        proof {
            let nv = store.notes.deep_view();
            lemma_stale_findings_law(nv, today);
            assert(r.deep_view().len() == r.len());
            assert forall|k: int| 0 <= k < r.deep_view().len() implies #[trigger] stale_sourced(nv, today, r.deep_view()[k]) by {
                assert(r.deep_view()[k] == stale_task_findings(nv, today)[k]);
            }
            assert(all_stale_sourced(nv, today, r.deep_view()));
        }
        r
    }
}

/// Whether finding `f` comes from task `t` of note `n`: an open task of a
/// daily or weekly note, on the finding's file and line, whose
/// rescheduled-from date or scheduled date lies more than 14 days before
/// `today`.
pub open spec fn stale_source(nv: Seq<NoteV>, today: i32, f: FindingV, n: int, t: int) -> bool {
    &&& 0 <= n < nv.len()
    &&& (nv[n].kind == NoteKind::Daily || nv[n].kind == NoteKind::Weekly)
    &&& 0 <= t < nv[n].tasks.len()
    &&& nv[n].tasks[t].state == TaskState::Open
    &&& f.category == FindingCategory::StaleTask
    &&& f.file_path == nv[n].relative_path
    &&& f.line_number == Some(nv[n].tasks[t].line_number)
    &&& ((days_since(nv[n].tasks[t].rescheduled_from, today) matches Some(a) && a > 14)
        || (days_since(nv[n].tasks[t].scheduled_to, today) matches Some(a) && a > 14))
}

proof fn lemma_stale_in_source(nv: Seq<NoteV>, n: int, ts: Seq<TaskV>, today: i32, k: int)
    requires
        0 <= n < nv.len(),
        nv[n].kind == NoteKind::Daily || nv[n].kind == NoteKind::Weekly,
        ts.len() <= nv[n].tasks.len(),
        ts == nv[n].tasks.take(ts.len() as int),
        0 <= k < stale_in(nv[n], ts, today).len(),
    ensures
        exists|t: int| #[trigger] stale_source(nv, today, stale_in(nv[n], ts, today)[k], n, t),
    decreases ts.len(),
{
    let rest = stale_in(nv[n], ts.drop_last(), today);
    assert(ts.drop_last() == nv[n].tasks.take(ts.len() - 1));
    if k < rest.len() {
        if stale_of(nv[n], ts.last(), today) is Some {
            assert(stale_in(nv[n], ts, today)[k] == rest[k]);
        }
        lemma_stale_in_source(nv, n, ts.drop_last(), today, k);
    } else {
        let t = ts.len() - 1;
        assert(ts.last() == nv[n].tasks[t]);
        assert(stale_source(nv, today, stale_in(nv[n], ts, today)[k], n, t));
    }
}

proof fn lemma_stale_findings_source(nv: Seq<NoteV>, today: i32, k: int)
    requires
        0 <= k < stale_task_findings(nv, today).len(),
    ensures
        exists|n: int, t: int| #[trigger] stale_source(nv, today, stale_task_findings(nv, today)[k], n, t),
    decreases nv.len(),
{
    let d = nv.drop_last();
    let rest = stale_task_findings(d, today);
    if k < rest.len() {
        assert(stale_task_findings(nv, today)[k] == rest[k]);
        lemma_stale_findings_source(d, today, k);
        let (n, t) = choose|n: int, t: int| #[trigger] stale_source(d, today, rest[k], n, t);
        assert(nv[n] == d[n]);
        assert(stale_source(nv, today, stale_task_findings(nv, today)[k], n, t));
    } else {
        let n = nv.len() - 1;
        assert(nv.last().tasks == nv[n].tasks.take(nv[n].tasks.len() as int));
        lemma_stale_in_source(nv, n, nv.last().tasks, today, k - rest.len());
        let t = choose|t: int| #[trigger] stale_source(nv, today, stale_in(nv[n], nv.last().tasks, today)[k - rest.len()], n, t);
        assert(stale_source(nv, today, stale_task_findings(nv, today)[k], n, t));
    }
}

/// Whether finding `f` comes from some task of some note, as
/// `stale_source` says.
pub open spec fn stale_sourced(nv: Seq<NoteV>, today: i32, f: FindingV) -> bool {
    exists|n: int, t: int| #[trigger] stale_source(nv, today, f, n, t)
}

/// Whether every finding of `fs` comes from a task, as `stale_source` says.
pub open spec fn all_stale_sourced(nv: Seq<NoteV>, today: i32, fs: Seq<FindingV>) -> bool {
    forall|k: int| 0 <= k < fs.len() ==> #[trigger] stale_sourced(nv, today, fs[k])
}

/// Every stale-task finding comes from an open task of a daily or weekly
/// note: the finding names that note's path and the task's line, and the
/// task was rescheduled from, or scheduled for, a day more than 14 days
/// before today. Done, cancelled and scheduled (`[>]`) tasks never yield one.
pub proof fn lemma_stale_findings_law(nv: Seq<NoteV>, today: i32)
    ensures
        forall|k: int| 0 <= k < stale_task_findings(nv, today).len() ==> #[trigger] stale_sourced(
            nv,
            today,
            stale_task_findings(nv, today)[k],
        ),
{
    assert forall|k: int| 0 <= k < stale_task_findings(nv, today).len() implies #[trigger] stale_sourced(
        nv,
        today,
        stale_task_findings(nv, today)[k],
    ) by {
        lemma_stale_findings_source(nv, today, k);
    }
}

} // verus!
