//! Stale areas: top-level areas whose notes have not changed in months.
use vstd::prelude::*;
use crate::analyzer::{is_special_folder, make_finding, special_folder, Analyzer};
use crate::models::{Finding, FindingCategory, FindingV, NoteKind, NoteV, Severity};
use crate::parser::NoteStore;
use crate::text::{chars_of, chars_of_string, concat, contains, contains_str, decimal, decimal_of_u128, split_on, split_vec, string_of, vec_eq};

verus! {

/// The stale-area check. The notes' modification times are read from disk
/// by the caller: `modified[i]` is note `i`'s, in nanoseconds since the Unix
/// epoch, or `None` when it could not be read.
pub struct StaleAreaAnalyzer {
    pub modified: Vec<Option<i64>>,
}

/// Areas quiet for more days than this are reported.
pub const QUIET_DAYS: u64 = 90;
/// Areas quiet for more days than this are reported as warnings.
pub const STALE_DAYS: u64 = 180;

pub const NANOS_PER_DAY: i64 = 86_400_000_000_000;

/// The area a regular note counts for: the first folder below `Notes/`,
/// unless the note sits directly in `Notes/` or the area is an archive.
pub open spec fn area_of(n: NoteV) -> Option<Seq<char>> {
    let parts = split_on(n.relative_path, '/');
    if n.kind == NoteKind::Regular && !special_folder(n.relative_path) && parts.len() >= 3
        && !contains(parts[1], "Archive"@) {
        Some(parts[1])
    } else {
        None
    }
}

/// The modification time of note `i`, if known.
pub open spec fn modified_at(mods: Seq<Option<i64>>, i: int) -> Option<i64> {
    if 0 <= i < mods.len() {
        mods[i]
    } else {
        None
    }
}

/// Where area `a` is in the activity list, if it is there.
pub open spec fn find_area(act: Seq<(Seq<char>, i64)>, a: Seq<char>) -> Option<int>
    decreases act.len(),
{
    if act.len() == 0 {
        None
    } else if act.last().0 == a {
        Some(act.len() - 1)
    } else {
        find_area(act.drop_last(), a)
    }
}

/// One note's modification folded into the activity list: an area's latest
/// time starts at the epoch and rises to each later modification.
pub open spec fn fold_activity(act: Seq<(Seq<char>, i64)>, a: Seq<char>, m: i64) -> Seq<(Seq<char>, i64)> {
    match find_area(act, a) {
        Some(k) => if m > act[k].1 {
            act.update(k, (a, m))
        } else {
            act
        },
        None => act.push((a, if m > 0 { m } else { 0 })),
    }
}

/// Each area with the latest modification time of its notes, in order of
/// first appearance.
pub open spec fn activity(nv: Seq<NoteV>, mods: Seq<Option<i64>>) -> Seq<(Seq<char>, i64)>
    decreases nv.len(),
{
    if nv.len() == 0 {
        Seq::empty()
    } else {
        let before = activity(nv.drop_last(), mods);
        match (area_of(nv.last()), modified_at(mods, nv.len() - 1)) {
            (Some(a), Some(m)) => fold_activity(before, a, m),
            _ => before,
        }
    }
}

/// The finding for an area last modified at `latest`, seen at `now`, with
/// the date label `label`.
pub open spec fn stale_area_of(area: Seq<char>, latest: i64, now: i64, label: Seq<char>) -> Option<FindingV> {
    if now < latest {
        None
    } else {
        let days = (now - latest) / (NANOS_PER_DAY as int);
        let f = |sev: Severity, sugg: Seq<char>|
            FindingV {
                severity: sev,
                category: FindingCategory::StaleArea,
                file_path: "Notes/"@ + area,
                description: "Area '"@ + area + "' has had no modifications in "@ + decimal(days as nat) + " days"@,
                suggestion: Some(sugg),
                line_number: None,
                context: Some("Last modified: "@ + label),
                is_folder: true,
            };
        if days > STALE_DAYS {
            Some(
                f(
                    Severity::Warning,
                    "Consider archiving this area if it's no longer active, or review whether its notes are still relevant."@,
                ),
            )
        } else if days > QUIET_DAYS {
            Some(
                f(
                    Severity::Info,
                    "This area has been quiet. Check if there are notes that should be updated or archived."@,
                ),
            )
        } else {
            None
        }
    }
}

pub open spec fn stale_area_findings(act: Seq<(Seq<char>, i64)>, now: i64, labels: Seq<Seq<char>>) -> Seq<FindingV>
    decreases act.len(),
{
    if act.len() == 0 {
        Seq::empty()
    } else {
        let rest = stale_area_findings(act.drop_last(), now, labels);
        match stale_area_of(act.last().0, act.last().1, now, labels[act.len() - 1]) {
            Some(f) => rest.push(f),
            None => rest,
        }
    }
}

fn area_of_exec(rp: &Vec<char>) -> (r: Option<Vec<char>>)
    ensures
        match r {
            Some(a) => split_on(rp@, '/').len() >= 3 && !contains(split_on(rp@, '/')[1], "Archive"@)
                && a@ == split_on(rp@, '/')[1],
            None => !(split_on(rp@, '/').len() >= 3 && !contains(split_on(rp@, '/')[1], "Archive"@)),
        },
{
    let parts = split_vec(rp, '/');
    if parts.len() < 3 {
        return None;
    }
    proof {
        assert(parts.deep_view()[1] =~= parts[1]@);
    }
    if contains_str(&parts[1], "Archive") {
        return None;
    }
    Some(parts[1].clone())
}

/// Each area with the latest modification time of its notes, in order of
/// first appearance; notes without a known time do not count.
pub fn area_activity(store: &NoteStore, modified: &Vec<Option<i64>>) -> (r: Vec<(String, i64)>)
    ensures
        r.deep_view() == activity(store.notes.deep_view(), modified@),
{
    let ghost nv = store.notes.deep_view();
    let mut act: Vec<(String, i64)> = Vec::new();
    let mut i: usize = 0;
    while i < store.notes.len()
        invariant
            i <= store.notes.len(),
            nv == store.notes.deep_view(),
            act.deep_view() == activity(nv.take(i as int), modified@),
        decreases store.notes.len() - i,
    {
        proof {
            assert(nv.take(i + 1).drop_last() =~= nv.take(i as int));
            assert(nv[i as int] == store.notes[i as int].deep_view());
        }
        let note = &store.notes[i];
        let rp = chars_of_string(&note.relative_path);
        let m: Option<i64> = if i < modified.len() { modified[i] } else { None };
        if note.kind == NoteKind::Regular && !is_special_folder(&rp) {
            match (area_of_exec(&rp), m) {
                (Some(a), Some(m)) => {
                    let ghost a0 = act.deep_view();
                    assert(a0.take(act.len() as int) =~= a0);
                    let mut k: usize = 0;
                    let mut found = false;
                    while k < act.len()
                        invariant_except_break
                            k <= act.len(),
                            find_area(a0, a@) == find_area(a0.take(act.len() - k), a@),
                            !found,
                        invariant
                            a0 == act.deep_view(),
                        ensures
                            found ==> k < act.len() && find_area(a0, a@) == Some(act.len() - 1 - k),
                            !found ==> find_area(a0, a@) is None,
                        decreases act.len() - k,
                    {
                        let idx = act.len() - 1 - k;
                        proof {
                            assert(a0.take(act.len() - k) =~= a0.take(idx + 1));
                            assert(a0.take(idx + 1).drop_last() =~= a0.take(idx as int));
                            assert(a0[idx as int].0 == act[idx as int].0@);
                        }
                        if vec_eq(&chars_of_string(&act[idx].0), &a) {
                            found = true;
                            break;
                        }
                        k += 1;
                    }
                    if found {
                        let idx = act.len() - 1 - k;
                        if m > act[idx].1 {
                            act.set(idx, (string_of(&a), m));
                            assert(act.deep_view() =~= a0.update(idx as int, (a@, m)));
                        }
                    } else {
                        act.push((string_of(&a), if m > 0 { m } else { 0 }));
                        assert(act.deep_view() =~= a0.push((a@, if m > 0 { m } else { 0 })));
                    }
                },
                _ => {},
            }
        }
        i += 1;
    }
    assert(nv.take(i as int) =~= nv);
    act
}

/// The stale-area findings for the activity list at time `now`, with
/// `labels[i]` the date shown for area `i`'s latest modification. An area
/// quiet for more than 180 whole days gives a warning; for more than 90, a
/// note. An area modified after `now` gives nothing.
pub fn find_stale_areas(act: &Vec<(String, i64)>, now: i64, labels: &Vec<String>) -> (r: Vec<Finding>)
    requires
        labels.len() == act.len(),
    ensures
        r.deep_view() == stale_area_findings(act.deep_view(), now, labels.deep_view()),
{
    let ghost av = act.deep_view();
    let ghost lv = labels.deep_view();
    let mut findings: Vec<Finding> = Vec::new();
    let mut i: usize = 0;
    while i < act.len()
        invariant
            i <= act.len() == labels.len(),
            av == act.deep_view(),
            lv == labels.deep_view(),
            findings.deep_view() == stale_area_findings(av.take(i as int), now, lv),
        decreases act.len() - i,
    {
        proof {
            assert(av.take(i + 1).drop_last() =~= av.take(i as int));
            assert(av[i as int] == (act[i as int].0@, act[i as int].1));
            assert(lv[i as int] == labels[i as int]@);
        }
        let latest = act[i].1;
        if now >= latest {
            let diff: i128 = now as i128 - latest as i128;
            let days: i128 = diff / (NANOS_PER_DAY as i128);
            if days > STALE_DAYS as i128 || days > QUIET_DAYS as i128 {
                let area = chars_of_string(&act[i].0);
                let shown = decimal_of_u128(days as u128);
                let desc = concat(
                    &concat(&concat(&chars_of("Area '"), &area), &chars_of("' has had no modifications in ")),
                    &concat(&shown, &chars_of(" days")),
                );
                let ctx = concat(&chars_of("Last modified: "), &chars_of_string(&labels[i]));
                let warn = days > STALE_DAYS as i128;
                let f = make_finding(
                    if warn { Severity::Warning } else { Severity::Info },
                    FindingCategory::StaleArea,
                    &concat(&chars_of("Notes/"), &area),
                    &desc,
                    Some(if warn {
                        chars_of("Consider archiving this area if it's no longer active, or review whether its notes are still relevant.")
                    } else {
                        chars_of("This area has been quiet. Check if there are notes that should be updated or archived.")
                    }),
                    Some(ctx),
                    true,
                );
                let ghost f0 = findings.deep_view();
                proof {
                    let expect = stale_area_of(av[i as int].0, av[i as int].1, now, lv[i as int]);
                    assert(desc@ =~= expect->0.description);
                    assert(ctx@ =~= expect->0.context->0);
                    assert(f.deep_view() == expect->0);
                }
                findings.push(f);
                assert(findings.deep_view() =~= f0.push(f.deep_view()));
            }
        }
        i += 1;
    }
    assert(av.take(i as int) =~= av);
    findings
}

/// The findings of a check at some time, each area's latest modification
/// shown as a `YYYY-MM-DD` date that is its local date (its UTC date or a
/// day either side).
pub open spec fn stale_area_result(nv: Seq<NoteV>, mods: Seq<Option<i64>>, r: Seq<FindingV>) -> bool {
    exists|now: i64, labels: Seq<Seq<char>>|
        labels.len() == activity(nv, mods).len()
            && (forall|k: int| 0 <= k < labels.len() ==> crate::clock::is_date_text(#[trigger] labels[k])
                && crate::clock::date_near(labels[k], activity(nv, mods)[k].1 as int / 1_000_000_000))
            && r == #[trigger] stale_area_findings(activity(nv, mods), now, labels)
}

impl Analyzer for StaleAreaAnalyzer {
    /// The stale-area findings as of now, each dated in the local time zone.
    fn analyze(&self, store: &NoteStore) -> (r: Vec<Finding>)
        ensures
            stale_area_result(store.notes.deep_view(), self.modified@, r.deep_view()),
    {
        let act = area_activity(store, &self.modified);
        let now = crate::clock::now_nanos();
        let mut labels: Vec<String> = Vec::new();
        let mut i: usize = 0;
        while i < act.len()
            invariant
                i <= act.len(),
                labels.len() == i,
                act.deep_view() == activity(store.notes.deep_view(), self.modified@),
                forall|k: int| 0 <= k < i ==> crate::clock::is_date_text(#[trigger] labels.deep_view()[k])
                    && crate::clock::date_near(labels.deep_view()[k], act.deep_view()[k].1 as int / 1_000_000_000),
            decreases act.len() - i,
        {
            let ghost l0 = labels.deep_view();
            assert(act.deep_view()[i as int].1 == act[i as int].1);
            let label = crate::clock::local_date_label(act[i].1);
            labels.push(label);
            assert(labels.deep_view() =~= l0.push(label@));
            i += 1;
        }
        let r = find_stale_areas(&act, now, &labels);
        assert(labels.deep_view().len() == act.deep_view().len());
        assert(r.deep_view() == stale_area_findings(activity(store.notes.deep_view(), self.modified@), now, labels.deep_view()));
        r
    }
}

} // verus!
