//! The scan report: the findings with their totals, tallied by category and
//! by severity.
use vstd::prelude::*;
use crate::models::{Finding, FindingCategory, FindingV, Severity};

verus! {

/// The key a category is tallied under: the name of its variant.
pub open spec fn category_key(c: FindingCategory) -> Seq<char> {
    match c {
        FindingCategory::IdConsistency => "IdConsistency"@,
        FindingCategory::UnfiledSlip => "UnfiledSlip"@,
        FindingCategory::HubCompleteness => "HubCompleteness"@,
        FindingCategory::BrokenLink => "BrokenLink"@,
        FindingCategory::OrphanedNote => "OrphanedNote"@,
        FindingCategory::Duplicate => "Duplicate"@,
        FindingCategory::StaleTask => "StaleTask"@,
        FindingCategory::TemplatePlaceholder => "TemplatePlaceholder"@,
        FindingCategory::AreaBalance => "AreaBalance"@,
        FindingCategory::DepthInconsistency => "DepthInconsistency"@,
        FindingCategory::CategorySprawl => "CategorySprawl"@,
        FindingCategory::EmptyStructure => "EmptyStructure"@,
        FindingCategory::MissingHub => "MissingHub"@,
        FindingCategory::StaleArea => "StaleArea"@,
        FindingCategory::CrossWiredId => "CrossWiredId"@,
        FindingCategory::NamingInconsistency => "NamingInconsistency"@,
        FindingCategory::StrayTaggedTask => "StrayTaggedTask"@,
    }
}

/// The key a severity is tallied under.
pub open spec fn severity_key(s: Severity) -> Seq<char> {
    match s {
        Severity::Info => "Info"@,
        Severity::Warning => "Warning"@,
        Severity::Error => "Error"@,
    }
}

fn category_key_exec(c: &FindingCategory) -> (r: &'static str)
    ensures
        r@ == category_key(*c),
{
    match c {
        FindingCategory::IdConsistency => "IdConsistency",
        FindingCategory::UnfiledSlip => "UnfiledSlip",
        FindingCategory::HubCompleteness => "HubCompleteness",
        FindingCategory::BrokenLink => "BrokenLink",
        FindingCategory::OrphanedNote => "OrphanedNote",
        FindingCategory::Duplicate => "Duplicate",
        FindingCategory::StaleTask => "StaleTask",
        FindingCategory::TemplatePlaceholder => "TemplatePlaceholder",
        FindingCategory::AreaBalance => "AreaBalance",
        FindingCategory::DepthInconsistency => "DepthInconsistency",
        FindingCategory::CategorySprawl => "CategorySprawl",
        FindingCategory::EmptyStructure => "EmptyStructure",
        FindingCategory::MissingHub => "MissingHub",
        FindingCategory::StaleArea => "StaleArea",
        FindingCategory::CrossWiredId => "CrossWiredId",
        FindingCategory::NamingInconsistency => "NamingInconsistency",
        FindingCategory::StrayTaggedTask => "StrayTaggedTask",
    }
}

fn severity_key_exec(s: &Severity) -> (r: &'static str)
    ensures
        r@ == severity_key(*s),
{
    match s {
        Severity::Info => "Info",
        Severity::Warning => "Warning",
        Severity::Error => "Error",
    }
}

/// Where key `k` stands in a tally, if it does.
pub open spec fn tally_pos(t: Seq<(Seq<char>, nat)>, k: Seq<char>) -> Option<int>
    decreases t.len(),
{
    if t.len() == 0 {
        None
    } else if t.last().0 == k {
        Some(t.len() - 1)
    } else {
        tally_pos(t.drop_last(), k)
    }
}

/// Each distinct key with the number of times it occurs, in the order of
/// first appearance.
pub open spec fn tally(keys: Seq<Seq<char>>) -> Seq<(Seq<char>, nat)>
    decreases keys.len(),
{
    if keys.len() == 0 {
        Seq::empty()
    } else {
        let t = tally(keys.drop_last());
        let k = keys.last();
        match tally_pos(t, k) {
            Some(p) => t.update(p, (k, t[p].1 + 1)),
            None => t.push((k, 1)),
        }
    }
}

pub open spec fn category_keys(fs: Seq<FindingV>) -> Seq<Seq<char>> {
    fs.map_values(|f: FindingV| category_key(f.category))
}

pub open spec fn severity_keys(fs: Seq<FindingV>) -> Seq<Seq<char>> {
    fs.map_values(|f: FindingV| severity_key(f.severity))
}

/// The sum of the counts of a tally.
pub open spec fn tally_total(t: Seq<(Seq<char>, nat)>) -> nat
    decreases t.len(),
{
    if t.len() == 0 {
        0
    } else {
        tally_total(t.drop_last()) + t.last().1
    }
}

pub open spec fn tally_view(v: Seq<(String, usize)>) -> Seq<(Seq<char>, nat)> {
    v.map_values(|e: (String, usize)| (e.0@, e.1 as nat))
}

/// Totals of a scan and its findings tallied by category and by severity,
/// each tally in the order in which its keys first occur among the
/// findings.
pub struct ReportStats {
    pub total_notes: usize,
    pub total_daily_notes: usize,
    pub total_weekly_notes: usize,
    pub total_findings: usize,
    pub findings_by_category: Vec<(String, usize)>,
    pub findings_by_severity: Vec<(String, usize)>,
}

/// The outcome of a scan.
pub struct Report {
    pub findings: Vec<Finding>,
    pub stats: ReportStats,
    pub scanned_at: String,
    pub noteplan_path: String,
}

proof fn lemma_tally_pos(t: Seq<(Seq<char>, nat)>, k: Seq<char>)
    ensures
        match tally_pos(t, k) {
            Some(p) => 0 <= p < t.len() && t[p].0 == k,
            None => forall|q: int| 0 <= q < t.len() ==> t[q].0 != k,
        },
    decreases t.len(),
{
    if t.len() > 0 && t.last().0 != k {
        lemma_tally_pos(t.drop_last(), k);
        if tally_pos(t, k) is None {
            assert forall|q: int| 0 <= q < t.len() implies t[q].0 != k by {
                if q < t.len() - 1 {
                    assert(t[q] == t.drop_last()[q]);
                }
            }
        }
    }
}

proof fn lemma_total_update(t: Seq<(Seq<char>, nat)>, p: int, e: (Seq<char>, nat))
    requires
        0 <= p < t.len(),
    ensures
        tally_total(t.update(p, e)) + t[p].1 == tally_total(t) + e.1,
    decreases t.len(),
{
    if p < t.len() - 1 {
        assert(t.update(p, e).drop_last() =~= t.drop_last().update(p, e));
        lemma_total_update(t.drop_last(), p, e);
    } else {
        assert(t.update(p, e).drop_last() =~= t.drop_last());
    }
}

/// Every key is counted once: the counts of a tally add up to the number of
/// keys.
pub proof fn lemma_tally_counts_every_key(keys: Seq<Seq<char>>)
    ensures
        tally_total(tally(keys)) == keys.len(),
    decreases keys.len(),
{
    if keys.len() > 0 {
        let t = tally(keys.drop_last());
        lemma_tally_counts_every_key(keys.drop_last());
        lemma_tally_pos(t, keys.last());
        match tally_pos(t, keys.last()) {
            Some(p) => {
                lemma_total_update(t, p, (keys.last(), t[p].1 + 1));
            },
            None => {
                assert(t.push((keys.last(), 1nat)).drop_last() =~= t);
            },
        }
    }
}

/// The tallies of a report add up: by category and by severity, the counts
/// sum to the number of findings.
pub proof fn lemma_report_tallies_add_up(fs: Seq<FindingV>)
    ensures
        tally_total(tally(category_keys(fs))) == fs.len(),
        tally_total(tally(severity_keys(fs))) == fs.len(),
{
    lemma_tally_counts_every_key(category_keys(fs));
    lemma_tally_counts_every_key(severity_keys(fs));
}

proof fn lemma_tally_bounded(keys: Seq<Seq<char>>)
    ensures
        forall|q: int| 0 <= q < tally(keys).len() ==> #[trigger] tally(keys)[q].1 <= keys.len(),
    decreases keys.len(),
{
    if keys.len() > 0 {
        let t = tally(keys.drop_last());
        lemma_tally_bounded(keys.drop_last());
        lemma_tally_pos(t, keys.last());
    }
}

/// Counts one more `key` in `t`.
fn bump(t: &mut Vec<(String, usize)>, key: &str, Ghost(keys): Ghost<Seq<Seq<char>>>)
    requires
        tally_view(old(t)@) == tally(keys),
        keys.len() < usize::MAX,
    ensures
        tally_view(final(t)@) == tally(keys.push(key@)),
{
    let ghost t0 = tally_view(t@);
    proof {
        assert(keys.push(key@).drop_last() =~= keys);
        lemma_tally_pos(t0, key@);
        lemma_tally_bounded(keys);
        assert(t0.take(t0.len() as int) =~= t0);
    }
    let kv = crate::text::chars_of(key);
    let mut k: usize = t.len();
    let mut found = false;
    while k > 0
        invariant_except_break
            tally_pos(t0, key@) == tally_pos(t0.take(k as int), key@),
            !found,
        invariant
            k <= t.len(),
            t0 == tally_view(t@),
            kv@ == key@,
        ensures
            found ==> 0 < k <= t.len() && tally_pos(t0, key@) == Some(k - 1),
            !found ==> tally_pos(t0, key@) is None,
        decreases k,
    {
        proof {
            assert(t0.take(k as int).drop_last() =~= t0.take(k - 1));
            assert(t0.take(k as int).last() == t0[k - 1]);
            assert(t0[k - 1].0 == t[k - 1].0@);
        }
        if crate::text::vec_eq(&crate::text::chars_of_string(&t[k - 1].0), &kv) {
            found = true;
            break;
        }
        k -= 1;
    }
    if found {
        let p = k - 1;
        assert(t0[p as int].1 <= keys.len());
        let c = t[p].1 + 1;
        let ghost r0 = t@;
        t.set(p, (crate::text::string_of(&kv), c));
        proof {
            assert forall|q: int| 0 <= q < t.len() implies tally_view(t@)[q] == t0.update(p as int, (key@, (t0[p as int].1 + 1) as nat))[q] by {
                if q != p {
                    assert(t@[q] == r0[q]);
                }
            }
            assert(tally_view(t@) =~= t0.update(p as int, (key@, (t0[p as int].1 + 1) as nat)));
        }
    } else {
        t.push((crate::text::string_of(&kv), 1));
        assert(tally_view(t@) =~= t0.push((key@, 1nat)));
    }
}

/// Tallies the findings by category and by severity.
fn tally_findings(findings: &Vec<Finding>) -> (r: (Vec<(String, usize)>, Vec<(String, usize)>))
    ensures
        tally_view(r.0@) == tally(category_keys(findings.deep_view())),
        tally_view(r.1@) == tally(severity_keys(findings.deep_view())),
{
    let ghost fv = findings.deep_view();
    let mut by_category: Vec<(String, usize)> = Vec::new();
    let mut by_severity: Vec<(String, usize)> = Vec::new();
    let mut i: usize = 0;
    while i < findings.len()
        invariant
            i <= findings.len(),
            fv == findings.deep_view(),
            tally_view(by_category@) == tally(category_keys(fv.take(i as int))),
            tally_view(by_severity@) == tally(severity_keys(fv.take(i as int))),
        decreases findings.len() - i,
    {
        let ck = category_key_exec(&findings[i].category);
        let sk = severity_key_exec(&findings[i].severity);
        proof {
            assert(fv[i as int] == findings[i as int].deep_view());
            assert(category_keys(fv.take(i + 1)) =~= category_keys(fv.take(i as int)).push(ck@));
            assert(severity_keys(fv.take(i + 1)) =~= severity_keys(fv.take(i as int)).push(sk@));
        }
        bump(&mut by_category, ck, Ghost(category_keys(fv.take(i as int))));
        bump(&mut by_severity, sk, Ghost(severity_keys(fv.take(i as int))));
        i += 1;
    }
    assert(fv.take(i as int) =~= fv);
    (by_category, by_severity)
}

/// Whether `s` holds the given totals and the tallies of `fs`.
pub open spec fn stats_of(s: ReportStats, fs: Seq<FindingV>, notes: usize, daily: usize, weekly: usize) -> bool {
    &&& s.total_notes == notes
    &&& s.total_daily_notes == daily
    &&& s.total_weekly_notes == weekly
    &&& s.total_findings == fs.len()
    &&& tally_view(s.findings_by_category@) == tally(category_keys(fs))
    &&& tally_view(s.findings_by_severity@) == tally(severity_keys(fs))
}

impl Report {
    /// A report of `findings`, stamped with the local time
    /// (`YYYY-MM-DD HH:MM:SS`).
    pub fn new(
        findings: Vec<Finding>,
        total_notes: usize,
        total_daily_notes: usize,
        total_weekly_notes: usize,
        noteplan_path: String,
    ) -> (r: Report)
        ensures
            r.findings.deep_view() == findings.deep_view(),
            stats_of(r.stats, findings.deep_view(), total_notes, total_daily_notes, total_weekly_notes),
            r.noteplan_path@ == noteplan_path@,
            crate::clock::is_timestamp_text(r.scanned_at@),
    {
        let (by_category, by_severity) = tally_findings(&findings);
        let total_findings = findings.len();
        let scanned_at = crate::clock::local_timestamp(crate::clock::now_nanos());
        Report {
            findings,
            stats: ReportStats {
                total_notes,
                total_daily_notes,
                total_weekly_notes,
                total_findings,
                findings_by_category: by_category,
                findings_by_severity: by_severity,
            },
            scanned_at,
            noteplan_path,
        }
    }
}

} // verus!
