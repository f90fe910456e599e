//! Analyzers: each reads the note store and reports findings.
pub mod area_balance;
pub mod broken_links;
pub mod category_sprawl;
pub mod cross_wired_id;
pub mod depth_inconsistency;
pub mod duplicates;
pub mod empty_structure;
pub mod hub_completeness;
pub mod missing_hub;
pub mod naming_inconsistency;
pub mod orphaned_notes;
pub mod id_consistency;
pub mod stale_area;
pub mod stale_tasks;
pub mod stray_tagged_tasks;
pub mod template_placeholders;
pub mod unfiled;

use vstd::prelude::*;
use crate::models::{Finding, FindingCategory, FindingV, NoteV, Section, SectionV, Severity};
use crate::parser::markdown::last_index;
use crate::parser::NoteStore;
use crate::text::{chars_of, contains, contains_str, contains_vec, slice_vec, string_of};

verus! {

/// An analyzer produces findings from the note store.
pub trait Analyzer {
    fn analyze(&self, store: &NoteStore) -> Vec<Finding>;
}

/// NotePlan's own special folders (trash, archive, templates,
/// attachments), skipped by the per-note checks.
pub open spec fn special_folder(p: Seq<char>) -> bool {
    ||| contains(p, "@Archive"@)
    ||| contains(p, "@Trash"@)
    ||| contains(p, "@Templates"@)
    ||| contains(p, "_attachments"@)
}

pub fn is_special_folder(p: &Vec<char>) -> (b: bool)
    ensures
        b == special_folder(p@),
{
    contains_str(p, "@Archive") || contains_str(p, "@Trash") || contains_str(p, "@Templates")
        || contains_str(p, "_attachments")
}

/// A finding about a note file.
pub open spec fn note_finding(
    severity: Severity,
    category: FindingCategory,
    file_path: Seq<char>,
    description: Seq<char>,
    suggestion: Option<Seq<char>>,
    context: Option<Seq<char>>,
) -> FindingV {
    FindingV {
        severity,
        category,
        file_path,
        description,
        suggestion,
        line_number: None,
        context,
        is_folder: false,
    }
}

pub fn make_finding(
    severity: Severity,
    category: FindingCategory,
    file_path: &Vec<char>,
    description: &Vec<char>,
    suggestion: Option<Vec<char>>,
    context: Option<Vec<char>>,
    is_folder: bool,
) -> (r: Finding)
    ensures
        r.deep_view() == (FindingV {
            severity,
            category,
            file_path: file_path@,
            description: description@,
            suggestion: match suggestion {
                Some(s) => Some(s@),
                None => None,
            },
            line_number: None,
            context: match context {
                Some(c) => Some(c@),
                None => None,
            },
            is_folder,
        }),
{
    Finding {
        severity,
        category,
        file_path: string_of(file_path),
        description: string_of(description),
        suggestion: match suggestion {
            Some(s) => Some(string_of(&s)),
            None => None,
        },
        line_number: None,
        context: match context {
            Some(c) => Some(string_of(&c)),
            None => None,
        },
        is_folder,
    }
}


/// Section headings that mark a hub (index) note.
pub open spec fn hub_sections() -> Seq<Seq<char>> {
    seq![
        "Related"@,
        "Team Members"@,
        "Important Decisions"@,
        "Documentation"@,
        "Timeline"@,
        "Core Concepts"@,
        "Key Points"@,
        "Sources"@,
        "Description"@,
        "Summary"@,
        "Notes"@,
    ]
}

pub(crate) fn hub_section_names() -> (r: Vec<Vec<char>>)
    ensures
        r.deep_view() == hub_sections(),
{
    let r = vec![
        chars_of("Related"),
        chars_of("Team Members"),
        chars_of("Important Decisions"),
        chars_of("Documentation"),
        chars_of("Timeline"),
        chars_of("Core Concepts"),
        chars_of("Key Points"),
        chars_of("Sources"),
        chars_of("Description"),
        chars_of("Summary"),
        chars_of("Notes"),
    ];
    assert forall|i: int| 0 <= i < r.len() implies r.deep_view()[i] == hub_sections()[i] by {
        crate::text::lemma_deep_chars(r[i]);
    }
    assert(r.deep_view() =~= hub_sections());
    r
}

/// A heading that contains one of the hub section names.
pub open spec fn hub_like(heading: Seq<char>) -> bool {
    exists|k: int| 0 <= k < hub_sections().len() && contains(heading, #[trigger] hub_sections()[k])
}

pub(crate) fn is_hub_like(heading: &Vec<char>, names: &Vec<Vec<char>>) -> (b: bool)
    requires
        names.deep_view() == hub_sections(),
    ensures
        b == hub_like(heading@),
{
    let mut k: usize = 0;
    while k < names.len()
        invariant
            k <= names.len(),
            names.deep_view() == hub_sections(),
            forall|q: int| 0 <= q < k ==> !contains(heading@, #[trigger] hub_sections()[q]),
        decreases names.len() - k,
    {
        assert(names.deep_view()[k as int] =~= names[k as int]@);
        if contains_vec(heading, &names[k]) {
            return true;
        }
        k += 1;
    }
    false
}

/// How many sections have hub-like headings.
pub open spec fn hub_section_count(ss: Seq<SectionV>) -> nat
    decreases ss.len(),
{
    if ss.len() == 0 {
        0
    } else {
        hub_section_count(ss.drop_last()) + if hub_like(ss.last().heading) {
            1nat
        } else {
            0nat
        }
    }
}

pub(crate) fn count_hub_sections(sections: &Vec<Section>, names: &Vec<Vec<char>>) -> (r: usize)
    requires
        names.deep_view() == hub_sections(),
    ensures
        r == hub_section_count(sections.deep_view()),
{
    let ghost sv = sections.deep_view();
    let mut n: usize = 0;
    let mut i: usize = 0;
    while i < sections.len()
        invariant
            i <= sections.len(),
            sv == sections.deep_view(),
            names.deep_view() == hub_sections(),
            n == hub_section_count(sv.take(i as int)),
            n <= i,
        decreases sections.len() - i,
    {
        proof {
            assert(sv.take(i + 1).drop_last() =~= sv.take(i as int));
            assert(sv[i as int] == sections[i as int].deep_view());
        }
        let h = crate::text::chars_of_string(&sections[i].heading);
        if is_hub_like(&h, names) {
            n += 1;
        }
        i += 1;
    }
    assert(sv.take(i as int) =~= sv);
    n
}

/// The part of a path before its last `/`, if it has one.
pub open spec fn parent_path(p: Seq<char>) -> Option<Seq<char>> {
    if last_index(p, '/') >= 0 {
        Some(p.take(last_index(p, '/')))
    } else {
        None
    }
}

pub fn parent_path_chars(p: &Vec<char>) -> (r: Option<Vec<char>>)
    ensures
        r.deep_view() == parent_path(p@),
{
    let mut k: usize = p.len();
    assert(p@.take(p.len() as int) =~= p@);
    while k > 0 && p[k - 1] != '/'
        invariant
            k <= p.len(),
            last_index(p@, '/') == last_index(p@.take(k as int), '/'),
        decreases k,
    {
        assert(p@.take(k as int).drop_last() =~= p@.take(k - 1));
        k -= 1;
    }
    if k == 0 {
        assert(p@.take(0) =~= Seq::<char>::empty());
        None
    } else {
        let r = slice_vec(p, 0, k - 1);
        proof {
            crate::text::lemma_deep_chars(r);
            assert(r@ =~= p@.take(k - 1));
        }
        Some(r)
    }
}


/// A copy of a finding.
pub fn copy_finding(f: &Finding) -> (r: Finding)
    ensures
        r.deep_view() == f.deep_view(),
{
    Finding {
        severity: f.severity,
        category: f.category,
        file_path: string_of(&crate::text::chars_of_string(&f.file_path)),
        description: string_of(&crate::text::chars_of_string(&f.description)),
        suggestion: match &f.suggestion {
            Some(s) => Some(string_of(&crate::text::chars_of_string(s))),
            None => None,
        },
        line_number: f.line_number,
        context: match &f.context {
            Some(s) => Some(string_of(&crate::text::chars_of_string(s))),
            None => None,
        },
        is_folder: f.is_folder,
    }
}

/// `v` appended to `out`.
fn append_findings(out: &mut Vec<Finding>, v: Vec<Finding>)
    ensures
        final(out).deep_view() == old(out).deep_view() + v.deep_view(),
{
    let ghost base = out.deep_view();
    let mut i: usize = 0;
    let ghost vv = v.deep_view();
    while i < v.len()
        invariant
            i <= v.len(),
            vv == v.deep_view(),
            out.deep_view() == base + vv.take(i as int),
        decreases v.len() - i,
    {
        let f = copy_finding(&v[i]);
        let ghost o0 = out.deep_view();
        out.push(f);
        assert(out.deep_view() =~= o0.push(vv[i as int]));
        assert(vv.take(i + 1) =~= vv.take(i as int).push(vv[i as int]));
        i += 1;
    }
    assert(vv.take(i as int) =~= vv);
}

/// What every analyzer reports, in the order they run: the per-note checks,
/// then the system assessments.
pub open spec fn all_findings(nv: Seq<NoteV>, modified: Seq<Option<i64>>, r: Seq<FindingV>) -> bool {
    exists|p: Seq<Seq<FindingV>>| #[trigger] p.len() == 16 && {
        &&& r == p[0] + p[1] + p[2] + p[3] + p[4] + p[5] + p[6] + p[7] + p[8] + p[9] + p[10] + p[11] + p[12]
            + p[13] + p[14] + p[15]
        &&& p[0] == id_consistency::id_consistency_findings(nv)
        &&& p[1] == unfiled::unfiled_findings(nv)
        &&& p[2] == hub_completeness::hub_findings(nv)
        &&& p[3] == broken_links::broken_findings(nv)
        &&& p[4] == orphaned_notes::orphan_findings(nv)
        &&& p[5] == duplicates::duplicate_findings(nv)
        &&& stale_tasks::stale_task_result(nv, p[6])
        &&& p[7] == template_placeholders::placeholder_findings(nv)
        &&& area_balance::balance_result(nv, p[8])
        &&& depth_inconsistency::depth_result(nv, p[9])
        &&& category_sprawl::sprawl_result(nv, p[10])
        &&& p[11] == empty_structure::structure_findings(nv)
        &&& missing_hub::missing_hub_result(nv, p[12])
        &&& stale_area::stale_area_result(nv, modified, p[13])
        &&& p[14] == cross_wired_id::cross_wired_findings(nv)
        &&& p[15] == naming_inconsistency::naming_findings(nv)
    }
}

/// Run every analyzer over the store and collect the findings. The notes'
/// modification times (`modified[i]` for note `i`, nanoseconds since the
/// epoch) feed the stale-area check.
pub fn run_all_analyzers(store: &NoteStore, modified: Vec<Option<i64>>) -> (r: Vec<Finding>)
    ensures
        all_findings(store.notes.deep_view(), modified@, r.deep_view()),
{
    let ghost nv = store.notes.deep_view();
    let ghost mods = modified@;
    let mut out: Vec<Finding> = Vec::new();
    let a0 = id_consistency::IdConsistencyAnalyzer.analyze(store);
    let a1 = unfiled::UnfiledSlipAnalyzer.analyze(store);
    let a2 = hub_completeness::HubCompletenessAnalyzer.analyze(store);
    let a3 = broken_links::BrokenLinkAnalyzer.analyze(store);
    let a4 = orphaned_notes::OrphanedNoteAnalyzer.analyze(store);
    let a5 = duplicates::DuplicateAnalyzer.analyze(store);
    let a6 = stale_tasks::StaleTaskAnalyzer.analyze(store);
    let a7 = template_placeholders::TemplatePlaceholderAnalyzer.analyze(store);
    let a8 = area_balance::AreaBalanceAnalyzer.analyze(store);
    let a9 = depth_inconsistency::DepthInconsistencyAnalyzer.analyze(store);
    let a10 = category_sprawl::CategorySprawlAnalyzer.analyze(store);
    let a11 = empty_structure::EmptyStructureAnalyzer.analyze(store);
    let a12 = missing_hub::MissingHubAnalyzer.analyze(store);
    let stale = stale_area::StaleAreaAnalyzer { modified };
    let a13 = stale.analyze(store);
    let a14 = cross_wired_id::CrossWiredIdAnalyzer.analyze(store);
    let a15 = naming_inconsistency::NamingInconsistencyAnalyzer.analyze(store);
    let ghost p = seq![
        a0.deep_view(), a1.deep_view(), a2.deep_view(), a3.deep_view(), a4.deep_view(), a5.deep_view(),
        a6.deep_view(), a7.deep_view(), a8.deep_view(), a9.deep_view(), a10.deep_view(), a11.deep_view(),
        a12.deep_view(), a13.deep_view(), a14.deep_view(), a15.deep_view(),
    ];
    append_findings(&mut out, a0);
    append_findings(&mut out, a1);
    append_findings(&mut out, a2);
    append_findings(&mut out, a3);
    append_findings(&mut out, a4);
    append_findings(&mut out, a5);
    append_findings(&mut out, a6);
    append_findings(&mut out, a7);
    append_findings(&mut out, a8);
    append_findings(&mut out, a9);
    append_findings(&mut out, a10);
    append_findings(&mut out, a11);
    append_findings(&mut out, a12);
    append_findings(&mut out, a13);
    append_findings(&mut out, a14);
    append_findings(&mut out, a15);
    assert(p.len() == 16);
    assert(out.deep_view() =~= p[0] + p[1] + p[2] + p[3] + p[4] + p[5] + p[6] + p[7] + p[8] + p[9] + p[10]
        + p[11] + p[12] + p[13] + p[14] + p[15]);
    out
}

} // verus!
