//! Depth inconsistency: areas nested too deeply, and areas whose depths
//! differ widely.
use vstd::prelude::*;
use crate::analyzer::{make_finding, Analyzer};
use crate::models::{Finding, FindingCategory, FindingV, NoteV, Severity};
use crate::parser::hierarchy::{area_ok, build_hierarchy, deep_count, is_hierarchy, max_depth, JdNode};
use crate::parser::NoteStore;
use crate::text::{chars_of, chars_of_string, concat, decimal, decimal_of};

verus! {

pub struct DepthInconsistencyAnalyzer;

/// The deepest nesting the scheme recommends.
pub const MAX_RECOMMENDED_DEPTH: usize = 3;

pub open spec fn too_deep(a: JdNode) -> FindingV {
    FindingV {
        severity: Severity::Info,
        category: FindingCategory::DepthInconsistency,
        file_path: "Notes/"@ + a.name@,
        description: "Area '"@ + a.name@ + "' has "@ + decimal(max_depth(a))
            + " levels of folder nesting (recommended max is 3)"@,
        suggestion: Some(
            "Deep nesting makes IDs long and navigation harder. Consider flattening by merging leaf folders into their parents."@,
        ),
        line_number: None,
        context: None,
        is_folder: true,
    }
}

pub open spec fn too_deep_areas(areas: Seq<JdNode>) -> Seq<FindingV>
    decreases areas.len(),
{
    if areas.len() == 0 {
        Seq::empty()
    } else if max_depth(areas.last()) > MAX_RECOMMENDED_DEPTH {
        too_deep_areas(areas.drop_last()).push(too_deep(areas.last()))
    } else {
        too_deep_areas(areas.drop_last())
    }
}

/// The depths of the areas that hold notes.
pub open spec fn used_depths(areas: Seq<JdNode>) -> Seq<nat>
    decreases areas.len(),
{
    if areas.len() == 0 {
        Seq::empty()
    } else if deep_count(areas.last()) > 0 {
        used_depths(areas.drop_last()).push(max_depth(areas.last()))
    } else {
        used_depths(areas.drop_last())
    }
}

pub open spec fn seq_min(s: Seq<nat>) -> nat
    decreases s.len(),
{
    if s.len() == 0 {
        0
    } else if s.len() == 1 || s.last() < seq_min(s.drop_last()) {
        s.last()
    } else {
        seq_min(s.drop_last())
    }
}

pub open spec fn seq_max(s: Seq<nat>) -> nat
    decreases s.len(),
{
    if s.len() == 0 {
        0
    } else if s.last() > seq_max(s.drop_last()) {
        s.last()
    } else {
        seq_max(s.drop_last())
    }
}

pub open spec fn depth_spread(lo: nat, hi: nat) -> FindingV {
    FindingV {
        severity: Severity::Info,
        category: FindingCategory::DepthInconsistency,
        file_path: "Notes/"@,
        description: "Folder depth varies significantly across areas (min="@ + decimal(lo) + ", max="@
            + decimal(hi) + ")"@,
        suggestion: Some(
            "Consistent depth across areas makes the system more predictable and easier to navigate."@,
        ),
        line_number: None,
        context: None,
        is_folder: true,
    }
}

/// The spread finding: at least two areas hold notes and their depths
/// differ by three or more.
pub open spec fn spread_findings(ds: Seq<nat>) -> Seq<FindingV> {
    if ds.len() >= 2 && seq_max(ds) > 0 && seq_max(ds) >= seq_min(ds) + 3 {
        seq![depth_spread(seq_min(ds), seq_max(ds))]
    } else {
        Seq::empty()
    }
}

/// What the analyzer reports for the notes `nv`.
pub open spec fn depth_result(nv: Seq<NoteV>, r: Seq<FindingV>) -> bool {
    exists|root: JdNode| #[trigger] is_hierarchy(nv, root)
        && too_deep_areas(root.children@) + spread_findings(used_depths(root.children@)) == r
}

impl Analyzer for DepthInconsistencyAnalyzer {
    fn analyze(&self, store: &NoteStore) -> (r: Vec<Finding>)
        ensures
            depth_result(store.notes.deep_view(), r.deep_view()),
    {
        let ghost nv = store.notes.deep_view();
        let h = build_hierarchy(store);
        let ghost areas = h.root.children@;
        let mut findings: Vec<Finding> = Vec::new();
        let mut count: usize = 0;
        let mut lo: usize = 0;
        let mut hi: usize = 0;
        let mut i: usize = 0;
        while i < h.areas.len()
            invariant
                i <= h.areas.len() == areas.len(),
                areas == h.root.children@,
                forall|k: int| 0 <= k < h.areas.len() ==> area_ok(#[trigger] h.areas[k], h.root.children@[k]),
                findings.deep_view() == too_deep_areas(areas.take(i as int)),
                count == used_depths(areas.take(i as int)).len(),
                lo == seq_min(used_depths(areas.take(i as int))),
                hi == seq_max(used_depths(areas.take(i as int))),
                count <= i,
            decreases h.areas.len() - i,
        {
            proof {
                assert(areas.take(i + 1).drop_last() =~= areas.take(i as int));
                assert(areas.take(i + 1).last() == areas[i as int]);
                assert(area_ok(h.areas[i as int], areas[i as int]));
            }
            let area = &h.areas[i];
            if area.max_depth > MAX_RECOMMENDED_DEPTH {
                let name = chars_of_string(&area.folder_name);
                let desc = concat(
                    &concat(&concat(&chars_of("Area '"), &name), &chars_of("' has ")),
                    &concat(&decimal_of(area.max_depth), &chars_of(" levels of folder nesting (recommended max is 3)")),
                );
                let f = make_finding(
                    Severity::Info,
                    FindingCategory::DepthInconsistency,
                    &concat(&chars_of("Notes/"), &name),
                    &desc,
                    Some(chars_of("Deep nesting makes IDs long and navigation harder. Consider flattening by merging leaf folders into their parents.")),
                    None,
                    true,
                );
                let ghost f0 = findings.deep_view();
                proof {
                    assert(desc@ =~= too_deep(areas[i as int]).description);
                    assert(f.deep_view() == too_deep(areas[i as int]));
                }
                findings.push(f);
                proof {
                    assert(findings.deep_view() =~= f0.push(too_deep(areas[i as int])));
                }
            }
            let ghost u0 = used_depths(areas.take(i as int));
            if area.total_notes > 0 {
                let d = area.max_depth;
                assert(used_depths(areas.take(i + 1)) == u0.push(d as nat));
                assert(u0.push(d as nat).drop_last() =~= u0);
                if count == 0 || d < lo {
                    lo = d;
                }
                if d > hi {
                    hi = d;
                }
                count += 1;
            }
            i += 1;
        }
        assert(areas.take(i as int) =~= areas);
        if count >= 2 && hi > 0 && hi - lo >= 3 {
            let desc = concat(
                &concat(
                    &concat(&chars_of("Folder depth varies significantly across areas (min="), &decimal_of(lo)),
                    &chars_of(", max="),
                ),
                &concat(&decimal_of(hi), &chars_of(")")),
            );
            let f = make_finding(
                Severity::Info,
                FindingCategory::DepthInconsistency,
                &chars_of("Notes/"),
                &desc,
                Some(chars_of("Consistent depth across areas makes the system more predictable and easier to navigate.")),
                None,
                true,
            );
            let ghost f0 = findings.deep_view();
            proof {
                assert(desc@ =~= depth_spread(lo as nat, hi as nat).description);
            }
            findings.push(f);
            proof {
                assert(findings.deep_view() =~= f0 + spread_findings(used_depths(areas)));
            }
        } else {
            assert(findings.deep_view() =~= findings.deep_view() + spread_findings(used_depths(areas)));
        }
        assert(is_hierarchy(nv, h.root));
        findings
    }
}

} // verus!
