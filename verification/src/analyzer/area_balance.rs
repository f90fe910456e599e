//! Area balance: empty top-level areas, and areas far larger than the
//! average.
use vstd::prelude::*;
use crate::analyzer::{make_finding, Analyzer};
use crate::models::{Finding, FindingCategory, FindingV, NoteV, Severity};
use crate::parser::hierarchy::{
    area_ok, build_hierarchy, children_count, deep_count, is_hierarchy, lemma_children_prefix,
    lemma_folder_paths_len, JdNode,
};
use crate::parser::NoteStore;
use crate::text::{chars_of, chars_of_string, concat, decimal, decimal_of};

verus! {

pub struct AreaBalanceAnalyzer;

/// `t / n` rounded to the nearest whole number, ties to even.
pub open spec fn rounded_average(t: nat, n: nat) -> nat
    recommends
        n > 0,
{
    let q = t / n;
    let r = t % n;
    if r > n - r || (r == n - r && q % 2 == 1) {
        q + 1
    } else {
        q
    }
}

pub open spec fn empty_area(a: JdNode) -> FindingV {
    FindingV {
        severity: Severity::Warning,
        category: FindingCategory::AreaBalance,
        file_path: "Notes/"@ + a.name@,
        description: "Area '"@ + a.name@ + "' has no notes"@,
        suggestion: Some("Consider removing this area or populating it. Empty areas add navigational overhead."@),
        line_number: None,
        context: None,
        is_folder: true,
    }
}

pub open spec fn large_area(a: JdNode, total: nat, n: nat) -> FindingV {
    FindingV {
        severity: Severity::Info,
        category: FindingCategory::AreaBalance,
        file_path: "Notes/"@ + a.name@,
        description: "Area '"@ + a.name@ + "' has "@ + decimal(deep_count(a)) + " notes (average is "@
            + decimal(rounded_average(total, n)) + ") — significantly larger than other areas"@,
        suggestion: Some(
            "Consider splitting this area into more focused sub-areas or moving some categories elsewhere."@,
        ),
        line_number: None,
        context: Some(decimal(a.children@.len()) + " categories, "@ + decimal(deep_count(a)) + " notes total"@),
        is_folder: true,
    }
}

/// An area's finding: empty, or more than three times the average
/// (`count > 3 * total / n`).
pub open spec fn balance_of(a: JdNode, total: nat, n: nat) -> Option<FindingV> {
    if deep_count(a) == 0 {
        Some(empty_area(a))
    } else if total > 0 && deep_count(a) * n > 3 * total {
        Some(large_area(a, total, n))
    } else {
        None
    }
}

pub open spec fn balance_findings(areas: Seq<JdNode>, total: nat, n: nat) -> Seq<FindingV>
    decreases areas.len(),
{
    if areas.len() == 0 {
        Seq::empty()
    } else {
        match balance_of(areas.last(), total, n) {
            Some(f) => balance_findings(areas.drop_last(), total, n).push(f),
            None => balance_findings(areas.drop_last(), total, n),
        }
    }
}

/// What the analyzer reports for the notes `nv`.
pub open spec fn balance_result(nv: Seq<NoteV>, r: Seq<FindingV>) -> bool {
    exists|root: JdNode| #[trigger] is_hierarchy(nv, root)
        && balance_findings(root.children@, children_count(root.children@), root.children@.len()) == r
}

fn rounded_average_exec(t: usize, n: usize) -> (r: usize)
    requires
        n > 0,
    ensures
        r == rounded_average(t as nat, n as nat),
{
    let q = t / n;
    let r = t % n;
    if r > n - r || (r == n - r && q % 2 == 1) {
        if q == usize::MAX {
            assert(false) by (nonlinear_arith)
                requires
                    q == t / n,
                    r == t % n,
                    n > 0,
                    r > 0 || r == n - r,
                    q == usize::MAX,
                    t <= usize::MAX,
            ;
        }
        q + 1
    } else {
        q
    }
}

impl Analyzer for AreaBalanceAnalyzer {
    fn analyze(&self, store: &NoteStore) -> (r: Vec<Finding>)
        ensures
            balance_result(store.notes.deep_view(), r.deep_view()),
    {
        let ghost nv = store.notes.deep_view();
        let h = build_hierarchy(store);
        let ghost areas = h.root.children@;
        proof {
            lemma_folder_paths_len(nv);
            assert(nv.len() == store.notes.len());
        }
        let mut findings: Vec<Finding> = Vec::new();
        let n = h.areas.len();
        if n == 0 {
            assert(findings.deep_view() =~= balance_findings(areas, children_count(areas), 0));
            return findings;
        }
        let mut total: usize = 0;
        let mut i: usize = 0;
        while i < n
            invariant
                i <= n == h.areas.len() == areas.len(),
                areas == h.root.children@,
                deep_count(h.root) <= usize::MAX,
                forall|k: int| 0 <= k < h.areas.len() ==> area_ok(#[trigger] h.areas[k], h.root.children@[k]),
                total == children_count(areas.take(i as int)),
            decreases n - i,
        {
            proof {
                lemma_children_prefix(areas, i + 1);
                assert(areas.take(i + 1).drop_last() =~= areas.take(i as int));
                assert(areas.take(i + 1).last() == areas[i as int]);
                assert(area_ok(h.areas[i as int], areas[i as int]));
            }
            total = total + h.areas[i].total_notes;
            i += 1;
        }
        assert(areas.take(i as int) =~= areas);
        let avg = rounded_average_exec(total, n);
        let mut k: usize = 0;
        while k < n
            invariant
                k <= n == h.areas.len() == areas.len(),
                n > 0,
                areas == h.root.children@,
                total == children_count(areas),
                avg == rounded_average(total as nat, n as nat),
                forall|q: int| 0 <= q < h.areas.len() ==> area_ok(#[trigger] h.areas[q], h.root.children@[q]),
                findings.deep_view() == balance_findings(areas.take(k as int), total as nat, n as nat),
            decreases n - k,
        {
            proof {
                assert(areas.take(k + 1).drop_last() =~= areas.take(k as int));
                assert(areas.take(k + 1).last() == areas[k as int]);
                assert(area_ok(h.areas[k as int], areas[k as int]));
            }
            let area = &h.areas[k];
            let count = area.total_notes;
            let name = chars_of_string(&area.folder_name);
            let path = concat(&chars_of("Notes/"), &name);
            let c128 = count as u128;
            let n128 = n as u128;
            assert(c128 * n128 <= 0xffff_ffff_ffff_ffffu128 * 0xffff_ffff_ffff_ffffu128) by (nonlinear_arith)
                requires
                    c128 <= 0xffff_ffff_ffff_ffffu128,
                    n128 <= 0xffff_ffff_ffff_ffffu128,
            ;
            let big = c128 * n128 > 3 * (total as u128);
            if count == 0 {
                let desc = concat(&concat(&chars_of("Area '"), &name), &chars_of("' has no notes"));
                let f = make_finding(
                    Severity::Warning,
                    FindingCategory::AreaBalance,
                    &path,
                    &desc,
                    Some(chars_of("Consider removing this area or populating it. Empty areas add navigational overhead.")),
                    None,
                    true,
                );
                let ghost f0 = findings.deep_view();
                findings.push(f);
                proof {
                    assert(findings.deep_view() =~= f0.push(empty_area(areas[k as int])));
                }
            } else if total > 0 && big {
                let desc = concat(
                    &concat(
                        &concat(&concat(&chars_of("Area '"), &name), &chars_of("' has ")),
                        &concat(&decimal_of(count), &chars_of(" notes (average is ")),
                    ),
                    &concat(&decimal_of(avg), &chars_of(") — significantly larger than other areas")),
                );
                let ctx = concat(
                    &concat(&decimal_of(area.category_count), &chars_of(" categories, ")),
                    &concat(&decimal_of(count), &chars_of(" notes total")),
                );
                let f = make_finding(
                    Severity::Info,
                    FindingCategory::AreaBalance,
                    &path,
                    &desc,
                    Some(chars_of("Consider splitting this area into more focused sub-areas or moving some categories elsewhere.")),
                    Some(ctx),
                    true,
                );
                let ghost f0 = findings.deep_view();
                proof {
                    assert(desc@ =~= large_area(areas[k as int], total as nat, n as nat).description);
                    assert(ctx@ =~= large_area(areas[k as int], total as nat, n as nat).context->0);
                    assert(f.deep_view() == large_area(areas[k as int], total as nat, n as nat));
                }
                findings.push(f);
                proof {
                    assert(findings.deep_view() =~= f0.push(large_area(areas[k as int], total as nat, n as nat)));
                }
            }
            k += 1;
        }
        assert(areas.take(k as int) =~= areas);
        assert(is_hierarchy(nv, h.root));
        findings
    }
}

} // verus!
