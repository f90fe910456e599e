//! Category sprawl: too many numbered areas, overfull categories, top-level
//! folders outside the numbering, and notes loose in the `Notes/` root.
use vstd::prelude::*;
use crate::analyzer::{make_finding, Analyzer};
use crate::models::{Finding, FindingCategory, FindingV, NoteKind, NoteV, Severity};
use crate::parser::hierarchy::{
    area_ok, build_hierarchy, deep_count, is_hierarchy, lemma_child_within,
    lemma_folder_paths_len, JdNode,
};
use crate::parser::NoteStore;
use crate::text::{chars_of, chars_of_string, concat, decimal, decimal_of, eq_str, split_on, split_vec};

verus! {

pub struct CategorySprawlAnalyzer;

/// The most top-level areas the numbering scheme recommends.
pub const MAX_AREAS: usize = 10;

/// Categories with more notes than this are flagged.
pub const HIGH_ITEM_COUNT: usize = 50;

/// A finding about a folder.
pub open spec fn folder_finding(severity: Severity, path: Seq<char>, description: Seq<char>, suggestion: Seq<char>) -> FindingV {
    FindingV {
        severity,
        category: FindingCategory::CategorySprawl,
        file_path: path,
        description,
        suggestion: Some(suggestion),
        line_number: None,
        context: None,
        is_folder: true,
    }
}

/// How many of the areas carry a JD ID.
pub open spec fn numbered_areas(areas: Seq<JdNode>) -> nat
    decreases areas.len(),
{
    if areas.len() == 0 {
        0
    } else {
        numbered_areas(areas.drop_last()) + if areas.last().jd_id is Some {
            1nat
        } else {
            0nat
        }
    }
}

pub open spec fn too_many_areas(n: nat) -> FindingV {
    folder_finding(
        Severity::Warning,
        "Notes/"@,
        "System has "@ + decimal(n) + " JD areas (recommended max is 10)"@,
        "Consider consolidating related areas. Too many top-level areas makes the system hard to navigate."@,
    )
}

pub open spec fn big_category(a: JdNode, c: JdNode) -> FindingV {
    folder_finding(
        Severity::Info,
        "Notes/"@ + a.name@ + "/"@ + c.name@,
        "Category '"@ + a.name@ + "/"@ + c.name@ + "' has "@ + decimal(deep_count(c))
            + " notes — consider splitting into sub-categories"@,
        "Large categories become hard to browse. Group related notes into numbered sub-categories."@,
    )
}

/// The overfull categories among `cats` of area `a`.
pub open spec fn big_categories(a: JdNode, cats: Seq<JdNode>) -> Seq<FindingV>
    decreases cats.len(),
{
    if cats.len() == 0 {
        Seq::empty()
    } else if deep_count(cats.last()) > HIGH_ITEM_COUNT {
        big_categories(a, cats.drop_last()).push(big_category(a, cats.last()))
    } else {
        big_categories(a, cats.drop_last())
    }
}

pub open spec fn big_categories_all(areas: Seq<JdNode>) -> Seq<FindingV>
    decreases areas.len(),
{
    if areas.len() == 0 {
        Seq::empty()
    } else {
        big_categories_all(areas.drop_last()) + big_categories(areas.last(), areas.last().children@)
    }
}

pub open spec fn unnumbered_area(a: JdNode) -> FindingV {
    folder_finding(
        Severity::Warning,
        "Notes/"@ + a.name@,
        "Top-level folder '"@ + a.name@ + "' has no JD ID — sits outside the numbering system"@,
        "Assign a JD area number, move contents into an existing area, or archive if no longer needed."@,
    )
}

/// The areas without a JD ID that hold notes.
pub open spec fn unnumbered_areas(areas: Seq<JdNode>) -> Seq<FindingV>
    decreases areas.len(),
{
    if areas.len() == 0 {
        Seq::empty()
    } else if areas.last().jd_id is None && deep_count(areas.last()) > 0 {
        unnumbered_areas(areas.drop_last()).push(unnumbered_area(areas.last()))
    } else {
        unnumbered_areas(areas.drop_last())
    }
}

/// A regular note directly in `Notes/`.
pub open spec fn in_notes_root(n: NoteV) -> bool {
    let parts = split_on(n.relative_path, '/');
    n.kind == NoteKind::Regular && parts.len() == 2 && parts[0] == "Notes"@
}

pub open spec fn root_file(n: NoteV) -> FindingV {
    FindingV {
        severity: Severity::Warning,
        category: FindingCategory::CategorySprawl,
        file_path: n.relative_path,
        description: "Note is sitting directly in the Notes/ root — not filed in any area"@,
        suggestion: Some("Move this note into the appropriate JD area and category folder."@),
        line_number: None,
        context: None,
        is_folder: false,
    }
}

pub open spec fn root_files(nv: Seq<NoteV>) -> Seq<FindingV>
    decreases nv.len(),
{
    if nv.len() == 0 {
        Seq::empty()
    } else if in_notes_root(nv.last()) {
        root_files(nv.drop_last()).push(root_file(nv.last()))
    } else {
        root_files(nv.drop_last())
    }
}

/// What the analyzer reports for the notes `nv` with folder tree `root`.
pub open spec fn sprawl_findings(nv: Seq<NoteV>, root: JdNode) -> Seq<FindingV> {
    let areas = root.children@;
    let head = if numbered_areas(areas) > MAX_AREAS {
        seq![too_many_areas(numbered_areas(areas))]
    } else {
        Seq::empty()
    };
    head + big_categories_all(areas) + unnumbered_areas(areas) + root_files(nv)
}

pub open spec fn sprawl_result(nv: Seq<NoteV>, r: Seq<FindingV>) -> bool {
    exists|root: JdNode| #[trigger] is_hierarchy(nv, root) && sprawl_findings(nv, root) == r
}

fn folder_path2(a: &JdNode, c: &JdNode) -> (r: Vec<char>)
    ensures
        r@ == "Notes/"@ + a.name@ + "/"@ + c.name@,
{
    concat(&concat(&concat(&chars_of("Notes/"), &chars_of_string(&a.name)), &chars_of("/")), &chars_of_string(&c.name))
}

fn big_categories_of(a: &JdNode, findings: &mut Vec<Finding>)
    requires
        deep_count(*a) <= usize::MAX,
    ensures
        final(findings).deep_view() == old(findings).deep_view() + big_categories(*a, a.children@),
{
    let ghost base = findings.deep_view();
    let mut j: usize = 0;
    while j < a.children.len()
        invariant
            j <= a.children.len(),
            deep_count(*a) <= usize::MAX,
            findings.deep_view() == base + big_categories(*a, a.children@.take(j as int)),
        decreases a.children.len() - j,
    {
        let c = &a.children[j];
        proof {
            lemma_child_within(*a, j as int);
            assert(a.children@.take(j + 1).drop_last() =~= a.children@.take(j as int));
            assert(a.children@.take(j + 1).last() == a.children@[j as int]);
        }
        let count = c.deep_note_count();
        if count > HIGH_ITEM_COUNT {
            let path = folder_path2(a, c);
            let desc = concat(
                &concat(
                    &concat(&concat(&concat(&chars_of("Category '"), &chars_of_string(&a.name)), &chars_of("/")), &chars_of_string(&c.name)),
                    &chars_of("' has "),
                ),
                &concat(&decimal_of(count), &chars_of(" notes — consider splitting into sub-categories")),
            );
            let f = make_finding(
                Severity::Info,
                FindingCategory::CategorySprawl,
                &path,
                &desc,
                Some(chars_of("Large categories become hard to browse. Group related notes into numbered sub-categories.")),
                None,
                true,
            );
            let ghost f0 = findings.deep_view();
            proof {
                assert(desc@ =~= big_category(*a, *c).description);
                assert(f.deep_view() == big_category(*a, *c));
            }
            findings.push(f);
            proof {
                assert(findings.deep_view() =~= f0.push(big_category(*a, *c)));
            }
        }
        j += 1;
    }
    assert(a.children@.take(j as int) =~= a.children@);
}

fn in_notes_root_exec(rp: &Vec<char>) -> (b: bool)
    ensures
        b == (split_on(rp@, '/').len() == 2 && split_on(rp@, '/')[0] == "Notes"@),
{
    let parts = split_vec(rp, '/');
    if parts.len() != 2 {
        return false;
    }
    proof {
        assert(parts.deep_view()[0] =~= parts[0]@);
    }
    eq_str(&parts[0], "Notes")
}

impl Analyzer for CategorySprawlAnalyzer {
    fn analyze(&self, store: &NoteStore) -> (r: Vec<Finding>)
        ensures
            sprawl_result(store.notes.deep_view(), r.deep_view()),
    {
        let ghost nv = store.notes.deep_view();
        let h = build_hierarchy(store);
        let ghost areas = h.root.children@;
        proof {
            lemma_folder_paths_len(nv);
            assert(nv.len() == store.notes.len());
        }
        let mut findings: Vec<Finding> = Vec::new();
        let mut numbered: usize = 0;
        let mut i: usize = 0;
        while i < h.areas.len()
            invariant
                i <= h.areas.len() == areas.len(),
                areas == h.root.children@,
                forall|k: int| 0 <= k < h.areas.len() ==> area_ok(#[trigger] h.areas[k], h.root.children@[k]),
                numbered == numbered_areas(areas.take(i as int)),
                numbered <= i,
            decreases h.areas.len() - i,
        {
            proof {
                assert(areas.take(i + 1).drop_last() =~= areas.take(i as int));
                assert(area_ok(h.areas[i as int], areas[i as int]));
            }
            if h.areas[i].jd_id.is_some() {
                numbered += 1;
            }
            i += 1;
        }
        assert(areas.take(i as int) =~= areas);
        if numbered > MAX_AREAS {
            let desc = concat(
                &concat(&chars_of("System has "), &decimal_of(numbered)),
                &chars_of(" JD areas (recommended max is 10)"),
            );
            findings.push(make_finding(
                Severity::Warning,
                FindingCategory::CategorySprawl,
                &chars_of("Notes/"),
                &desc,
                Some(chars_of("Consider consolidating related areas. Too many top-level areas makes the system hard to navigate.")),
                None,
                true,
            ));
        }
        let ghost head = findings.deep_view();
        let mut a: usize = 0;
        while a < h.root.children.len()
            invariant
                a <= h.root.children.len(),
                areas == h.root.children@,
                deep_count(h.root) <= usize::MAX,
                findings.deep_view() == head + big_categories_all(areas.take(a as int)),
            decreases h.root.children.len() - a,
        {
            proof {
                lemma_child_within(h.root, a as int);
                assert(areas.take(a + 1).drop_last() =~= areas.take(a as int));
                assert(areas.take(a + 1).last() == areas[a as int]);
            }
            big_categories_of(&h.root.children[a], &mut findings);
            proof {
                assert(findings.deep_view() =~= head + big_categories_all(areas.take(a + 1)));
            }
            a += 1;
        }
        assert(areas.take(a as int) =~= areas);
        let ghost mid = findings.deep_view();
        let mut k: usize = 0;
        while k < h.areas.len()
            invariant
                k <= h.areas.len() == areas.len(),
                areas == h.root.children@,
                forall|q: int| 0 <= q < h.areas.len() ==> area_ok(#[trigger] h.areas[q], h.root.children@[q]),
                findings.deep_view() == mid + unnumbered_areas(areas.take(k as int)),
            decreases h.areas.len() - k,
        {
            proof {
                assert(areas.take(k + 1).drop_last() =~= areas.take(k as int));
                assert(areas.take(k + 1).last() == areas[k as int]);
                assert(area_ok(h.areas[k as int], areas[k as int]));
            }
            let area = &h.areas[k];
            if area.jd_id.is_none() && area.total_notes > 0 {
                let name = chars_of_string(&area.folder_name);
                let path = concat(&chars_of("Notes/"), &name);
                let desc = concat(
                    &concat(&chars_of("Top-level folder '"), &name),
                    &chars_of("' has no JD ID — sits outside the numbering system"),
                );
                let f = make_finding(
                    Severity::Warning,
                    FindingCategory::CategorySprawl,
                    &path,
                    &desc,
                    Some(chars_of("Assign a JD area number, move contents into an existing area, or archive if no longer needed.")),
                    None,
                    true,
                );
                let ghost f0 = findings.deep_view();
                findings.push(f);
                proof {
                    assert(findings.deep_view() =~= f0.push(unnumbered_area(areas[k as int])));
                }
            }
            k += 1;
        }
        assert(areas.take(k as int) =~= areas);
        let ghost tail = findings.deep_view();
        let mut n: usize = 0;
        while n < store.notes.len()
            invariant
                n <= store.notes.len(),
                nv == store.notes.deep_view(),
                findings.deep_view() == tail + root_files(nv.take(n as int)),
            decreases store.notes.len() - n,
        {
            proof {
                assert(nv.take(n + 1).drop_last() =~= nv.take(n as int));
                assert(nv[n as int] == store.notes[n as int].deep_view());
            }
            let note = &store.notes[n];
            let rp = chars_of_string(&note.relative_path);
            if note.kind == NoteKind::Regular && in_notes_root_exec(&rp) {
                let f = make_finding(
                    Severity::Warning,
                    FindingCategory::CategorySprawl,
                    &rp,
                    &chars_of("Note is sitting directly in the Notes/ root — not filed in any area"),
                    Some(chars_of("Move this note into the appropriate JD area and category folder.")),
                    None,
                    false,
                );
                let ghost f0 = findings.deep_view();
                findings.push(f);
                proof {
                    assert(findings.deep_view() =~= f0.push(root_file(nv[n as int])));
                }
            }
            n += 1;
        }
        assert(nv.take(n as int) =~= nv);
        assert(sprawl_findings(nv, h.root) =~= findings.deep_view());
        findings
    }
}

} // verus!
