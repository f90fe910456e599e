//! Missing hubs: numbered categories with several notes but no hub note.
use vstd::prelude::*;
use crate::analyzer::{
    count_hub_sections, hub_section_count, hub_section_names, hub_sections, make_finding,
    parent_path, parent_path_chars, special_folder, is_special_folder, Analyzer,
};
use crate::models::{Finding, FindingCategory, FindingV, NoteKind, NoteV, Severity};
use crate::parser::hierarchy::{
    build_hierarchy, contains_name, deep_count, is_hierarchy, lemma_child_within,
    lemma_folder_paths_len, JdNode,
};
use crate::parser::NoteStore;
use crate::text::{chars_of, chars_of_string, concat, decimal, decimal_of};

verus! {

pub struct MissingHubAnalyzer;

/// Categories with fewer notes than this need no hub.
pub const MIN_NOTES_FOR_HUB: usize = 3;

/// The folder of a hub note: a regular note outside the special folders
/// with at least two hub-like sections.
pub open spec fn hub_folder(n: NoteV) -> Option<Seq<char>> {
    if n.kind == NoteKind::Regular && !special_folder(n.relative_path)
        && hub_section_count(n.sections) >= 2 {
        parent_path(n.relative_path)
    } else {
        None
    }
}

pub open spec fn hub_folders(nv: Seq<NoteV>) -> Seq<Seq<char>>
    decreases nv.len(),
{
    if nv.len() == 0 {
        Seq::empty()
    } else {
        match hub_folder(nv.last()) {
            Some(p) => hub_folders(nv.drop_last()).push(p),
            None => hub_folders(nv.drop_last()),
        }
    }
}

pub open spec fn category_path(a: JdNode, c: JdNode) -> Seq<char> {
    "Notes/"@ + a.name@ + "/"@ + c.name@
}

pub open spec fn missing_hub(a: JdNode, c: JdNode) -> FindingV {
    FindingV {
        severity: Severity::Info,
        category: FindingCategory::MissingHub,
        file_path: category_path(a, c),
        description: "Category '"@ + a.name@ + "/"@ + c.name@ + "' ("@ + decimal(deep_count(c))
            + " notes) has no hub/index note"@,
        suggestion: Some(
            "Add a hub note with sections like Related, Description, and links to key notes in this category."@,
        ),
        line_number: None,
        context: None,
        is_folder: true,
    }
}

/// Whether category `c` of area `a` should have a hub and has none.
pub open spec fn lacks_hub(a: JdNode, c: JdNode, hubs: Seq<Seq<char>>) -> bool {
    deep_count(c) >= MIN_NOTES_FOR_HUB && c.jd_id is Some && !hubs.contains(category_path(a, c))
}

pub open spec fn missing_in_area(a: JdNode, cats: Seq<JdNode>, hubs: Seq<Seq<char>>) -> Seq<FindingV>
    decreases cats.len(),
{
    if cats.len() == 0 {
        Seq::empty()
    } else if lacks_hub(a, cats.last(), hubs) {
        missing_in_area(a, cats.drop_last(), hubs).push(missing_hub(a, cats.last()))
    } else {
        missing_in_area(a, cats.drop_last(), hubs)
    }
}

pub open spec fn missing_all(areas: Seq<JdNode>, hubs: Seq<Seq<char>>) -> Seq<FindingV>
    decreases areas.len(),
{
    if areas.len() == 0 {
        Seq::empty()
    } else {
        missing_all(areas.drop_last(), hubs) + missing_in_area(areas.last(), areas.last().children@, hubs)
    }
}

/// What the analyzer reports for the notes `nv`.
pub open spec fn missing_hub_result(nv: Seq<NoteV>, r: Seq<FindingV>) -> bool {
    exists|root: JdNode| #[trigger] is_hierarchy(nv, root) && missing_all(root.children@, hub_folders(nv)) == r
}

fn hub_folders_exec(store: &NoteStore) -> (r: Vec<Vec<char>>)
    ensures
        r.deep_view() == hub_folders(store.notes.deep_view()),
{
    let ghost nv = store.notes.deep_view();
    let names = hub_section_names();
    let mut out: Vec<Vec<char>> = Vec::new();
    let mut i: usize = 0;
    while i < store.notes.len()
        invariant
            i <= store.notes.len(),
            nv == store.notes.deep_view(),
            names.deep_view() == hub_sections(),
            out.deep_view() == hub_folders(nv.take(i as int)),
        decreases store.notes.len() - i,
    {
        proof {
            assert(nv.take(i + 1).drop_last() =~= nv.take(i as int));
            assert(nv[i as int] == store.notes[i as int].deep_view());
        }
        let note = &store.notes[i];
        let rp = chars_of_string(&note.relative_path);
        if note.kind == NoteKind::Regular && !is_special_folder(&rp)
            && count_hub_sections(&note.sections, &names) >= 2 {
            match parent_path_chars(&rp) {
                Some(p) => {
                    let ghost o0 = out.deep_view();
                    proof {
                        crate::text::lemma_deep_chars(p);
                    }
                    out.push(p);
                    assert(out.deep_view() =~= o0.push(parent_path(rp@)->0));
                },
                None => {},
            }
        }
        i += 1;
    }
    assert(nv.take(i as int) =~= nv);
    out
}

fn missing_in_area_exec(a: &JdNode, hubs: &Vec<Vec<char>>, findings: &mut Vec<Finding>)
    requires
        deep_count(*a) <= usize::MAX,
    ensures
        final(findings).deep_view() == old(findings).deep_view() + missing_in_area(*a, a.children@, hubs.deep_view()),
{
    let ghost base = findings.deep_view();
    let mut j: usize = 0;
    while j < a.children.len()
        invariant
            j <= a.children.len(),
            deep_count(*a) <= usize::MAX,
            findings.deep_view() == base + missing_in_area(*a, a.children@.take(j as int), hubs.deep_view()),
        decreases a.children.len() - j,
    {
        let c = &a.children[j];
        proof {
            lemma_child_within(*a, j as int);
            assert(a.children@.take(j + 1).drop_last() =~= a.children@.take(j as int));
            assert(a.children@.take(j + 1).last() == a.children@[j as int]);
        }
        let count = c.deep_note_count();
        if count >= MIN_NOTES_FOR_HUB && c.jd_id.is_some() {
            let path = concat(
                &concat(&concat(&chars_of("Notes/"), &chars_of_string(&a.name)), &chars_of("/")),
                &chars_of_string(&c.name),
            );
            if !contains_name(hubs, &path) {
                let desc = concat(
                    &concat(
                        &concat(&concat(&concat(&chars_of("Category '"), &chars_of_string(&a.name)), &chars_of("/")), &chars_of_string(&c.name)),
                        &chars_of("' ("),
                    ),
                    &concat(&decimal_of(count), &chars_of(" notes) has no hub/index note")),
                );
                let f = make_finding(
                    Severity::Info,
                    FindingCategory::MissingHub,
                    &path,
                    &desc,
                    Some(chars_of("Add a hub note with sections like Related, Description, and links to key notes in this category.")),
                    None,
                    true,
                );
                let ghost f0 = findings.deep_view();
                proof {
                    assert(desc@ =~= missing_hub(*a, *c).description);
                    assert(path@ =~= category_path(*a, *c));
                    assert(f.deep_view() == missing_hub(*a, *c));
                }
                findings.push(f);
                proof {
                    assert(findings.deep_view() =~= f0.push(missing_hub(*a, *c)));
                }
            } else {
                assert(path@ =~= category_path(*a, *c));
            }
        }
        j += 1;
    }
    assert(a.children@.take(j as int) =~= a.children@);
}

impl Analyzer for MissingHubAnalyzer {
    fn analyze(&self, store: &NoteStore) -> (r: Vec<Finding>)
        ensures
            missing_hub_result(store.notes.deep_view(), r.deep_view()),
    {
        let ghost nv = store.notes.deep_view();
        let h = build_hierarchy(store);
        let ghost areas = h.root.children@;
        proof {
            lemma_folder_paths_len(nv);
            assert(nv.len() == store.notes.len());
        }
        let hubs = hub_folders_exec(store);
        let mut findings: Vec<Finding> = Vec::new();
        let mut a: usize = 0;
        while a < h.root.children.len()
            invariant
                a <= h.root.children.len(),
                areas == h.root.children@,
                deep_count(h.root) <= usize::MAX,
                findings.deep_view() == missing_all(areas.take(a as int), hubs.deep_view()),
            decreases h.root.children.len() - a,
        {
            proof {
                lemma_child_within(h.root, a as int);
                assert(areas.take(a + 1).drop_last() =~= areas.take(a as int));
                assert(areas.take(a + 1).last() == areas[a as int]);
            }
            missing_in_area_exec(&h.root.children[a], &hubs, &mut findings);
            a += 1;
        }
        assert(areas.take(a as int) =~= areas);
        assert(is_hierarchy(nv, h.root));
        findings
    }
}

} // verus!
