//! Empty structure: deep leaf folders that hold a single note.
use vstd::prelude::*;
use crate::analyzer::{is_special_folder, make_finding, parent_path, parent_path_chars, special_folder, Analyzer};
use crate::models::{Finding, FindingCategory, FindingV, NoteKind, NoteV, Severity};
use crate::parser::NoteStore;
use crate::text::{chars_of, chars_of_string, concat, has_prefix, split_on, split_vec, starts_with, vec_eq};

verus! {

pub struct EmptyStructureAnalyzer;

/// The folder that holds a regular note outside the special folders.
pub open spec fn holding_folder(n: NoteV) -> Option<Seq<char>> {
    if n.kind == NoteKind::Regular && !special_folder(n.relative_path) {
        parent_path(n.relative_path)
    } else {
        None
    }
}

pub open spec fn find_folder(cs: Seq<(Seq<char>, usize)>, f: Seq<char>) -> Option<int>
    decreases cs.len(),
{
    if cs.len() == 0 {
        None
    } else if cs.last().0 == f {
        Some(cs.len() - 1)
    } else {
        find_folder(cs.drop_last(), f)
    }
}

pub open spec fn count_in(cs: Seq<(Seq<char>, usize)>, f: Seq<char>) -> Seq<(Seq<char>, usize)> {
    match find_folder(cs, f) {
        Some(k) => cs.update(k, (f, (cs[k].1 + 1) as usize)),
        None => cs.push((f, 1usize)),
    }
}

/// Each folder with the number of notes directly in it, folders in order of
/// first appearance.
pub open spec fn folder_counts(nv: Seq<NoteV>) -> Seq<(Seq<char>, usize)>
    decreases nv.len(),
{
    if nv.len() == 0 {
        Seq::empty()
    } else {
        match holding_folder(nv.last()) {
            Some(f) => count_in(folder_counts(nv.drop_last()), f),
            None => folder_counts(nv.drop_last()),
        }
    }
}

/// No other counted folder lies below `f`.
pub open spec fn is_leaf(cs: Seq<(Seq<char>, usize)>, f: Seq<char>) -> bool {
    forall|j: int| 0 <= j < cs.len() ==> (#[trigger] cs[j]).0 == f || !has_prefix(cs[j].0, f + "/"@)
}

pub open spec fn lone_note_folder(f: Seq<char>) -> FindingV {
    FindingV {
        severity: Severity::Info,
        category: FindingCategory::EmptyStructure,
        file_path: f,
        description: "Folder '"@ + split_on(f, '/').last() + "' contains only 1 note — may be over-organized"@,
        suggestion: Some(
            "Consider moving the note to its parent folder. Create sub-folders only when you have 3+ related notes."@,
        ),
        line_number: None,
        context: None,
        is_folder: true,
    }
}

/// The leaf folders below the top-level areas (more than two path
/// components) that hold exactly one note.
pub open spec fn lone_findings(all: Seq<(Seq<char>, usize)>, cs: Seq<(Seq<char>, usize)>) -> Seq<FindingV>
    decreases cs.len(),
{
    if cs.len() == 0 {
        Seq::empty()
    } else {
        let rest = lone_findings(all, cs.drop_last());
        let (f, c) = cs.last();
        if c == 1 && split_on(f, '/').len() > 2 && is_leaf(all, f) {
            rest.push(lone_note_folder(f))
        } else {
            rest
        }
    }
}

/// What the analyzer reports for the notes `nv`.
pub open spec fn structure_findings(nv: Seq<NoteV>) -> Seq<FindingV> {
    lone_findings(folder_counts(nv), folder_counts(nv))
}

fn folder_counts_exec(store: &NoteStore) -> (r: Vec<(Vec<char>, usize)>)
    ensures
        r.deep_view() == folder_counts(store.notes.deep_view()),
{
    let ghost nv = store.notes.deep_view();
    let mut cs: Vec<(Vec<char>, usize)> = Vec::new();
    let mut i: usize = 0;
    while i < store.notes.len()
        invariant
            i <= store.notes.len(),
            nv == store.notes.deep_view(),
            cs.deep_view() == folder_counts(nv.take(i as int)),
            forall|k: int| 0 <= k < cs.len() ==> #[trigger] cs[k].1 <= i,
        decreases store.notes.len() - i,
    {
        proof {
            assert(nv.take(i + 1).drop_last() =~= nv.take(i as int));
            assert(nv[i as int] == store.notes[i as int].deep_view());
        }
        let note = &store.notes[i];
        let rp = chars_of_string(&note.relative_path);
        if note.kind == NoteKind::Regular && !is_special_folder(&rp) {
            match parent_path_chars(&rp) {
                Some(f) => {
                    proof {
                        crate::text::lemma_deep_chars(f);
                    }
                    let ghost c0 = cs.deep_view();
                    let mut k: usize = 0;
                    let mut found = false;
                    assert(c0.take(cs.len() as int) =~= c0);
                    while k < cs.len()
                        invariant_except_break
                            k <= cs.len(),
                            find_folder(c0, f@) == find_folder(c0.take(cs.len() - k), f@),
                            !found,
                        invariant
                            c0 == cs.deep_view(),
                        ensures
                            found ==> k < cs.len() && find_folder(c0, f@) == Some(cs.len() - 1 - k),
                            !found ==> find_folder(c0, f@) is None,
                        decreases cs.len() - k,
                    {
                        let idx = cs.len() - 1 - k;
                        proof {
                            assert(c0.take(cs.len() - k) =~= c0.take(idx + 1));
                            assert(c0.take(idx + 1).drop_last() =~= c0.take(idx as int));
                            assert(cs[idx as int].0.deep_view() =~= cs[idx as int].0@);
                        }
                        if vec_eq(&cs[idx].0, &f) {
                            found = true;
                            break;
                        }
                        k += 1;
                    }
                    if found {
                        let idx = cs.len() - 1 - k;
                        let n = cs[idx].1 + 1;
                        cs.set(idx, (f, n));
                        assert(cs.deep_view() =~= c0.update(idx as int, (f@, n)));
                    } else {
                        cs.push((f, 1));
                        assert(cs.deep_view() =~= c0.push((f@, 1usize)));
                    }
                },
                None => {},
            }
        }
        i += 1;
    }
    assert(nv.take(i as int) =~= nv);
    cs
}

impl Analyzer for EmptyStructureAnalyzer {
    fn analyze(&self, store: &NoteStore) -> (r: Vec<Finding>)
        ensures
            r.deep_view() == structure_findings(store.notes.deep_view()),
    {
        let cs = folder_counts_exec(store);
        let ghost cv = cs.deep_view();
        let mut findings: Vec<Finding> = Vec::new();
        let mut i: usize = 0;
        while i < cs.len()
            invariant
                i <= cs.len(),
                cv == cs.deep_view(),
                findings.deep_view() == lone_findings(cv, cv.take(i as int)),
            decreases cs.len() - i,
        {
            proof {
                assert(cv.take(i + 1).drop_last() =~= cv.take(i as int));
                assert(cs[i as int].0.deep_view() =~= cs[i as int].0@);
            }
            let f = &cs[i].0;
            let parts = split_vec(f, '/');
            if cs[i].1 == 1 && parts.len() > 2 {
                let below = concat(f, &chars_of("/"));
                let mut leaf = true;
                let mut j: usize = 0;
                while j < cs.len()
                    invariant
                        j <= cs.len(),
                        cv == cs.deep_view(),
                        i < cs.len(),
                        below@ == cv[i as int].0 + "/"@,
                        f@ == cv[i as int].0,
                        leaf == forall|q: int| 0 <= q < j ==> (#[trigger] cv[q]).0 == cv[i as int].0
                            || !has_prefix(cv[q].0, cv[i as int].0 + "/"@),
                    decreases cs.len() - j,
                {
                    proof {
                        assert(cs[j as int].0.deep_view() =~= cs[j as int].0@);
                        assert(cv[j as int].0 == cs[j as int].0@);
                    }
                    let ghost before = leaf;
                    if !vec_eq(&cs[j].0, f) && starts_with(&cs[j].0, &below) {
                        leaf = false;
                    }
                    proof {
                        if !leaf && before {
                            assert(!((cv[j as int]).0 == cv[i as int].0 || !has_prefix(cv[j as int].0, cv[i as int].0 + "/"@)));
                        }
                    }
                    j += 1;
                }
                if leaf {
                    proof {
                        assert(parts.deep_view().last() =~= parts[parts.len() - 1]@);
                    }
                    let desc = concat(
                        &concat(&chars_of("Folder '"), &parts[parts.len() - 1]),
                        &chars_of("' contains only 1 note — may be over-organized"),
                    );
                    let fnd = make_finding(
                        Severity::Info,
                        FindingCategory::EmptyStructure,
                        f,
                        &desc,
                        Some(chars_of("Consider moving the note to its parent folder. Create sub-folders only when you have 3+ related notes.")),
                        None,
                        true,
                    );
                    let ghost f0 = findings.deep_view();
                    proof {
                        assert(desc@ =~= lone_note_folder(cv[i as int].0).description);
                    }
                    findings.push(fnd);
                    assert(findings.deep_view() =~= f0.push(lone_note_folder(cv[i as int].0)));
                }
            }
            i += 1;
        }
        assert(cv.take(i as int) =~= cv);
        findings
    }
}

} // verus!
