//! Duplicates: regular notes that share a title.
use vstd::prelude::*;
use crate::analyzer::{make_finding, Analyzer};
use crate::models::{Finding, FindingCategory, FindingV, NoteKind, NoteV, Severity};
use crate::parser::NoteStore;
use crate::text::{
    chars_of, chars_of_string, concat, contains, contains_str, decimal, decimal_of, join, join_vec, vec_eq,
};

verus! {

pub struct DuplicateAnalyzer;

/// A regular note outside attachments and trash whose title is not a
/// template's.
pub open spec fn dup_eligible(n: NoteV) -> bool {
    &&& n.kind == NoteKind::Regular
    &&& !contains(n.relative_path, "_attachments"@)
    &&& !contains(n.relative_path, "@Trash"@)
    &&& !contains(n.title, "[Project Name]"@)
    &&& !contains(n.title, "[Add ID]"@)
    &&& !contains(n.title, "[Add Title]"@)
}

/// Where title `t` is among the groups, if it is there.
pub open spec fn find_title(gs: Seq<(Seq<char>, Seq<Seq<char>>)>, t: Seq<char>) -> Option<int>
    decreases gs.len(),
{
    if gs.len() == 0 {
        None
    } else if gs.last().0 == t {
        Some(gs.len() - 1)
    } else {
        find_title(gs.drop_last(), t)
    }
}

pub open spec fn add_path(gs: Seq<(Seq<char>, Seq<Seq<char>>)>, t: Seq<char>, p: Seq<char>) -> Seq<(Seq<char>, Seq<Seq<char>>)> {
    match find_title(gs, t) {
        Some(k) => gs.update(k, (t, gs[k].1.push(p))),
        None => gs.push((t, seq![p])),
    }
}

/// The eligible notes' paths grouped by exact title, titles in order of
/// first appearance.
pub open spec fn title_groups(nv: Seq<NoteV>) -> Seq<(Seq<char>, Seq<Seq<char>>)>
    decreases nv.len(),
{
    if nv.len() == 0 {
        Seq::empty()
    } else if dup_eligible(nv.last()) {
        add_path(title_groups(nv.drop_last()), nv.last().title, nv.last().relative_path)
    } else {
        title_groups(nv.drop_last())
    }
}

pub open spec fn listed(paths: Seq<Seq<char>>) -> Seq<char> {
    join(paths.map_values(|p: Seq<char>| "  - "@ + p), seq!['\n'])
}

pub open spec fn dup_finding(g: (Seq<char>, Seq<Seq<char>>)) -> FindingV {
    FindingV {
        severity: Severity::Warning,
        category: FindingCategory::Duplicate,
        file_path: g.1[0],
        description: "Duplicate note name '"@ + g.0 + "' found in "@ + decimal(g.1.len()) + " locations"@,
        suggestion: Some("Consolidate these notes or rename them to be distinct"@),
        line_number: None,
        context: Some(listed(g.1)),
        is_folder: false,
    }
}

pub open spec fn dup_findings_of(gs: Seq<(Seq<char>, Seq<Seq<char>>)>) -> Seq<FindingV>
    decreases gs.len(),
{
    if gs.len() == 0 {
        Seq::empty()
    } else if gs.last().1.len() > 1 {
        dup_findings_of(gs.drop_last()).push(dup_finding(gs.last()))
    } else {
        dup_findings_of(gs.drop_last())
    }
}

/// What the analyzer reports for the notes `nv`.
pub open spec fn duplicate_findings(nv: Seq<NoteV>) -> Seq<FindingV> {
    dup_findings_of(title_groups(nv))
}

fn copy_paths(ps: &Vec<Vec<char>>) -> (r: Vec<Vec<char>>)
    ensures
        r.deep_view() == ps.deep_view(),
{
    let mut r: Vec<Vec<char>> = Vec::new();
    let mut i: usize = 0;
    while i < ps.len()
        invariant
            i <= ps.len(),
            r.deep_view() == ps.deep_view().take(i as int),
        decreases ps.len() - i,
    {
        let ghost r0 = r.deep_view();
        let c = ps[i].clone();
        proof {
            assert(c.deep_view() =~= ps.deep_view()[i as int]);
        }
        r.push(c);
        assert(r.deep_view() =~= r0.push(ps.deep_view()[i as int]));
        assert(ps.deep_view().take(i + 1) =~= ps.deep_view().take(i as int).push(ps.deep_view()[i as int]));
        i += 1;
    }
    assert(ps.deep_view().take(i as int) =~= ps.deep_view());
    r
}

fn title_groups_exec(store: &NoteStore) -> (r: Vec<(Vec<char>, Vec<Vec<char>>)>)
    ensures
        r.deep_view() == title_groups(store.notes.deep_view()),
        forall|k: int| 0 <= k < r.len() ==> #[trigger] r[k].1.len() >= 1,
{
    let ghost nv = store.notes.deep_view();
    let mut gs: Vec<(Vec<char>, Vec<Vec<char>>)> = Vec::new();
    let mut i: usize = 0;
    while i < store.notes.len()
        invariant
            i <= store.notes.len(),
            nv == store.notes.deep_view(),
            gs.deep_view() == title_groups(nv.take(i as int)),
            forall|k: int| 0 <= k < gs.len() ==> #[trigger] gs[k].1.len() >= 1,
        decreases store.notes.len() - i,
    {
        proof {
            assert(nv.take(i + 1).drop_last() =~= nv.take(i as int));
            assert(nv[i as int] == store.notes[i as int].deep_view());
        }
        let note = &store.notes[i];
        let rp = chars_of_string(&note.relative_path);
        let title = chars_of_string(&note.title);
        if note.kind == NoteKind::Regular && !contains_str(&rp, "_attachments") && !contains_str(&rp, "@Trash")
            && !contains_str(&title, "[Project Name]") && !contains_str(&title, "[Add ID]")
            && !contains_str(&title, "[Add Title]") {
            let ghost g0 = gs.deep_view();
            let mut k: usize = 0;
            let mut found = false;
            assert(g0.take(gs.len() as int) =~= g0);
            while k < gs.len()
                invariant_except_break
                    k <= gs.len(),
                    find_title(g0, title@) == find_title(g0.take(gs.len() - k), title@),
                    !found,
                invariant
                    g0 == gs.deep_view(),
                ensures
                    found ==> k < gs.len() && find_title(g0, title@) == Some(gs.len() - 1 - k),
                    !found ==> find_title(g0, title@) is None,
                decreases gs.len() - k,
            {
                let idx = gs.len() - 1 - k;
                proof {
                    assert(g0.take(gs.len() - k) =~= g0.take(idx + 1));
                    assert(g0.take(idx + 1).drop_last() =~= g0.take(idx as int));
                    assert(gs[idx as int].0.deep_view() =~= gs[idx as int].0@);
                    assert(g0[idx as int].0 == gs[idx as int].0@);
                }
                if vec_eq(&gs[idx].0, &title) {
                    found = true;
                    break;
                }
                k += 1;
            }
            if found {
                let idx = gs.len() - 1 - k;
                let mut paths = copy_paths(&gs[idx].1);
                let ghost pv = paths.deep_view();
                proof {
                    assert(g0[idx as int].1 == gs[idx as int].1.deep_view());
                    crate::text::lemma_deep_chars(rp);
                }
                paths.push(rp);
                assert(paths.deep_view() =~= pv.push(nv[i as int].relative_path));
                let t2 = title.clone();
                proof {
                    crate::text::lemma_deep_chars(t2);
                    crate::text::lemma_deep_chars(title);
                }
                gs.set(idx, (t2, paths));
                assert(gs.deep_view() =~= g0.update(idx as int, (title@, g0[idx as int].1.push(nv[i as int].relative_path))));
            } else {
                let mut paths: Vec<Vec<char>> = Vec::new();
                proof {
                    crate::text::lemma_deep_chars(rp);
                    crate::text::lemma_deep_chars(title);
                }
                paths.push(rp);
                assert(paths.deep_view() =~= seq![nv[i as int].relative_path]);
                gs.push((title, paths));
                assert(gs.deep_view() =~= g0.push((nv[i as int].title, seq![nv[i as int].relative_path])));
            }
        }
        i += 1;
    }
    assert(nv.take(i as int) =~= nv);
    gs
}

impl Analyzer for DuplicateAnalyzer {
    fn analyze(&self, store: &NoteStore) -> (r: Vec<Finding>)
        ensures
            r.deep_view() == duplicate_findings(store.notes.deep_view()),
    {
        let gs = title_groups_exec(store);
        let ghost gv = gs.deep_view();
        let mut findings: Vec<Finding> = Vec::new();
        let mut i: usize = 0;
        let mut nl: Vec<char> = Vec::new();
        nl.push('\n');
        assert(nl@ =~= seq!['\n']);
        while i < gs.len()
            invariant
                i <= gs.len(),
                gv == gs.deep_view(),
                nl@ == seq!['\n'],
                forall|k: int| 0 <= k < gs.len() ==> #[trigger] gs[k].1.len() >= 1,
                findings.deep_view() == dup_findings_of(gv.take(i as int)),
            decreases gs.len() - i,
        {
            proof {
                assert(gv.take(i + 1).drop_last() =~= gv.take(i as int));
                assert(gv[i as int].1 == gs[i as int].1.deep_view());
                assert(gv[i as int].0 =~= gs[i as int].0@);
            }
            let paths = &gs[i].1;
            if paths.len() > 1 {
                let mut lines: Vec<Vec<char>> = Vec::new();
                let mut q: usize = 0;
                while q < paths.len()
                    invariant
                        q <= paths.len(),
                        lines.deep_view() == paths.deep_view().take(q as int).map_values(|p: Seq<char>| "  - "@ + p),
                    decreases paths.len() - q,
                {
                    let l = concat(&chars_of("  - "), &paths[q]);
                    let ghost l0 = lines.deep_view();
                    proof {
                        crate::text::lemma_deep_chars(l);
                        crate::text::lemma_deep_chars(paths[q as int]);
                        assert(paths.deep_view()[q as int] == paths[q as int]@);
                    }
                    lines.push(l);
                    assert(lines.deep_view() =~= l0.push("  - "@ + paths.deep_view()[q as int]));
                    assert(paths.deep_view().take(q + 1).map_values(|p: Seq<char>| "  - "@ + p)
                        =~= paths.deep_view().take(q as int).map_values(|p: Seq<char>| "  - "@ + p).push("  - "@ + paths.deep_view()[q as int]));
                    q += 1;
                }
                assert(paths.deep_view().take(q as int) =~= paths.deep_view());
                let ctx = join_vec(&lines, &nl);
                let desc = concat(
                    &concat(&concat(&chars_of("Duplicate note name '"), &gs[i].0), &chars_of("' found in ")),
                    &concat(&decimal_of(paths.len()), &chars_of(" locations")),
                );
                proof {
                    assert(paths.deep_view()[0] =~= paths[0]@);
                    assert(desc@ =~= dup_finding(gv[i as int]).description);
                }
                let f = make_finding(
                    Severity::Warning,
                    FindingCategory::Duplicate,
                    &paths[0],
                    &desc,
                    Some(chars_of("Consolidate these notes or rename them to be distinct")),
                    Some(ctx),
                    false,
                );
                let ghost f0 = findings.deep_view();
                findings.push(f);
                assert(findings.deep_view() =~= f0.push(dup_finding(gv[i as int])));
            }
            i += 1;
        }
        assert(gv.take(i as int) =~= gv);
        findings
    }
}

} // verus!
