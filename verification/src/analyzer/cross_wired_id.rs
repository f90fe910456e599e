//! Cross-wired IDs: a dotted note ID that belongs to none of the folders
//! above the note.
use vstd::prelude::*;
use crate::analyzer::{is_special_folder, make_finding, note_finding, special_folder, Analyzer};
use crate::models::{Finding, FindingCategory, FindingV, NoteIdKind, NoteKind, NoteV, Severity};
use crate::parser::folder::{jd_id, jd_id_chars};
use crate::parser::NoteStore;
use crate::text::{
    chars_of, chars_of_string, concat, enclose, has_prefix, lemma_deep_chars, split_on,
    split_vec, starts_with, vec_eq,
};

verus! {

pub struct CrossWiredIdAnalyzer;

/// The IDs of the folders between the area folder (included) and the note
/// (excluded) that carry one, outermost first.
pub open spec fn ancestor_ids(parts: Seq<Seq<char>>, hi: int) -> Seq<Seq<char>>
    decreases hi,
{
    if hi <= 1 {
        Seq::empty()
    } else {
        let rest = ancestor_ids(parts, hi - 1);
        match jd_id(parts[hi - 1]) {
            Some(id) => rest.push(id),
            None => rest,
        }
    }
}

/// Whether note ID `id` is one of the ancestor IDs or extends one of them.
pub open spec fn belongs(id: Seq<char>, ancestors: Seq<Seq<char>>) -> bool {
    exists|i: int| 0 <= i < ancestors.len() && (id == #[trigger] ancestors[i] || has_prefix(id, ancestors[i] + seq!['.']))
}

pub open spec fn cross_wired_finding(n: NoteV, id: Seq<char>, area: Seq<char>, deepest: Seq<char>) -> FindingV {
    note_finding(
        Severity::Warning,
        FindingCategory::CrossWiredId,
        n.relative_path,
        "Note ID '"@ + id + "' doesn't belong under '"@ + area + "' (folder ID '"@ + deepest + "')"@,
        Some("Either move this note to the folder matching ID '"@ + id + "' or update its ID to start with '"@ + deepest + "'."@),
        Some("Note title: "@ + n.title),
    )
}

/// The finding for a note, if its dotted title ID belongs under none of its
/// ancestor folders' IDs.
pub open spec fn cross_wired_of(n: NoteV) -> Option<FindingV> {
    let parts = split_on(n.relative_path, '/');
    let ancestors = ancestor_ids(parts, parts.len() - 1);
    if n.kind != NoteKind::Regular || special_folder(n.relative_path) {
        None
    } else if n.title_note_id_kind is Some && n.title_note_id_kind != Some(NoteIdKind::JdDotted) {
        None
    } else {
        match n.title_jd_id {
            Some(id) => if parts.len() < 3 || ancestors.len() == 0 || belongs(id, ancestors) {
                None
            } else {
                Some(cross_wired_finding(n, id, parts[1], ancestors.last()))
            },
            None => None,
        }
    }
}

pub open spec fn cross_wired_findings(nv: Seq<NoteV>) -> Seq<FindingV>
    decreases nv.len(),
{
    if nv.len() == 0 {
        Seq::empty()
    } else {
        match cross_wired_of(nv.last()) {
            Some(f) => cross_wired_findings(nv.drop_last()).push(f),
            None => cross_wired_findings(nv.drop_last()),
        }
    }
}

fn check_note(note: &crate::models::Note) -> (r: Option<Finding>)
    ensures
        r.deep_view() == cross_wired_of(note.deep_view()),
{
    let rp = chars_of_string(&note.relative_path);
    if note.kind != NoteKind::Regular || is_special_folder(&rp) {
        return None;
    }
    match note.title_note_id_kind {
        Some(NoteIdKind::JdDotted) | None => {},
        _ => return None,
    }
    let id = match &note.title_jd_id {
        Some(id) => chars_of_string(id),
        None => return None,
    };
    let parts = split_vec(&rp, '/');
    let ghost pv = parts.deep_view();
    if parts.len() < 3 {
        return None;
    }
    let mut anc: Vec<Vec<char>> = Vec::new();
    let mut k: usize = 1;
    while k < parts.len() - 1
        invariant
            1 <= k <= parts.len() - 1,
            pv == parts.deep_view(),
            parts.len() >= 3,
            anc.deep_view() == ancestor_ids(pv, k as int),
        decreases parts.len() - 1 - k,
    {
        assert(pv[k as int] == parts[k as int]@);
        match jd_id_chars(&parts[k]) {
            Some(x) => {
                let ghost a0 = anc.deep_view();
                proof {
                    lemma_deep_chars(x);
                }
                anc.push(x);
                assert(anc.deep_view() =~= a0.push(jd_id(pv[k as int]).unwrap()));
            },
            None => {},
        }
        k += 1;
    }
    if anc.len() == 0 {
        return None;
    }
    let mut found = false;
    let mut i: usize = 0;
    while i < anc.len()
        invariant
            i <= anc.len(),
            found == exists|q: int| 0 <= q < i && (id@ == #[trigger] anc.deep_view()[q] || has_prefix(id@, anc.deep_view()[q] + seq!['.'])),
        decreases anc.len() - i,
    {
        assert(anc.deep_view()[i as int] == anc[i as int]@);
        let mut pre = anc[i].clone();
        pre.push('.');
        assert(pre@ =~= anc[i as int]@ + seq!['.']);
        if vec_eq(&id, &anc[i]) || starts_with(&id, &pre) {
            found = true;
        }
        i += 1;
    }
    if found {
        return None;
    }
    let deepest = &anc[anc.len() - 1];
    assert(anc.deep_view()[anc.len() - 1] == deepest@);
    assert(pv[1] == parts[1]@);
    let desc = concat(
        &concat(&enclose("Note ID '", &id, "' doesn't belong under '"), &parts[1]),
        &enclose("' (folder ID '", deepest, "')"),
    );
    let sugg = concat(
        &enclose("Either move this note to the folder matching ID '", &id, "' or update its ID to start with '"),
        &concat(deepest, &chars_of("'.")),
    );
    let ctx = concat(&chars_of("Note title: "), &chars_of_string(&note.title));
    assert(desc@ =~= "Note ID '"@ + id@ + "' doesn't belong under '"@ + parts[1]@ + "' (folder ID '"@ + deepest@ + "')"@);
    assert(sugg@ =~= "Either move this note to the folder matching ID '"@ + id@ + "' or update its ID to start with '"@ + deepest@ + "'."@);
    Some(make_finding(Severity::Warning, FindingCategory::CrossWiredId, &rp, &desc, Some(sugg), Some(ctx), false))
}

impl Analyzer for CrossWiredIdAnalyzer {
    fn analyze(&self, store: &NoteStore) -> (r: Vec<Finding>)
        ensures
            r.deep_view() == cross_wired_findings(store.notes.deep_view()),
    {
        let ghost nv = store.notes.deep_view();
        let mut findings: Vec<Finding> = Vec::new();
        let mut i: usize = 0;
        while i < store.notes.len()
            invariant
                i <= store.notes.len(),
                nv == store.notes.deep_view(),
                findings.deep_view() == cross_wired_findings(nv.take(i as int)),
            decreases store.notes.len() - i,
        {
            assert(nv[i as int] == store.notes[i as int].deep_view());
            assert(nv.take(i + 1).drop_last() =~= nv.take(i as int));
            match check_note(&store.notes[i]) {
                Some(f) => {
                    let ghost f0 = findings.deep_view();
                    let ghost fv = f.deep_view();
                    findings.push(f);
                    assert(findings.deep_view() =~= f0.push(fv));
                },
                None => {},
            }
            i += 1;
        }
        assert(nv.take(i as int) =~= nv);
        findings
    }
}

} // verus!
