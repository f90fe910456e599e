//! ID consistency: bare `00` hubs, old-style hierarchical IDs, and
//! sequential IDs used twice in one folder.
use vstd::prelude::*;
use crate::analyzer::{is_special_folder, make_finding, note_finding, special_folder, Analyzer};
use crate::models::{Finding, FindingCategory, FindingV, NoteIdKind, NoteKind, NoteV, Severity};
use crate::parser::markdown::last_index;
use crate::parser::NoteStore;
use crate::text::{
    chars_of, chars_of_string, concat, count_char, count_of, enclose, has_prefix, join, join_vec,
    lemma_deep_chars, slice_vec, starts_with, vec_eq,
};

verus! {

pub struct IdConsistencyAnalyzer;

/// A regular note outside NotePlan's special folders.
pub open spec fn checked_note(n: NoteV) -> bool {
    n.kind == NoteKind::Regular && !special_folder(n.relative_path)
}

pub open spec fn bare_hub_finding(n: NoteV) -> FindingV {
    note_finding(
        Severity::Error,
        FindingCategory::IdConsistency,
        n.relative_path,
        "Hub note uses bare '00' without a hub suffix"@,
        Some("Rename to '00.PH' (Project Hub), '00.DH' (Domain Hub), or '00.RH' (Reference Hub) for fuzzy-find clarity"@),
        Some("Note title: "@ + n.title),
    )
}

pub open spec fn old_style_finding(n: NoteV, id: Seq<char>, parent: Seq<char>) -> FindingV {
    note_finding(
        Severity::Info,
        FindingCategory::IdConsistency,
        n.relative_path,
        "Note uses old-style hierarchical ID '"@ + id + "'"@,
        Some("Consider renaming to a sequential ID (e.g., '01', '02') — notes no longer need to match their parent folder's ID '"@ + parent + "'"@),
        None,
    )
}

pub open spec fn mismatch_finding(n: NoteV, id: Seq<char>, parent: Seq<char>) -> FindingV {
    note_finding(
        Severity::Warning,
        FindingCategory::IdConsistency,
        n.relative_path,
        "Note ID '"@ + id + "' does not match its parent folder's ID '"@ + parent + "'"@,
        Some("Move the note to the folder its ID belongs to, or renumber it to fit '"@ + parent + "'"@),
        None,
    )
}

/// The per-note finding of a checked note, if any: a bare `00` hub; a
/// dotted ID of three or more segments that extends its parent folder's ID
/// (old style); or a dotted ID that is neither its parent folder's ID nor
/// an extension of it (a note filed under the wrong folder, such as
/// `44.02.02` inside `42.02`).
pub open spec fn per_note_finding(n: NoteV) -> Option<FindingV> {
    if !checked_note(n) {
        None
    } else {
        match n.title_note_id_kind {
            Some(NoteIdKind::BareHub) => Some(bare_hub_finding(n)),
            Some(NoteIdKind::JdDotted) => match (n.title_jd_id, n.parent_jd_id) {
                (Some(id), Some(parent)) => if has_prefix(id, parent + seq!['.']) {
                    if count_char(id, '.') >= 2 {
                        Some(old_style_finding(n, id, parent))
                    } else {
                        None
                    }
                } else if id != parent {
                    Some(mismatch_finding(n, id, parent))
                } else {
                    None
                },
                _ => None,
            },
            _ => None,
        }
    }
}

/// The per-note findings, in note order.
pub open spec fn per_note_findings(nv: Seq<NoteV>) -> Seq<FindingV>
    decreases nv.len(),
{
    if nv.len() == 0 {
        Seq::empty()
    } else {
        match per_note_finding(nv.last()) {
            Some(f) => per_note_findings(nv.drop_last()).push(f),
            None => per_note_findings(nv.drop_last()),
        }
    }
}

/// The folder, sequential ID and path of a checked note with a sequential
/// title ID and a parent folder.
pub open spec fn seq_entry(n: NoteV) -> Option<(Seq<char>, Seq<char>, Seq<char>)> {
    if checked_note(n) && n.title_note_id_kind == Some(NoteIdKind::Sequential) && n.title_jd_id is Some
        && last_index(n.relative_path, '/') >= 0 {
        Some((n.relative_path.take(last_index(n.relative_path, '/')), n.title_jd_id.unwrap(), n.relative_path))
    } else {
        None
    }
}

pub open spec fn seq_entries(nv: Seq<NoteV>) -> Seq<(Seq<char>, Seq<char>, Seq<char>)>
    decreases nv.len(),
{
    if nv.len() == 0 {
        Seq::empty()
    } else {
        match seq_entry(nv.last()) {
            Some(e) => seq_entries(nv.drop_last()).push(e),
            None => seq_entries(nv.drop_last()),
        }
    }
}

/// The distinct `(folder, id)` keys of the entries, by first occurrence.
pub open spec fn keys_of(es: Seq<(Seq<char>, Seq<char>, Seq<char>)>) -> Seq<(Seq<char>, Seq<char>)>
    decreases es.len(),
{
    if es.len() == 0 {
        Seq::empty()
    } else {
        let k = keys_of(es.drop_last());
        let key = (es.last().0, es.last().1);
        if k.contains(key) {
            k
        } else {
            k.push(key)
        }
    }
}

/// The paths of the entries with key `key`, in order.
pub open spec fn paths_of(es: Seq<(Seq<char>, Seq<char>, Seq<char>)>, key: (Seq<char>, Seq<char>)) -> Seq<Seq<char>>
    decreases es.len(),
{
    if es.len() == 0 {
        Seq::empty()
    } else if (es.last().0, es.last().1) == key {
        paths_of(es.drop_last(), key).push(es.last().2)
    } else {
        paths_of(es.drop_last(), key)
    }
}

/// The paths of `ps` other than `p`.
pub open spec fn others(ps: Seq<Seq<char>>, p: Seq<char>) -> Seq<Seq<char>>
    decreases ps.len(),
{
    if ps.len() == 0 {
        ps
    } else if ps.last() == p {
        others(ps.drop_last(), p)
    } else {
        others(ps.drop_last(), p).push(ps.last())
    }
}

pub open spec fn duplicate_finding(key: (Seq<char>, Seq<char>), ps: Seq<Seq<char>>, p: Seq<char>) -> FindingV {
    note_finding(
        Severity::Warning,
        FindingCategory::IdConsistency,
        p,
        "Duplicate sequential ID '"@ + key.1 + "' in folder '"@ + key.0 + "'"@,
        Some("Each note in a folder should have a unique sequential ID"@),
        Some("Also used by: "@ + join(others(ps, p), ", "@)),
    )
}

/// The duplicate findings of keys `ks`: one per path of each key used by
/// two or more notes.
pub open spec fn duplicate_findings(es: Seq<(Seq<char>, Seq<char>, Seq<char>)>, ks: Seq<(Seq<char>, Seq<char>)>) -> Seq<FindingV>
    decreases ks.len(),
{
    if ks.len() == 0 {
        Seq::empty()
    } else {
        let rest = duplicate_findings(es, ks.drop_last());
        let key = ks.last();
        let ps = paths_of(es, key);
        if ps.len() > 1 {
            rest + ps.map_values(|p: Seq<char>| duplicate_finding(key, ps, p))
        } else {
            rest
        }
    }
}

/// The findings of the ID-consistency check: the per-note findings, then
/// the duplicate sequential IDs, grouped by folder and ID.
pub open spec fn id_consistency_findings(nv: Seq<NoteV>) -> Seq<FindingV> {
    per_note_findings(nv) + duplicate_findings(seq_entries(nv), keys_of(seq_entries(nv)))
}

fn per_note_exec(note: &crate::models::Note) -> (r: Option<Finding>)
    ensures
        r.deep_view() == per_note_finding(note.deep_view()),
{
    let rp = chars_of_string(&note.relative_path);
    if note.kind != NoteKind::Regular || is_special_folder(&rp) {
        return None;
    }
    match note.title_note_id_kind {
        Some(NoteIdKind::BareHub) => {
            let f = make_finding(
                Severity::Error,
                FindingCategory::IdConsistency,
                &rp,
                &chars_of("Hub note uses bare '00' without a hub suffix"),
                Some(chars_of("Rename to '00.PH' (Project Hub), '00.DH' (Domain Hub), or '00.RH' (Reference Hub) for fuzzy-find clarity")),
                Some(concat(&chars_of("Note title: "), &chars_of_string(&note.title))),
                false,
            );
            Some(f)
        },
        Some(NoteIdKind::JdDotted) => match (&note.title_jd_id, &note.parent_jd_id) {
            (Some(id), Some(parent)) => {
                let idc = chars_of_string(id);
                let pc = chars_of_string(parent);
                let mut prefix = pc.clone();
                prefix.push('.');
                assert(prefix@ =~= parent@ + seq!['.']);
                if starts_with(&idc, &prefix) {
                    if count_of(&idc, '.') >= 2 {
                        let f = make_finding(
                            Severity::Info,
                            FindingCategory::IdConsistency,
                            &rp,
                            &enclose("Note uses old-style hierarchical ID '", &idc, "'"),
                            Some(enclose("Consider renaming to a sequential ID (e.g., '01', '02') — notes no longer need to match their parent folder's ID '", &pc, "'")),
                            None,
                            false,
                        );
                        Some(f)
                    } else {
                        None
                    }
                } else if !vec_eq(&idc, &pc) {
                    let desc = concat(&enclose("Note ID '", &idc, "' does not match its parent folder's ID '"), &concat(&pc, &chars_of("'")));
                    assert(desc@ =~= "Note ID '"@ + idc@ + "' does not match its parent folder's ID '"@ + pc@ + "'"@);
                    let f = make_finding(
                        Severity::Warning,
                        FindingCategory::IdConsistency,
                        &rp,
                        &desc,
                        Some(enclose("Move the note to the folder its ID belongs to, or renumber it to fit '", &pc, "'")),
                        None,
                        false,
                    );
                    Some(f)
                } else {
                    None
                }
            },
            _ => None,
        },
        _ => None,
    }
}

fn last_slash(p: &Vec<char>) -> (r: Option<usize>)
    ensures
        match r {
            Some(i) => last_index(p@, '/') == i as int && i < p.len(),
            None => last_index(p@, '/') < 0,
        },
{
    let mut i: usize = p.len();
    assert(p@.take(i as int) =~= p@);
    while i > 0
        invariant
            i <= p.len(),
            last_index(p@.take(i as int), '/') == last_index(p@, '/'),
        decreases i,
    {
        assert(p@.take(i as int).drop_last() =~= p@.take(i - 1));
        if p[i - 1] == '/' {
            return Some(i - 1);
        }
        i -= 1;
    }
    None
}

impl IdConsistencyAnalyzer {
    fn entries(store: &NoteStore) -> (r: Vec<(Vec<char>, Vec<char>, Vec<char>)>)
        ensures
            r.deep_view() == seq_entries(store.notes.deep_view()),
    {
        let ghost nv = store.notes.deep_view();
        let mut es: Vec<(Vec<char>, Vec<char>, Vec<char>)> = Vec::new();
        let mut i: usize = 0;
        while i < store.notes.len()
            invariant
                i <= store.notes.len(),
                nv == store.notes.deep_view(),
                es.deep_view() == seq_entries(nv.take(i as int)),
            decreases store.notes.len() - i,
        {
            let note = &store.notes[i];
            assert(nv[i as int] == note.deep_view());
            assert(nv.take(i + 1).drop_last() =~= nv.take(i as int));
            let rp = chars_of_string(&note.relative_path);
            if note.kind == NoteKind::Regular && !is_special_folder(&rp)
                && note.title_note_id_kind == Some(NoteIdKind::Sequential) {
                match &note.title_jd_id {
                    Some(id) => match last_slash(&rp) {
                        Some(s) => {
                            let folder = slice_vec(&rp, 0, s);
                            assert(folder@ =~= rp@.take(s as int));
                            let ghost e0 = es.deep_view();
                            let idc = chars_of_string(id);
                            let ghost ev = (folder@, idc@, rp@);
                            proof {
                                lemma_deep_chars(folder);
                                lemma_deep_chars(idc);
                                lemma_deep_chars(rp);
                            }
                            es.push((folder, idc, rp));
                            assert(es.deep_view() =~= e0.push(ev));
                        },
                        None => {},
                    },
                    None => {},
                }
            }
            i += 1;
        }
        assert(nv.take(i as int) =~= nv);
        es
    }
}

fn key_eq(a: &(Vec<char>, Vec<char>), b0: &Vec<char>, b1: &Vec<char>) -> (r: bool)
    ensures
        r == (a.deep_view() == (b0@, b1@)),
{
    proof {
        lemma_deep_chars(a.0);
        lemma_deep_chars(a.1);
    }
    vec_eq(&a.0, b0) && vec_eq(&a.1, b1)
}

fn keys_exec(es: &Vec<(Vec<char>, Vec<char>, Vec<char>)>) -> (r: Vec<(Vec<char>, Vec<char>)>)
    ensures
        r.deep_view() == keys_of(es.deep_view()),
{
    let mut ks: Vec<(Vec<char>, Vec<char>)> = Vec::new();
    let mut i: usize = 0;
    while i < es.len()
        invariant
            i <= es.len(),
            ks.deep_view() == keys_of(es.deep_view().take(i as int)),
        decreases es.len() - i,
    {
        assert(es.deep_view().take(i + 1).drop_last() =~= es.deep_view().take(i as int));
        assert(es.deep_view()[i as int] == es[i as int].deep_view());
        proof {
            lemma_deep_chars(es[i as int].0);
            lemma_deep_chars(es[i as int].1);
            lemma_deep_chars(es[i as int].2);
        }
        let mut found = false;
        let mut j: usize = 0;
        while j < ks.len()
            invariant
                j <= ks.len(),
                i < es.len(),
                found == exists|q: int| 0 <= q < j && #[trigger] ks.deep_view()[q] == (es[i as int].0@, es[i as int].1@),
            decreases ks.len() - j,
        {
            assert(ks.deep_view()[j as int] == ks[j as int].deep_view());
            if key_eq(&ks[j], &es[i].0, &es[i].1) {
                found = true;
            }
            j += 1;
        }
        if !found {
            let ghost k0 = ks.deep_view();
            let key = (es[i].0.clone(), es[i].1.clone());
            proof {
                lemma_deep_chars(key.0);
                lemma_deep_chars(key.1);
            }
            ks.push(key);
            assert(ks.deep_view() =~= k0.push((es[i as int].0@, es[i as int].1@)));
        } else {
            proof {
                let q = choose|q: int| 0 <= q < ks.len() && #[trigger] ks.deep_view()[q] == (es[i as int].0@, es[i as int].1@);
                assert(ks.deep_view().contains((es[i as int].0@, es[i as int].1@)));
            }
        }
        i += 1;
    }
    assert(es.deep_view().take(i as int) =~= es.deep_view());
    ks
}

fn paths_exec(es: &Vec<(Vec<char>, Vec<char>, Vec<char>)>, k0: &Vec<char>, k1: &Vec<char>) -> (r: Vec<Vec<char>>)
    ensures
        r.deep_view() == paths_of(es.deep_view(), (k0@, k1@)),
{
    let mut ps: Vec<Vec<char>> = Vec::new();
    let mut i: usize = 0;
    while i < es.len()
        invariant
            i <= es.len(),
            ps.deep_view() == paths_of(es.deep_view().take(i as int), (k0@, k1@)),
        decreases es.len() - i,
    {
        assert(es.deep_view().take(i + 1).drop_last() =~= es.deep_view().take(i as int));
        assert(es.deep_view()[i as int] == es[i as int].deep_view());
        proof {
            lemma_deep_chars(es[i as int].0);
            lemma_deep_chars(es[i as int].1);
            lemma_deep_chars(es[i as int].2);
        }
        if vec_eq(&es[i].0, k0) && vec_eq(&es[i].1, k1) {
            let ghost p0 = ps.deep_view();
            let p = es[i].2.clone();
            assert(p.deep_view() =~= p@);
            ps.push(p);
            assert(ps.deep_view() =~= p0.push(es[i as int].2@));
        }
        i += 1;
    }
    assert(es.deep_view().take(i as int) =~= es.deep_view());
    ps
}

fn others_exec(ps: &Vec<Vec<char>>, p: &Vec<char>) -> (r: Vec<Vec<char>>)
    ensures
        r.deep_view() == others(ps.deep_view(), p@),
{
    let mut out: Vec<Vec<char>> = Vec::new();
    let mut i: usize = 0;
    while i < ps.len()
        invariant
            i <= ps.len(),
            out.deep_view() == others(ps.deep_view().take(i as int), p@),
        decreases ps.len() - i,
    {
        assert(ps.deep_view().take(i + 1).drop_last() =~= ps.deep_view().take(i as int));
        assert(ps.deep_view()[i as int] == ps[i as int]@);
        if !vec_eq(&ps[i], p) {
            let ghost o0 = out.deep_view();
            let x = ps[i].clone();
            assert(x.deep_view() =~= x@);
            out.push(x);
            assert(out.deep_view() =~= o0.push(ps[i as int]@));
        }
        i += 1;
    }
    assert(ps.deep_view().take(i as int) =~= ps.deep_view());
    out
}

impl Analyzer for IdConsistencyAnalyzer {
    fn analyze(&self, store: &NoteStore) -> (r: Vec<Finding>)
        ensures
            r.deep_view() == id_consistency_findings(store.notes.deep_view()),
            forall|k: int| per_note_findings(store.notes.deep_view()).len() <= k < r.len()
                ==> #[trigger] duplicate_reported(store.notes.deep_view(), r.deep_view()[k]),
    {
        let ghost nv = store.notes.deep_view();
        let mut findings: Vec<Finding> = Vec::new();
        let mut i: usize = 0;
        while i < store.notes.len()
            invariant
                i <= store.notes.len(),
                nv == store.notes.deep_view(),
                findings.deep_view() == per_note_findings(nv.take(i as int)),
            decreases store.notes.len() - i,
        {
            assert(nv[i as int] == store.notes[i as int].deep_view());
            assert(nv.take(i + 1).drop_last() =~= nv.take(i as int));
            match per_note_exec(&store.notes[i]) {
                Some(f) => {
                    let ghost f0 = findings.deep_view();
                    let ghost fv = f.deep_view();
                    findings.push(f);
                    assert(findings.deep_view() =~= f0.push(fv));
                },
                None => {},
            }
            i += 1;
        }
        assert(nv.take(i as int) =~= nv);
        let es = IdConsistencyAnalyzer::entries(store);
        let ks = keys_exec(&es);
        let ghost base = findings.deep_view();
        let ghost esv = es.deep_view();
        let ghost ksv = ks.deep_view();
        let mut k: usize = 0;
        let sep = chars_of(", ");
        while k < ks.len()
            invariant
                k <= ks.len(),
                esv == es.deep_view(),
                ksv == ks.deep_view(),
                sep@ == ", "@,
                findings.deep_view() == base + duplicate_findings(esv, ksv.take(k as int)),
            decreases ks.len() - k,
        {
            assert(ksv.take(k + 1).drop_last() =~= ksv.take(k as int));
            assert(ksv[k as int] == ks[k as int].deep_view());
            proof {
                lemma_deep_chars(ks[k as int].0);
                lemma_deep_chars(ks[k as int].1);
            }
            let ps = paths_exec(&es, &ks[k].0, &ks[k].1);
            let ghost key = ksv[k as int];
            let ghost psv = ps.deep_view();
            if ps.len() > 1 {
                let ghost f_start = findings.deep_view();
                let mut q: usize = 0;
                while q < ps.len()
                    invariant
                        q <= ps.len(),
                        k < ks.len(),
                        key == ks[k as int].deep_view(),
                        psv == ps.deep_view(),
                        sep@ == ", "@,
                        key.0 == ks[k as int].0@ && key.1 == ks[k as int].1@,
                        findings.deep_view() == f_start + psv.take(q as int).map_values(|p: Seq<char>| duplicate_finding(key, psv, p)),
                    decreases ps.len() - q,
                {
                    assert(psv[q as int] == ps[q as int]@);
                    let others_v = others_exec(&ps, &ps[q]);
                    let ctx = concat(&chars_of("Also used by: "), &join_vec(&others_v, &sep));
                    let desc = concat(
                        &enclose("Duplicate sequential ID '", &ks[k].1, "' in folder '"),
                        &concat(&ks[k].0, &chars_of("'")),
                    );
                    assert(desc@ =~= "Duplicate sequential ID '"@ + key.1 + "' in folder '"@ + key.0 + "'"@);
                    assert(ctx@ =~= "Also used by: "@ + join(others(psv, psv[q as int]), ", "@));
                    let f = make_finding(
                        Severity::Warning,
                        FindingCategory::IdConsistency,
                        &ps[q],
                        &desc,
                        Some(chars_of("Each note in a folder should have a unique sequential ID")),
                        Some(ctx),
                        false,
                    );
                    assert(f.deep_view() == duplicate_finding(key, psv, psv[q as int]));
                    let ghost f0 = findings.deep_view();
                    let ghost fv = f.deep_view();
                    findings.push(f);
                    assert(findings.deep_view() =~= f0.push(fv));
                    assert(psv.take(q + 1).map_values(|p: Seq<char>| duplicate_finding(key, psv, p)) =~= psv.take(q as int).map_values(|p: Seq<char>| duplicate_finding(key, psv, p)).push(duplicate_finding(key, psv, psv[q as int])));
                    assert(findings.deep_view() =~= f_start + psv.take(q + 1).map_values(|p: Seq<char>| duplicate_finding(key, psv, p)));
                    q += 1;
                }
                assert(psv.take(q as int) =~= psv);
                assert(duplicate_findings(esv, ksv.take(k + 1)) =~= duplicate_findings(esv, ksv.take(k as int)) + psv.map_values(|p: Seq<char>| duplicate_finding(key, psv, p)));
            }
            k += 1;
        }
        assert(ksv.take(k as int) =~= ksv);
        proof {
            lemma_duplicate_findings_law(nv);
            let pn = per_note_findings(nv);
            let dfs = duplicate_findings(seq_entries(nv), keys_of(seq_entries(nv)));
            assert(findings.deep_view() == pn + dfs);
            assert forall|k: int| pn.len() <= k < findings.len() implies #[trigger] duplicate_reported(nv, findings.deep_view()[k]) by {
                assert(findings.deep_view()[k] == dfs[k - pn.len()]);
            }
        }
        findings
    }
}

// ─── The duplicate-ID law ───────────────────────────────────────────────────

/// The parent folder of a relative path: what comes before its last `/`.
pub open spec fn parent_folder(p: Seq<char>) -> Seq<char> {
    p.take(last_index(p, '/'))
}

/// Whether finding `f` reports note `i` for sharing its sequential ID with
/// note `j`, another checked note in the same parent folder.
pub open spec fn duplicate_pair(nv: Seq<NoteV>, f: FindingV, i: int, j: int) -> bool {
    &&& 0 <= i < nv.len() && 0 <= j < nv.len() && i != j
    &&& checked_note(nv[i]) && checked_note(nv[j])
    &&& nv[i].title_note_id_kind == Some(NoteIdKind::Sequential)
    &&& nv[j].title_note_id_kind == Some(NoteIdKind::Sequential)
    &&& nv[i].title_jd_id is Some && nv[i].title_jd_id == nv[j].title_jd_id
    &&& last_index(nv[i].relative_path, '/') >= 0 && last_index(nv[j].relative_path, '/') >= 0
    &&& parent_folder(nv[i].relative_path) == parent_folder(nv[j].relative_path)
    &&& f.severity == Severity::Warning
    &&& f.category == FindingCategory::IdConsistency
    &&& f.file_path == nv[i].relative_path
    &&& f.description == "Duplicate sequential ID '"@ + nv[i].title_jd_id->Some_0 + "' in folder '"@
        + parent_folder(nv[i].relative_path) + "'"@
}

pub open spec fn duplicate_reported(nv: Seq<NoteV>, f: FindingV) -> bool {
    exists|i: int, j: int| #[trigger] duplicate_pair(nv, f, i, j)
}

pub open spec fn entries_origin(nv: Seq<NoteV>, idx: Seq<int>) -> bool {
    &&& idx.len() == seq_entries(nv).len()
    &&& forall|q: int| 0 <= q < idx.len() ==> 0 <= #[trigger] idx[q] < nv.len()
        && seq_entry(nv[idx[q]]) == Some(seq_entries(nv)[q])
    &&& forall|q1: int, q2: int| 0 <= q1 < q2 < idx.len() ==> #[trigger] idx[q1] < #[trigger] idx[q2]
}

pub open spec fn paths_pos(es: Seq<(Seq<char>, Seq<char>, Seq<char>)>, key: (Seq<char>, Seq<char>), pos: Seq<int>) -> bool {
    &&& pos.len() == paths_of(es, key).len()
    &&& forall|m: int| 0 <= m < pos.len() ==> 0 <= #[trigger] pos[m] < es.len()
        && (es[pos[m]].0, es[pos[m]].1) == key && paths_of(es, key)[m] == es[pos[m]].2
    &&& forall|m1: int, m2: int| 0 <= m1 < m2 < pos.len() ==> #[trigger] pos[m1] < #[trigger] pos[m2]
}

proof fn lemma_seq_entries_origin(nv: Seq<NoteV>)
    ensures
        exists|idx: Seq<int>| #[trigger] entries_origin(nv, idx),
    decreases nv.len(),
{
    if nv.len() == 0 {
        let idx = Seq::<int>::empty();
        assert(entries_origin(nv, idx));
    } else {
        let d = nv.drop_last();
        lemma_seq_entries_origin(d);
        let idx0 = choose|idx: Seq<int>| #[trigger] entries_origin(d, idx);
        let n = nv.len() - 1;
        let es = seq_entries(nv);
        let idx = if seq_entry(nv[n]) is Some { idx0.push(n) } else { idx0 };
        assert forall|q: int| 0 <= q < idx.len() implies 0 <= #[trigger] idx[q] < nv.len()
            && seq_entry(nv[idx[q]]) == Some(es[q]) by {
            if q < idx0.len() {
                assert(idx[q] == idx0[q]);
                assert(nv[idx0[q]] == d[idx0[q]]);
                assert(es[q] == seq_entries(d)[q]);
            }
        }
        assert forall|q1: int, q2: int| 0 <= q1 < q2 < idx.len() implies #[trigger] idx[q1] < #[trigger] idx[q2] by {
            assert(idx[q1] == idx0[q1]);
            if q2 < idx0.len() {
                assert(idx[q2] == idx0[q2]);
            }
        }
        assert(entries_origin(nv, idx));
    }
}

proof fn lemma_paths_of_pos(es: Seq<(Seq<char>, Seq<char>, Seq<char>)>, key: (Seq<char>, Seq<char>))
    ensures
        exists|pos: Seq<int>| #[trigger] paths_pos(es, key, pos),
    decreases es.len(),
{
    if es.len() == 0 {
        let pos = Seq::<int>::empty();
        assert(paths_pos(es, key, pos));
    } else {
        let d = es.drop_last();
        lemma_paths_of_pos(d, key);
        let pos0 = choose|pos: Seq<int>| #[trigger] paths_pos(d, key, pos);
        let n = es.len() - 1;
        let ps = paths_of(es, key);
        let pos = if (es.last().0, es.last().1) == key { pos0.push(n) } else { pos0 };
        assert forall|m: int| 0 <= m < pos.len() implies 0 <= #[trigger] pos[m] < es.len()
            && (es[pos[m]].0, es[pos[m]].1) == key && ps[m] == es[pos[m]].2 by {
            if m < pos0.len() {
                assert(pos[m] == pos0[m]);
                assert(es[pos0[m]] == d[pos0[m]]);
                assert(ps[m] == paths_of(d, key)[m]);
            }
        }
        assert forall|m1: int, m2: int| 0 <= m1 < m2 < pos.len() implies #[trigger] pos[m1] < #[trigger] pos[m2] by {
            assert(pos[m1] == pos0[m1]);
            if m2 < pos0.len() {
                assert(pos[m2] == pos0[m2]);
            }
        }
        assert(paths_pos(es, key, pos));
    }
}

proof fn lemma_dup_findings_shape(
    es: Seq<(Seq<char>, Seq<char>, Seq<char>)>,
    ks: Seq<(Seq<char>, Seq<char>)>,
    k: int,
)
    requires
        0 <= k < duplicate_findings(es, ks).len(),
    ensures
        exists|c: int, m: int| {
            &&& 0 <= c < ks.len()
            &&& paths_of(es, ks[c]).len() > 1
            &&& 0 <= m < paths_of(es, ks[c]).len()
            &&& #[trigger] duplicate_findings(es, ks)[k] == duplicate_finding(ks[c], paths_of(es, ks[c]), #[trigger] paths_of(es, ks[c])[m])
        },
    decreases ks.len(),
{
    let d = ks.drop_last();
    let rest = duplicate_findings(es, d);
    let key = ks.last();
    let ps = paths_of(es, key);
    if k < rest.len() {
        if ps.len() > 1 {
            assert(duplicate_findings(es, ks)[k] == rest[k]);
        }
        lemma_dup_findings_shape(es, d, k);
        let (c, m) = choose|c: int, m: int| {
            &&& 0 <= c < d.len()
            &&& paths_of(es, d[c]).len() > 1
            &&& 0 <= m < paths_of(es, d[c]).len()
            &&& #[trigger] duplicate_findings(es, d)[k] == duplicate_finding(d[c], paths_of(es, d[c]), #[trigger] paths_of(es, d[c])[m])
        };
        assert(ks[c] == d[c]);
    } else {
        let m = k - rest.len();
        let c = ks.len() - 1;
        assert(duplicate_findings(es, ks)[k] == duplicate_finding(key, ps, ps[m]));
        assert(ks[c] == key);
    }
}

/// A duplicate-sequential-ID finding for a note is made only when another
/// checked note with the same sequential title ID lies in the same parent
/// folder (the path before the last `/`), and its text names that ID and
/// that folder.
pub proof fn lemma_duplicate_findings_law(nv: Seq<NoteV>)
    ensures
        forall|k: int| 0 <= k < duplicate_findings(seq_entries(nv), keys_of(seq_entries(nv))).len()
            ==> #[trigger] duplicate_reported(nv, duplicate_findings(seq_entries(nv), keys_of(seq_entries(nv)))[k]),
{
    let es = seq_entries(nv);
    let ks = keys_of(es);
    let dfs = duplicate_findings(es, ks);
    lemma_seq_entries_origin(nv);
    let idx = choose|idx: Seq<int>| #[trigger] entries_origin(nv, idx);
    assert forall|k: int| 0 <= k < dfs.len() implies #[trigger] duplicate_reported(nv, dfs[k]) by {
        lemma_dup_findings_shape(es, ks, k);
        let (c, m) = choose|c: int, m: int| {
            &&& 0 <= c < ks.len()
            &&& paths_of(es, ks[c]).len() > 1
            &&& 0 <= m < paths_of(es, ks[c]).len()
            &&& #[trigger] duplicate_findings(es, ks)[k] == duplicate_finding(ks[c], paths_of(es, ks[c]), #[trigger] paths_of(es, ks[c])[m])
        };
        let key = ks[c];
        let ps = paths_of(es, key);
        lemma_paths_of_pos(es, key);
        let pos = choose|pos: Seq<int>| #[trigger] paths_pos(es, key, pos);
        let m2 = if m == 0 { 1int } else { 0int };
        let q = pos[m];
        let q2 = pos[m2];
        assert(q != q2) by {
            if m < m2 {
                assert(pos[m] < pos[m2]);
            } else {
                assert(pos[m2] < pos[m]);
            }
        }
        let i = idx[q];
        let j = idx[q2];
        assert(i != j) by {
            if q < q2 {
                assert(idx[q] < idx[q2]);
            } else {
                assert(idx[q2] < idx[q]);
            }
        }
        assert(seq_entry(nv[i]) == Some(es[q]));
        assert(seq_entry(nv[j]) == Some(es[q2]));
        assert(duplicate_pair(nv, dfs[k], i, j));
    }
}

} // verus!
