//! The scoped scan: which note files a read of the backlog needs parsed,
//! decided from the vault's paths and the `#np-projects` control note before
//! any other file is read. The control folder is always parsed, and all of
//! `Calendar/`; of the rest of `Notes/`, only the notes inside a folder that
//! some project reference resolves to, outside the excluded folders.
use vstd::prelude::*;
use crate::models::{Backlog, BacklogContextV, Note, NoteKind, NoteV, RankedTaskV, TaskV};
use crate::text::vec_eq;
use crate::text::chars_of_string;
use crate::parser::backlog::{is_under_folder, under_folder};
use crate::parser::markdown::{parse_note, parsed_note};
use crate::parser::projects::{
    folder_match, lemma_resolution_deterministic, resolve_folder, resolves_to, ContextV, ProjectControl,
    CONTROL_DIR,
};
use crate::parser::{excluded, is_excluded_relative, NoteStore};

verus! {

/// A note file known by its path alone, before it is read.
pub open spec fn path_note(p: Seq<char>) -> NoteV {
    parsed_note(p, p, Seq::empty(), NoteKind::Regular)
}

pub open spec fn path_notes(ps: Seq<Seq<char>>) -> Seq<NoteV> {
    ps.map_values(|p: Seq<char>| path_note(p))
}

/// Whether `f` is the folder that some reference of the contexts resolves to
/// among the folders of the note files `ps`.
pub open spec fn scoped_folder(ps: Seq<Seq<char>>, cs: Seq<ContextV>, f: Seq<char>) -> bool {
    exists|c: int, k: int|
        0 <= c < cs.len() && 0 <= k < cs[c].refs.len() && #[trigger] resolves_to(path_notes(ps), cs[c].refs[k], f)
}

/// Whether the scoped scan parses note file `p` as a project note: outside
/// the control folder (parsed on its own) and the excluded folders, and
/// inside a folder that a reference resolves to.
pub open spec fn scoped_keep(ps: Seq<Seq<char>>, cs: Seq<ContextV>, p: Seq<char>) -> bool {
    &&& !under_folder(p, CONTROL_DIR@)
    &&& !excluded(p)
    &&& exists|f: Seq<char>| #[trigger] scoped_folder(ps, cs, f) && under_folder(p, f)
}

/// Whether the scoped scan parses `p` as a control note.
pub fn is_control_path(p: &str) -> (b: bool)
    ensures
        b == under_folder(p@, CONTROL_DIR@),
{
    is_under_folder(p, CONTROL_DIR)
}

/// The note files as notes known by their paths alone.
fn path_store(paths: &Vec<String>) -> (r: NoteStore)
    ensures
        r.notes.deep_view() == path_notes(paths.deep_view()),
{
    let ghost pv = paths.deep_view();
    let mut notes: Vec<Note> = Vec::new();
    let mut i: usize = 0;
    while i < paths.len()
        invariant
            i <= paths.len(),
            pv == paths.deep_view(),
            notes.deep_view() == path_notes(pv.take(i as int)),
        decreases paths.len() - i,
    {
        let ghost n0 = notes.deep_view();
        let n = parse_note(paths[i].as_str(), paths[i].as_str(), "", NoteKind::Regular);
        proof {
            reveal_strlit("");
            assert(""@ =~= Seq::<char>::empty());
        }
        notes.push(n);
        proof {
            assert(pv[i as int] == paths[i as int]@);
            assert(notes.deep_view() =~= n0.push(path_note(pv[i as int])));
            assert(path_notes(pv.take(i + 1)) =~= path_notes(pv.take(i as int)).push(path_note(pv[i as int])));
        }
        i += 1;
    }
    assert(pv.take(i as int) =~= pv);
    NoteStore::new(notes)
}

/// Whether one of the first `n` references resolves to `g`.
pub open spec fn resolved_among(nv: Seq<NoteV>, refs: Seq<Seq<char>>, n: int, g: Seq<char>) -> bool {
    exists|k: int| 0 <= k < n && #[trigger] resolves_to(nv, refs[k], g)
}

/// Whether a reference of one of the first `n` contexts resolves to `g`.
pub open spec fn resolved_upto(nv: Seq<NoteV>, cs: Seq<ContextV>, n: int, g: Seq<char>) -> bool {
    exists|c: int| 0 <= c < n && #[trigger] resolved_among(nv, cs[c].refs, cs[c].refs.len() as int, g)
}

proof fn lemma_among_step(nv: Seq<NoteV>, refs: Seq<Seq<char>>, n: int, g: Seq<char>)
    requires
        0 <= n,
    ensures
        resolved_among(nv, refs, n + 1, g) == (resolved_among(nv, refs, n, g) || resolves_to(nv, refs[n], g)),
{
    if resolved_among(nv, refs, n + 1, g) {
        let k = choose|k: int| 0 <= k < n + 1 && #[trigger] resolves_to(nv, refs[k], g);
        if k < n {
            assert(resolved_among(nv, refs, n, g));
        }
    }
    if resolves_to(nv, refs[n], g) {
        assert(0 <= n < n + 1);
    }
}

proof fn lemma_upto_step(nv: Seq<NoteV>, cs: Seq<ContextV>, n: int, g: Seq<char>)
    requires
        0 <= n,
    ensures
        resolved_upto(nv, cs, n + 1, g) == (resolved_upto(nv, cs, n, g) || resolved_among(nv, cs[n].refs, cs[n].refs.len() as int, g)),
{
    if resolved_upto(nv, cs, n + 1, g) {
        let c = choose|c: int| 0 <= c < n + 1 && #[trigger] resolved_among(nv, cs[c].refs, cs[c].refs.len() as int, g);
        if c < n {
            assert(resolved_upto(nv, cs, n, g));
        }
    }
}

proof fn lemma_upto_all(ps: Seq<Seq<char>>, cs: Seq<ContextV>, g: Seq<char>)
    ensures
        resolved_upto(path_notes(ps), cs, cs.len() as int, g) == scoped_folder(ps, cs, g),
{
    let nv = path_notes(ps);
    if scoped_folder(ps, cs, g) {
        let (c, k) = choose|c: int, k: int|
            0 <= c < cs.len() && 0 <= k < cs[c].refs.len() && #[trigger] resolves_to(path_notes(ps), cs[c].refs[k], g);
        assert(resolved_among(nv, cs[c].refs, cs[c].refs.len() as int, g));
    }
    if resolved_upto(nv, cs, cs.len() as int, g) {
        let c = choose|c: int| 0 <= c < cs.len() && #[trigger] resolved_among(nv, cs[c].refs, cs[c].refs.len() as int, g);
        let k = choose|k: int| 0 <= k < cs[c].refs.len() && #[trigger] resolves_to(nv, cs[c].refs[k], g);
    }
}

proof fn lemma_found_step(
    nv: Seq<NoteV>,
    rv: Seq<Seq<char>>,
    k: int,
    o0: Seq<Seq<char>>,
    ob: Seq<Seq<char>>,
    out: Seq<Seq<char>>,
    found: Option<Seq<char>>,
)
    requires
        0 <= k,
        forall|g: Seq<char>| ob.contains(g) <==> (o0.contains(g) || resolved_among(nv, rv, k, g)),
        match found {
            Some(x) => out == ob.push(x) && resolves_to(nv, rv[k], x),
            None => out == ob && forall|g: Seq<char>| !#[trigger] resolves_to(nv, rv[k], g),
        },
    ensures
        forall|g: Seq<char>| out.contains(g) <==> (o0.contains(g) || resolved_among(nv, rv, k + 1, g)),
{
    assert forall|g: Seq<char>| out.contains(g) <==> (o0.contains(g) || resolved_among(nv, rv, k + 1, g)) by {
        lemma_among_step(nv, rv, k, g);
        match found {
            Some(x) => {
                if resolves_to(nv, rv[k], g) {
                    lemma_resolution_deterministic(nv, rv[k], g, x);
                }
                if g == x {
                    assert(out[ob.len() as int] == g);
                }
                if out.contains(g) && g != x {
                    let q = choose|q: int| 0 <= q < out.len() && out[q] == g;
                    assert(ob[q] == g);
                }
                if ob.contains(g) {
                    let q = choose|q: int| 0 <= q < ob.len() && ob[q] == g;
                    assert(out[q] == g);
                }
            },
            None => {},
        }
    }
}

/// The folders the references of `control` resolve to among the folders
/// of the note files `paths` (one entry per resolved reference).
pub fn scoped_folders(paths: &Vec<String>, control: &ProjectControl) -> (r: Vec<String>)
    ensures
        forall|f: Seq<char>| r.deep_view().contains(f) <==> scoped_folder(paths.deep_view(), control.contexts.deep_view(), f),
{
    let ghost pv = paths.deep_view();
    let ghost cs = control.contexts.deep_view();
    let store = path_store(paths);
    let ghost nv = store.notes.deep_view();
    let mut out: Vec<String> = Vec::new();
    let mut c: usize = 0;
    while c < control.contexts.len()
        invariant
            c <= control.contexts.len(),
            cs == control.contexts.deep_view(),
            nv == path_notes(pv),
            nv == store.notes.deep_view(),
            forall|f: Seq<char>| out.deep_view().contains(f) <==> resolved_upto(nv, cs, c as int, f),
        decreases control.contexts.len() - c,
    {
        let refs = &control.contexts[c].refs;
        assert(cs[c as int].refs == refs.deep_view());
        let ghost o0 = out.deep_view();
        let ghost rv = refs.deep_view();
        let mut k: usize = 0;
        while k < refs.len()
            invariant
                k <= refs.len(),
                c < control.contexts.len(),
                cs == control.contexts.deep_view(),
                rv == refs.deep_view(),
                cs[c as int].refs == rv,
                nv == store.notes.deep_view(),
                forall|f: Seq<char>| o0.contains(f) <==> resolved_upto(nv, cs, c as int, f),
                forall|f: Seq<char>| out.deep_view().contains(f) <==> (o0.contains(f) || resolved_among(nv, rv, k as int, f)),
            decreases refs.len() - k,
        {
            assert(rv[k as int] == refs[k as int]@);
            let ghost ob = out.deep_view();
            let found = resolve_folder(&store, refs[k].as_str());
            let ghost fv: Option<Seq<char>> = if found is Some { Some(found->Some_0@) } else { None };
            proof {
                if found is None {
                    assert forall|g: Seq<char>| !#[trigger] resolves_to(nv, rv[k as int], g) by {
                        if resolves_to(nv, rv[k as int], g) {
                            let q = choose|q: u8| #[trigger] crate::parser::projects::best_match(nv, rv[k as int], q, g);
                            assert(folder_match(nv, rv[k as int], q, g));
                        }
                    }
                }
            }
            match found {
                Some(f) => {
                    out.push(f);
                },
                None => {},
            }
            proof {
                if fv is Some {
                    assert(out.deep_view() =~= ob.push(fv->Some_0));
                }
                lemma_found_step(nv, rv, k as int, o0, ob, out.deep_view(), fv);
            }
            k += 1;
        }
        proof {
            assert(rv.len() == refs.len());
            assert forall|f: Seq<char>| out.deep_view().contains(f) <==> resolved_upto(nv, cs, c + 1, f) by {
                lemma_upto_step(nv, cs, c as int, f);
                assert(out.deep_view().contains(f) <==> (o0.contains(f) || resolved_among(nv, rv, k as int, f)));
                assert(o0.contains(f) <==> resolved_upto(nv, cs, c as int, f));
                assert(cs[c as int].refs.len() as int == k as int);
            }
        }
        c += 1;
    }
    proof {
        assert forall|f: Seq<char>| out.deep_view().contains(f) <==> scoped_folder(pv, cs, f) by {
            lemma_upto_all(pv, cs, f);
        }
    }
    out
}

/// For each note file of `paths`, whether the scoped scan parses it as a
/// project note of `control`.
pub fn scoped_selection(paths: &Vec<String>, control: &ProjectControl) -> (r: Vec<bool>)
    ensures
        r.len() == paths.len(),
        forall|k: int| 0 <= k < paths.len() ==> r[k] == scoped_keep(paths.deep_view(), control.contexts.deep_view(), #[trigger] paths.deep_view()[k]),
{
    let ghost pv = paths.deep_view();
    let ghost cs = control.contexts.deep_view();
    let folders = scoped_folders(paths, control);
    let ghost fv = folders.deep_view();
    let mut keep: Vec<bool> = Vec::new();
    let mut i: usize = 0;
    while i < paths.len()
        invariant
            i <= paths.len(),
            pv == paths.deep_view(),
            cs == control.contexts.deep_view(),
            fv == folders.deep_view(),
            forall|f: Seq<char>| fv.contains(f) <==> scoped_folder(pv, cs, f),
            keep.len() == i,
            forall|k: int| 0 <= k < i ==> keep[k] == scoped_keep(pv, cs, #[trigger] pv[k]),
        decreases paths.len() - i,
    {
        let p = paths[i].as_str();
        assert(pv[i as int] == p@);
        let mut inside = false;
        if !is_control_path(p) && !is_excluded_relative(p) {
            let mut j: usize = 0;
            while j < folders.len()
                invariant
                    j <= folders.len(),
                    fv == folders.deep_view(),
                    !inside ==> forall|q: int| 0 <= q < j ==> !under_folder(p@, #[trigger] fv[q]),
                    inside ==> exists|q: int| 0 <= q < fv.len() && under_folder(p@, #[trigger] fv[q]),
                decreases folders.len() - j,
            {
                assert(fv[j as int] == folders[j as int]@);
                if !inside && is_under_folder(p, folders[j].as_str()) {
                    inside = true;
                }
                j += 1;
            }
            proof {
                if inside {
                    let q = choose|q: int| 0 <= q < fv.len() && under_folder(p@, #[trigger] fv[q]);
                    assert(fv.contains(fv[q]));
                    assert(scoped_folder(pv, cs, fv[q]));
                } else {
                    assert forall|f: Seq<char>| !(#[trigger] scoped_folder(pv, cs, f) && under_folder(p@, f)) by {
                        if scoped_folder(pv, cs, f) {
                            assert(fv.contains(f));
                            let q = choose|q: int| 0 <= q < fv.len() && fv[q] == f;
                        }
                    }
                }
            }
        }
        keep.push(inside);
        i += 1;
    }
    keep
}

// ─── Rescuing ranked entries ────────────────────────────────────────────────

/// The block IDs of the ranked entries that did not resolve, in order.
pub open spec fn unresolved_of(rs: Seq<RankedTaskV>) -> Seq<Seq<char>>
    decreases rs.len(),
{
    if rs.len() == 0 {
        Seq::empty()
    } else if rs.last().resolved {
        unresolved_of(rs.drop_last())
    } else {
        unresolved_of(rs.drop_last()).push(rs.last().block_id)
    }
}

pub open spec fn unresolved_ids(cs: Seq<BacklogContextV>) -> Seq<Seq<char>>
    decreases cs.len(),
{
    if cs.len() == 0 {
        Seq::empty()
    } else {
        unresolved_ids(cs.drop_last()) + unresolved_of(cs.last().ranked)
    }
}

/// The block IDs of a backlog's ranked entries that did not resolve: those
/// a backlog built from a scoped scan may find in notes it did not parse.
pub fn unresolved_block_ids(b: &Backlog) -> (r: Vec<String>)
    ensures
        r.deep_view() == unresolved_ids(b.contexts.deep_view()),
{
    let ghost cv = b.contexts.deep_view();
    let mut out: Vec<String> = Vec::new();
    let mut c: usize = 0;
    while c < b.contexts.len()
        invariant
            c <= b.contexts.len(),
            cv == b.contexts.deep_view(),
            out.deep_view() == unresolved_ids(cv.take(c as int)),
        decreases b.contexts.len() - c,
    {
        proof {
            assert(cv.take(c + 1).drop_last() =~= cv.take(c as int));
            assert(cv[c as int] == b.contexts[c as int].deep_view());
        }
        let ranked = &b.contexts[c].ranked;
        let ghost rv = ranked.deep_view();
        let ghost base = out.deep_view();
        let mut k: usize = 0;
        while k < ranked.len()
            invariant
                k <= ranked.len(),
                rv == ranked.deep_view(),
                out.deep_view() == base + unresolved_of(rv.take(k as int)),
            decreases ranked.len() - k,
        {
            proof {
                assert(rv.take(k + 1).drop_last() =~= rv.take(k as int));
                assert(rv[k as int] == ranked[k as int].deep_view());
            }
            if !ranked[k].resolved {
                let ghost o0 = out.deep_view();
                let id = ranked[k].block_id.clone();
                proof {
                    assert(id@ == ranked[k as int].block_id@);
                }
                out.push(id);
                assert(out.deep_view() =~= o0.push(rv[k as int].block_id));
            }
            assert(base + unresolved_of(rv.take(k + 1)) =~= if rv[k as int].resolved {
                base + unresolved_of(rv.take(k as int))
            } else {
                (base + unresolved_of(rv.take(k as int))).push(rv[k as int].block_id)
            });
            k += 1;
        }
        assert(rv.take(k as int) =~= rv);
        assert(unresolved_ids(cv.take(c + 1)) =~= unresolved_ids(cv.take(c as int)) + unresolved_of(rv));
        c += 1;
    }
    assert(cv.take(c as int) =~= cv);
    out
}

/// Whether task `t` carries one of the block IDs `ids`.
pub open spec fn task_bears(t: TaskV, ids: Seq<Seq<char>>) -> bool {
    match t.block_id {
        Some(x) => ids.contains(x),
        None => false,
    }
}

/// Whether a task of note `n` carries one of the block IDs `ids`.
pub open spec fn bears_block_id(n: NoteV, ids: Seq<Seq<char>>) -> bool {
    exists|t: int| 0 <= t < n.tasks.len() && task_bears(#[trigger] n.tasks[t], ids)
}

/// Whether a note read outside the scoped scan is to be added to rescue a
/// ranked entry: a task of it carries one of the unresolved block IDs.
pub fn bears_any_block_id(note: &Note, ids: &Vec<String>) -> (b: bool)
    ensures
        b == bears_block_id(note.deep_view(), ids.deep_view()),
{
    let ghost tv = note.tasks.deep_view();
    let ghost iv = ids.deep_view();
    let mut t: usize = 0;
    while t < note.tasks.len()
        invariant
            t <= note.tasks.len(),
            tv == note.tasks.deep_view(),
            iv == ids.deep_view(),
            forall|q: int| 0 <= q < t ==> !task_bears(#[trigger] tv[q], iv),
        decreases note.tasks.len() - t,
    {
        assert(tv[t as int] == note.tasks[t as int].deep_view());
        match &note.tasks[t].block_id {
            Some(id) => {
                let idc = chars_of_string(id);
                assert(tv[t as int].block_id == Some(id@));
                let mut k: usize = 0;
                while k < ids.len()
                    invariant
                        k <= ids.len(),
                        iv == ids.deep_view(),
                        idc@ == id@,
                        0 <= t < tv.len(),
                        tv == note.tasks.deep_view(),
                        tv[t as int].block_id == Some(id@),
                        forall|q: int| 0 <= q < k ==> iv[q] != idc@,
                    decreases ids.len() - k,
                {
                    assert(iv[k as int] == ids[k as int]@);
                    if vec_eq(&chars_of_string(&ids[k]), &idc) {
                        assert(iv.contains(id@));
                        assert(task_bears(tv[t as int], iv));
                        assert(note.deep_view().tasks == tv);
                        return true;
                    }
                    k += 1;
                }
                proof {
                    if iv.contains(id@) {
                        let q = choose|q: int| 0 <= q < iv.len() && iv[q] == id@;
                    }
                }
            },
            None => {},
        }
        t += 1;
    }
    false
}

} // verus!
