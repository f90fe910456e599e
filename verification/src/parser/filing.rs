//! Filing targets: the regular notes under `Notes/` that daily-note content
//! can be filed into.
use vstd::prelude::*;
use crate::analyzer::{hub_like, hub_section_names, hub_sections, is_hub_like, is_special_folder, special_folder};
use crate::models::{FilingTarget, FilingTargetV, Note, NoteKind, NoteV, SectionV};
use crate::parser::NoteStore;
use crate::text::{
    chars_of, chars_of_string, copy_strings, has_prefix, join, join_vec, split_on, split_vec,
    starts_with, string_of,
};

verus! {

/// The folders between `Notes/` and the file name, joined with `/` (empty
/// for a note directly in `Notes/`).
pub open spec fn folder_path_of(rp: Seq<char>) -> Seq<char> {
    let parts = split_on(rp, '/');
    if parts.len() > 2 {
        join(parts.subrange(1, parts.len() - 1), "/"@)
    } else {
        Seq::empty()
    }
}

pub open spec fn headings_of(ss: Seq<SectionV>) -> Seq<Seq<char>> {
    ss.map_values(|s: SectionV| s.heading)
}

/// A hub note has a section heading containing a hub section name.
pub open spec fn any_hub_heading(hs: Seq<Seq<char>>) -> bool {
    exists|i: int| 0 <= i < hs.len() && hub_like(#[trigger] hs[i])
}

/// The filing target a note gives: regular notes under `Notes/` outside
/// the special folders.
pub open spec fn target_of(n: NoteV) -> Option<FilingTargetV> {
    if n.kind != NoteKind::Regular || special_folder(n.relative_path) || !has_prefix(n.relative_path, "Notes/"@) {
        None
    } else {
        Some(
            FilingTargetV {
                title: n.title,
                file_path: n.file_path,
                relative_path: n.relative_path,
                jd_id: n.title_jd_id,
                folder_path: folder_path_of(n.relative_path),
                is_hub: any_hub_heading(headings_of(n.sections)),
                section_headings: headings_of(n.sections),
                tags: n.tags,
                mentions: n.mentions,
            },
        )
    }
}

pub open spec fn filing_targets(nv: Seq<NoteV>) -> Seq<FilingTargetV>
    decreases nv.len(),
{
    if nv.len() == 0 {
        Seq::empty()
    } else {
        match target_of(nv.last()) {
            Some(t) => filing_targets(nv.drop_last()).push(t),
            None => filing_targets(nv.drop_last()),
        }
    }
}

fn folder_path_exec(rp: &Vec<char>) -> (r: Vec<char>)
    ensures
        r@ == folder_path_of(rp@),
{
    let parts = split_vec(rp, '/');
    if parts.len() > 2 {
        let ghost pv = parts.deep_view();
        let mut mid: Vec<Vec<char>> = Vec::new();
        let mut i: usize = 1;
        while i < parts.len() - 1
            invariant
                1 <= i <= parts.len() - 1,
                parts.len() > 2,
                pv == parts.deep_view(),
                mid.deep_view() == pv.subrange(1, i as int),
            decreases parts.len() - i,
        {
            let ghost m0 = mid.deep_view();
            let c = parts[i].clone();
            proof {
                assert(c.deep_view() =~= pv[i as int]);
            }
            mid.push(c);
            assert(mid.deep_view() =~= m0.push(pv[i as int]));
            i += 1;
            assert(mid.deep_view() =~= pv.subrange(1, i as int));
        }
        join_vec(&mid, &chars_of("/"))
    } else {
        Vec::new()
    }
}

fn target_exec(note: &Note, names: &Vec<Vec<char>>) -> (r: Option<FilingTarget>)
    requires
        names.deep_view() == hub_sections(),
    ensures
        r.deep_view() == target_of(note.deep_view()),
{
    let rp = chars_of_string(&note.relative_path);
    if note.kind != NoteKind::Regular || is_special_folder(&rp) || !starts_with(&rp, &chars_of("Notes/")) {
        return None;
    }
    let ghost sv = note.sections.deep_view();
    let mut heads: Vec<String> = Vec::new();
    let mut hub = false;
    let mut i: usize = 0;
    while i < note.sections.len()
        invariant
            i <= note.sections.len(),
            sv == note.sections.deep_view(),
            names.deep_view() == hub_sections(),
            heads.deep_view() == headings_of(sv.take(i as int)),
            hub == any_hub_heading(headings_of(sv.take(i as int))),
        decreases note.sections.len() - i,
    {
        proof {
            assert(sv[i as int] == note.sections[i as int].deep_view());
        }
        let h = chars_of_string(&note.sections[i].heading);
        let like = is_hub_like(&h, names);
        let ghost h0 = heads.deep_view();
        heads.push(string_of(&h));
        proof {
            let hs1 = headings_of(sv.take(i + 1));
            assert(hs1 =~= headings_of(sv.take(i as int)).push(h@));
            assert(heads.deep_view() =~= h0.push(h@));
            if like {
                assert(hub_like(hs1[i as int]));
            }
            let hs0 = headings_of(sv.take(i as int));
            if any_hub_heading(hs1) && !like {
                let k = choose|k: int| 0 <= k < hs1.len() && hub_like(#[trigger] hs1[k]);
                assert(hs0[k] == hs1[k]);
            }
            if any_hub_heading(hs0) {
                let k = choose|k: int| 0 <= k < hs0.len() && hub_like(#[trigger] hs0[k]);
                assert(hs0[k] == hs1[k]);
            }
            assert(hub || like <==> any_hub_heading(hs1));
        }
        hub = hub || like;
        i += 1;
    }
    assert(sv.take(i as int) =~= sv);
    Some(FilingTarget {
        title: string_of(&chars_of_string(&note.title)),
        file_path: string_of(&chars_of_string(&note.file_path)),
        relative_path: string_of(&rp),
        jd_id: match &note.title_jd_id {
            Some(x) => Some(string_of(&chars_of_string(x))),
            None => None,
        },
        folder_path: string_of(&folder_path_exec(&rp)),
        is_hub: hub,
        section_headings: heads,
        tags: copy_strings(&note.tags),
        mentions: copy_strings(&note.mentions),
    })
}

/// The filing targets of the store, in note order: regular notes under
/// `Notes/` outside trash, archive, templates and attachments, with their
/// folder path below `Notes/`, section headings, tags and mentions, marked
/// as hubs when a heading contains a hub section name.
pub fn build_filing_targets(store: &NoteStore) -> (r: Vec<FilingTarget>)
    ensures
        r.deep_view() == filing_targets(store.notes.deep_view()),
{
    let ghost nv = store.notes.deep_view();
    let names = hub_section_names();
    let mut out: Vec<FilingTarget> = Vec::new();
    let mut i: usize = 0;
    while i < store.notes.len()
        invariant
            i <= store.notes.len(),
            nv == store.notes.deep_view(),
            names.deep_view() == hub_sections(),
            out.deep_view() == filing_targets(nv.take(i as int)),
        decreases store.notes.len() - i,
    {
        proof {
            assert(nv.take(i + 1).drop_last() =~= nv.take(i as int));
            assert(nv[i as int] == store.notes[i as int].deep_view());
        }
        match target_exec(&store.notes[i], &names) {
            Some(t) => {
                let ghost o0 = out.deep_view();
                out.push(t);
                assert(out.deep_view() =~= o0.push(t.deep_view()));
            },
            None => {},
        }
        i += 1;
    }
    assert(nv.take(i as int) =~= nv);
    out
}

/// Whether `idx` lists, in increasing order, exactly the notes that are
/// filing targets, and `ts` holds their targets in that order.
pub open spec fn targets_from(nv: Seq<NoteV>, idx: Seq<int>, ts: Seq<FilingTargetV>) -> bool {
    &&& idx.len() == ts.len()
    &&& forall|k: int| 0 <= k < idx.len() ==> 0 <= #[trigger] idx[k] < nv.len() && target_of(nv[idx[k]]) == Some(ts[k])
    &&& forall|k1: int, k2: int| 0 <= k1 < k2 < idx.len() ==> #[trigger] idx[k1] < #[trigger] idx[k2]
    &&& forall|i: int| 0 <= i < nv.len() && (#[trigger] target_of(nv[i])) is Some ==> idx.contains(i)
}

/// The filing targets are one per regular note under `Notes/` outside the
/// special folders, in note order.
pub proof fn lemma_filing_targets_law(nv: Seq<NoteV>)
    ensures
        exists|idx: Seq<int>| #[trigger] targets_from(nv, idx, filing_targets(nv)),
    decreases nv.len(),
{
    if nv.len() == 0 {
        assert(targets_from(nv, Seq::empty(), filing_targets(nv)));
    } else {
        let d = nv.drop_last();
        lemma_filing_targets_law(d);
        let idx0 = choose|idx: Seq<int>| #[trigger] targets_from(d, idx, filing_targets(d));
        let n = nv.len() - 1;
        let idx = if target_of(nv[n]) is Some { idx0.push(n) } else { idx0 };
        let ts = filing_targets(nv);
        assert forall|k: int| 0 <= k < idx.len() implies 0 <= #[trigger] idx[k] < nv.len() && target_of(nv[idx[k]]) == Some(ts[k]) by {
            if k < idx0.len() {
                assert(idx[k] == idx0[k]);
                assert(nv[idx0[k]] == d[idx0[k]]);
                assert(ts[k] == filing_targets(d)[k]);
            }
        }
        assert forall|k1: int, k2: int| 0 <= k1 < k2 < idx.len() implies #[trigger] idx[k1] < #[trigger] idx[k2] by {
            assert(idx[k1] == idx0[k1]);
            if k2 < idx0.len() {
                assert(idx[k2] == idx0[k2]);
            }
        }
        assert forall|i: int| 0 <= i < nv.len() && (#[trigger] target_of(nv[i])) is Some implies idx.contains(i) by {
            if i < n {
                assert(nv[i] == d[i]);
                assert(target_of(d[i]) is Some);
                let k = choose|k: int| 0 <= k < idx0.len() && idx0[k] == i;
                assert(idx[k] == i);
            } else {
                assert(idx[idx.len() - 1] == i);
            }
        }
        assert(targets_from(nv, idx, ts));
    }
}

} // verus!
