//! Orphaned notes: regular notes that no wiki link in another note names.
use vstd::prelude::*;
use crate::analyzer::{is_special_folder, make_finding, special_folder, Analyzer};
use crate::models::{Finding, FindingCategory, FindingV, NoteKind, NoteV, Severity, WikiLinkV};
use crate::parser::NoteStore;
use crate::text::{chars_of, chars_of_string, concat, has_prefix, lowercase, starts_with, to_lowercase, vec_eq};

verus! {

pub struct OrphanedNoteAnalyzer;

/// The lowercased targets of the links `ls` of note `src`, each with `src`.
pub open spec fn link_targets(ls: Seq<WikiLinkV>, src: usize) -> Seq<(Seq<char>, usize)> {
    ls.map_values(|l: WikiLinkV| (lowercase(l.target), src))
}

/// The lowercased targets of every note's links, each with the index of
/// the note the link is in.
pub open spec fn linked_titles(nv: Seq<NoteV>) -> Seq<(Seq<char>, usize)>
    decreases nv.len(),
{
    if nv.len() == 0 {
        Seq::empty()
    } else {
        linked_titles(nv.drop_last()) + link_targets(nv.last().wiki_links, (nv.len() - 1) as usize)
    }
}

/// Whether a link in a note other than note `i` names `t`.
pub open spec fn linked_by_other(linked: Seq<(Seq<char>, usize)>, t: Seq<char>, i: int) -> bool {
    exists|k: int| 0 <= k < linked.len() && #[trigger] linked[k].0 == t && linked[k].1 != i
}

/// The finding for note `i`, `n`, when it is a regular note outside the
/// special folders and the top-level slips folder and no link in another
/// note names its title (ignoring case); its own links do not count.
pub open spec fn orphan_of(n: NoteV, i: int, linked: Seq<(Seq<char>, usize)>) -> Option<FindingV> {
    if n.kind != NoteKind::Regular || special_folder(n.relative_path)
        || has_prefix(n.relative_path, "Notes/00 - Slips"@) || linked_by_other(linked, lowercase(n.title), i) {
        None
    } else {
        Some(
            FindingV {
                severity: Severity::Info,
                category: FindingCategory::OrphanedNote,
                file_path: n.relative_path,
                description: "Orphaned note: no other notes link to '"@ + n.title + "'"@,
                suggestion: Some(
                    "Consider adding a [[link]] to this note from a relevant hub note or daily note"@,
                ),
                line_number: None,
                context: None,
                is_folder: false,
            },
        )
    }
}

pub open spec fn orphans_of(nv: Seq<NoteV>, linked: Seq<(Seq<char>, usize)>) -> Seq<FindingV>
    decreases nv.len(),
{
    if nv.len() == 0 {
        Seq::empty()
    } else {
        match orphan_of(nv.last(), nv.len() - 1, linked) {
            Some(f) => orphans_of(nv.drop_last(), linked).push(f),
            None => orphans_of(nv.drop_last(), linked),
        }
    }
}

pub open spec fn orphan_findings(nv: Seq<NoteV>) -> Seq<FindingV> {
    orphans_of(nv, linked_titles(nv))
}

fn linked_titles_exec(store: &NoteStore) -> (r: Vec<(Vec<char>, usize)>)
    ensures
        r.deep_view() == linked_titles(store.notes.deep_view()),
{
    let ghost nv = store.notes.deep_view();
    let mut out: Vec<(Vec<char>, usize)> = Vec::new();
    let mut i: usize = 0;
    while i < store.notes.len()
        invariant
            i <= store.notes.len(),
            nv == store.notes.deep_view(),
            out.deep_view() == linked_titles(nv.take(i as int)),
        decreases store.notes.len() - i,
    {
        proof {
            assert(nv.take(i + 1).drop_last() =~= nv.take(i as int));
            assert(nv[i as int] == store.notes[i as int].deep_view());
        }
        let note = &store.notes[i];
        let ghost base = out.deep_view();
        let ghost lv = note.wiki_links.deep_view();
        let mut k: usize = 0;
        while k < note.wiki_links.len()
            invariant
                k <= note.wiki_links.len(),
                lv == note.wiki_links.deep_view(),
                out.deep_view() == base + link_targets(lv.take(k as int), i),
            decreases note.wiki_links.len() - k,
        {
            proof {
                assert(lv[k as int] == note.wiki_links[k as int].deep_view());
            }
            let t = to_lowercase(&chars_of_string(&note.wiki_links[k].target));
            let ghost o0 = out.deep_view();
            proof {
                crate::text::lemma_deep_chars(t);
            }
            out.push((t, i));
            proof {
                assert(out.deep_view() =~= o0.push((lowercase(lv[k as int].target), i)));
                assert(link_targets(lv.take(k + 1), i) =~= link_targets(lv.take(k as int), i).push((lowercase(lv[k as int].target), i)));
                assert(out.deep_view() =~= base + link_targets(lv.take(k + 1), i));
            }
            k += 1;
        }
        assert(lv.take(k as int) =~= lv);
        assert((nv.take(i + 1).len() - 1) as usize == i);
        i += 1;
    }
    assert(nv.take(i as int) =~= nv);
    out
}

/// Whether a link of a note other than note `i` names `t`.
fn linked_by_other_exec(linked: &Vec<(Vec<char>, usize)>, t: &Vec<char>, i: usize) -> (b: bool)
    ensures
        b == linked_by_other(linked.deep_view(), t@, i as int),
{
    let ghost lv = linked.deep_view();
    let mut k: usize = 0;
    while k < linked.len()
        invariant
            k <= linked.len(),
            lv == linked.deep_view(),
            forall|q: int| 0 <= q < k ==> !(#[trigger] lv[q].0 == t@ && lv[q].1 != i),
        decreases linked.len() - k,
    {
        assert(lv[k as int].0 == linked[k as int].0@ && lv[k as int].1 == linked[k as int].1);
        if linked[k].1 != i && vec_eq(&linked[k].0, t) {
            assert(lv[k as int].0 == t@ && lv[k as int].1 != i);
            return true;
        }
        k += 1;
    }
    false
}

impl Analyzer for OrphanedNoteAnalyzer {
    fn analyze(&self, store: &NoteStore) -> (r: Vec<Finding>)
        ensures
            r.deep_view() == orphan_findings(store.notes.deep_view()),
            forall|k: int| 0 <= k < r.len() ==> #[trigger] orphan_sourced(store.notes.deep_view(), r.deep_view()[k]),
    {
        let ghost nv = store.notes.deep_view();
        let linked = linked_titles_exec(store);
        let mut findings: Vec<Finding> = Vec::new();
        let mut i: usize = 0;
        while i < store.notes.len()
            invariant
                i <= store.notes.len(),
                nv == store.notes.deep_view(),
                linked.deep_view() == linked_titles(nv),
                findings.deep_view() == orphans_of(nv.take(i as int), linked_titles(nv)),
            decreases store.notes.len() - i,
        {
            proof {
                assert(nv.take(i + 1).drop_last() =~= nv.take(i as int));
                assert(nv[i as int] == store.notes[i as int].deep_view());
            }
            let note = &store.notes[i];
            let rp = chars_of_string(&note.relative_path);
            if note.kind == NoteKind::Regular && !is_special_folder(&rp)
                && !starts_with(&rp, &chars_of("Notes/00 - Slips")) {
                let lower = to_lowercase(&chars_of_string(&note.title));
                if !linked_by_other_exec(&linked, &lower, i) {
                    let title = chars_of_string(&note.title);
                    let desc = concat(
                        &concat(&chars_of("Orphaned note: no other notes link to '"), &title),
                        &chars_of("'"),
                    );
                    let f = make_finding(
                        Severity::Info,
                        FindingCategory::OrphanedNote,
                        &rp,
                        &desc,
                        Some(chars_of("Consider adding a [[link]] to this note from a relevant hub note or daily note")),
                        None,
                        false,
                    );
                    let ghost f0 = findings.deep_view();
                    findings.push(f);
                    assert(findings.deep_view() =~= f0.push(orphan_of(nv[i as int], i as int, linked_titles(nv))->0));
                }
            }
            i += 1;
        }
        assert(nv.take(i as int) =~= nv);
        proof {
            lemma_orphan_findings_law(nv);
            assert(findings.deep_view().len() == findings.len());
            assert forall|k: int| 0 <= k < findings.len() implies #[trigger] orphan_sourced(nv, findings.deep_view()[k]) by {
                assert(findings.deep_view()[k] == orphan_findings(nv)[k]);
            }
        }
        findings
    }
}

/// Whether some link of a note other than note `i` names `t` (ignoring
/// case).
pub open spec fn named_by_other(nv: Seq<NoteV>, t: Seq<char>, i: int) -> bool {
    exists|j: int, l: int| 0 <= j < nv.len() && j != i && 0 <= l < nv[j].wiki_links.len()
        && lowercase(#[trigger] nv[j].wiki_links[l].target) == t
}

proof fn lemma_linked_titles_named(nv: Seq<NoteV>, t: Seq<char>, i: int)
    requires
        nv.len() <= usize::MAX,
        0 <= i,
    ensures
        linked_by_other(linked_titles(nv), t, i) <==> named_by_other(nv, t, i),
    decreases nv.len(),
{
    if nv.len() > 0 {
        let d = nv.drop_last();
        lemma_linked_titles_named(d, t, i);
        let n = nv.len() - 1;
        let lt = link_targets(nv.last().wiki_links, n as usize);
        let base = linked_titles(d);
        assert(linked_titles(nv) == base + lt);
        if linked_by_other(linked_titles(nv), t, i) {
            let k = choose|k: int| 0 <= k < linked_titles(nv).len() && #[trigger] linked_titles(nv)[k].0 == t && linked_titles(nv)[k].1 != i;
            if k < base.len() {
                assert(linked_titles(nv)[k] == base[k]);
                assert(linked_by_other(base, t, i));
                let (j, l) = choose|j: int, l: int| 0 <= j < d.len() && j != i && 0 <= l < d[j].wiki_links.len()
                    && lowercase(#[trigger] d[j].wiki_links[l].target) == t;
                assert(nv[j] == d[j]);
                assert(lowercase(nv[j].wiki_links[l].target) == t);
            } else {
                let l = k - base.len();
                assert(linked_titles(nv)[k] == lt[l]);
                assert(lowercase(nv[n].wiki_links[l].target) == t);
            }
        }
        if named_by_other(nv, t, i) {
            let (j, l) = choose|j: int, l: int| 0 <= j < nv.len() && j != i && 0 <= l < nv[j].wiki_links.len()
                && lowercase(#[trigger] nv[j].wiki_links[l].target) == t;
            if j < n {
                assert(nv[j] == d[j]);
                assert(lowercase(d[j].wiki_links[l].target) == t);
                assert(named_by_other(d, t, i));
                let k = choose|k: int| 0 <= k < base.len() && #[trigger] base[k].0 == t && base[k].1 != i;
                assert(linked_titles(nv)[k] == base[k]);
            } else {
                let k = base.len() + l;
                assert(linked_titles(nv)[k] == lt[l]);
                assert(linked_titles(nv)[k].0 == t);
            }
        }
    }
}

/// Whether finding `f` reports note `i` as orphaned: a regular note outside
/// the special folders and the top-level slips folder whose title no link
/// in any other note names.
pub open spec fn orphan_reported(nv: Seq<NoteV>, f: FindingV, i: int) -> bool {
    &&& 0 <= i < nv.len()
    &&& nv[i].kind == NoteKind::Regular
    &&& !special_folder(nv[i].relative_path)
    &&& !has_prefix(nv[i].relative_path, "Notes/00 - Slips"@)
    &&& !named_by_other(nv, lowercase(nv[i].title), i)
    &&& f.category == FindingCategory::OrphanedNote
    &&& f.file_path == nv[i].relative_path
    &&& f.description == "Orphaned note: no other notes link to '"@ + nv[i].title + "'"@
}

pub open spec fn orphan_sourced(nv: Seq<NoteV>, f: FindingV) -> bool {
    exists|i: int| #[trigger] orphan_reported(nv, f, i)
}

proof fn lemma_orphans_of_source(all: Seq<NoteV>, m: int, k: int)
    requires
        all.len() <= usize::MAX,
        0 <= m <= all.len(),
        0 <= k < orphans_of(all.take(m), linked_titles(all)).len(),
    ensures
        orphan_sourced(all, orphans_of(all.take(m), linked_titles(all))[k]),
    decreases m,
{
    let lk = linked_titles(all);
    let pre = all.take(m);
    assert(pre.drop_last() =~= all.take(m - 1));
    let rest = orphans_of(all.take(m - 1), lk);
    if k < rest.len() {
        if orphan_of(pre.last(), m - 1, lk) is Some {
            assert(orphans_of(pre, lk)[k] == rest[k]);
        }
        lemma_orphans_of_source(all, m - 1, k);
    } else {
        let i = m - 1;
        assert(pre.last() == all[i]);
        lemma_linked_titles_named(all, lowercase(all[i].title), i);
        assert(orphan_reported(all, orphans_of(pre, lk)[k], i));
    }
}

/// Every orphaned-note finding reports a regular note (never a daily,
/// weekly, monthly, quarterly, yearly or template note) outside the
/// special folders and the top-level slips folder, whose title no link in
/// any other note names; its own links do not count.
pub proof fn lemma_orphan_findings_law(nv: Seq<NoteV>)
    requires
        nv.len() <= usize::MAX,
    ensures
        forall|k: int| 0 <= k < orphan_findings(nv).len() ==> #[trigger] orphan_sourced(nv, orphan_findings(nv)[k]),
{
    assert(nv.take(nv.len() as int) =~= nv);
    assert forall|k: int| 0 <= k < orphan_findings(nv).len() implies #[trigger] orphan_sourced(nv, orphan_findings(nv)[k]) by {
        lemma_orphans_of_source(nv, nv.len() as int, k);
    }
}

} // verus!
