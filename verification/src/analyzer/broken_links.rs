//! Broken links: wiki links that name no note's title, and date links with
//! no daily note in `Calendar/`.
use vstd::prelude::*;
use crate::analyzer::{make_finding, Analyzer};
use crate::models::{Finding, FindingCategory, FindingV, NoteKind, NoteV, Severity, WikiLinkV};
use crate::parser::{daily_path, last_with_path, lemma_last_with_path, NoteStore};
use crate::text::{chars_of, chars_of_string, concat, contains, contains_str, lowercase};

verus! {

pub struct BrokenLinkAnalyzer;

/// A `YYYY-MM-DD` date (`^\d{4}-\d{2}-\d{2}$`, ASCII digits).
pub open spec fn date_text(t: Seq<char>) -> bool {
    &&& t.len() == 10
    &&& forall|i: int| 0 <= i < 10 && i != 4 && i != 7 ==> '0' <= #[trigger] t[i] <= '9'
    &&& t[4] == '-'
    &&& t[7] == '-'
}

/// Whether some note's title equals `t`, ignoring case.
pub open spec fn titled(nv: Seq<NoteV>, t: Seq<char>) -> bool {
    exists|i: int| 0 <= i < nv.len() && lowercase(#[trigger] nv[i].title) == lowercase(t)
}

/// Notes whose links are not checked: templates, trash, attachments.
pub open spec fn link_check_skipped(n: NoteV) -> bool {
    n.kind == NoteKind::Template || contains(n.relative_path, "@Templates"@)
        || contains(n.relative_path, "@Trash"@) || contains(n.relative_path, "_attachments"@)
}

/// Whether the daily note of date `d` (`Calendar/YYYYMMDD.md`) is among
/// the notes.
pub open spec fn has_daily(nv: Seq<NoteV>, d: Seq<char>) -> bool {
    exists|i: int| 0 <= i < nv.len() && #[trigger] nv[i].relative_path == daily_path(d)
}

/// Whether a link to `t` is broken: a date with no daily note, or any other
/// target that names no note's title.
pub open spec fn link_broken(nv: Seq<NoteV>, t: Seq<char>) -> bool {
    if date_text(t) {
        !has_daily(nv, t)
    } else {
        !titled(nv, t)
    }
}

pub open spec fn broken_suggestion(t: Seq<char>) -> Seq<char> {
    if date_text(t) {
        "No daily note found for '"@ + t + "' in Calendar/. Create it or fix the link."@
    } else {
        "No note found with title '"@ + t + "'. Create it or fix the link."@
    }
}

pub open spec fn broken_link(n: NoteV, l: WikiLinkV) -> FindingV {
    FindingV {
        severity: Severity::Warning,
        category: FindingCategory::BrokenLink,
        file_path: n.relative_path,
        description: "Broken wiki-link: [["@ + l.target + "]]"@,
        suggestion: Some(broken_suggestion(l.target)),
        line_number: Some(l.line_number),
        context: Some("[["@ + l.target + "]]"@),
        is_folder: false,
    }
}

/// The broken links among `ls` of note `n`, in order.
pub open spec fn broken_in(nv: Seq<NoteV>, n: NoteV, ls: Seq<WikiLinkV>) -> Seq<FindingV>
    decreases ls.len(),
{
    if ls.len() == 0 {
        Seq::empty()
    } else if link_broken(nv, ls.last().target) {
        broken_in(nv, n, ls.drop_last()).push(broken_link(n, ls.last()))
    } else {
        broken_in(nv, n, ls.drop_last())
    }
}

pub open spec fn broken_from(all: Seq<NoteV>, nv: Seq<NoteV>) -> Seq<FindingV>
    decreases nv.len(),
{
    if nv.len() == 0 {
        Seq::empty()
    } else if link_check_skipped(nv.last()) {
        broken_from(all, nv.drop_last())
    } else {
        broken_from(all, nv.drop_last()) + broken_in(all, nv.last(), nv.last().wiki_links)
    }
}

/// The broken-link findings of the notes `nv`.
pub open spec fn broken_findings(nv: Seq<NoteV>) -> Seq<FindingV> {
    broken_from(nv, nv)
}

fn date_text_exec(t: &Vec<char>) -> (b: bool)
    ensures
        b == date_text(t@),
{
    if t.len() != 10 || t[4] != '-' || t[7] != '-' {
        return false;
    }
    let mut i: usize = 0;
    while i < 10
        invariant
            i <= 10 == t.len(),
            forall|k: int| 0 <= k < i && k != 4 && k != 7 ==> '0' <= #[trigger] t@[k] <= '9',
        decreases 10 - i,
    {
        if i != 4 && i != 7 && !('0' <= t[i] && t[i] <= '9') {
            return false;
        }
        i += 1;
    }
    true
}

impl Analyzer for BrokenLinkAnalyzer {
    fn analyze(&self, store: &NoteStore) -> (r: Vec<Finding>)
        ensures
            r.deep_view() == broken_findings(store.notes.deep_view()),
    {
        let ghost nv = store.notes.deep_view();
        let mut findings: Vec<Finding> = Vec::new();
        let mut i: usize = 0;
        while i < store.notes.len()
            invariant
                i <= store.notes.len(),
                nv == store.notes.deep_view(),
                findings.deep_view() == broken_from(nv, nv.take(i as int)),
            decreases store.notes.len() - i,
        {
            proof {
                assert(nv.take(i + 1).drop_last() =~= nv.take(i as int));
                assert(nv[i as int] == store.notes[i as int].deep_view());
            }
            let note = &store.notes[i];
            let rp = chars_of_string(&note.relative_path);
            let skip = note.kind == NoteKind::Template || contains_str(&rp, "@Templates")
                || contains_str(&rp, "@Trash") || contains_str(&rp, "_attachments");
            if !skip {
                let ghost base = findings.deep_view();
                let ghost lv = note.wiki_links.deep_view();
                let mut k: usize = 0;
                while k < note.wiki_links.len()
                    invariant
                        k <= note.wiki_links.len(),
                        nv == store.notes.deep_view(),
                        lv == note.wiki_links.deep_view(),
                        rp@ == note.relative_path@,
                        findings.deep_view() == base + broken_in(nv, note.deep_view(), lv.take(k as int)),
                    decreases note.wiki_links.len() - k,
                {
                    proof {
                        assert(lv.take(k + 1).drop_last() =~= lv.take(k as int));
                        assert(lv[k as int] == note.wiki_links[k as int].deep_view());
                    }
                    let link = &note.wiki_links[k];
                    let target = chars_of_string(&link.target);
                    let is_date = date_text_exec(&target);
                    let broken = if is_date {
                        let found = store.has_daily_note(link.target.as_str());
                        proof {
                            lemma_last_with_path(store.notes@, daily_path(link.target@));
                            if found {
                                let q = last_with_path(store.notes@, daily_path(link.target@))->Some_0;
                                assert(nv[q].relative_path == store.notes@[q].relative_path@);
                            }
                            if has_daily(nv, link.target@) {
                                let q = choose|q: int| 0 <= q < nv.len() && #[trigger] nv[q].relative_path == daily_path(link.target@);
                                assert(nv[q].relative_path == store.notes@[q].relative_path@);
                            }
                        }
                        !found
                    } else {
                        let known = store.has_note_titled(link.target.as_str());
                        proof {
                            if known {
                                let q = choose|q: int| 0 <= q < store.notes@.len()
                                    && lowercase(#[trigger] store.notes@[q].title@) == lowercase(link.target@);
                                assert(nv[q].title == store.notes@[q].title@);
                            }
                            if titled(nv, link.target@) {
                                let q = choose|q: int| 0 <= q < nv.len() && lowercase(#[trigger] nv[q].title) == lowercase(link.target@);
                                assert(nv[q].title == store.notes@[q].title@);
                            }
                        }
                        !known
                    };
                    if broken {
                        let desc = concat(&concat(&chars_of("Broken wiki-link: [["), &target), &chars_of("]]"));
                        let sugg = if is_date {
                            concat(
                                &concat(&chars_of("No daily note found for '"), &target),
                                &chars_of("' in Calendar/. Create it or fix the link."),
                            )
                        } else {
                            concat(
                                &concat(&chars_of("No note found with title '"), &target),
                                &chars_of("'. Create it or fix the link."),
                            )
                        };
                        let ctx = concat(&concat(&chars_of("[["), &target), &chars_of("]]"));
                        let ghost expect = broken_link(note.deep_view(), lv[k as int]);
                        assert(desc@ =~= expect.description);
                        assert(sugg@ =~= expect.suggestion->0);
                        assert(ctx@ =~= expect.context->0);
                        let mut f = make_finding(
                            Severity::Warning,
                            FindingCategory::BrokenLink,
                            &rp,
                            &desc,
                            Some(sugg),
                            Some(ctx),
                            false,
                        );
                        f.line_number = Some(link.line_number);
                        assert(f.deep_view() == expect);
                        let ghost f0 = findings.deep_view();
                        findings.push(f);
                        assert(findings.deep_view() =~= f0.push(broken_link(note.deep_view(), lv[k as int])));
                    }
                    k += 1;
                }
                assert(lv.take(k as int) =~= lv);
            }
            i += 1;
        }
        assert(nv.take(i as int) =~= nv);
        findings
    }
}

/// Whether link `l` of note `n` is broken and checked: the note is not a
/// template or in `@Templates`, `@Trash` or `_attachments`, and the link is
/// broken.
pub open spec fn broken_at(nv: Seq<NoteV>, n: int, l: int) -> bool {
    &&& 0 <= n < nv.len()
    &&& !link_check_skipped(nv[n])
    &&& 0 <= l < nv[n].wiki_links.len()
    &&& link_broken(nv, nv[n].wiki_links[l].target)
}

pub open spec fn pair_before(a: (int, int), b: (int, int)) -> bool {
    a.0 < b.0 || (a.0 == b.0 && a.1 < b.1)
}

/// Whether `idx` lists, in note and link order, exactly the broken links
/// `(n, l)` with `n < nmax` (and `l < lmax` in note `nmax`), and `fs` holds
/// their findings in that order.
pub open spec fn broken_listed(all: Seq<NoteV>, nmax: int, lmax: int, idx: Seq<(int, int)>, fs: Seq<FindingV>) -> bool {
    &&& idx.len() == fs.len()
    &&& forall|k: int| 0 <= k < idx.len() ==> broken_at(all, (#[trigger] idx[k]).0, idx[k].1)
        && pair_before(idx[k], (nmax, lmax))
        && fs[k] == broken_link(all[idx[k].0], all[idx[k].0].wiki_links[idx[k].1])
    &&& forall|k1: int, k2: int| 0 <= k1 < k2 < idx.len() ==> pair_before(#[trigger] idx[k1], #[trigger] idx[k2])
    &&& forall|n: int, l: int| #[trigger] broken_at(all, n, l) && pair_before((n, l), (nmax, lmax)) ==> idx.contains((n, l))
}

proof fn lemma_broken_in_listed(all: Seq<NoteV>, n: int, j: int, idx0: Seq<(int, int)>, fs0: Seq<FindingV>)
    requires
        0 <= n < all.len(),
        !link_check_skipped(all[n]),
        0 <= j <= all[n].wiki_links.len(),
        broken_listed(all, n, 0, idx0, fs0),
    ensures
        exists|idx: Seq<(int, int)>| #[trigger] broken_listed(all, n, j, idx, fs0 + broken_in(all, all[n], all[n].wiki_links.take(j))),
    decreases j,
{
    let ls = all[n].wiki_links;
    if j == 0 {
        assert(ls.take(0) =~= Seq::<WikiLinkV>::empty());
        assert(fs0 + broken_in(all, all[n], ls.take(0)) =~= fs0);
        assert forall|m: int, l: int| #[trigger] broken_at(all, m, l) && pair_before((m, l), (n, 0)) implies idx0.contains((m, l)) by {}
        assert(broken_listed(all, n, 0, idx0, fs0));
    } else {
        lemma_broken_in_listed(all, n, j - 1, idx0, fs0);
        let idx1 = choose|idx: Seq<(int, int)>| #[trigger] broken_listed(all, n, j - 1, idx, fs0 + broken_in(all, all[n], ls.take(j - 1)));
        let fs1 = fs0 + broken_in(all, all[n], ls.take(j - 1));
        assert(ls.take(j).drop_last() =~= ls.take(j - 1));
        assert(ls.take(j).last() == ls[j - 1]);
        let fs = fs0 + broken_in(all, all[n], ls.take(j));
        if link_broken(all, ls[j - 1].target) {
            let idx = idx1.push((n, j - 1));
            assert(fs =~= fs1.push(broken_link(all[n], ls[j - 1])));
            assert forall|k: int| 0 <= k < idx.len() implies broken_at(all, (#[trigger] idx[k]).0, idx[k].1)
                && pair_before(idx[k], (n, j)) && fs[k] == broken_link(all[idx[k].0], all[idx[k].0].wiki_links[idx[k].1]) by {
                if k < idx1.len() {
                    assert(idx[k] == idx1[k]);
                    assert(fs[k] == fs1[k]);
                }
            }
            assert forall|k1: int, k2: int| 0 <= k1 < k2 < idx.len() implies pair_before(#[trigger] idx[k1], #[trigger] idx[k2]) by {
                assert(idx[k1] == idx1[k1]);
                if k2 < idx1.len() {
                    assert(idx[k2] == idx1[k2]);
                }
            }
            assert forall|m: int, l: int| #[trigger] broken_at(all, m, l) && pair_before((m, l), (n, j)) implies idx.contains((m, l)) by {
                if pair_before((m, l), (n, j - 1)) {
                    let k = choose|k: int| 0 <= k < idx1.len() && idx1[k] == (m, l);
                    assert(idx[k] == (m, l));
                } else {
                    assert(idx[idx.len() - 1] == (m, l));
                }
            }
            assert(broken_listed(all, n, j, idx, fs));
        } else {
            assert(fs =~= fs1);
            assert forall|m: int, l: int| #[trigger] broken_at(all, m, l) && pair_before((m, l), (n, j)) implies idx1.contains((m, l)) by {
                if !pair_before((m, l), (n, j - 1)) {
                    assert(m == n && l == j - 1);
                }
            }
            assert forall|k: int| 0 <= k < idx1.len() implies broken_at(all, (#[trigger] idx1[k]).0, idx1[k].1)
                && pair_before(idx1[k], (n, j)) && fs[k] == broken_link(all[idx1[k].0], all[idx1[k].0].wiki_links[idx1[k].1]) by {}
            assert(broken_listed(all, n, j, idx1, fs));
        }
    }
}

proof fn lemma_broken_from_listed(all: Seq<NoteV>, m: int)
    requires
        0 <= m <= all.len(),
    ensures
        exists|idx: Seq<(int, int)>| #[trigger] broken_listed(all, m, 0, idx, broken_from(all, all.take(m))),
    decreases m,
{
    if m == 0 {
        assert(broken_listed(all, 0, 0, Seq::empty(), broken_from(all, all.take(0))));
    } else {
        lemma_broken_from_listed(all, m - 1);
        let idx0 = choose|idx: Seq<(int, int)>| #[trigger] broken_listed(all, m - 1, 0, idx, broken_from(all, all.take(m - 1)));
        let fs0 = broken_from(all, all.take(m - 1));
        assert(all.take(m).drop_last() =~= all.take(m - 1));
        assert(all.take(m).last() == all[m - 1]);
        let n = m - 1;
        if link_check_skipped(all[n]) {
            assert forall|a: int, l: int| #[trigger] broken_at(all, a, l) && pair_before((a, l), (m, 0)) implies idx0.contains((a, l)) by {
                assert(a != n);
            }
            assert forall|k: int| 0 <= k < idx0.len() implies broken_at(all, (#[trigger] idx0[k]).0, idx0[k].1)
                && pair_before(idx0[k], (m, 0)) && fs0[k] == broken_link(all[idx0[k].0], all[idx0[k].0].wiki_links[idx0[k].1]) by {}
            assert(broken_listed(all, m, 0, idx0, broken_from(all, all.take(m))));
        } else {
            let ls = all[n].wiki_links;
            lemma_broken_in_listed(all, n, ls.len() as int, idx0, fs0);
            assert(ls.take(ls.len() as int) =~= ls);
            let idx = choose|idx: Seq<(int, int)>| #[trigger] broken_listed(all, n, ls.len() as int, idx, fs0 + broken_in(all, all[n], ls.take(ls.len() as int)));
            let fs = broken_from(all, all.take(m));
            assert(fs == fs0 + broken_in(all, all[n], ls));
            assert forall|a: int, l: int| #[trigger] broken_at(all, a, l) && pair_before((a, l), (m, 0)) implies idx.contains((a, l)) by {
                if a == n {
                    assert(pair_before((a, l), (n, ls.len() as int)));
                }
            }
            assert forall|k: int| 0 <= k < idx.len() implies broken_at(all, (#[trigger] idx[k]).0, idx[k].1)
                && pair_before(idx[k], (m, 0)) && fs[k] == broken_link(all[idx[k].0], all[idx[k].0].wiki_links[idx[k].1]) by {}
            assert(broken_listed(all, m, 0, idx, fs));
        }
    }
}

/// The broken-link findings are exactly one per broken link of a checked
/// note, in note and link order: `idx[k]` is the note and link of finding
/// `k`, and every broken link of a checked note is listed.
pub proof fn lemma_broken_findings_law(nv: Seq<NoteV>)
    ensures
        exists|idx: Seq<(int, int)>| #[trigger] broken_listed(nv, nv.len() as int, 0, idx, broken_findings(nv)),
{
    lemma_broken_from_listed(nv, nv.len() as int);
    assert(nv.take(nv.len() as int) =~= nv);
    let idx = choose|idx: Seq<(int, int)>| #[trigger] broken_listed(nv, nv.len() as int, 0, idx, broken_from(nv, nv.take(nv.len() as int)));
    assert(broken_from(nv, nv.take(nv.len() as int)) == broken_findings(nv));
    assert(broken_listed(nv, nv.len() as int, 0, idx, broken_findings(nv)));
}

} // verus!
