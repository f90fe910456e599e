//! The assessment context: a prompt, the user's system guide notes, the
//! system dump and the flagged notes, assembled into one bounded text.
use vstd::prelude::*;
use crate::models::{Finding, FindingCategory, FindingV, Note, NoteV, WikiLinkV};
use crate::parser::{title_hits, NoteStore};
use crate::text::{chars_of, chars_of_string, lowercase};

verus! {

/// The most guide notes followed from the entry note.
pub const MAX_GUIDE_LINKS: usize = 20;
/// How many links deep the guide is followed.
pub const MAX_GUIDE_DEPTH: usize = 2;

// ─── Following the guide's links ────────────────────────────────────────────

/// The state of the breadth-first walk through the guide's links: the notes
/// waiting with their depth, the notes seen, the notes collected, and
/// whether the walk stopped at its limit.
pub struct Walk {
    pub queue: Seq<(usize, usize)>,
    pub visited: Seq<bool>,
    pub result: Seq<usize>,
    pub done: bool,
}

/// Queues, at depth `d`, each of `hits` not seen yet, in order.
pub open spec fn queue_hits(hits: Seq<usize>, st: (Seq<(usize, usize)>, Seq<bool>), d: usize) -> (Seq<(usize, usize)>, Seq<bool>)
    decreases hits.len(),
{
    if hits.len() == 0 {
        st
    } else {
        let (q, v) = queue_hits(hits.drop_last(), st, d);
        let t = hits.last();
        if v[t as int] {
            (q, v)
        } else {
            (q.push((t, d)), v.update(t as int, true))
        }
    }
}

/// Queues, at depth `d`, the notes each link names, link by link.
pub open spec fn queue_links(nv: Seq<NoteV>, links: Seq<WikiLinkV>, st: (Seq<(usize, usize)>, Seq<bool>), d: usize) -> (Seq<(usize, usize)>, Seq<bool>)
    decreases links.len(),
{
    if links.len() == 0 {
        st
    } else {
        queue_hits(title_hits(nv, lowercase(links.last().target)), queue_links(nv, links.drop_last(), st, d), d)
    }
}

/// One step of the walk: the next note is taken from the queue, collected
/// unless it is the entry, and, while the depth allows, the notes its links
/// name are queued.
pub open spec fn walk_step(nv: Seq<NoteV>, s: Walk) -> Walk {
    if s.done || s.queue.len() == 0 {
        s
    } else {
        let idx = s.queue[0].0;
        let depth = s.queue[0].1;
        let q = s.queue.drop_first();
        let result = if depth > 0 { s.result.push(idx) } else { s.result };
        if depth > 0 && result.len() >= MAX_GUIDE_LINKS {
            Walk { queue: q, visited: s.visited, result, done: true }
        } else if depth >= MAX_GUIDE_DEPTH {
            Walk { queue: q, visited: s.visited, result, done: false }
        } else {
            let st = queue_links(nv, nv[idx as int].wiki_links, (q, s.visited), (depth + 1) as usize);
            Walk { queue: st.0, visited: st.1, result, done: false }
        }
    }
}

pub open spec fn walk_run(nv: Seq<NoteV>, s: Walk, fuel: nat) -> Walk
    decreases fuel,
{
    if fuel == 0 {
        s
    } else {
        walk_run(nv, walk_step(nv, s), (fuel - 1) as nat)
    }
}

pub open spec fn walk_start(n: nat, entry: usize) -> Walk {
    Walk {
        queue: seq![(entry, 0usize)],
        visited: Seq::new(n, |i: int| i == entry as int),
        result: Seq::empty(),
        done: false,
    }
}

/// The guide notes reached from `entry` through wiki links, breadth first,
/// at most two links deep and at most twenty of them, each once.
pub open spec fn linked_notes(nv: Seq<NoteV>, entry: usize) -> Seq<usize> {
    walk_run(nv, walk_start(nv.len(), entry), 2 * nv.len() + 2).result
}

pub open spec fn unvisited(v: Seq<bool>) -> nat
    decreases v.len(),
{
    if v.len() == 0 {
        0
    } else {
        unvisited(v.drop_last()) + if v.last() { 0nat } else { 1nat }
    }
}

proof fn lemma_unvisited_mark(v: Seq<bool>, t: int)
    requires
        0 <= t < v.len(),
        !v[t],
    ensures
        unvisited(v.update(t, true)) + 1 == unvisited(v),
    decreases v.len(),
{
    if t < v.len() - 1 {
        assert(v.update(t, true).drop_last() =~= v.drop_last().update(t, true));
        lemma_unvisited_mark(v.drop_last(), t);
    } else {
        assert(v.update(t, true).drop_last() =~= v.drop_last());
    }
}

proof fn lemma_unvisited_bound(v: Seq<bool>)
    ensures
        unvisited(v) <= v.len(),
    decreases v.len(),
{
    if v.len() > 0 {
        lemma_unvisited_bound(v.drop_last());
    }
}

proof fn lemma_walk_run_next(nv: Seq<NoteV>, s: Walk, k: nat)
    ensures
        walk_run(nv, s, k + 1) == walk_step(nv, walk_run(nv, s, k)),
    decreases k,
{
    let t = walk_step(nv, s);
    assert(walk_run(nv, s, k + 1) == walk_run(nv, t, k));
    if k > 0 {
        lemma_walk_run_next(nv, t, (k - 1) as nat);
        assert(walk_run(nv, t, ((k - 1) as nat + 1) as nat) == walk_step(nv, walk_run(nv, t, (k - 1) as nat)));
        assert(((k - 1) as nat + 1) as nat == k);
        assert(walk_run(nv, s, k) == walk_run(nv, t, (k - 1) as nat));
    } else {
        assert(walk_run(nv, t, 0) == t);
        assert(walk_run(nv, s, 0) == s);
    }
}

proof fn lemma_walk_stopped(nv: Seq<NoteV>, s: Walk, k: nat)
    requires
        s.done || s.queue.len() == 0,
    ensures
        walk_run(nv, s, k) == s,
    decreases k,
{
    if k > 0 {
        lemma_walk_stopped(nv, s, (k - 1) as nat);
    }
}

proof fn lemma_walk_split(nv: Seq<NoteV>, s: Walk, a: nat, b: nat)
    ensures
        walk_run(nv, s, a + b) == walk_run(nv, walk_run(nv, s, a), b),
    decreases a,
{
    if a > 0 {
        lemma_walk_split(nv, walk_step(nv, s), (a - 1) as nat, b);
        assert((a + b - 1) as nat == (a - 1) as nat + b);
    }
}

/// The notes reached from `entry` through wiki links, breadth first.
fn collect_linked_notes(store: &NoteStore, entry: usize) -> (r: Vec<usize>)
    requires
        entry < store.notes.len(),
    ensures
        r@ == linked_notes(store.notes.deep_view(), entry),
        forall|k: int| 0 <= k < r.len() ==> r[k] < store.notes.len(),
{
    let ghost nv = store.notes.deep_view();
    let n = store.notes.len();
    let ghost init = walk_start(nv.len(), entry);
    let mut visited: Vec<bool> = Vec::new();
    let mut i: usize = 0;
    while i < n
        invariant
            i <= n,
            visited@ == Seq::new(i as nat, |j: int| j == entry as int),
        decreases n - i,
    {
        visited.push(i == entry);
        assert(visited@ =~= Seq::new((i + 1) as nat, |j: int| j == entry as int));
        i += 1;
    }
    let mut queue: Vec<(usize, usize)> = Vec::new();
    queue.push((entry, 0));
    let mut head: usize = 0;
    let mut result: Vec<usize> = Vec::new();
    let ghost mut k: nat = 0;
    let mut done = false;
    proof {
        assert(queue@.skip(0) =~= init.queue);
        assert(visited@ =~= init.visited);
        assert(result@ =~= init.result);
        assert(walk_run(nv, init, 0) == init);
        lemma_unvisited_bound(visited@);
        let v1 = visited@.update(entry as int, false);
        assert(v1.update(entry as int, true) =~= visited@);
        lemma_unvisited_mark(v1, entry as int);
        lemma_unvisited_bound(v1);
    }
    while head < queue.len()
        invariant_except_break
            !done,
        invariant
            nv == store.notes.deep_view(),
            n == nv.len(),
            head <= queue.len(),
            visited.len() == n,
            forall|j: int| 0 <= j < queue.len() ==> #[trigger] queue[j].0 < n && queue[j].1 <= MAX_GUIDE_DEPTH,
            forall|j: int| 0 <= j < result.len() ==> #[trigger] result[j] < n,
            walk_run(nv, init, k) == (Walk { queue: queue@.skip(head as int), visited: visited@, result: result@, done }),
            k + 2 * unvisited(visited@) + (queue.len() - head) <= 2 * n + 1,
        ensures
            done || head == queue.len(),
        decreases 2 * unvisited(visited@) + (queue.len() - head),
    {
        let ghost s0 = Walk { queue: queue@.skip(head as int), visited: visited@, result: result@, done: false };
        let ghost m0 = 2 * unvisited(visited@) + (queue.len() - head);
        proof {
            lemma_walk_run_next(nv, init, k);
            assert(s0.queue[0] == queue[head as int]);
        }
        let idx = queue[head].0;
        let depth = queue[head].1;
        head += 1;
        assert(queue@.skip(head as int) =~= s0.queue.drop_first());
        if depth > 0 {
            result.push(idx);
            if result.len() >= MAX_GUIDE_LINKS {
                done = true;
                proof {
                    k = k + 1;
                }
                break;
            }
        }
        if depth < MAX_GUIDE_DEPTH {
            let links = &store.notes[idx].wiki_links;
            let ghost lv = nv[idx as int].wiki_links;
            let ghost q0 = queue@.skip(head as int);
            let ghost v0 = visited@;
            let d = depth + 1;
            assert(lv == links.deep_view());
            let mut li: usize = 0;
            assert(lv.take(0) =~= Seq::<WikiLinkV>::empty());
            while li < links.len()
                invariant
                    nv == store.notes.deep_view(),
                    n == nv.len(),
                    head <= queue.len(),
                    visited.len() == n,
                    lv == links.deep_view(),
                    d <= MAX_GUIDE_DEPTH,
                    li <= links.len(),
                    forall|j: int| 0 <= j < queue.len() ==> #[trigger] queue[j].0 < n && queue[j].1 <= MAX_GUIDE_DEPTH,
                    (queue@.skip(head as int), visited@) == queue_links(nv, lv.take(li as int), (q0, v0), d),
                    (k + 1) + 2 * unvisited(visited@) + (queue.len() - head) <= 2 * n + 1,
                    2 * unvisited(visited@) + (queue.len() - head) < m0,
                decreases links.len() - li,
            {
                proof {
                    assert(lv.take(li + 1).drop_last() =~= lv.take(li as int));
                    assert(lv.take(li + 1).last() == lv[li as int]);
                    assert(lv[li as int].target == links[li as int].target@);
                }
                let hits = store.title_index(links[li].target.as_str());
                let ghost st0 = (queue@.skip(head as int), visited@);
                let mut hi: usize = 0;
                while hi < hits.len()
                    invariant
                        n == nv.len(),
                        head <= queue.len(),
                        visited.len() == n,
                        d <= MAX_GUIDE_DEPTH,
                        hi <= hits.len(),
                        forall|j: int| 0 <= j < hits.len() ==> #[trigger] hits[j] < n,
                        forall|j: int| 0 <= j < queue.len() ==> #[trigger] queue[j].0 < n && queue[j].1 <= MAX_GUIDE_DEPTH,
                        (queue@.skip(head as int), visited@) == queue_hits(hits@.take(hi as int), st0, d),
                        (k + 1) + 2 * unvisited(visited@) + (queue.len() - head) <= 2 * n + 1,
                        2 * unvisited(visited@) + (queue.len() - head) < m0,
                    decreases hits.len() - hi,
                {
                    proof {
                        assert(hits@.take(hi + 1).drop_last() =~= hits@.take(hi as int));
                        assert(hits@.take(hi + 1).last() == hits[hi as int]);
                    }
                    let t = hits[hi];
                    if !visited[t] {
                        let ghost qs = queue@.skip(head as int);
                        proof {
                            lemma_unvisited_mark(visited@, t as int);
                        }
                        visited.set(t, true);
                        queue.push((t, d));
                        assert(queue@.skip(head as int) =~= qs.push((t, d)));
                    }
                    hi += 1;
                }
                assert(hits@.take(hi as int) =~= hits@);
                li += 1;
            }
            assert(lv.take(li as int) =~= lv);
        }
        proof {
            k = k + 1;
        }
    }
    proof {
        let s = Walk { queue: queue@.skip(head as int), visited: visited@, result: result@, done };
        assert(s.done || s.queue.len() == 0);
        lemma_walk_stopped(nv, s, (2 * n + 2 - k) as nat);
        lemma_walk_split(nv, init, k, (2 * n + 2 - k) as nat);
        assert(k + (2 * n + 2 - k) as nat == 2 * nv.len() + 2);
    }
    result
}


// ─── The guide section ──────────────────────────────────────────────────────

/// A guide title as characters.
pub open spec fn title_view(t: Option<&str>) -> Option<Seq<char>> {
    match t {
        Some(s) => Some(s@),
        None => None,
    }
}

/// The first note whose lowercased title contains "system guide".
pub open spec fn first_guide_like(nv: Seq<NoteV>) -> Option<usize>
    decreases nv.len(),
{
    if nv.len() == 0 {
        None
    } else {
        match first_guide_like(nv.drop_last()) {
            Some(i) => Some(i),
            None => if crate::text::contains(lowercase(nv.last().title), "system guide"@) {
                Some((nv.len() - 1) as usize)
            } else {
                None
            },
        }
    }
}

/// The guide's entry note: the first note titled `guide_title` (ignoring
/// case), else the first whose title mentions "system guide".
pub open spec fn guide_entry(nv: Seq<NoteV>, guide_title: Option<Seq<char>>) -> Option<usize> {
    match guide_title {
        Some(t) => {
            let hits = title_hits(nv, lowercase(t));
            if hits.len() > 0 {
                Some(hits[0])
            } else {
                first_guide_like(nv)
            }
        },
        None => first_guide_like(nv),
    }
}

proof fn lemma_first_guide_like(nv: Seq<NoteV>)
    ensures
        first_guide_like(nv) matches Some(i) ==> i < nv.len(),
    decreases nv.len(),
{
    if nv.len() > 0 {
        lemma_first_guide_like(nv.drop_last());
    }
}

/// Finds the guide's entry note.
fn find_guide_entry(store: &NoteStore, guide_title: Option<&str>) -> (r: Option<usize>)
    ensures
        r == guide_entry(store.notes.deep_view(), title_view(guide_title)),
        r matches Some(i) ==> i < store.notes.len(),
{
    let ghost nv = store.notes.deep_view();
    proof {
        lemma_first_guide_like(nv);
    }
    match guide_title {
        Some(t) => {
            let hits = store.title_index(t);
            if hits.len() > 0 {
                return Some(hits[0]);
            }
        },
        None => {},
    }
    assert(guide_entry(nv, title_view(guide_title)) == first_guide_like(nv));
    let mut i: usize = 0;
    while i < store.notes.len()
        invariant
            i <= store.notes.len(),
            nv == store.notes.deep_view(),
            guide_entry(nv, title_view(guide_title)) == first_guide_like(nv),
            first_guide_like(nv.take(i as int)) is None,
        decreases store.notes.len() - i,
    {
        proof {
            assert(nv.take(i + 1).drop_last() =~= nv.take(i as int));
            assert(nv[i as int].title == store.notes[i as int].title@);
        }
        let lt = crate::text::to_lowercase(&chars_of_string(&store.notes[i].title));
        if crate::text::contains_str(&lt, "system guide") {
            proof {
                assert(first_guide_like(nv.take(i + 1)) == Some(i));
                lemma_guide_like_prefix(nv, (i + 1) as int);
            }
            return Some(i);
        }
        i += 1;
    }
    assert(nv.take(i as int) =~= nv);
    None
}

proof fn lemma_guide_like_prefix(nv: Seq<NoteV>, k: int)
    requires
        0 <= k <= nv.len(),
        first_guide_like(nv.take(k)) is Some,
    ensures
        first_guide_like(nv) == first_guide_like(nv.take(k)),
    decreases nv.len() - k,
{
    if k < nv.len() {
        assert(nv.take(k + 1).drop_last() =~= nv.take(k));
        lemma_guide_like_prefix(nv, k + 1);
    } else {
        assert(nv.take(k) =~= nv);
    }
}

/// A note as the guide section shows it.
pub open spec fn note_block(label: Seq<char>, n: NoteV) -> Seq<char> {
    label + n.title + "\n\n"@ + n.content + "\n\n"@
}

pub open spec fn linked_text(nv: Seq<NoteV>, ids: Seq<usize>) -> Seq<char>
    decreases ids.len(),
{
    if ids.len() == 0 {
        Seq::empty()
    } else {
        linked_text(nv, ids.drop_last()) + "---\n\n"@ + note_block("## Linked: "@, nv[ids.last() as int])
    }
}

/// The guide section: the entry note and the notes linked from it, or a
/// hint when there is no guide.
pub open spec fn guide_text(nv: Seq<NoteV>, guide_title: Option<Seq<char>>) -> Seq<char> {
    match guide_entry(nv, guide_title) {
        None => "No system guide note found. Create a note with 'System Guide' in the title to include your organizational conventions in future exports.\n"@,
        Some(e) => note_block("## Entry Point: "@, nv[e as int]) + linked_text(nv, linked_notes(nv, e)),
    }
}

fn put_note_block(out: &mut Vec<char>, label: &str, note: &Note)
    ensures
        final(out)@ == old(out)@ + note_block(label@, note.deep_view()),
{
    let ghost o = out@;
    crate::dump::put_str(out, label);
    crate::dump::put(out, &chars_of_string(&note.title));
    crate::dump::put_str(out, "\n\n");
    crate::dump::put(out, &chars_of_string(&note.content));
    crate::dump::put_str(out, "\n\n");
    assert(out@ =~= o + note_block(label@, note.deep_view()));
}

fn build_guide_section(store: &NoteStore, guide_title: Option<&str>) -> (r: Vec<char>)
    ensures
        r@ == guide_text(store.notes.deep_view(), title_view(guide_title)),
{
    let ghost nv = store.notes.deep_view();
    let mut out: Vec<char> = Vec::new();
    match find_guide_entry(store, guide_title) {
        None => {
            crate::dump::put_str(
                &mut out,
                "No system guide note found. Create a note with 'System Guide' in the title to include your organizational conventions in future exports.\n",
            );
            out
        },
        Some(e) => {
            let linked = collect_linked_notes(store, e);
            put_note_block(&mut out, "## Entry Point: ", &store.notes[e]);
            let ghost mid = out@;
            let mut j: usize = 0;
            while j < linked.len()
                invariant
                    j <= linked.len(),
                    nv == store.notes.deep_view(),
                    forall|k: int| 0 <= k < linked.len() ==> linked[k] < store.notes.len(),
                    out@ == mid + linked_text(nv, linked@.take(j as int)),
                decreases linked.len() - j,
            {
                proof {
                    assert(linked@.take(j + 1).drop_last() =~= linked@.take(j as int));
                    assert(linked@.take(j + 1).last() == linked[j as int]);
                }
                let ghost o2 = out@;
                crate::dump::put_str(&mut out, "---\n\n");
                put_note_block(&mut out, "## Linked: ", &store.notes[linked[j]]);
                assert(out@ =~= mid + linked_text(nv, linked@.take(j + 1)));
                j += 1;
            }
            assert(linked@.take(j as int) =~= linked@);
            out
        },
    }
}


// ─── The flagged notes ──────────────────────────────────────────────────────

/// The most flagged notes listed.
pub const MAX_FLAGGED_NOTES: usize = 30;
/// The most lines shown of a flagged note.
pub const MAX_LINES_PER_NOTE: usize = 500;

/// The categories whose notes are listed with their content.
pub open spec fn flagged_category(c: FindingCategory) -> bool {
    ||| c == FindingCategory::OrphanedNote
    ||| c == FindingCategory::CrossWiredId
    ||| c == FindingCategory::UnfiledSlip
    ||| c == FindingCategory::IdConsistency
    ||| c == FindingCategory::BrokenLink
}

pub open spec fn flags(f: FindingV) -> bool {
    flagged_category(f.category) && !f.is_folder
}

fn flags_exec(f: &Finding) -> (b: bool)
    ensures
        b == flags(f.deep_view()),
{
    let c = f.category;
    (c == FindingCategory::OrphanedNote || c == FindingCategory::CrossWiredId || c == FindingCategory::UnfiledSlip
        || c == FindingCategory::IdConsistency || c == FindingCategory::BrokenLink) && !f.is_folder
}

/// The paths of the flagged notes, each once, in order of first appearance.
pub open spec fn flagged_paths(fs: Seq<FindingV>) -> Seq<Seq<char>>
    decreases fs.len(),
{
    if fs.len() == 0 {
        Seq::empty()
    } else {
        let r = flagged_paths(fs.drop_last());
        if flags(fs.last()) && !r.contains(fs.last().file_path) {
            r.push(fs.last().file_path)
        } else {
            r
        }
    }
}

pub open spec fn str_pos(s: Seq<Seq<char>>, x: Seq<char>) -> int
    decreases s.len(),
{
    if s.len() == 0 || crate::text::seq_lt(x, s[0]) {
        0
    } else {
        1 + str_pos(s.drop_first(), x)
    }
}

/// Stable insertion sort by character order.
pub open spec fn sort_strs(s: Seq<Seq<char>>) -> Seq<Seq<char>>
    decreases s.len(),
{
    if s.len() == 0 {
        Seq::empty()
    } else {
        let r = sort_strs(s.drop_last());
        r.insert(str_pos(r, s.last()), s.last())
    }
}

/// Whether some flagged finding of category `c` concerns path `p`.
pub open spec fn any_flag(fs: Seq<FindingV>, p: Seq<char>, c: FindingCategory) -> bool
    decreases fs.len(),
{
    fs.len() > 0 && (any_flag(fs.drop_last(), p, c) || (flags(fs.last()) && fs.last().file_path == p
        && fs.last().category == c))
}

/// The flagged categories sorted by their labels.
pub open spec fn label_order() -> Seq<FindingCategory> {
    seq![
        FindingCategory::BrokenLink,
        FindingCategory::CrossWiredId,
        FindingCategory::IdConsistency,
        FindingCategory::OrphanedNote,
        FindingCategory::UnfiledSlip,
    ]
}

/// The labels of the categories in `cs` flagged for path `p`.
pub open spec fn labels_for(cs: Seq<FindingCategory>, fs: Seq<FindingV>, p: Seq<char>) -> Seq<Seq<char>>
    decreases cs.len(),
{
    if cs.len() == 0 {
        Seq::empty()
    } else {
        let r = labels_for(cs.drop_last(), fs, p);
        if any_flag(fs, p, cs.last()) {
            r.push(crate::models::category_label(cs.last()))
        } else {
            r
        }
    }
}

/// At most `max` lines of `t`; when some are cut, the kept lines joined
/// with newlines and a note of how many were cut.
pub open spec fn truncated_lines(t: Seq<char>, max: nat) -> Seq<char> {
    let ls = crate::text::lines(t);
    if ls.len() <= max {
        t
    } else {
        crate::text::join(ls.take(max as int), "\n"@) + "\n\n[...truncated, "@ + crate::text::decimal(
            (ls.len() - max) as nat,
        ) + " more lines]"@
    }
}

pub open spec fn flagged_entry(notes: Seq<Note>, fs: Seq<FindingV>, p: Seq<char>) -> Seq<char> {
    "## "@ + p + " (Flagged: "@ + crate::text::join(labels_for(label_order(), fs, p), ", "@) + ")\n\n"@
        + match crate::parser::last_with_path(notes, p) {
        Some(i) => truncated_lines(notes[i].content@, MAX_LINES_PER_NOTE as nat) + "\n\n"@,
        None => "(Note content not available)\n\n"@,
    } + "---\n\n"@
}

pub open spec fn flagged_entries(notes: Seq<Note>, fs: Seq<FindingV>, ps: Seq<Seq<char>>) -> Seq<char>
    decreases ps.len(),
{
    if ps.len() == 0 {
        Seq::empty()
    } else {
        flagged_entries(notes, fs, ps.drop_last()) + flagged_entry(notes, fs, ps.last())
    }
}

/// The flagged-notes section: the notes flagged by the listed categories,
/// sorted by path, at most thirty, each with its flags and content.
pub open spec fn flagged_text(notes: Seq<Note>, fs: Seq<FindingV>) -> Seq<char> {
    let ps = sort_strs(flagged_paths(fs));
    if ps.len() == 0 {
        "No flagged notes found. All notes appear to be well-organized according to the automated checks.\n"@
    } else {
        let shown = ps.take(if ps.len() < MAX_FLAGGED_NOTES { ps.len() as int } else { MAX_FLAGGED_NOTES as int });
        crate::text::decimal(shown.len()) + " notes flagged by automated analysis:\n\n"@ + flagged_entries(
            notes,
            fs,
            shown,
        )
    }
}

fn contains_path(ps: &Vec<Vec<char>>, p: &Vec<char>) -> (b: bool)
    ensures
        b == ps.deep_view().contains(p@),
{
    let ghost pv = ps.deep_view();
    let mut i: usize = 0;
    while i < ps.len()
        invariant
            i <= ps.len(),
            pv == ps.deep_view(),
            forall|k: int| 0 <= k < i ==> pv[k] != p@,
        decreases ps.len() - i,
    {
        proof {
            crate::text::lemma_deep_chars(ps[i as int]);
        }
        if crate::text::vec_eq(&ps[i], p) {
            assert(pv[i as int] == p@);
            return true;
        }
        i += 1;
    }
    false
}

fn flagged_paths_exec(findings: &Vec<Finding>) -> (r: Vec<Vec<char>>)
    ensures
        r.deep_view() == flagged_paths(findings.deep_view()),
{
    let ghost fv = findings.deep_view();
    let mut r: Vec<Vec<char>> = Vec::new();
    let mut i: usize = 0;
    while i < findings.len()
        invariant
            i <= findings.len(),
            fv == findings.deep_view(),
            r.deep_view() == flagged_paths(fv.take(i as int)),
        decreases findings.len() - i,
    {
        proof {
            assert(fv.take(i + 1).drop_last() =~= fv.take(i as int));
            assert(fv[i as int] == findings[i as int].deep_view());
        }
        if flags_exec(&findings[i]) {
            let p = chars_of_string(&findings[i].file_path);
            if !contains_path(&r, &p) {
                let ghost r0 = r.deep_view();
                proof {
                    crate::text::lemma_deep_chars(p);
                }
                r.push(p);
                assert(r.deep_view() =~= r0.push(p@));
            }
        }
        i += 1;
    }
    assert(fv.take(i as int) =~= fv);
    r
}

proof fn lemma_str_pos_bound(s: Seq<Seq<char>>, x: Seq<char>)
    ensures
        0 <= str_pos(s, x) <= s.len(),
    decreases s.len(),
{
    if s.len() > 0 && !crate::text::seq_lt(x, s[0]) {
        lemma_str_pos_bound(s.drop_first(), x);
    }
}

fn insert_str(rows: &mut Vec<Vec<char>>, x: Vec<char>)
    ensures
        final(rows).deep_view() == old(rows).deep_view().insert(str_pos(old(rows).deep_view(), x@), x@),
{
    let ghost s = rows.deep_view();
    let mut p: usize = 0;
    proof {
        assert(s.skip(0) =~= s);
        lemma_str_pos_bound(s, x@);
    }
    while p < rows.len() && !crate::text::lt_chars(&x, &rows[p])
        invariant
            p <= rows.len(),
            rows.deep_view() == s,
            str_pos(s, x@) == p + str_pos(s.skip(p as int), x@),
        decreases rows.len() - p,
    {
        assert(s[p as int] == rows[p as int]@);
        assert(s.skip(p as int)[0] == s[p as int]);
        assert(s.skip(p as int).drop_first() =~= s.skip(p + 1));
        p += 1;
    }
    if p < rows.len() {
        assert(s[p as int] == rows[p as int]@);
        assert(s.skip(p as int)[0] == s[p as int]);
    }
    let ghost xv = x@;
    let ghost r0 = rows@;
    rows.insert(p, x);
    proof {
        r0.insert_ensures(p as int, x);
        s.insert_ensures(p as int, xv);
        assert forall|k: int| 0 <= k < rows.len() implies rows.deep_view()[k] == s.insert(p as int, xv)[k] by {
            if k < p {
                assert(rows@[k] == r0[k]);
            } else if k > p {
                assert(rows@[k] == r0[k - 1]);
            }
        }
        assert(rows.deep_view() =~= s.insert(p as int, xv));
    }
}

fn sort_paths(ps: &Vec<Vec<char>>) -> (r: Vec<Vec<char>>)
    ensures
        r.deep_view() == sort_strs(ps.deep_view()),
{
    let ghost pv = ps.deep_view();
    let mut r: Vec<Vec<char>> = Vec::new();
    let mut i: usize = 0;
    while i < ps.len()
        invariant
            i <= ps.len(),
            pv == ps.deep_view(),
            r.deep_view() == sort_strs(pv.take(i as int)),
        decreases ps.len() - i,
    {
        proof {
            assert(pv.take(i + 1).drop_last() =~= pv.take(i as int));
            crate::text::lemma_deep_chars(ps[i as int]);
        }
        let x = ps[i].clone();
        assert(pv.take(i + 1).last() == x@);
        insert_str(&mut r, x);
        i += 1;
    }
    assert(pv.take(i as int) =~= pv);
    r
}

fn any_flag_exec(findings: &Vec<Finding>, p: &Vec<char>, c: FindingCategory) -> (b: bool)
    ensures
        b == any_flag(findings.deep_view(), p@, c),
{
    let ghost fv = findings.deep_view();
    let mut b = false;
    let mut i: usize = 0;
    while i < findings.len()
        invariant
            i <= findings.len(),
            fv == findings.deep_view(),
            b == any_flag(fv.take(i as int), p@, c),
        decreases findings.len() - i,
    {
        proof {
            assert(fv.take(i + 1).drop_last() =~= fv.take(i as int));
            assert(fv[i as int] == findings[i as int].deep_view());
        }
        if flags_exec(&findings[i]) && findings[i].category == c && crate::text::vec_eq(
            &chars_of_string(&findings[i].file_path),
            p,
        ) {
            b = true;
        }
        i += 1;
    }
    assert(fv.take(i as int) =~= fv);
    b
}

fn labels_exec(findings: &Vec<Finding>, p: &Vec<char>) -> (r: Vec<Vec<char>>)
    ensures
        r.deep_view() == labels_for(label_order(), findings.deep_view(), p@),
{
    let order = vec![
        FindingCategory::BrokenLink,
        FindingCategory::CrossWiredId,
        FindingCategory::IdConsistency,
        FindingCategory::OrphanedNote,
        FindingCategory::UnfiledSlip,
    ];
    assert(order@ =~= label_order());
    let ghost fv = findings.deep_view();
    let mut r: Vec<Vec<char>> = Vec::new();
    let mut j: usize = 0;
    while j < order.len()
        invariant
            j <= order.len(),
            order@ == label_order(),
            fv == findings.deep_view(),
            r.deep_view() == labels_for(order@.take(j as int), fv, p@),
        decreases order.len() - j,
    {
        proof {
            assert(order@.take(j + 1).drop_last() =~= order@.take(j as int));
            assert(order@.take(j + 1).last() == order[j as int]);
        }
        if any_flag_exec(findings, p, order[j]) {
            let ghost r0 = r.deep_view();
            let lab = chars_of(order[j].label());
            proof {
                crate::text::lemma_deep_chars(lab);
            }
            r.push(lab);
            assert(r.deep_view() =~= r0.push(crate::models::category_label(order[j as int])));
        }
        j += 1;
    }
    assert(order@.take(j as int) =~= order@);
    r
}

fn truncate_lines(text: &Vec<char>, max: usize) -> (r: Vec<char>)
    ensures
        r@ == truncated_lines(text@, max as nat),
{
    let ls = split_lines_of(text);
    if ls.len() <= max {
        return text.clone();
    }
    let mut kept: Vec<Vec<char>> = Vec::new();
    let mut i: usize = 0;
    while i < max
        invariant
            i <= max < ls.len(),
            kept.deep_view() == ls.deep_view().take(i as int),
        decreases max - i,
    {
        proof {
            crate::text::lemma_deep_chars(ls[i as int]);
        }
        let ghost k0 = kept.deep_view();
        let line = ls[i].clone();
        proof {
            crate::text::lemma_deep_chars(line);
            assert(line@ == ls[i as int]@);
        }
        kept.push(line);
        assert(kept.deep_view() =~= k0.push(line@));
        assert(ls.deep_view()[i as int] == line@);
        assert(ls.deep_view().take(i + 1) =~= ls.deep_view().take(i as int).push(line@));
        assert(kept.deep_view() =~= ls.deep_view().take(i + 1));
        i += 1;
    }
    let mut out = crate::text::join_vec(&kept, &chars_of("\n"));
    crate::dump::put_str(&mut out, "\n\n[...truncated, ");
    crate::dump::put(&mut out, &crate::text::decimal_of(ls.len() - max));
    crate::dump::put_str(&mut out, " more lines]");
    out
}

fn split_lines_of(text: &Vec<char>) -> (r: Vec<Vec<char>>)
    ensures
        r.deep_view() == crate::text::lines(text@),
{
    crate::text::split_lines(text)
}

fn put_flagged_entry(out: &mut Vec<char>, store: &NoteStore, findings: &Vec<Finding>, p: &Vec<char>)
    ensures
        final(out)@ == old(out)@ + flagged_entry(store.notes@, findings.deep_view(), p@),
{
    let ghost o = out@;
    crate::dump::put_str(out, "## ");
    crate::dump::put(out, p);
    crate::dump::put_str(out, " (Flagged: ");
    let labels = labels_exec(findings, p);
    crate::dump::put(out, &crate::text::join_vec(&labels, &chars_of(", ")));
    crate::dump::put_str(out, ")\n\n");
    let ghost mid = out@;
    proof {
        crate::parser::lemma_last_with_path(store.notes@, p@);
    }
    match store.path_index_chars(p) {
        Some(i) => {
            crate::dump::put(out, &truncate_lines(&chars_of_string(&store.notes[i].content), MAX_LINES_PER_NOTE));
            crate::dump::put_str(out, "\n\n");
        },
        None => {
            crate::dump::put_str(out, "(Note content not available)\n\n");
        },
    }
    crate::dump::put_str(out, "---\n\n");
    assert(out@ =~= o + flagged_entry(store.notes@, findings.deep_view(), p@));
}

fn build_flagged_section(store: &NoteStore, findings: &Vec<Finding>) -> (r: Vec<char>)
    ensures
        r@ == flagged_text(store.notes@, findings.deep_view()),
{
    let ghost fv = findings.deep_view();
    let ps = sort_paths(&flagged_paths_exec(findings));
    let ghost pv = ps.deep_view();
    let mut out: Vec<char> = Vec::new();
    if ps.len() == 0 {
        crate::dump::put_str(
            &mut out,
            "No flagged notes found. All notes appear to be well-organized according to the automated checks.\n",
        );
        return out;
    }
    let shown = if ps.len() < MAX_FLAGGED_NOTES { ps.len() } else { MAX_FLAGGED_NOTES };
    crate::dump::put(&mut out, &crate::text::decimal_of(shown));
    crate::dump::put_str(&mut out, " notes flagged by automated analysis:\n\n");
    let ghost mid = out@;
    let mut j: usize = 0;
    while j < shown
        invariant
            j <= shown <= ps.len(),
            pv == ps.deep_view(),
            fv == findings.deep_view(),
            out@ == mid + flagged_entries(store.notes@, fv, pv.take(j as int)),
        decreases shown - j,
    {
        proof {
            assert(pv.take(j + 1).drop_last() =~= pv.take(j as int));
            assert(pv.take(j + 1).last() == ps[j as int]@);
        }
        put_flagged_entry(&mut out, store, findings, &ps[j]);
        j += 1;
    }
    assert(pv.take(shown as int).len() == shown);
    out
}


// ─── Budget and assembly ────────────────────────────────────────────────────

/// The largest context, in UTF-8 bytes.
pub const MAX_OUTPUT_BYTES: usize = 200_000;

/// The instructions that open the context.
pub const ASSESSMENT_PROMPT: &'static str = "You are analyzing a NotePlan-based personal knowledge management system organized using the Johnny Decimal (JD) system. The user has exported a context bundle containing three data sections:\n\n1. SYSTEM GUIDE — The user's self-documented organizational conventions and rules. This is the \"intended design\" of their system.\n\n2. SYSTEM DUMP — An automated structural snapshot showing the actual JD hierarchy, statistics, tag usage, and activity patterns.\n\n3. FLAGGED NOTES — Notes that automated analysis identified as potentially misorganized, with their full content included.\n\nYour task:\n- Compare the guide's stated conventions against the actual structure in the dump. Identify where reality diverges from intent.\n- For each flagged note, assess whether it truly needs reorganization or if the automated flag is a false positive given the user's conventions.\n- Suggest simplifications to the guide where rules are overly complex or not reflected in practice.\n- Identify any organizational patterns visible in the dump that aren't documented in the guide.\n- Prioritize actionable recommendations: what should the user fix first?\n\nBe specific. Reference actual note titles, JD IDs, and folder paths. Do not give generic organizational advice.";

pub const BUDGET_NOTICE: &'static str = "\n[...output truncated to fit context window budget. Some flagged notes were omitted. Re-run with fewer findings to see all.]\n</flagged_notes>\n";

/// Where the last newline of `s` stands, if there is one.
pub open spec fn last_newline(s: Seq<char>) -> Option<int>
    decreases s.len(),
{
    if s.len() == 0 {
        None
    } else if s.last() == '\n' {
        Some(s.len() - 1)
    } else {
        last_newline(s.drop_last())
    }
}

/// A text held to the budget: one over it is cut to the whole characters
/// that fit in 200 bytes less than the budget, back to its last complete
/// line, and closed with a notice.
pub open spec fn within_budget(s: Seq<char>) -> Seq<char> {
    if crate::text::byte_len(s) <= MAX_OUTPUT_BYTES {
        s
    } else {
        let p = crate::text::fit_prefix(s, (MAX_OUTPUT_BYTES - 200) as int);
        let q = match last_newline(p) {
            Some(i) => p.take(i + 1),
            None => p,
        };
        q + BUDGET_NOTICE@
    }
}

proof fn lemma_last_newline_bound(s: Seq<char>)
    ensures
        last_newline(s) matches Some(i) ==> 0 <= i < s.len(),
    decreases s.len(),
{
    if s.len() > 0 && s.last() != '\n' {
        lemma_last_newline_bound(s.drop_last());
    }
}

proof fn lemma_byte_len_concat(a: Seq<char>, b: Seq<char>)
    ensures
        crate::text::byte_len(a + b) == crate::text::byte_len(a) + crate::text::byte_len(b),
    decreases b.len(),
{
    if b.len() > 0 {
        lemma_byte_len_concat(a, b.drop_last());
        assert((a + b).drop_last() =~= a + b.drop_last());
    } else {
        assert(a + b =~= a);
    }
}

proof fn lemma_fit_prefix_bytes(s: Seq<char>, budget: int)
    requires
        budget >= 0,
    ensures
        crate::text::byte_len(crate::text::fit_prefix(s, budget)) <= budget,
    decreases s.len(),
{
    if !(s.len() == 0 || crate::text::utf8_len(s[0]) > budget) {
        lemma_fit_prefix_bytes(s.drop_first(), budget - crate::text::utf8_len(s[0]));
        lemma_byte_len_concat(seq![s[0]], crate::text::fit_prefix(s.drop_first(), budget - crate::text::utf8_len(s[0])));
        assert(seq![s[0]].drop_last() =~= Seq::<char>::empty());
        assert(crate::text::byte_len(seq![s[0]]) == crate::text::byte_len(Seq::<char>::empty()) + crate::text::utf8_len(s[0]));
    }
}

proof fn lemma_ascii_bytes(s: Seq<char>)
    requires
        forall|i: int| 0 <= i < s.len() ==> (#[trigger] s[i] as u32) < 0x80,
    ensures
        crate::text::byte_len(s) == s.len(),
    decreases s.len(),
{
    if s.len() > 0 {
        lemma_ascii_bytes(s.drop_last());
        assert((s[s.len() - 1] as u32) < 0x80);
    }
}

/// A context held to the budget is at most `MAX_OUTPUT_BYTES` bytes long:
/// kept whole when it fits, else cut at a line end within the budget less
/// room for the notice, which is then added.
pub proof fn lemma_within_budget_fits(s: Seq<char>)
    ensures
        crate::text::byte_len(within_budget(s)) <= MAX_OUTPUT_BYTES,
{
    if crate::text::byte_len(s) > MAX_OUTPUT_BYTES {
        let p = crate::text::fit_prefix(s, (MAX_OUTPUT_BYTES - 200) as int);
        lemma_fit_prefix_bytes(s, (MAX_OUTPUT_BYTES - 200) as int);
        let q = match last_newline(p) {
            Some(i) => p.take(i + 1),
            None => p,
        };
        assert(crate::text::byte_len(q) <= crate::text::byte_len(p)) by {
            match last_newline(p) {
                Some(i) => {
                    lemma_last_newline_bound(p);
                    lemma_byte_len_concat(p.take(i + 1), p.skip(i + 1));
                    assert(p.take(i + 1) + p.skip(i + 1) =~= p);
                },
                None => {},
            }
        }
        reveal_strlit("\n[...output truncated to fit context window budget. Some flagged notes were omitted. Re-run with fewer findings to see all.]\n</flagged_notes>\n");
        let n = BUDGET_NOTICE@;
        assert(n.len() < 200);
        assert(forall|i: int| 0 <= i < n.len() ==> (#[trigger] n[i] as u32) < 0x80);
        lemma_ascii_bytes(n);
        lemma_byte_len_concat(q, n);
    }
}

fn enforce_budget(out: &Vec<char>) -> (r: Vec<char>)
    ensures
        r@ == within_budget(out@),
{
    if crate::text::byte_length(out) <= MAX_OUTPUT_BYTES as u128 {
        return out.clone();
    }
    let p = crate::text::fit_prefix_exec(out, MAX_OUTPUT_BYTES - 200);
    let mut k: usize = p.len();
    assert(p@.take(k as int) =~= p@);
    while k > 0 && p[k - 1] != '\n'
        invariant
            k <= p.len(),
            last_newline(p@) == last_newline(p@.take(k as int)),
        decreases k,
    {
        assert(p@.take(k as int).drop_last() =~= p@.take(k - 1));
        k -= 1;
    }
    let mut q: Vec<char> = Vec::new();
    if k > 0 {
        assert(p@.take(k as int).last() == p@[k - 1]);
        assert(last_newline(p@) == Some(k - 1));
        q = crate::text::slice_vec(&p, 0, k);
        assert(q@ =~= p@.take(k as int));
    } else {
        assert(p@.take(0) =~= Seq::<char>::empty());
        assert(last_newline(p@) is None);
        q = p;
    }
    crate::dump::put_str(&mut q, BUDGET_NOTICE);
    q
}

/// The context before the budget is applied.
pub open spec fn context_text(
    notes: Seq<Note>,
    nv: Seq<NoteV>,
    guide_title: Option<Seq<char>>,
    dump: Seq<char>,
    fs: Seq<FindingV>,
) -> Seq<char> {
    "<assessment_prompt>\n"@ + ASSESSMENT_PROMPT@ + "\n"@ + "</assessment_prompt>\n"@ + "\n"@
        + "<system_guide>\n"@ + guide_text(nv, guide_title) + "</system_guide>\n"@ + "\n"@
        + "<system_dump>\n"@ + dump + "</system_dump>\n"@ + "\n"@
        + "<flagged_notes>\n"@ + flagged_text(notes, fs) + "</flagged_notes>\n"@
}

/// Assembles the context from the store, the dump and the findings.
pub fn assemble_context(store: &NoteStore, guide_title: Option<&str>, dump: &str, findings: &Vec<Finding>) -> (r: String)
    ensures
        r@ == within_budget(
            context_text(store.notes@, store.notes.deep_view(), title_view(guide_title), dump@, findings.deep_view()),
        ),
{
    let mut out: Vec<char> = Vec::new();
    crate::dump::put_str(&mut out, "<assessment_prompt>\n");
    crate::dump::put_str(&mut out, ASSESSMENT_PROMPT);
    crate::dump::put_str(&mut out, "\n");
    crate::dump::put_str(&mut out, "</assessment_prompt>\n");
    crate::dump::put_str(&mut out, "\n");
    crate::dump::put_str(&mut out, "<system_guide>\n");
    crate::dump::put(&mut out, &build_guide_section(store, guide_title));
    crate::dump::put_str(&mut out, "</system_guide>\n");
    crate::dump::put_str(&mut out, "\n");
    crate::dump::put_str(&mut out, "<system_dump>\n");
    crate::dump::put_str(&mut out, dump);
    crate::dump::put_str(&mut out, "</system_dump>\n");
    crate::dump::put_str(&mut out, "\n");
    crate::dump::put_str(&mut out, "<flagged_notes>\n");
    crate::dump::put(&mut out, &build_flagged_section(store, findings));
    crate::dump::put_str(&mut out, "</flagged_notes>\n");
    assert(out@ =~= context_text(store.notes@, store.notes.deep_view(), title_view(guide_title), dump@, findings.deep_view()));
    let r = enforce_budget(&out);
    crate::text::string_of(&r)
}

/// The assessment context of the vault at `path`: the prompt, the guide
/// notes, a fresh dump and the flagged notes, held to the budget.
/// `modified[i]` is note `i`'s modification time, if known; `cat_avg` and
/// `note_avg` are the dump's averages as they are to be shown.
#[verifier::rlimit(40)]
pub fn generate_assessment_context(
    store: &NoteStore,
    path: &str,
    guide_title: Option<&str>,
    modified: &Vec<Option<i64>>,
    cat_avg: &str,
    note_avg: &str,
) -> (r: Result<String, String>)
    ensures
        r is Ok,
        crate::text::byte_len(r->Ok_0@) <= MAX_OUTPUT_BYTES,
        exists|dump: Seq<char>, fs: Seq<FindingV>|
            crate::dump::dump_result(store.notes.deep_view(), path@, modified@, cat_avg@, note_avg@, dump)
                && crate::analyzer::all_findings(store.notes.deep_view(), modified@, fs) && r->Ok_0@
                == #[trigger] within_budget(
                context_text(store.notes@, store.notes.deep_view(), title_view(guide_title), dump, fs),
            ),
{
    let dump = crate::dump::generate_dump(store, path, modified, cat_avg, note_avg);
    let mut mods: Vec<Option<i64>> = Vec::new();
    let mut i: usize = 0;
    while i < modified.len()
        invariant
            i <= modified.len(),
            mods@ == modified@.take(i as int),
        decreases modified.len() - i,
    {
        mods.push(modified[i]);
        assert(mods@ =~= modified@.take(i + 1));
        i += 1;
    }
    assert(mods@ =~= modified@);
    let findings = crate::analyzer::run_all_analyzers(store, mods);
    let r = assemble_context(store, guide_title, dump.as_str(), &findings);
    proof {
        lemma_within_budget_fits(context_text(store.notes@, store.notes.deep_view(), title_view(guide_title), dump@, findings.deep_view()));
    }
    Ok(r)
}

} // verus!
