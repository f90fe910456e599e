//! The `#np-backlog` control note and the ranked backlog built from it, the
//! `#np-projects` contexts and the open tasks of the store.
use vstd::prelude::*;
use crate::backlog_write::{contains_string, leader_end, leader_end_chars, BACKLOG_TAG};
use crate::models::{
    calendar_kind_of, Backlog, BacklogContext, BacklogContextV, BacklogV, CalendarKind, Note,
    NoteKind, NoteV, PoolTask, PoolTaskV, RankedTask, RankedTaskV, TaskState, TaskV,
};
use crate::parser::period::{calendar_period, daily_within_window, period_of, within_window};
use crate::parser::projects::{
    collision_warnings, collision_warnings_exec, contexts_of, h2_name, is_marked, marked_count, parse_project_control, pick_control_note,
    pick_warning_vec, pick_warnings, picked, resolve_context_projects, resolved_contexts,
    strip_marker, strip_marker_tag, tag_scoped, tag_scoped_by, Context, ContextV, ProjectControl,
};
use crate::parser::{excluded, is_excluded_relative, NoteStore};
use crate::text::{
    chars_of, chars_of_string, copy_strings, count_char, count_of, has_prefix, is_whitespace,
    is_ws, lemma_run_end, lines, lowercase, run_end, scan_run, seq_lt, slice_vec, split_lines,
    starts_with, string_of, to_lowercase, trim, trim_vec, vec_eq, CharClass,
};

verus! {

/// One entry of a `#np-backlog` context: the block ID plus the display
/// metadata of its line, so an entry whose ID no longer resolves can still
/// show its text.
#[derive(Debug, Clone)]
pub struct BacklogEntry {
    pub block_id: String,
    /// The title inside `[[<title>^id]]`.
    pub link_title: String,
    /// The text after `]]`, trimmed.
    pub text: String,
}

pub struct BacklogEntryV {
    pub block_id: Seq<char>,
    pub link_title: Seq<char>,
    pub text: Seq<char>,
}

impl DeepView for BacklogEntry {
    type V = BacklogEntryV;

    open spec fn deep_view(&self) -> BacklogEntryV {
        BacklogEntryV { block_id: self.block_id@, link_title: self.link_title@, text: self.text@ }
    }
}

/// The parsed `#np-backlog` note: ordered entries per context heading.
#[derive(Debug, Clone)]
pub struct BacklogControl {
    pub note_title: String,
    pub contexts: Vec<(String, Vec<BacklogEntry>)>,
    pub warnings: Vec<String>,
}

/// The `[[title^id]]` reference starting at `j`: the positions of its `^`
/// and of the `]]` after the ID.
pub open spec fn ref_span(t: Seq<char>, j: int) -> Option<(int, int)> {
    if 0 <= j && j + 2 <= t.len() && t[j] == '[' && t[j + 1] == '[' {
        let a = run_end(t, j + 2, CharClass::NotCloseOrCaret);
        if a < t.len() && t[a] == '^' {
            let b = run_end(t, a + 1, CharClass::AsciiAlnum);
            if b - (a + 1) >= 4 && b + 2 <= t.len() && t[b] == ']' && t[b + 1] == ']' {
                Some((a, b))
            } else {
                None
            }
        } else {
            None
        }
    } else {
        None
    }
}

/// The leftmost reference at or after `j`: its start, `^` and `]]`
/// positions.
pub open spec fn first_ref_from(t: Seq<char>, j: int) -> Option<(int, int, int)>
    decreases t.len() - j,
{
    if j < 0 || j >= t.len() {
        None
    } else {
        match ref_span(t, j) {
            Some((a, b)) => Some((j, a, b)),
            None => first_ref_from(t, j + 1),
        }
    }
}

/// A backlog entry line (`^\s*(?:\d+\.|[-*+])\s+.*?\[\[([^\]^]*)\^([A-Za-z0-9]{4,})\]\]\s*(.*?)\s*$`):
/// the link title, the block ID and the trimmed text after the reference.
pub open spec fn entry_of(l: Seq<char>) -> Option<BacklogEntryV> {
    match leader_end(l) {
        Some(k) => if k < l.len() && is_ws(l[k]) {
            match first_ref_from(l, k + 1) {
                Some((j, a, b)) => Some(
                    BacklogEntryV {
                        block_id: l.subrange(a + 1, b),
                        link_title: l.subrange(j + 2, a),
                        text: trim(l.skip(b + 2)),
                    },
                ),
                None => None,
            }
        } else {
            None
        },
        None => None,
    }
}

/// The contexts after reading one more line of the backlog note.
pub open spec fn backlog_step(cs: Seq<(Seq<char>, Seq<BacklogEntryV>)>, l: Seq<char>) -> Seq<(Seq<char>, Seq<BacklogEntryV>)> {
    match h2_name(l) {
        Some(n) => cs.push((n, Seq::empty())),
        None => match entry_of(l) {
            Some(e) => if cs.len() > 0 {
                cs.update(cs.len() - 1, (cs.last().0, cs.last().1.push(e)))
            } else {
                cs
            },
            None => cs,
        },
    }
}

/// The contexts of the backlog note's lines, with their entries in order.
pub open spec fn backlog_contexts_of(ls: Seq<Seq<char>>) -> Seq<(Seq<char>, Seq<BacklogEntryV>)>
    decreases ls.len(),
{
    if ls.len() == 0 {
        Seq::empty()
    } else {
        backlog_step(backlog_contexts_of(ls.drop_last()), ls.last())
    }
}

fn ref_span_exec(t: &Vec<char>, j: usize) -> (r: Option<(usize, usize)>)
    requires
        j <= t.len(),
    ensures
        match r {
            Some((a, b)) => ref_span(t@, j as int) == Some((a as int, b as int)) && j + 2 <= a < b
                && b + 2 <= t.len(),
            None => ref_span(t@, j as int) is None,
        },
{
    if t.len() >= 2 && j <= t.len() - 2 && t[j] == '[' && t[j + 1] == '[' {
        proof {
            lemma_run_end(t@, j + 2, CharClass::NotCloseOrCaret);
        }
        let a = scan_run(t, j + 2, CharClass::NotCloseOrCaret);
        if a < t.len() && t[a] == '^' {
            proof {
                lemma_run_end(t@, a + 1, CharClass::AsciiAlnum);
            }
            let b = scan_run(t, a + 1, CharClass::AsciiAlnum);
            if b - (a + 1) >= 4 && b < t.len() && b + 1 < t.len() && t[b] == ']' && t[b + 1] == ']' {
                return Some((a, b));
            }
        }
    }
    None
}

fn entry_of_chars(l: &Vec<char>) -> (r: Option<BacklogEntry>)
    ensures
        r.deep_view() == entry_of(l@),
{
    let k = match leader_end_chars(l) {
        Some(k) => k,
        None => return None,
    };
    if !(k < l.len() && is_whitespace(l[k])) {
        return None;
    }
    let mut j: usize = k + 1;
    while j < l.len()
        invariant
            k < j <= l.len(),
            first_ref_from(l@, j as int) == first_ref_from(l@, k + 1),
            leader_end(l@) == Some(k as int),
            k < l@.len() && is_ws(l@[k as int]),
        decreases l.len() - j,
    {
        match ref_span_exec(l, j) {
            Some((a, b)) => {
                let e = BacklogEntry {
                    block_id: string_of(&slice_vec(l, a + 1, b)),
                    link_title: string_of(&slice_vec(l, j + 2, a)),
                    text: string_of(&trim_vec(&slice_vec(l, b + 2, l.len()))),
                };
                assert(l@.subrange(b + 2, l@.len() as int) =~= l@.skip(b + 2));
                assert(first_ref_from(l@, j as int) == Some((j as int, a as int, b as int)));
                assert(e.deep_view() == BacklogEntryV {
                    block_id: l@.subrange(a + 1, b as int),
                    link_title: l@.subrange(j + 2, a as int),
                    text: trim(l@.skip(b + 2)),
                });
                return Some(e);
            },
            None => {},
        }
        j += 1;
    }
    None
}

fn backlog_contexts(content: &str) -> (r: Vec<(String, Vec<BacklogEntry>)>)
    ensures
        r.deep_view() == backlog_contexts_of(lines(content@)),
{
    let ls = split_lines(&chars_of(content));
    let ghost lv = ls.deep_view();
    let mut cs: Vec<(String, Vec<BacklogEntry>)> = Vec::new();
    let mut i: usize = 0;
    while i < ls.len()
        invariant
            i <= ls.len(),
            lv == ls.deep_view(),
            cs.deep_view() == backlog_contexts_of(lv.take(i as int)),
        decreases ls.len() - i,
    {
        let l = &ls[i];
        assert(lv.take(i + 1).drop_last() =~= lv.take(i as int));
        assert(lv.take(i + 1).last() == l@);
        let ghost before = cs.deep_view();
        match crate::parser::projects::h2_name_chars(l) {
            Some(n) => {
                let v: Vec<BacklogEntry> = Vec::new();
                assert(v.deep_view() =~= Seq::<BacklogEntryV>::empty());
                cs.push((string_of(&n), v));
                assert(cs.deep_view() =~= before.push((n@, Seq::<BacklogEntryV>::empty())));
            },
            None => match entry_of_chars(l) {
                Some(e) => {
                    if cs.len() > 0 {
                        let (name, mut es) = cs.pop().unwrap();
                        let ghost ev = e.deep_view();
                        let ghost es0 = es.deep_view();
                        es.push(e);
                        assert(es.deep_view() =~= es0.push(ev));
                        cs.push((name, es));
                        assert(cs.deep_view() =~= before.update(before.len() - 1, (before.last().0, before.last().1.push(ev))));
                    }
                },
                None => {},
            },
        }
        i += 1;
    }
    assert(lv.take(ls.len() as int) =~= lv);
    cs
}

/// Locate and parse the `#np-backlog` control note: among the regular notes
/// tagged `#np-backlog`, one inside the control-note folder wins, then the
/// first by relative path.
pub fn parse_backlog_control(store: &NoteStore) -> (r: Option<BacklogControl>)
    requires
        store.notes.len() < usize::MAX,
    ensures
        ({
            let nv = store.notes.deep_view();
            let tag = "np-backlog"@;
            &&& r is None <==> forall|j: int| 0 <= j < nv.len() ==> !#[trigger] is_marked(nv[j], tag)
            &&& r matches Some(bc) ==> backlog_control_of(nv, bc.note_title@, bc.contexts.deep_view(), bc.warnings.deep_view())
        }),
{
    proof {
        reveal_strlit("np-backlog");
    }
    let tag = chars_of(BACKLOG_TAG);
    let (pick, count) = pick_control_note(&store.notes, &tag, true);
    match pick {
        None => None,
        Some(i) => {
            let note = &store.notes[i];
            assert(store.notes.deep_view()[i as int] == note.deep_view());
            let warnings = pick_warning_vec(count, &tag, &chars_of_string(&note.title));
            let bc = BacklogControl {
                note_title: strip_marker_tag(note.title.as_str(), "#np-backlog"),
                contexts: backlog_contexts(note.content.as_str()),
                warnings,
            };
            assert(backlog_control_of(store.notes.deep_view(), bc.note_title@, bc.contexts.deep_view(), bc.warnings.deep_view()));
            Some(bc)
        },
    }
}

/// Whether `(title, contexts, warnings)` is what the picked `#np-backlog`
/// note gives.
pub open spec fn backlog_control_of(
    nv: Seq<NoteV>,
    title: Seq<char>,
    contexts: Seq<(Seq<char>, Seq<BacklogEntryV>)>,
    warnings: Seq<Seq<char>>,
) -> bool {
    exists|i: int|
        #[trigger] picked(nv, "np-backlog"@, true, i) && title == strip_marker(nv[i].title, "#np-backlog"@)
            && contexts == backlog_contexts_of(lines(nv[i].content)) && warnings == pick_warnings(
            marked_count(nv, "np-backlog"@),
            "np-backlog"@,
            nv[i].title,
        )
}

/// Whether `relative_path` lies under `folder` (a path-segment prefix).
pub open spec fn under_folder(relative_path: Seq<char>, folder: Seq<char>) -> bool {
    relative_path.len() > folder.len() && relative_path.take(folder.len() as int) == folder
        && relative_path[folder.len() as int] == '/'
}

pub fn is_under_folder(relative_path: &str, folder: &str) -> (b: bool)
    ensures
        b == under_folder(relative_path@, folder@),
{
    let rp = chars_of(relative_path);
    let f = chars_of(folder);
    if rp.len() > f.len() && starts_with(&rp, &f) && rp[f.len()] == '/' {
        assert(rp@.take(f@.len() as int) =~= f@);
        return true;
    }
    proof {
        if rp@.len() > f@.len() && rp@.take(f@.len() as int) == f@ {
            assert(has_prefix(rp@, f@));
        }
    }
    false
}

/// Folder specificity as a segment count (`a/b/c` has 3).
pub open spec fn depth(path: Seq<char>) -> int {
    count_char(path, '/') as int + 1
}

pub fn folder_depth(path: &str) -> (n: usize)
    requires
        path@.len() < usize::MAX,
    ensures
        n == depth(path@),
{
    let p = chars_of(path);
    let c = count_of(&p, '/');
    proof {
        lemma_count_char_le(p@, '/');
    }
    c + 1
}

proof fn lemma_count_char_le(s: Seq<char>, c: char)
    ensures
        count_char(s, c) <= s.len(),
    decreases s.len(),
{
    if s.len() > 0 {
        lemma_count_char_le(s.drop_last(), c);
    }
}

/// The task tags, lowercased.
pub open spec fn lower_all(ts: Seq<Seq<char>>) -> Seq<Seq<char>> {
    ts.map_values(|t: Seq<char>| lowercase(t))
}

/// Whether some (lowercased) tag is scoped by `scope`.
pub open spec fn scoped_by_any(lc: Seq<Seq<char>>, scope: Seq<char>) -> bool {
    exists|i: int| 0 <= i < lc.len() && #[trigger] tag_scoped(lc[i], scope)
}

/// Whether some tag of `scopes` scopes one of the task tags.
pub open spec fn any_scope(lc: Seq<Seq<char>>, scopes: Seq<Seq<char>>) -> bool {
    exists|i: int| 0 <= i < scopes.len() && #[trigger] scoped_by_any(lc, scopes[i])
}

/// Whether a calendar task belongs in a context's pool: the context declares
/// no tags, or the task has none, or one of its tags is scoped by a declared
/// tag, or no context claims any of its tags.
pub open spec fn in_context(task_tags: Seq<Seq<char>>, declared: Seq<Seq<char>>, claimed: Seq<Seq<char>>) -> bool {
    ||| declared.len() == 0
    ||| task_tags.len() == 0
    ||| any_scope(lower_all(task_tags), declared)
    ||| !any_scope(lower_all(task_tags), claimed)
}

fn lower_tags(ts: &[String]) -> (r: Vec<String>)
    ensures
        r.deep_view() == lower_all(ts.deep_view()),
{
    let mut r: Vec<String> = Vec::new();
    let mut i: usize = 0;
    while i < ts.len()
        invariant
            i <= ts@.len(),
            r.deep_view() == lower_all(ts.deep_view().take(i as int)),
        decreases ts.len() - i,
    {
        let ghost r0 = r.deep_view();
        let l = to_lowercase(&chars_of_string(&ts[i]));
        r.push(string_of(&l));
        assert(ts.deep_view()[i as int] == ts@[i as int]@);
        assert(r.deep_view() =~= r0.push(l@));
        assert(lower_all(ts.deep_view().take(i + 1)) =~= lower_all(ts.deep_view().take(i as int)).push(lowercase(ts@[i as int]@)));
        i += 1;
    }
    assert(ts.deep_view().take(i as int) =~= ts.deep_view());
    r
}

fn scoped_by_any_exec(lc: &Vec<String>, scope: &String) -> (b: bool)
    ensures
        b == scoped_by_any(lc.deep_view(), scope@),
{
    let mut i: usize = 0;
    while i < lc.len()
        invariant
            i <= lc.len(),
            forall|k: int| 0 <= k < i ==> !#[trigger] tag_scoped(lc.deep_view()[k], scope@),
        decreases lc.len() - i,
    {
        assert(lc.deep_view()[i as int] == lc[i as int]@);
        if tag_scoped_by(lc[i].as_str(), scope.as_str()) {
            return true;
        }
        i += 1;
    }
    false
}

fn any_scope_exec(lc: &Vec<String>, scopes: &[String]) -> (b: bool)
    ensures
        b == any_scope(lc.deep_view(), scopes.deep_view()),
{
    let mut i: usize = 0;
    while i < scopes.len()
        invariant
            i <= scopes@.len(),
            forall|k: int| 0 <= k < i ==> !#[trigger] scoped_by_any(lc.deep_view(), scopes.deep_view()[k]),
        decreases scopes.len() - i,
    {
        assert(scopes.deep_view()[i as int] == scopes@[i as int]@);
        if scoped_by_any_exec(lc, &scopes[i]) {
            return true;
        }
        i += 1;
    }
    false
}

/// Whether a calendar task belongs in a context's pool (see `in_context`);
/// tags compare case-insensitively and a declared `work` scopes `work/deck`.
pub fn calendar_task_in_context(task_tags: &[String], declared: &[String], claimed: &[String]) -> (b: bool)
    ensures
        b == in_context(task_tags.deep_view(), declared.deep_view(), claimed.deep_view()),
{
    if declared.len() == 0 {
        return true;
    }
    if task_tags.len() == 0 {
        return true;
    }
    let lc = lower_tags(task_tags);
    if any_scope_exec(&lc, declared) {
        return true;
    }
    if !any_scope_exec(&lc, claimed) {
        return true;
    }
    false
}

/// The project whose folder most specifically holds `relative_path`: the
/// deepest folder containing it, the last of equally deep ones.
pub open spec fn best_project(ps: Seq<(Seq<char>, u32, Seq<char>)>, relative_path: Seq<char>) -> Option<int>
    decreases ps.len(),
{
    if ps.len() == 0 {
        None
    } else {
        let b = best_project(ps.drop_last(), relative_path);
        let k = ps.len() - 1;
        if under_folder(relative_path, ps[k].0) && (b is None || depth(ps[k].0) >= depth(ps[b.unwrap()].0)) {
            Some(k)
        } else {
            b
        }
    }
}

proof fn lemma_best_project_bound(ps: Seq<(Seq<char>, u32, Seq<char>)>, rp: Seq<char>)
    ensures
        best_project(ps, rp) matches Some(i) ==> 0 <= i < ps.len() && under_folder(rp, ps[i].0),
    decreases ps.len(),
{
    if ps.len() > 0 {
        lemma_best_project_bound(ps.drop_last(), rp);
    }
}

fn best_project_index(ps: &[(String, u32, String)], relative_path: &str) -> (r: Option<usize>)
    ensures
        match r {
            Some(i) => best_project(ps.deep_view(), relative_path@) == Some(i as int) && i < ps@.len(),
            None => best_project(ps.deep_view(), relative_path@) is None,
        },
{
    let ghost pv = ps.deep_view();
    let mut best: Option<usize> = None;
    let mut k: usize = 0;
    while k < ps.len()
        invariant
            k <= ps@.len(),
            pv == ps.deep_view(),
            match best {
                Some(i) => best_project(pv.take(k as int), relative_path@) == Some(i as int) && i < k,
                None => best_project(pv.take(k as int), relative_path@) is None,
            },
        decreases ps.len() - k,
    {
        assert(pv.take(k + 1).drop_last() =~= pv.take(k as int));
        assert(pv[k as int] == ps@[k as int].deep_view());
        if is_under_folder(relative_path, ps[k].0.as_str()) {
            let take = match best {
                None => true,
                Some(i) => {
                    assert(pv[i as int] == ps@[i as int].deep_view());
                    assert(pv.take(k + 1)[i as int] == pv[i as int]);
                    count_of(&chars_of_string(&ps[k].0), '/') >= count_of(&chars_of_string(&ps[i].0), '/')
                },
            };
            if take {
                best = Some(k);
            }
        } else {
            match best {
                Some(i) => {
                    assert(pv.take(k + 1)[i as int] == pv[i as int]);
                },
                None => {},
            }
        }
        k += 1;
    }
    assert(pv.take(k as int) =~= pv);
    best
}

/// The project `(folder, rank, title)` whose folder most specifically holds
/// `relative_path`.
pub fn project_for_path<'a>(projects: &'a [(String, u32, String)], relative_path: &str) -> (r: Option<&'a (String, u32, String)>)
    ensures
        match best_project(projects.deep_view(), relative_path@) {
            Some(i) => r matches Some(t) && t.deep_view() == projects.deep_view()[i],
            None => r is None,
        },
{
    match best_project_index(projects, relative_path) {
        Some(i) => {
            assert(projects.deep_view()[i as int] == projects@[i as int].deep_view());
            Some(&projects[i])
        },
        None => None,
    }
}

/// Whether task `ti` of note `ni` is a live task carrying block ID `id`.
pub open spec fn id_at(nv: Seq<NoteV>, id: Seq<char>, ni: int, ti: int) -> bool {
    &&& 0 <= ni < nv.len()
    &&& !excluded(nv[ni].relative_path)
    &&& 0 <= ti < nv[ni].tasks.len()
    &&& nv[ni].tasks[ti].block_id == Some(id)
}

/// The task a block ID resolves to: the last carrier in scan order.
pub open spec fn resolves_id(nv: Seq<NoteV>, id: Seq<char>, ni: int, ti: int) -> bool {
    &&& id_at(nv, id, ni, ti)
    &&& forall|n2: int, t2: int| #[trigger] id_at(nv, id, n2, t2) ==> n2 < ni || (n2 == ni && t2 <= ti)
}

/// Whether no live task carries block ID `id`.
pub open spec fn id_unresolved(nv: Seq<NoteV>, id: Seq<char>) -> bool {
    forall|n2: int, t2: int| !#[trigger] id_at(nv, id, n2, t2)
}

fn resolve_block_id(store: &NoteStore, id: &Vec<char>) -> (r: Option<(usize, usize)>)
    ensures
        match r {
            Some((ni, ti)) => resolves_id(store.notes.deep_view(), id@, ni as int, ti as int),
            None => id_unresolved(store.notes.deep_view(), id@),
        },
{
    let ghost nv = store.notes.deep_view();
    let mut found: Option<(usize, usize)> = None;
    let mut ni: usize = 0;
    while ni < store.notes.len()
        invariant
            ni <= store.notes.len(),
            nv == store.notes.deep_view(),
            match found {
                Some((a, b)) => id_at(nv, id@, a as int, b as int) && forall|n2: int, t2: int|
                    n2 < ni && #[trigger] id_at(nv, id@, n2, t2) ==> n2 < a || (n2 == a && t2 <= b),
                None => forall|n2: int, t2: int| n2 < ni ==> !#[trigger] id_at(nv, id@, n2, t2),
            },
        decreases store.notes.len() - ni,
    {
        let note = &store.notes[ni];
        assert(nv[ni as int] == note.deep_view());
        if !is_excluded_relative(note.relative_path.as_str()) {
            let mut ti: usize = 0;
            while ti < note.tasks.len()
                invariant
                    ti <= note.tasks.len(),
                    ni < store.notes.len(),
                    nv == store.notes.deep_view(),
                    nv[ni as int] == note.deep_view(),
                    !excluded(nv[ni as int].relative_path),
                    match found {
                        Some((a, b)) => id_at(nv, id@, a as int, b as int) && forall|n2: int, t2: int|
                            (n2 < ni || (n2 == ni && t2 < ti)) && #[trigger] id_at(nv, id@, n2, t2) ==> n2 < a || (n2 == a && t2 <= b),
                        None => forall|n2: int, t2: int| (n2 < ni || (n2 == ni && t2 < ti)) ==> !#[trigger] id_at(nv, id@, n2, t2),
                    },
                decreases note.tasks.len() - ti,
            {
                assert(nv[ni as int].tasks[ti as int] == note.tasks[ti as int].deep_view());
                let hit = match &note.tasks[ti].block_id {
                    Some(b) => vec_eq(&chars_of_string(b), id),
                    None => false,
                };
                if hit {
                    found = Some((ni, ti));
                }
                ti += 1;
            }
        }
        ni += 1;
    }
    found
}

/// How to build the backlog: whether daily notes older than the window are
/// harvested, and today's day number (days from the common era, as
/// `Datelike::num_days_from_ce` counts them).
pub struct BacklogOptions {
    pub include_older_dailies: bool,
    pub today: i32,
}

pub proof fn lemma_resolves_id_unique(nv: Seq<NoteV>, id: Seq<char>, a: int, b: int, c: int, d: int)
    requires
        resolves_id(nv, id, a, b),
        resolves_id(nv, id, c, d),
    ensures
        a == c && b == d,
{
    assert(id_at(nv, id, c, d));
    assert(id_at(nv, id, a, b));
}

/// The ranked task for entry `e` at position `i` of a context whose projects
/// are `ps`: the live task its ID resolves to, or the entry's own text when
/// the ID no longer resolves.
pub open spec fn ranked_entry(nv: Seq<NoteV>, ps: Seq<(Seq<char>, u32, Seq<char>)>, i: int, e: BacklogEntryV) -> RankedTaskV {
    if exists|ni: int, ti: int| #[trigger] resolves_id(nv, e.block_id, ni, ti) {
        let (ni, ti) = choose|ni: int, ti: int| #[trigger] resolves_id(nv, e.block_id, ni, ti);
        let note = nv[ni];
        let t = note.tasks[ti];
        let proj = best_project(ps, note.relative_path);
        RankedTaskV {
            rank: (i + 1) as u32,
            block_id: e.block_id,
            text: t.text,
            priority: t.priority,
            source_note_title: note.title,
            source_relative_path: note.relative_path,
            line_number: t.line_number,
            resolved: true,
            is_ghost: calendar_kind_of(note.kind) is Some && t.state == TaskState::Scheduled,
            tags: t.tags,
            project_title: match proj {
                Some(k) => Some(ps[k].2),
                None => None,
            },
            project_rank: match proj {
                Some(k) => Some(ps[k].1),
                None => None,
            },
            calendar_kind: calendar_kind_of(note.kind),
            calendar_period: period_of(note.kind, note.relative_path),
        }
    } else {
        RankedTaskV {
            rank: (i + 1) as u32,
            block_id: e.block_id,
            text: e.text,
            priority: 0,
            source_note_title: e.link_title,
            source_relative_path: Seq::empty(),
            line_number: 0,
            resolved: false,
            is_ghost: false,
            tags: Seq::empty(),
            project_title: None,
            project_rank: None,
            calendar_kind: None,
            calendar_period: None,
        }
    }
}

/// The index of the last task of `ts` carrying block ID `id`, or -1.
pub open spec fn last_carrier(ts: Seq<TaskV>, id: Seq<char>) -> int
    decreases ts.len(),
{
    if ts.len() == 0 {
        -1
    } else if ts.last().block_id == Some(id) {
        ts.len() - 1
    } else {
        last_carrier(ts.drop_last(), id)
    }
}

proof fn lemma_last_carrier(ts: Seq<TaskV>, id: Seq<char>)
    ensures
        -1 <= last_carrier(ts, id) < ts.len(),
        last_carrier(ts, id) >= 0 ==> ts[last_carrier(ts, id)].block_id == Some(id),
        forall|t: int| 0 <= t < ts.len() && (#[trigger] ts[t]).block_id == Some(id) ==> t <= last_carrier(ts, id),
    decreases ts.len(),
{
    if ts.len() > 0 {
        lemma_last_carrier(ts.drop_last(), id);
        assert forall|t: int| 0 <= t < ts.len() && (#[trigger] ts[t]).block_id == Some(id) implies t <= last_carrier(ts, id) by {
            if t < ts.len() - 1 {
                assert(ts[t] == ts.drop_last()[t]);
            }
        }
        if last_carrier(ts, id) >= 0 && last_carrier(ts, id) < ts.len() - 1 {
            assert(ts[last_carrier(ts, id)] == ts.drop_last()[last_carrier(ts, id)]);
        }
    }
}

/// The index of the last note outside the excluded folders with a task
/// carrying block ID `id`, or -1.
pub open spec fn last_note_carrier(nv: Seq<NoteV>, id: Seq<char>) -> int
    decreases nv.len(),
{
    if nv.len() == 0 {
        -1
    } else if !excluded(nv.last().relative_path) && last_carrier(nv.last().tasks, id) >= 0 {
        nv.len() - 1
    } else {
        last_note_carrier(nv.drop_last(), id)
    }
}

proof fn lemma_last_note_carrier(nv: Seq<NoteV>, id: Seq<char>)
    ensures
        -1 <= last_note_carrier(nv, id) < nv.len(),
        last_note_carrier(nv, id) >= 0 ==> !excluded(nv[last_note_carrier(nv, id)].relative_path)
            && last_carrier(nv[last_note_carrier(nv, id)].tasks, id) >= 0,
        forall|n: int, t: int| #[trigger] id_at(nv, id, n, t) ==> n <= last_note_carrier(nv, id),
    decreases nv.len(),
{
    if nv.len() > 0 {
        let d = nv.drop_last();
        lemma_last_note_carrier(d, id);
        lemma_last_carrier(nv.last().tasks, id);
        assert forall|n: int, t: int| #[trigger] id_at(nv, id, n, t) implies n <= last_note_carrier(nv, id) by {
            if n < nv.len() - 1 {
                assert(nv[n] == d[n]);
                assert(id_at(d, id, n, t));
            } else {
                assert(nv.last().tasks[t].block_id == Some(id));
            }
        }
        let m = last_note_carrier(nv, id);
        if m >= 0 && m < nv.len() - 1 {
            assert(nv[m] == d[m]);
        }
    }
}

/// A block ID resolves to a task exactly when some task outside the
/// excluded folders carries it.
pub proof fn lemma_resolves_iff_carried(nv: Seq<NoteV>, id: Seq<char>)
    ensures
        (exists|ni: int, ti: int| #[trigger] resolves_id(nv, id, ni, ti)) <==> (exists|ni: int, ti: int| #[trigger] id_at(nv, id, ni, ti)),
{
    if exists|ni: int, ti: int| #[trigger] id_at(nv, id, ni, ti) {
        let (n0, t0) = choose|ni: int, ti: int| #[trigger] id_at(nv, id, ni, ti);
        lemma_last_note_carrier(nv, id);
        let n = last_note_carrier(nv, id);
        assert(n >= 0);
        lemma_last_carrier(nv[n].tasks, id);
        let t = last_carrier(nv[n].tasks, id);
        assert(id_at(nv, id, n, t));
        assert forall|n2: int, t2: int| #[trigger] id_at(nv, id, n2, t2) implies n2 < n || (n2 == n && t2 <= t) by {
            if n2 == n {
                assert(nv[n].tasks[t2].block_id == Some(id));
            }
        }
        assert(resolves_id(nv, id, n, t));
    }
}

/// The ranked list has one entry per backlog entry, in list order: entry
/// `i` has rank `i + 1` and the entry's block ID, and is resolved exactly
/// when some task outside the excluded folders carries that ID.
pub proof fn lemma_ranked_list_law(nv: Seq<NoteV>, ps: Seq<(Seq<char>, u32, Seq<char>)>, es: Seq<BacklogEntryV>)
    requires
        es.len() < u32::MAX,
    ensures
        ranked_list(nv, ps, es).len() == es.len(),
        forall|i: int| 0 <= i < es.len() ==> (#[trigger] ranked_list(nv, ps, es)[i]).rank == i + 1
            && ranked_list(nv, ps, es)[i].block_id == es[i].block_id
            && (ranked_list(nv, ps, es)[i].resolved <==> exists|ni: int, ti: int| #[trigger] id_at(nv, es[i].block_id, ni, ti)),
{
    assert forall|i: int| 0 <= i < es.len() implies (#[trigger] ranked_list(nv, ps, es)[i]).rank == i + 1
        && ranked_list(nv, ps, es)[i].block_id == es[i].block_id
        && (ranked_list(nv, ps, es)[i].resolved <==> exists|ni: int, ti: int| #[trigger] id_at(nv, es[i].block_id, ni, ti)) by {
        lemma_resolves_iff_carried(nv, es[i].block_id);
    }
}

/// The ranked tasks of a context's entries, in list order.
pub open spec fn ranked_list(nv: Seq<NoteV>, ps: Seq<(Seq<char>, u32, Seq<char>)>, es: Seq<BacklogEntryV>) -> Seq<RankedTaskV> {
    Seq::new(es.len(), |i: int| ranked_entry(nv, ps, i, es[i]))
}

fn project_fields(projects: &Vec<(String, u32, String)>, relative_path: &String) -> (r: (Option<String>, Option<u32>))
    ensures
        ({
            let ps = projects.deep_view();
            match best_project(ps, relative_path@) {
                Some(k) => r.0.deep_view() == Some(ps[k].2) && r.1 == Some(ps[k].1),
                None => r.0 is None && r.1 is None,
            }
        }),
{
    match project_for_path(projects.as_slice(), relative_path.as_str()) {
        Some(t) => (Some(string_of(&chars_of_string(&t.2))), Some(t.1)),
        None => (None, None),
    }
}

fn ranked_for(store: &NoteStore, entries: &Vec<BacklogEntry>, projects: &Vec<(String, u32, String)>) -> (r: Vec<RankedTask>)
    ensures
        r.deep_view() == ranked_list(store.notes.deep_view(), projects.deep_view(), entries.deep_view()),
{
    let ghost nv = store.notes.deep_view();
    let ghost ps = projects.deep_view();
    let ghost ev = entries.deep_view();
    let mut out: Vec<RankedTask> = Vec::new();
    let mut i: usize = 0;
    while i < entries.len()
        invariant
            i <= entries.len(),
            nv == store.notes.deep_view(),
            ps == projects.deep_view(),
            ev == entries.deep_view(),
            out.len() == i,
            forall|k: int| 0 <= k < i ==> #[trigger] out.deep_view()[k] == ranked_entry(nv, ps, k, ev[k]),
        decreases entries.len() - i,
    {
        let e = &entries[i];
        assert(ev[i as int] == e.deep_view());
        let idc = chars_of_string(&e.block_id);
        let task = match resolve_block_id(store, &idc) {
            Some((ni, ti)) => {
                let note = &store.notes[ni];
                assert(nv[ni as int] == note.deep_view());
                let t = &note.tasks[ti];
                assert(nv[ni as int].tasks[ti as int] == t.deep_view());
                let (pt, pr) = project_fields(projects, &note.relative_path);
                let ck = CalendarKind::from_note_kind(&note.kind);
                let rt = RankedTask {
                    rank: (i + 1) as u32,
                    block_id: string_of(&idc),
                    text: string_of(&chars_of_string(&t.text)),
                    priority: t.priority,
                    source_note_title: string_of(&chars_of_string(&note.title)),
                    source_relative_path: string_of(&chars_of_string(&note.relative_path)),
                    line_number: t.line_number,
                    resolved: true,
                    is_ghost: ck.is_some() && t.state == TaskState::Scheduled,
                    tags: copy_strings(&t.tags),
                    project_title: pt,
                    project_rank: pr,
                    calendar_kind: ck,
                    calendar_period: calendar_period(&note.kind, note.relative_path.as_str()),
                };
                proof {
                    let (a, b) = choose|a: int, b: int| #[trigger] resolves_id(nv, ev[i as int].block_id, a, b);
                    lemma_resolves_id_unique(nv, ev[i as int].block_id, a, b, ni as int, ti as int);
                }
                assert(rt.deep_view() == ranked_entry(nv, ps, i as int, ev[i as int]));
                rt
            },
            None => {
                let rt = RankedTask {
                    rank: (i + 1) as u32,
                    block_id: string_of(&idc),
                    text: string_of(&chars_of_string(&e.text)),
                    priority: 0,
                    source_note_title: string_of(&chars_of_string(&e.link_title)),
                    source_relative_path: String::new(),
                    line_number: 0,
                    resolved: false,
                    is_ghost: false,
                    tags: Vec::new(),
                    project_title: None,
                    project_rank: None,
                    calendar_kind: None,
                    calendar_period: None,
                };
                assert(rt.tags.deep_view() =~= Seq::<Seq<char>>::empty());
                assert(rt.source_relative_path@ =~= Seq::<char>::empty());
                assert(rt.deep_view() == ranked_entry(nv, ps, i as int, ev[i as int]));
                rt
            },
        };
        let ghost o0 = out.deep_view();
        out.push(task);
        proof {
            assert forall|k: int| 0 <= k < i + 1 implies #[trigger] out.deep_view()[k] == ranked_entry(nv, ps, k, ev[k]) by {
                if k < i {
                    assert(out.deep_view()[k] == o0[k]);
                }
            }
        }
        i += 1;
    }
    assert(out.deep_view() =~= ranked_list(nv, ps, ev));
    out
}

/// What scopes a context's pool: its project folders, its declared tags,
/// every context's declared tags, the IDs already ranked, its projects, and
/// the options.
pub struct PoolScopeV {
    pub folders: Seq<Seq<char>>,
    pub declared: Seq<Seq<char>>,
    pub claimed: Seq<Seq<char>>,
    pub ranked_ids: Seq<Seq<char>>,
    pub projects: Seq<(Seq<char>, u32, Seq<char>)>,
    pub include_older: bool,
    pub today: i32,
}

pub open spec fn in_any_folder(relative_path: Seq<char>, folders: Seq<Seq<char>>) -> bool {
    exists|i: int| 0 <= i < folders.len() && #[trigger] under_folder(relative_path, folders[i])
}

/// Whether a note's tasks are harvested into a context's pool: not in an
/// excluded folder, inside one of the context's project folders or a
/// calendar note, and, for a daily note, inside the recency window unless
/// older dailies are included.
pub open spec fn note_harvested(note: NoteV, sc: PoolScopeV) -> bool {
    &&& !excluded(note.relative_path)
    &&& in_any_folder(note.relative_path, sc.folders) || calendar_kind_of(note.kind) is Some
    &&& !(note.kind == NoteKind::Daily && !sc.include_older && !within_window(note.relative_path, sc.today))
}

/// Whether a task of a harvested note enters the pool: open (or scheduled,
/// outside calendar notes), not already ranked, and, for a calendar task,
/// belonging to the context by its tags.
pub open spec fn task_pooled(note: NoteV, t: TaskV, sc: PoolScopeV) -> bool {
    let is_cal = calendar_kind_of(note.kind) is Some;
    &&& t.state == TaskState::Open || (t.state == TaskState::Scheduled && !is_cal)
    &&& !(t.block_id matches Some(id) && sc.ranked_ids.contains(id))
    &&& !is_cal || in_context(t.tags, sc.declared, sc.claimed)
}

pub open spec fn pool_task_of(note: NoteV, t: TaskV, ps: Seq<(Seq<char>, u32, Seq<char>)>) -> PoolTaskV {
    let proj = best_project(ps, note.relative_path);
    PoolTaskV {
        text: t.text,
        priority: t.priority,
        source_note_title: note.title,
        source_relative_path: note.relative_path,
        line_number: t.line_number,
        block_id: t.block_id,
        tags: t.tags,
        project_title: match proj {
            Some(k) => Some(ps[k].2),
            None => None,
        },
        project_rank: match proj {
            Some(k) => Some(ps[k].1),
            None => None,
        },
        calendar_kind: calendar_kind_of(note.kind),
        calendar_period: period_of(note.kind, note.relative_path),
    }
}

/// The pooled tasks among `ts`, the tasks of `note`, in order.
pub open spec fn note_pool(note: NoteV, ts: Seq<TaskV>, sc: PoolScopeV) -> Seq<PoolTaskV>
    decreases ts.len(),
{
    if ts.len() == 0 {
        Seq::empty()
    } else {
        let rest = note_pool(note, ts.drop_last(), sc);
        if task_pooled(note, ts.last(), sc) {
            rest.push(pool_task_of(note, ts.last(), sc.projects))
        } else {
            rest
        }
    }
}

/// The pool candidates of a context, in note and task order.
pub open spec fn pool_candidates(nv: Seq<NoteV>, sc: PoolScopeV) -> Seq<PoolTaskV>
    decreases nv.len(),
{
    if nv.len() == 0 {
        Seq::empty()
    } else {
        let rest = pool_candidates(nv.drop_last(), sc);
        if note_harvested(nv.last(), sc) {
            rest + note_pool(nv.last(), nv.last().tasks, sc)
        } else {
            rest
        }
    }
}

/// The pool order: higher priority first, then by source path, then by
/// line.
pub open spec fn pool_before(a: PoolTaskV, b: PoolTaskV) -> bool {
    a.priority > b.priority || (a.priority == b.priority && (seq_lt(a.source_relative_path, b.source_relative_path)
        || (a.source_relative_path == b.source_relative_path && a.line_number < b.line_number)))
}

/// Where `x` goes in `s`: before the first element it precedes.
pub open spec fn insert_pos(s: Seq<PoolTaskV>, x: PoolTaskV) -> int
    decreases s.len(),
{
    if s.len() == 0 {
        0
    } else if pool_before(x, s[0]) {
        0
    } else {
        1 + insert_pos(s.drop_first(), x)
    }
}

/// The candidates in pool order, equal ones keeping their order (a stable
/// insertion sort).
pub open spec fn sorted_pool(c: Seq<PoolTaskV>) -> Seq<PoolTaskV>
    decreases c.len(),
{
    if c.len() == 0 {
        c
    } else {
        let s = sorted_pool(c.drop_last());
        s.insert(insert_pos(s, c.last()), c.last())
    }
}

proof fn lemma_insert_pos_bound(s: Seq<PoolTaskV>, x: PoolTaskV)
    ensures
        0 <= insert_pos(s, x) <= s.len(),
    decreases s.len(),
{
    if s.len() > 0 && !pool_before(x, s[0]) {
        lemma_insert_pos_bound(s.drop_first(), x);
    }
}

fn pool_before_exec(a: &PoolTask, b: &PoolTask) -> (r: bool)
    ensures
        r == pool_before(a.deep_view(), b.deep_view()),
{
    if a.priority != b.priority {
        return a.priority > b.priority;
    }
    let pa = chars_of_string(&a.source_relative_path);
    let pb = chars_of_string(&b.source_relative_path);
    if crate::text::lt_chars(&pa, &pb) {
        return true;
    }
    vec_eq(&pa, &pb) && a.line_number < b.line_number
}

/// Insert `x` where `sorted_pool` puts it.
fn insert_sorted(pool: &mut Vec<PoolTask>, x: PoolTask)
    ensures
        final(pool).deep_view() == old(pool).deep_view().insert(insert_pos(old(pool).deep_view(), x.deep_view()), x.deep_view()),
{
    let ghost s = pool.deep_view();
    let mut p: usize = 0;
    proof {
        assert(s.skip(0) =~= s);
        lemma_insert_pos_bound(s, x.deep_view());
    }
    while p < pool.len() && !pool_before_exec(&x, &pool[p])
        invariant
            p <= pool.len(),
            pool.deep_view() == s,
            insert_pos(s, x.deep_view()) == p + insert_pos(s.skip(p as int), x.deep_view()),
        decreases pool.len() - p,
    {
        assert(s[p as int] == pool[p as int].deep_view());
        assert(s.skip(p as int)[0] == s[p as int]);
        assert(s.skip(p as int).drop_first() =~= s.skip(p + 1));
        p += 1;
    }
    if p < pool.len() {
        assert(s[p as int] == pool[p as int].deep_view());
        assert(s.skip(p as int)[0] == s[p as int]);
    }
    let ghost xv = x.deep_view();
    pool.insert(p, x);
    assert(pool.deep_view() =~= s.insert(p as int, xv));
}

fn in_any_folder_exec(relative_path: &String, folders: &Vec<String>) -> (b: bool)
    ensures
        b == in_any_folder(relative_path@, folders.deep_view()),
{
    let mut i: usize = 0;
    while i < folders.len()
        invariant
            i <= folders.len(),
            forall|k: int| 0 <= k < i ==> !#[trigger] under_folder(relative_path@, folders.deep_view()[k]),
        decreases folders.len() - i,
    {
        assert(folders.deep_view()[i as int] == folders[i as int]@);
        if is_under_folder(relative_path.as_str(), folders[i].as_str()) {
            return true;
        }
        i += 1;
    }
    false
}

/// The pool of a context: its candidates in pool order.
fn pool_for(
    store: &NoteStore,
    opts: &BacklogOptions,
    folders: &Vec<String>,
    declared: &Vec<String>,
    claimed: &Vec<String>,
    ranked_ids: &Vec<String>,
    projects: &Vec<(String, u32, String)>,
) -> (r: Vec<PoolTask>)
    ensures
        r.deep_view() == sorted_pool(pool_candidates(store.notes.deep_view(), PoolScopeV {
            folders: folders.deep_view(),
            declared: declared.deep_view(),
            claimed: claimed.deep_view(),
            ranked_ids: ranked_ids.deep_view(),
            projects: projects.deep_view(),
            include_older: opts.include_older_dailies,
            today: opts.today,
        })),
{
    let ghost nv = store.notes.deep_view();
    let ghost sc = PoolScopeV {
        folders: folders.deep_view(),
        declared: declared.deep_view(),
        claimed: claimed.deep_view(),
        ranked_ids: ranked_ids.deep_view(),
        projects: projects.deep_view(),
        include_older: opts.include_older_dailies,
        today: opts.today,
    };
    let mut pool: Vec<PoolTask> = Vec::new();
    let ghost mut cands: Seq<PoolTaskV> = Seq::empty();
    let mut ni: usize = 0;
    assert(nv.take(0) =~= Seq::<NoteV>::empty());
    while ni < store.notes.len()
        invariant
            ni <= store.notes.len(),
            nv == store.notes.deep_view(),
            sc.folders == folders.deep_view() && sc.declared == declared.deep_view() && sc.claimed == claimed.deep_view()
                && sc.ranked_ids == ranked_ids.deep_view() && sc.projects == projects.deep_view()
                && sc.include_older == opts.include_older_dailies && sc.today == opts.today,
            cands == pool_candidates(nv.take(ni as int), sc),
            pool.deep_view() == sorted_pool(cands),
        decreases store.notes.len() - ni,
    {
        let note = &store.notes[ni];
        assert(nv[ni as int] == note.deep_view());
        assert(nv.take(ni + 1).drop_last() =~= nv.take(ni as int));
        assert(nv.take(ni + 1).last() == nv[ni as int]);
        let ck = CalendarKind::from_note_kind(&note.kind);
        let is_cal = ck.is_some();
        let harvested = !is_excluded_relative(note.relative_path.as_str())
            && (in_any_folder_exec(&note.relative_path, folders) || is_cal)
            && !(note.kind == NoteKind::Daily && !opts.include_older_dailies
                && !daily_within_window(note.relative_path.as_str(), opts.today));
        assert(harvested == note_harvested(nv[ni as int], sc));
        if harvested {
            let ghost base = cands;
            let mut ti: usize = 0;
            assert(note.tasks.deep_view().take(0) =~= Seq::<TaskV>::empty());
            assert(base + note_pool(nv[ni as int], Seq::<TaskV>::empty(), sc) =~= base);
            while ti < note.tasks.len()
                invariant
                    ti <= note.tasks.len(),
                    ni < store.notes.len(),
                    nv == store.notes.deep_view(),
                    nv[ni as int] == note.deep_view(),
                    calendar_kind_of(note.kind) == ck,
                    is_cal == ck is Some,
                    sc.folders == folders.deep_view() && sc.declared == declared.deep_view() && sc.claimed == claimed.deep_view()
                        && sc.ranked_ids == ranked_ids.deep_view() && sc.projects == projects.deep_view()
                        && sc.include_older == opts.include_older_dailies && sc.today == opts.today,
                    cands == base + note_pool(nv[ni as int], note.tasks.deep_view().take(ti as int), sc),
                    pool.deep_view() == sorted_pool(cands),
                decreases note.tasks.len() - ti,
            {
                let t = &note.tasks[ti];
                assert(note.tasks.deep_view()[ti as int] == t.deep_view());
                assert(note.tasks.deep_view().take(ti + 1).drop_last() =~= note.tasks.deep_view().take(ti as int));
                let state_ok = match t.state {
                    TaskState::Open => true,
                    TaskState::Scheduled => !is_cal,
                    _ => false,
                };
                let already = match &t.block_id {
                    Some(id) => contains_string(ranked_ids, &chars_of_string(id)),
                    None => false,
                };
                let tags_s = t.tags.as_slice();
                let declared_s = declared.as_slice();
                let claimed_s = claimed.as_slice();
                assert(tags_s.deep_view() =~= t.tags.deep_view());
                assert(declared_s.deep_view() =~= declared.deep_view());
                assert(claimed_s.deep_view() =~= claimed.deep_view());
                let tag_ok = !is_cal || calendar_task_in_context(tags_s, declared_s, claimed_s);
                if state_ok && !already && tag_ok {
                    assert(task_pooled(nv[ni as int], t.deep_view(), sc));
                    let (pt, pr) = project_fields(projects, &note.relative_path);
                    let task = PoolTask {
                        text: string_of(&chars_of_string(&t.text)),
                        priority: t.priority,
                        source_note_title: string_of(&chars_of_string(&note.title)),
                        source_relative_path: string_of(&chars_of_string(&note.relative_path)),
                        line_number: t.line_number,
                        block_id: match &t.block_id {
                            Some(id) => Some(string_of(&chars_of_string(id))),
                            None => None,
                        },
                        tags: copy_strings(&t.tags),
                        project_title: pt,
                        project_rank: pr,
                        calendar_kind: ck,
                        calendar_period: calendar_period(&note.kind, note.relative_path.as_str()),
                    };
                    assert(task.deep_view() == pool_task_of(nv[ni as int], t.deep_view(), sc.projects));
                    proof {
                        let c0 = cands;
                        cands = cands.push(task.deep_view());
                        assert(cands.drop_last() =~= c0);
                        assert(base + note_pool(nv[ni as int], note.tasks.deep_view().take(ti + 1), sc) =~= cands);
                    }
                    insert_sorted(&mut pool, task);
                } else {
                    assert(!task_pooled(nv[ni as int], t.deep_view(), sc));
                }
                ti += 1;
            }
            assert(note.tasks.deep_view().take(ti as int) =~= note.tasks.deep_view());
        }
        ni += 1;
    }
    assert(nv.take(ni as int) =~= nv);
    pool
}

/// The entries of the first backlog context named `name` (none when absent).
pub open spec fn lookup_entries(cs: Seq<(Seq<char>, Seq<BacklogEntryV>)>, name: Seq<char>) -> Seq<BacklogEntryV>
    decreases cs.len(),
{
    if cs.len() == 0 {
        Seq::empty()
    } else if cs[0].0 == name {
        cs[0].1
    } else {
        lookup_entries(cs.drop_first(), name)
    }
}

/// The projects of the first resolved context named `name`.
pub open spec fn lookup_projects(cp: Seq<(Seq<char>, Seq<(Seq<char>, u32, Seq<char>)>)>, name: Seq<char>) -> Seq<(Seq<char>, u32, Seq<char>)>
    decreases cp.len(),
{
    if cp.len() == 0 {
        Seq::empty()
    } else if cp[0].0 == name {
        cp[0].1
    } else {
        lookup_projects(cp.drop_first(), name)
    }
}

/// The declared tags of the first project context named `name`.
pub open spec fn lookup_tags(pcs: Seq<ContextV>, name: Seq<char>) -> Seq<Seq<char>>
    decreases pcs.len(),
{
    if pcs.len() == 0 {
        Seq::empty()
    } else if pcs[0].name == name {
        pcs[0].tags
    } else {
        lookup_tags(pcs.drop_first(), name)
    }
}

/// `first` followed by the names of `extra` not already present, in order.
pub open spec fn union_names(first: Seq<Seq<char>>, extra: Seq<Seq<char>>) -> Seq<Seq<char>>
    decreases extra.len(),
{
    if extra.len() == 0 {
        first
    } else {
        let n = union_names(first, extra.drop_last());
        if n.contains(extra.last()) {
            n
        } else {
            n.push(extra.last())
        }
    }
}

/// Every tag any project context declares.
pub open spec fn all_tags(pcs: Seq<ContextV>) -> Seq<Seq<char>>
    decreases pcs.len(),
{
    if pcs.len() == 0 {
        Seq::empty()
    } else {
        all_tags(pcs.drop_last()) + pcs.last().tags
    }
}

/// The context `name` of the backlog: its ranked entries and its pool.
pub open spec fn context_view(
    nv: Seq<NoteV>,
    include_older: bool,
    today: i32,
    name: Seq<char>,
    cs: Seq<(Seq<char>, Seq<BacklogEntryV>)>,
    pcs: Seq<ContextV>,
    cp: Seq<(Seq<char>, Seq<(Seq<char>, u32, Seq<char>)>)>,
) -> BacklogContextV {
    let es = lookup_entries(cs, name);
    let ps = lookup_projects(cp, name);
    let declared = lookup_tags(pcs, name);
    BacklogContextV {
        name,
        ranked: ranked_list(nv, ps, es),
        pool: sorted_pool(pool_candidates(nv, PoolScopeV {
            folders: ps.map_values(|t: (Seq<char>, u32, Seq<char>)| t.0),
            declared,
            claimed: all_tags(pcs),
            ranked_ids: es.map_values(|e: BacklogEntryV| e.block_id),
            projects: ps,
            include_older,
            today,
        })),
        tags: declared,
    }
}

/// The backlog given the parsed control notes: the contexts of
/// `#np-backlog` followed by those only `#np-projects` has, the control
/// note's title, and both control notes' warnings.
pub open spec fn backlog_view(
    nv: Seq<NoteV>,
    include_older: bool,
    today: i32,
    ctrl: Option<(Seq<char>, Seq<(Seq<char>, Seq<BacklogEntryV>)>, Seq<Seq<char>>)>,
    pcs: Seq<ContextV>,
    pw: Seq<Seq<char>>,
    cp: Seq<(Seq<char>, Seq<(Seq<char>, u32, Seq<char>)>)>,
) -> BacklogV {
    let cs = match ctrl {
        Some((_, cs, _)) => cs,
        None => Seq::empty(),
    };
    let names = union_names(cs.map_values(|c: (Seq<char>, Seq<BacklogEntryV>)| c.0), cp.map_values(|c: (Seq<char>, Seq<(Seq<char>, u32, Seq<char>)>)| c.0));
    BacklogV {
        contexts: names.map_values(|name: Seq<char>| context_view(nv, include_older, today, name, cs, pcs, cp)),
        control_note_title: match ctrl {
            Some((t, _, _)) => Some(t),
            None => None,
        },
        warnings: match ctrl {
            Some((_, _, w)) => w,
            None => Seq::empty(),
        } + pw,
    }
}

/// What the `#np-projects` note gives: its contexts and warnings, none
/// without such a note.
pub open spec fn projects_state(nv: Seq<NoteV>, pcs: Seq<ContextV>, pw: Seq<Seq<char>>) -> bool {
    ||| (forall|j: int| 0 <= j < nv.len() ==> !#[trigger] is_marked(nv[j], "np-projects"@)) && pcs.len() == 0 && pw.len() == 0
    ||| exists|i: int|
        #[trigger] picked(nv, "np-projects"@, true, i) && pcs == contexts_of(lines(nv[i].content))
            && pw == pick_warnings(marked_count(nv, "np-projects"@), "np-projects"@, nv[i].title)
}

/// What the `#np-backlog` note gives.
pub open spec fn control_state(nv: Seq<NoteV>, ctrl: Option<(Seq<char>, Seq<(Seq<char>, Seq<BacklogEntryV>)>, Seq<Seq<char>>)>) -> bool {
    match ctrl {
        None => forall|j: int| 0 <= j < nv.len() ==> !#[trigger] is_marked(nv[j], "np-backlog"@),
        Some((t, cs, w)) => backlog_control_of(nv, t, cs, w),
    }
}

/// Whether `b` is the backlog of the notes `nv`.
pub open spec fn is_backlog_of(nv: Seq<NoteV>, include_older: bool, today: i32, b: BacklogV) -> bool {
    exists|ctrl: Option<(Seq<char>, Seq<(Seq<char>, Seq<BacklogEntryV>)>, Seq<Seq<char>>)>,
        pcs: Seq<ContextV>,
        pw: Seq<Seq<char>>,
        ws: Seq<Seq<char>>,
        cp: Seq<(Seq<char>, Seq<(Seq<char>, u32, Seq<char>)>)>|
        control_state(nv, ctrl) && projects_state(nv, pcs, pw) && resolved_contexts(nv, pcs, cp)
            && collision_warnings(nv, pcs, ws)
            && #[trigger] backlog_view(nv, include_older, today, ctrl, pcs, pw + ws, cp) == b
}

/// Every context's pool in a backlog is ordered by priority, highest first,
/// then by source path, then by line.
pub proof fn lemma_backlog_pools_ordered(nv: Seq<NoteV>, include_older: bool, today: i32, b: BacklogV)
    requires
        is_backlog_of(nv, include_older, today, b),
    ensures
        forall|c: int, i: int, j: int| 0 <= c < b.contexts.len() && 0 <= i < j < b.contexts[c].pool.len() ==> {
            let x = #[trigger] b.contexts[c].pool[i];
            let y = #[trigger] b.contexts[c].pool[j];
            &&& x.priority >= y.priority
            &&& x.priority == y.priority ==> !seq_lt(y.source_relative_path, x.source_relative_path)
            &&& x.priority == y.priority && x.source_relative_path == y.source_relative_path ==> x.line_number <= y.line_number
        },
{
    let (ctrl, pcs, pw, ws, cp) = choose|ctrl: Option<(Seq<char>, Seq<(Seq<char>, Seq<BacklogEntryV>)>, Seq<Seq<char>>)>,
        pcs: Seq<ContextV>,
        pw: Seq<Seq<char>>,
        ws: Seq<Seq<char>>,
        cp: Seq<(Seq<char>, Seq<(Seq<char>, u32, Seq<char>)>)>|
        control_state(nv, ctrl) && projects_state(nv, pcs, pw) && resolved_contexts(nv, pcs, cp)
            && collision_warnings(nv, pcs, ws)
            && #[trigger] backlog_view(nv, include_older, today, ctrl, pcs, pw + ws, cp) == b;
    assert forall|c: int, i: int, j: int| 0 <= c < b.contexts.len() && 0 <= i < j < b.contexts[c].pool.len() implies {
        let x = #[trigger] b.contexts[c].pool[i];
        let y = #[trigger] b.contexts[c].pool[j];
        &&& x.priority >= y.priority
        &&& x.priority == y.priority ==> !seq_lt(y.source_relative_path, x.source_relative_path)
        &&& x.priority == y.priority && x.source_relative_path == y.source_relative_path ==> x.line_number <= y.line_number
    } by {
        let cs = match ctrl {
            Some((_, cs, _)) => cs,
            None => Seq::empty(),
        };
        let names = union_names(cs.map_values(|c: (Seq<char>, Seq<BacklogEntryV>)| c.0), cp.map_values(|c: (Seq<char>, Seq<(Seq<char>, u32, Seq<char>)>)| c.0));
        let ctx = context_view(nv, include_older, today, names[c], cs, pcs, cp);
        assert(b.contexts[c] == ctx);
        let pool_c = pool_candidates(nv, PoolScopeV {
            folders: lookup_projects(cp, names[c]).map_values(|t: (Seq<char>, u32, Seq<char>)| t.0),
            declared: lookup_tags(pcs, names[c]),
            claimed: all_tags(pcs),
            ranked_ids: lookup_entries(cs, names[c]).map_values(|e: BacklogEntryV| e.block_id),
            projects: lookup_projects(cp, names[c]),
            include_older,
            today,
        });
        assert(ctx.pool == sorted_pool(pool_c));
        lemma_pool_order_law(pool_c);
        assert(sorted_pool(pool_c)[i] == b.contexts[c].pool[i]);
        assert(sorted_pool(pool_c)[j] == b.contexts[c].pool[j]);
    }
}

fn copy_entries(v: &Vec<BacklogEntry>) -> (r: Vec<BacklogEntry>)
    ensures
        r.deep_view() == v.deep_view(),
{
    let mut r: Vec<BacklogEntry> = Vec::new();
    let mut i: usize = 0;
    while i < v.len()
        invariant
            i <= v.len(),
            r.deep_view() == v.deep_view().take(i as int),
        decreases v.len() - i,
    {
        let e = BacklogEntry {
            block_id: string_of(&chars_of_string(&v[i].block_id)),
            link_title: string_of(&chars_of_string(&v[i].link_title)),
            text: string_of(&chars_of_string(&v[i].text)),
        };
        let ghost r0 = r.deep_view();
        let ghost ev = e.deep_view();
        assert(ev == v[i as int].deep_view());
        r.push(e);
        assert(r.deep_view() =~= r0.push(ev));
        assert(v.deep_view().take(i + 1) =~= v.deep_view().take(i as int).push(v.deep_view()[i as int]));
        i += 1;
    }
    assert(v.deep_view().take(i as int) =~= v.deep_view());
    r
}

fn copy_projects(v: &Vec<(String, u32, String)>) -> (r: Vec<(String, u32, String)>)
    ensures
        r.deep_view() == v.deep_view(),
{
    let mut r: Vec<(String, u32, String)> = Vec::new();
    let mut i: usize = 0;
    while i < v.len()
        invariant
            i <= v.len(),
            r.deep_view() == v.deep_view().take(i as int),
        decreases v.len() - i,
    {
        let e = (string_of(&chars_of_string(&v[i].0)), v[i].1, string_of(&chars_of_string(&v[i].2)));
        let ghost r0 = r.deep_view();
        let ghost ev = e.deep_view();
        assert(ev == v[i as int].deep_view());
        r.push(e);
        assert(r.deep_view() =~= r0.push(ev));
        assert(v.deep_view().take(i + 1) =~= v.deep_view().take(i as int).push(v.deep_view()[i as int]));
        i += 1;
    }
    assert(v.deep_view().take(i as int) =~= v.deep_view());
    r
}

fn find_entries(cs: &Vec<(String, Vec<BacklogEntry>)>, name: &Vec<char>) -> (r: Vec<BacklogEntry>)
    ensures
        r.deep_view() == lookup_entries(cs.deep_view(), name@),
{
    let mut i: usize = 0;
    assert(cs.deep_view().skip(0) =~= cs.deep_view());
    while i < cs.len()
        invariant
            i <= cs.len(),
            lookup_entries(cs.deep_view().skip(i as int), name@) == lookup_entries(cs.deep_view(), name@),
        decreases cs.len() - i,
    {
        assert(cs.deep_view().skip(i as int)[0] == cs[i as int].deep_view());
        assert(cs.deep_view().skip(i as int).drop_first() =~= cs.deep_view().skip(i + 1));
        if vec_eq(&chars_of_string(&cs[i].0), name) {
            return copy_entries(&cs[i].1);
        }
        i += 1;
    }
    Vec::new()
}

fn find_projects(cp: &Vec<(String, Vec<(String, u32, String)>)>, name: &Vec<char>) -> (r: Vec<(String, u32, String)>)
    ensures
        r.deep_view() == lookup_projects(cp.deep_view(), name@),
{
    let mut i: usize = 0;
    assert(cp.deep_view().skip(0) =~= cp.deep_view());
    while i < cp.len()
        invariant
            i <= cp.len(),
            lookup_projects(cp.deep_view().skip(i as int), name@) == lookup_projects(cp.deep_view(), name@),
        decreases cp.len() - i,
    {
        assert(cp.deep_view().skip(i as int)[0] == cp[i as int].deep_view());
        assert(cp.deep_view().skip(i as int).drop_first() =~= cp.deep_view().skip(i + 1));
        if vec_eq(&chars_of_string(&cp[i].0), name) {
            return copy_projects(&cp[i].1);
        }
        i += 1;
    }
    Vec::new()
}

fn find_tags(pcs: &Vec<Context>, name: &Vec<char>) -> (r: Vec<String>)
    ensures
        r.deep_view() == lookup_tags(pcs.deep_view(), name@),
{
    let mut i: usize = 0;
    assert(pcs.deep_view().skip(0) =~= pcs.deep_view());
    while i < pcs.len()
        invariant
            i <= pcs.len(),
            lookup_tags(pcs.deep_view().skip(i as int), name@) == lookup_tags(pcs.deep_view(), name@),
        decreases pcs.len() - i,
    {
        assert(pcs.deep_view().skip(i as int)[0] == pcs[i as int].deep_view());
        assert(pcs.deep_view().skip(i as int).drop_first() =~= pcs.deep_view().skip(i + 1));
        if vec_eq(&chars_of_string(&pcs[i].name), name) {
            return copy_strings(&pcs[i].tags);
        }
        i += 1;
    }
    Vec::new()
}

pub open spec fn ctrl_view(
    title: Option<String>,
    cs: Seq<(Seq<char>, Seq<BacklogEntryV>)>,
    cw: Seq<Seq<char>>,
) -> Option<(Seq<char>, Seq<(Seq<char>, Seq<BacklogEntryV>)>, Seq<Seq<char>>)> {
    match title {
        Some(t) => Some((t@, cs, cw)),
        None => None,
    }
}

fn has_name(names: &Vec<String>, name: &Vec<char>) -> (b: bool)
    ensures
        b == names.deep_view().contains(name@),
{
    contains_string(names, name)
}

/// Build the ranked backlog: for each context of `#np-backlog` (then each
/// context only `#np-projects` has), the ranked entries resolved through
/// their block IDs, and the pool of open tasks from the context's project
/// folders and calendar notes that are not ranked yet, in pool order.
pub fn build_backlog(store: &NoteStore, opts: &BacklogOptions) -> (r: Backlog)
    requires
        store.notes.len() < usize::MAX,
    ensures
        is_backlog_of(store.notes.deep_view(), opts.include_older_dailies, opts.today, r.deep_view()),
{
    let ghost nv = store.notes.deep_view();
    let control = parse_backlog_control(store);
    let pc = parse_project_control(store);
    let empty_cs: Vec<(String, Vec<BacklogEntry>)> = Vec::new();
    let empty_pcs: Vec<Context> = Vec::new();
    let empty_w: Vec<String> = Vec::new();
    let (title, cs, cw) = match control {
        Some(c) => (Some(c.note_title), c.contexts, c.warnings),
        None => (None, empty_cs, empty_w),
    };
    let (pcs, pw) = match pc {
        Some(p) => (p.contexts, p.warnings),
        None => (empty_pcs, Vec::new()),
    };
    let ghost ctrl = ctrl_view(title, cs.deep_view(), cw.deep_view());
    assert(title is None ==> cs.deep_view() =~= Seq::<(Seq<char>, Seq<BacklogEntryV>)>::empty() && cw.deep_view() =~= Seq::<Seq<char>>::empty());
    assert(control_state(nv, ctrl));
    assert(pcs.deep_view().len() == 0 ==> pcs.deep_view() =~= Seq::<ContextV>::empty());
    assert(projects_state(nv, pcs.deep_view(), pw.deep_view())) by {
        if pcs.len() == 0 && pw.len() == 0 {
        }
    }
    let control_struct = ProjectControl { note_title: String::new(), contexts: pcs, warnings: pw };
    let cp = resolve_context_projects(store, &control_struct);
    let pcs = control_struct.contexts;
    let pw = control_struct.warnings;
    // Context names: the backlog's own, then those only the projects note has.
    let mut names: Vec<String> = Vec::new();
    let mut i: usize = 0;
    while i < cs.len()
        invariant
            i <= cs.len(),
            names.deep_view() == cs.deep_view().take(i as int).map_values(|c: (Seq<char>, Seq<BacklogEntryV>)| c.0),
        decreases cs.len() - i,
    {
        let ghost n0 = names.deep_view();
        names.push(string_of(&chars_of_string(&cs[i].0)));
        assert(cs.deep_view()[i as int] == cs[i as int].deep_view());
        assert(names.deep_view() =~= n0.push(cs[i as int].0@));
        assert(cs.deep_view().take(i + 1).map_values(|c: (Seq<char>, Seq<BacklogEntryV>)| c.0) =~= cs.deep_view().take(i as int).map_values(|c: (Seq<char>, Seq<BacklogEntryV>)| c.0).push(cs.deep_view()[i as int].0));
        i += 1;
    }
    assert(cs.deep_view().take(i as int) =~= cs.deep_view());
    let ghost first = names.deep_view();
    let ghost extra = cp.deep_view().map_values(|c: (Seq<char>, Seq<(Seq<char>, u32, Seq<char>)>)| c.0);
    let mut k: usize = 0;
    while k < cp.len()
        invariant
            k <= cp.len(),
            extra == cp.deep_view().map_values(|c: (Seq<char>, Seq<(Seq<char>, u32, Seq<char>)>)| c.0),
            names.deep_view() == union_names(first, extra.take(k as int)),
        decreases cp.len() - k,
    {
        let n = chars_of_string(&cp[k].0);
        assert(extra[k as int] == n@);
        assert(extra.take(k + 1).drop_last() =~= extra.take(k as int));
        if !has_name(&names, &n) {
            let ghost n0 = names.deep_view();
            names.push(string_of(&n));
            assert(names.deep_view() =~= n0.push(n@));
        }
        k += 1;
    }
    assert(extra.take(k as int) =~= extra);
    // Every tag any project context declares.
    let mut claimed: Vec<String> = Vec::new();
    let mut c: usize = 0;
    while c < pcs.len()
        invariant
            c <= pcs.len(),
            claimed.deep_view() == all_tags(pcs.deep_view().take(c as int)),
        decreases pcs.len() - c,
    {
        assert(pcs.deep_view().take(c + 1).drop_last() =~= pcs.deep_view().take(c as int));
        assert(pcs.deep_view()[c as int] == pcs[c as int].deep_view());
        let mut q: usize = 0;
        let ghost base = claimed.deep_view();
        while q < pcs[c].tags.len()
            invariant
                q <= pcs[c as int].tags.len(),
                c < pcs.len(),
                claimed.deep_view() == base + pcs[c as int].tags.deep_view().take(q as int),
            decreases pcs[c as int].tags.len() - q,
        {
            let ghost c0 = claimed.deep_view();
            claimed.push(string_of(&chars_of_string(&pcs[c].tags[q])));
            assert(claimed.deep_view() =~= c0.push(pcs[c as int].tags[q as int]@));
            assert(pcs[c as int].tags.deep_view().take(q + 1) =~= pcs[c as int].tags.deep_view().take(q as int).push(pcs[c as int].tags[q as int]@));
            assert(claimed.deep_view() =~= base + pcs[c as int].tags.deep_view().take(q + 1));
            q += 1;
        }
        assert(pcs[c as int].tags.deep_view().take(q as int) =~= pcs[c as int].tags.deep_view());
        c += 1;
    }
    assert(pcs.deep_view().take(c as int) =~= pcs.deep_view());
    // The contexts.
    let ghost allnames = names.deep_view();
    let ghost csv = cs.deep_view();
    let ghost pcsv = pcs.deep_view();
    let ghost cpv = cp.deep_view();
    let mut contexts: Vec<BacklogContext> = Vec::new();
    let mut j: usize = 0;
    while j < names.len()
        invariant
            j <= names.len(),
            allnames == names.deep_view(),
            nv == store.notes.deep_view(),
            csv == cs.deep_view(),
            pcsv == pcs.deep_view(),
            cpv == cp.deep_view(),
            claimed.deep_view() == all_tags(pcsv),
            contexts.len() == j,
            forall|q: int| 0 <= q < j ==> #[trigger] contexts.deep_view()[q] == context_view(nv, opts.include_older_dailies, opts.today, allnames[q], csv, pcsv, cpv),
        decreases names.len() - j,
    {
        let name = chars_of_string(&names[j]);
        assert(allnames[j as int] == name@);
        let entries = find_entries(&cs, &name);
        let projects = find_projects(&cp, &name);
        let declared = find_tags(&pcs, &name);
        let folders = folders_of_projects_vec(&projects);
        let mut rids: Vec<String> = Vec::new();
        let mut e: usize = 0;
        while e < entries.len()
            invariant
                e <= entries.len(),
                rids.deep_view() == entries.deep_view().take(e as int).map_values(|x: BacklogEntryV| x.block_id),
            decreases entries.len() - e,
        {
            let ghost r0 = rids.deep_view();
            rids.push(string_of(&chars_of_string(&entries[e].block_id)));
            assert(entries.deep_view()[e as int] == entries[e as int].deep_view());
            assert(rids.deep_view() =~= r0.push(entries[e as int].block_id@));
            assert(entries.deep_view().take(e + 1).map_values(|x: BacklogEntryV| x.block_id) =~= entries.deep_view().take(e as int).map_values(|x: BacklogEntryV| x.block_id).push(entries.deep_view()[e as int].block_id));
            e += 1;
        }
        assert(entries.deep_view().take(e as int) =~= entries.deep_view());
        let ranked = ranked_for(store, &entries, &projects);
        let pool = pool_for(store, opts, &folders, &declared, &claimed, &rids, &projects);
        let ctx = BacklogContext { name: string_of(&name), ranked, pool, tags: declared };
        assert(ctx.deep_view() == context_view(nv, opts.include_older_dailies, opts.today, allnames[j as int], csv, pcsv, cpv));
        let ghost c0 = contexts.deep_view();
        contexts.push(ctx);
        proof {
            assert forall|q: int| 0 <= q < j + 1 implies #[trigger] contexts.deep_view()[q] == context_view(nv, opts.include_older_dailies, opts.today, allnames[q], csv, pcsv, cpv) by {
                if q < j {
                    assert(contexts.deep_view()[q] == c0[q]);
                }
            }
        }
        j += 1;
    }
    let mut warnings = cw;
    let mut w: usize = 0;
    let ghost cwv = warnings.deep_view();
    while w < pw.len()
        invariant
            w <= pw.len(),
            warnings.deep_view() == cwv + pw.deep_view().take(w as int),
        decreases pw.len() - w,
    {
        let ghost w0 = warnings.deep_view();
        warnings.push(string_of(&chars_of_string(&pw[w])));
        assert(warnings.deep_view() =~= w0.push(pw[w as int]@));
        assert(pw.deep_view().take(w + 1) =~= pw.deep_view().take(w as int).push(pw[w as int]@));
        assert(warnings.deep_view() =~= cwv + pw.deep_view().take(w + 1));
        w += 1;
    }
    assert(pw.deep_view().take(w as int) =~= pw.deep_view());
    let ws = collision_warnings_exec(store, &pcs);
    let ghost cw2 = warnings.deep_view();
    let mut w: usize = 0;
    while w < ws.len()
        invariant
            w <= ws.len(),
            warnings.deep_view() == cw2 + ws.deep_view().take(w as int),
        decreases ws.len() - w,
    {
        let ghost w0 = warnings.deep_view();
        warnings.push(string_of(&chars_of_string(&ws[w])));
        assert(warnings.deep_view() =~= w0.push(ws[w as int]@));
        assert(ws.deep_view().take(w + 1) =~= ws.deep_view().take(w as int).push(ws[w as int]@));
        assert(warnings.deep_view() =~= cw2 + ws.deep_view().take(w + 1));
        w += 1;
    }
    assert(ws.deep_view().take(w as int) =~= ws.deep_view());
    let b = Backlog { contexts, control_note_title: title, warnings };
    proof {
        let csn = csv.map_values(|c: (Seq<char>, Seq<BacklogEntryV>)| c.0);
        assert(first == csn);
        assert(b.deep_view().contexts =~= allnames.map_values(|name: Seq<char>| context_view(nv, opts.include_older_dailies, opts.today, name, csv, pcsv, cpv)));
        assert(b.deep_view().warnings =~= cwv + (pw.deep_view() + ws.deep_view()));
        assert(b.deep_view() == backlog_view(nv, opts.include_older_dailies, opts.today, ctrl, pcsv, pw.deep_view() + ws.deep_view(), cpv));
    }
    b
}

fn folders_of_projects_vec(ps: &Vec<(String, u32, String)>) -> (r: Vec<String>)
    ensures
        r.deep_view() == ps.deep_view().map_values(|t: (Seq<char>, u32, Seq<char>)| t.0),
{
    let mut fs: Vec<String> = Vec::new();
    let mut k: usize = 0;
    while k < ps.len()
        invariant
            k <= ps.len(),
            fs.deep_view() == ps.deep_view().take(k as int).map_values(|t: (Seq<char>, u32, Seq<char>)| t.0),
        decreases ps.len() - k,
    {
        let ghost f0 = fs.deep_view();
        assert(ps.deep_view()[k as int] == ps[k as int].deep_view());
        fs.push(string_of(&chars_of_string(&ps[k].0)));
        assert(fs.deep_view() =~= f0.push(ps[k as int].0@));
        assert(ps.deep_view().take(k + 1).map_values(|t: (Seq<char>, u32, Seq<char>)| t.0)
            =~= ps.deep_view().take(k as int).map_values(|t: (Seq<char>, u32, Seq<char>)| t.0).push(ps.deep_view()[k as int].0));
        k += 1;
    }
    assert(ps.deep_view().take(k as int) =~= ps.deep_view());
    fs
}

proof fn lemma_pool_before_transitive(a: PoolTaskV, b: PoolTaskV, c: PoolTaskV)
    requires
        pool_before(a, b),
        pool_before(b, c),
    ensures
        pool_before(a, c),
{
    if a.priority == b.priority && b.priority == c.priority {
        if seq_lt(a.source_relative_path, b.source_relative_path) && seq_lt(b.source_relative_path, c.source_relative_path) {
            crate::text::lemma_seq_lt_transitive(a.source_relative_path, b.source_relative_path, c.source_relative_path);
        }
    }
}

proof fn lemma_pool_before_irreflexive(a: PoolTaskV)
    ensures
        !pool_before(a, a),
{
    crate::text::lemma_seq_lt_irreflexive(a.source_relative_path);
}

proof fn lemma_insert_pos(s: Seq<PoolTaskV>, x: PoolTaskV)
    ensures
        0 <= insert_pos(s, x) <= s.len(),
        forall|q: int| 0 <= q < insert_pos(s, x) ==> !pool_before(x, #[trigger] s[q]),
        insert_pos(s, x) < s.len() ==> pool_before(x, s[insert_pos(s, x)]),
    decreases s.len(),
{
    if s.len() > 0 && !pool_before(x, s[0]) {
        let t = s.drop_first();
        lemma_insert_pos(t, x);
        assert forall|q: int| 0 <= q < insert_pos(s, x) implies !pool_before(x, #[trigger] s[q]) by {
            if q > 0 {
                assert(s[q] == t[q - 1]);
            }
        }
        if insert_pos(s, x) < s.len() {
            assert(s[insert_pos(s, x)] == t[insert_pos(t, x)]);
        }
    }
}

/// Whether `s` is in pool order.
pub open spec fn pool_sorted(s: Seq<PoolTaskV>) -> bool {
    forall|i: int, j: int| 0 <= i < j < s.len() ==> !pool_before(#[trigger] s[j], #[trigger] s[i])
}

/// The pool is in pool order (priority, then path, then line) and holds
/// exactly the candidates, each as often as it occurs among them.
pub proof fn lemma_sorted_pool(c: Seq<PoolTaskV>)
    ensures
        pool_sorted(sorted_pool(c)),
        sorted_pool(c).to_multiset() == c.to_multiset(),
    decreases c.len(),
{
    broadcast use vstd::seq_lib::group_to_multiset_ensures;
    if c.len() > 0 {
        let s = sorted_pool(c.drop_last());
        lemma_sorted_pool(c.drop_last());
        let x = c.last();
        let p = insert_pos(s, x);
        lemma_insert_pos(s, x);
        let t = s.insert(p, x);
        assert forall|i: int, j: int| 0 <= i < j < t.len() implies !pool_before(#[trigger] t[j], #[trigger] t[i]) by {
            if j < p {
                assert(t[i] == s[i] && t[j] == s[j]);
            } else if j == p {
                assert(t[i] == s[i]);
                assert(t[j] == x);
            } else if i == p {
                assert(t[j] == s[j - 1]);
                assert(t[i] == x);
                if pool_before(s[j - 1], x) {
                    lemma_pool_before_transitive(s[j - 1], x, s[p]);
                    if j - 1 == p {
                        lemma_pool_before_irreflexive(s[p]);
                    }
                }
            } else if i < p {
                assert(t[i] == s[i] && t[j] == s[j - 1]);
            } else {
                assert(t[i] == s[i - 1] && t[j] == s[j - 1]);
            }
        }
        assert(c =~= c.drop_last().push(x));
        assert(t.to_multiset() =~= s.to_multiset().insert(x)) by {
            vstd::seq_lib::to_multiset_insert(s, p, x);
        }
    }
}

/// A context's pool is ordered by priority, highest first; tasks of equal
/// priority by source path, and within one path by line number.
pub proof fn lemma_pool_order_law(c: Seq<PoolTaskV>)
    ensures
        forall|i: int, j: int| 0 <= i < j < sorted_pool(c).len() ==> {
            let a = #[trigger] sorted_pool(c)[i];
            let b = #[trigger] sorted_pool(c)[j];
            &&& a.priority >= b.priority
            &&& a.priority == b.priority ==> !seq_lt(b.source_relative_path, a.source_relative_path)
            &&& a.priority == b.priority && a.source_relative_path == b.source_relative_path ==> a.line_number <= b.line_number
        },
{
    lemma_sorted_pool(c);
    let s = sorted_pool(c);
    assert forall|i: int, j: int| 0 <= i < j < s.len() implies {
        let a = #[trigger] s[i];
        let b = #[trigger] s[j];
        &&& a.priority >= b.priority
        &&& a.priority == b.priority ==> !seq_lt(b.source_relative_path, a.source_relative_path)
        &&& a.priority == b.priority && a.source_relative_path == b.source_relative_path ==> a.line_number <= b.line_number
    } by {
        assert(!pool_before(s[j], s[i]));
    }
}

/// A ranked entry's task never shows in its context's pool.
pub proof fn lemma_pool_excludes_ranked(nv: Seq<NoteV>, sc: PoolScopeV, k: int)
    requires
        0 <= k < sorted_pool(pool_candidates(nv, sc)).len(),
    ensures
        !(sorted_pool(pool_candidates(nv, sc))[k].block_id matches Some(id) && sc.ranked_ids.contains(id)),
{
    broadcast use vstd::seq_lib::group_to_multiset_ensures;
    let c = pool_candidates(nv, sc);
    let s = sorted_pool(c);
    lemma_sorted_pool(c);
    let x = s[k];
    assert(s.contains(x));
    assert(s.to_multiset().count(x) > 0);
    assert(c.contains(x));
    let i = choose|i: int| 0 <= i < c.len() && c[i] == x;
    lemma_candidates_unranked(nv, sc, i);
}

/// Whether pool task `x` is task `t` of note `n`: a note whose tasks are
/// harvested (not excluded; in a project folder or a calendar note; inside
/// the window for a daily note), and a task that enters the pool (open, or
/// scheduled outside calendar notes; not ranked; in the context by its tags
/// for a calendar task).
pub open spec fn pool_source(nv: Seq<NoteV>, sc: PoolScopeV, x: PoolTaskV, n: int, t: int) -> bool {
    &&& 0 <= n < nv.len()
    &&& 0 <= t < nv[n].tasks.len()
    &&& note_harvested(nv[n], sc)
    &&& task_pooled(nv[n], nv[n].tasks[t], sc)
    &&& x == pool_task_of(nv[n], nv[n].tasks[t], sc.projects)
}

proof fn lemma_note_pool_source(nv: Seq<NoteV>, n: int, ts: Seq<TaskV>, sc: PoolScopeV, i: int)
    requires
        0 <= n < nv.len(),
        note_harvested(nv[n], sc),
        ts.len() <= nv[n].tasks.len(),
        ts == nv[n].tasks.take(ts.len() as int),
        0 <= i < note_pool(nv[n], ts, sc).len(),
    ensures
        exists|t: int| #[trigger] pool_source(nv, sc, note_pool(nv[n], ts, sc)[i], n, t),
    decreases ts.len(),
{
    let note = nv[n];
    let rest = note_pool(note, ts.drop_last(), sc);
    assert(ts.drop_last() == nv[n].tasks.take(ts.len() - 1));
    if i < rest.len() {
        if task_pooled(note, ts.last(), sc) {
            assert(note_pool(note, ts, sc)[i] == rest[i]);
        }
        lemma_note_pool_source(nv, n, ts.drop_last(), sc, i);
    } else {
        let t = ts.len() - 1;
        assert(ts.last() == nv[n].tasks[t]);
        assert(pool_source(nv, sc, note_pool(nv[n], ts, sc)[i], n, t));
    }
}

proof fn lemma_candidate_source(nv: Seq<NoteV>, sc: PoolScopeV, i: int)
    requires
        0 <= i < pool_candidates(nv, sc).len(),
    ensures
        exists|n: int, t: int| #[trigger] pool_source(nv, sc, pool_candidates(nv, sc)[i], n, t),
    decreases nv.len(),
{
    let rest = pool_candidates(nv.drop_last(), sc);
    if i < rest.len() {
        if note_harvested(nv.last(), sc) {
            assert(pool_candidates(nv, sc)[i] == rest[i]);
        }
        lemma_candidate_source(nv.drop_last(), sc, i);
        let (n, t) = choose|n: int, t: int| #[trigger] pool_source(nv.drop_last(), sc, rest[i], n, t);
        assert(nv[n] == nv.drop_last()[n]);
        assert(pool_source(nv, sc, pool_candidates(nv, sc)[i], n, t));
    } else {
        let n = nv.len() - 1;
        assert(nv.last().tasks == nv[n].tasks.take(nv[n].tasks.len() as int));
        lemma_note_pool_source(nv, n, nv.last().tasks, sc, i - rest.len());
        let t = choose|t: int| #[trigger] pool_source(nv, sc, note_pool(nv[n], nv.last().tasks, sc)[i - rest.len()], n, t);
        assert(pool_source(nv, sc, pool_candidates(nv, sc)[i], n, t));
    }
}

/// Every pool task comes from a note whose tasks are harvested (not in an
/// excluded folder; in one of the context's project folders or a calendar
/// note; for a daily note, inside the window unless older dailies are
/// included), and is one of its tasks that enters the pool (open, or
/// scheduled outside calendar notes; not ranked; for a calendar task, in
/// the context by its tags).
pub proof fn lemma_pool_provenance(nv: Seq<NoteV>, sc: PoolScopeV, k: int)
    requires
        0 <= k < sorted_pool(pool_candidates(nv, sc)).len(),
    ensures
        exists|n: int, t: int| #[trigger] pool_source(nv, sc, sorted_pool(pool_candidates(nv, sc))[k], n, t),
{
    broadcast use vstd::seq_lib::group_to_multiset_ensures;
    let c = pool_candidates(nv, sc);
    let s = sorted_pool(c);
    lemma_sorted_pool(c);
    let x = s[k];
    assert(s.contains(x));
    assert(s.to_multiset().count(x) > 0);
    assert(c.contains(x));
    let i = choose|i: int| 0 <= i < c.len() && c[i] == x;
    lemma_candidate_source(nv, sc, i);
}

proof fn lemma_candidates_unranked(nv: Seq<NoteV>, sc: PoolScopeV, i: int)
    requires
        0 <= i < pool_candidates(nv, sc).len(),
    ensures
        !(pool_candidates(nv, sc)[i].block_id matches Some(id) && sc.ranked_ids.contains(id)),
    decreases nv.len(),
{
    let rest = pool_candidates(nv.drop_last(), sc);
    if i < rest.len() {
        if note_harvested(nv.last(), sc) {
            assert(pool_candidates(nv, sc)[i] == rest[i]);
        }
        lemma_candidates_unranked(nv.drop_last(), sc, i);
    } else {
        let note = nv.last();
        lemma_note_pool_unranked(note, note.tasks, sc, i - rest.len());
    }
}

proof fn lemma_note_pool_unranked(note: NoteV, ts: Seq<TaskV>, sc: PoolScopeV, i: int)
    requires
        0 <= i < note_pool(note, ts, sc).len(),
    ensures
        !(note_pool(note, ts, sc)[i].block_id matches Some(id) && sc.ranked_ids.contains(id)),
    decreases ts.len(),
{
    let rest = note_pool(note, ts.drop_last(), sc);
    if i < rest.len() {
        if task_pooled(note, ts.last(), sc) {
            assert(note_pool(note, ts, sc)[i] == rest[i]);
        }
        lemma_note_pool_unranked(note, ts.drop_last(), sc, i);
    }
}

} // verus!
