//! The pure parts of the app's write commands: matching a requested note,
//! addressing it, and replaying planned line edits on cached content.
use vstd::prelude::*;
use crate::backlog_write::{
    deletions, lemma_gc_plan_removes_only_tombstones, lemma_tombstones_desc_shape, non_tombstones,
    strictly_descending, tombstone_line, tombstones_desc, apply_deletes, WriteOp, WriteOpV,
};
use crate::analyzer::{all_findings, run_all_analyzers};
use crate::app_state::NoteStoreCache;
use crate::dump::{kind_count, kind_count_exec};
use crate::mcp::tools::NoteAddr;
use crate::report::{stats_of, Report};
use crate::models::{Note, NoteKind, NoteV, TaskV};
use crate::parser::matcher::{eq_ascii_ci, eq_ascii_ci_exec};
use crate::parser::{last_with_path, lemma_last_with_path, NoteStore};
use crate::text::{
    chars_of, chars_of_string, has_prefix, has_suffix, join, join_vec, lines, split_lines, split_on,
    split_words, string_of, strip_cr, words,
};

verus! {

/// The words of `s` that are not tags, joined with single spaces.
pub open spec fn untagged(s: Seq<char>) -> Seq<char> {
    join(drop_tags(words(s)), " "@)
}

pub open spec fn drop_tags(ws: Seq<Seq<char>>) -> Seq<Seq<char>>
    decreases ws.len(),
{
    if ws.len() == 0 {
        Seq::empty()
    } else if ws.last().len() > 0 && ws.last()[0] == '#' {
        drop_tags(ws.drop_last())
    } else {
        drop_tags(ws.drop_last()).push(ws.last())
    }
}

/// A note's title matches a requested one when they are equal ignoring
/// ASCII case, or equal so once their `#tag` words are dropped.
pub open spec fn titles_match(note_title: Seq<char>, requested: Seq<char>) -> bool {
    eq_ascii_ci(note_title, requested) || eq_ascii_ci(untagged(note_title), untagged(requested))
}

fn untagged_exec(s: &Vec<char>) -> (r: Vec<char>)
    ensures
        r@ == untagged(s@),
{
    let ws = split_words(s);
    let ghost wv = ws.deep_view();
    let mut kept: Vec<Vec<char>> = Vec::new();
    let mut i: usize = 0;
    while i < ws.len()
        invariant
            i <= ws.len(),
            wv == ws.deep_view(),
            kept.deep_view() == drop_tags(wv.take(i as int)),
        decreases ws.len() - i,
    {
        proof {
            assert(wv.take(i + 1).drop_last() =~= wv.take(i as int));
            assert(wv[i as int] =~= ws[i as int]@);
        }
        if !(ws[i].len() > 0 && ws[i][0] == '#') {
            let w = ws[i].clone();
            let ghost k0 = kept.deep_view();
            proof {
                assert(w.deep_view() =~= wv[i as int]);
            }
            kept.push(w);
            assert(kept.deep_view() =~= k0.push(wv[i as int]));
        }
        i += 1;
    }
    assert(wv.take(i as int) =~= wv);
    join_vec(&kept, &chars_of(" "))
}

/// Marker-insensitive title comparison: equal ignoring ASCII case, as they
/// stand or with their `#tag` words dropped.
pub fn title_matches(note_title: &str, requested: &str) -> (b: bool)
    ensures
        b == titles_match(note_title@, requested@),
{
    let a = chars_of(note_title);
    let b = chars_of(requested);
    eq_ascii_ci_exec(&a, &b) || eq_ascii_ci_exec(&untagged_exec(&a), &untagged_exec(&b))
}

/// A note resolved for a write: how to address it, and the identity used to
/// patch the read cache afterwards (`None` when the cache cannot supply it).
pub struct ResolvedNote {
    pub addr: NoteAddr,
    pub patch: Option<(String, String, NoteKind)>,
}

pub struct ResolvedNoteV {
    pub addr_is_filename: bool,
    pub addr: Seq<char>,
    pub patch: Option<(Seq<char>, Seq<char>, NoteKind)>,
}

impl ResolvedNote {
    pub open spec fn view_of(&self) -> ResolvedNoteV {
        ResolvedNoteV {
            addr_is_filename: self.addr is Filename,
            addr: match self.addr {
                NoteAddr::Title(t) => t@,
                NoteAddr::Filename(f) => f@,
            },
            patch: match self.patch {
                Some((a, b, k)) => Some((a@, b@, k)),
                None => None,
            },
        }
    }
}

/// The notes whose titles match `title`, by index.
pub open spec fn title_hits(nv: Seq<NoteV>, title: Seq<char>) -> Seq<int>
    decreases nv.len(),
{
    if nv.len() == 0 {
        Seq::empty()
    } else if titles_match(nv.last().title, title) {
        title_hits(nv.drop_last(), title).push(nv.len() - 1)
    } else {
        title_hits(nv.drop_last(), title)
    }
}

/// Resolution by title: the one cached note whose title matches is
/// addressed by its path; otherwise the title itself is used.
pub open spec fn resolved_by_title(store: Option<Seq<NoteV>>, title: Seq<char>) -> ResolvedNoteV {
    match store {
        Some(nv) if title_hits(nv, title).len() == 1 => {
            let n = nv[title_hits(nv, title)[0]];
            ResolvedNoteV {
                addr_is_filename: true,
                addr: n.relative_path,
                patch: Some((n.file_path, n.relative_path, n.kind)),
            }
        },
        _ => ResolvedNoteV { addr_is_filename: false, addr: title, patch: None },
    }
}

/// Resolution by path: always by path; the cache identity when the cache
/// holds the path (its last note with that path).
pub open spec fn resolved_by_path(store: Option<Seq<Note>>, rp: Seq<char>) -> ResolvedNoteV {
    match store {
        Some(notes) if last_with_path(notes, rp) is Some => {
            let n = notes[last_with_path(notes, rp)->0];
            ResolvedNoteV {
                addr_is_filename: true,
                addr: n.relative_path@,
                patch: Some((n.file_path@, n.relative_path@, n.kind)),
            }
        },
        _ => ResolvedNoteV { addr_is_filename: true, addr: rp, patch: None },
    }
}

fn copy_string(s: &String) -> (r: String)
    ensures
        r@ == s@,
{
    string_of(&chars_of_string(s))
}

/// Resolve a note by its title against the cached store (if any): by path
/// when exactly one cached note's title matches, else by title.
pub fn resolve_note(store: Option<&NoteStore>, title: &str) -> (r: ResolvedNote)
    ensures
        r.view_of() == resolved_by_title(
            match store {
                Some(s) => Some(s.notes.deep_view()),
                None => None,
            },
            title@,
        ),
{
    match store {
        Some(s) => {
            let ghost nv = s.notes.deep_view();
            let mut hits: Vec<usize> = Vec::new();
            let mut i: usize = 0;
            while i < s.notes.len()
                invariant
                    i <= s.notes.len(),
                    nv == s.notes.deep_view(),
                    hits@.map_values(|k: usize| k as int) == title_hits(nv.take(i as int), title@),
                    forall|k: int| 0 <= k < hits.len() ==> #[trigger] hits[k] < i,
                decreases s.notes.len() - i,
            {
                proof {
                    assert(nv.take(i + 1).drop_last() =~= nv.take(i as int));
                    assert(nv[i as int] == s.notes[i as int].deep_view());
                }
                if title_matches(s.notes[i].title.as_str(), title) {
                    let ghost h0 = hits@;
                    hits.push(i);
                    assert(hits@.map_values(|k: usize| k as int) =~= h0.map_values(|k: usize| k as int).push(i as int));
                }
                i += 1;
            }
            assert(nv.take(i as int) =~= nv);
            if hits.len() == 1 {
                let n = &s.notes[hits[0]];
                assert(hits@.map_values(|k: usize| k as int)[0] == hits[0] as int);
                assert(nv[hits[0] as int] == n.deep_view());
                ResolvedNote {
                    addr: NoteAddr::Filename(copy_string(&n.relative_path)),
                    patch: Some((copy_string(&n.file_path), copy_string(&n.relative_path), n.kind)),
                }
            } else {
                ResolvedNote { addr: NoteAddr::Title(string_of(&chars_of(title))), patch: None }
            }
        },
        None => ResolvedNote { addr: NoteAddr::Title(string_of(&chars_of(title))), patch: None },
    }
}

/// Resolve a note by its exact relative path: always addressed by path,
/// with the cache identity when the cached store holds the path.
pub fn resolve_note_by_path(store: Option<&NoteStore>, relative_path: &str) -> (r: ResolvedNote)
    ensures
        r.view_of() == resolved_by_path(
            match store {
                Some(s) => Some(s.notes@),
                None => None,
            },
            relative_path@,
        ),
{
    match store {
        Some(s) => match s.path_index(relative_path) {
            Some(idx) => {
                proof {
                    lemma_last_with_path(s.notes@, relative_path@);
                }
                let n = &s.notes[idx];
                ResolvedNote {
                    addr: NoteAddr::Filename(copy_string(&n.relative_path)),
                    patch: Some((copy_string(&n.file_path), copy_string(&n.relative_path), n.kind)),
                }
            },
            None => ResolvedNote { addr: NoteAddr::Filename(string_of(&chars_of(relative_path))), patch: None },
        },
        None => ResolvedNote { addr: NoteAddr::Filename(string_of(&chars_of(relative_path))), patch: None },
    }
}

/// One planned edit applied to the lines: replacements only inside the
/// note, inserts clamped to its end, deletes only inside it.
pub open spec fn apply_op(ls: Seq<Seq<char>>, op: WriteOpV) -> Seq<Seq<char>> {
    match op {
        WriteOpV::AppendBlockId { line, new_line_text, .. } => if 1 <= line <= ls.len() {
            ls.update(line - 1, new_line_text)
        } else {
            ls
        },
        WriteOpV::ReplaceBacklogLine { line, text } => if 1 <= line <= ls.len() {
            ls.update(line - 1, text)
        } else {
            ls
        },
        WriteOpV::InsertBacklogLine { line, text } => {
            let at = if line == 0 { 0 } else { line - 1 };
            ls.insert(if at <= ls.len() { at } else { ls.len() as int }, text)
        },
        WriteOpV::DeleteBacklogLine { line } => if 1 <= line <= ls.len() {
            ls.remove(line - 1)
        } else {
            ls
        },
    }
}

/// The edits applied one after another.
pub open spec fn apply_ops(ls: Seq<Seq<char>>, ops: Seq<WriteOpV>) -> Seq<Seq<char>>
    decreases ops.len(),
{
    if ops.len() == 0 {
        ls
    } else {
        apply_ops(apply_op(ls, ops[0]), ops.drop_first())
    }
}

/// The text after the edits: the edited lines joined with `\n`, with the
/// original's final line feed kept.
pub open spec fn content_after(content: Seq<char>, ops: Seq<WriteOpV>) -> Seq<char> {
    let body = join(apply_ops(lines(content), ops), seq!['\n']);
    if content.len() > 0 && content.last() == '\n' {
        body.push('\n')
    } else {
        body
    }
}

fn copy_text(s: &String) -> (r: Vec<char>)
    ensures
        r@ == s@,
{
    chars_of_string(s)
}

/// Replay the planned edits on `content` in memory (to patch the read cache
/// after a successful write).
pub fn content_after_ops(content: &str, ops: &[WriteOp]) -> (r: String)
    ensures
        r@ == content_after(content@, ops@.map_values(|o: WriteOp| o.deep_view())),
{
    let c = chars_of(content);
    let mut ls = split_lines(&c);
    let ghost ov = ops@.map_values(|o: WriteOp| o.deep_view());
    let mut i: usize = 0;
    assert(ov.skip(0) =~= ov);
    while i < ops.len()
        invariant
            i <= ops.len(),
            ov == ops@.map_values(|o: WriteOp| o.deep_view()),
            apply_ops(lines(c@), ov) == apply_ops(ls.deep_view(), ov.skip(i as int)),
        decreases ops.len() - i,
    {
        let ghost before = ls.deep_view();
        proof {
            assert(ov.skip(i as int)[0] == ops[i as int].deep_view());
            assert(ov.skip(i as int).drop_first() =~= ov.skip(i + 1));
        }
        match &ops[i] {
            WriteOp::AppendBlockId { line, new_line_text, .. } => {
                if *line >= 1 && *line <= ls.len() {
                    let t = copy_text(new_line_text);
                    let ghost lv0 = ls@;
                    ls.set(*line - 1, t);
                    proof {
                        crate::text::lemma_deep_chars(t);
                        assert forall|k: int| 0 <= k < ls.len() implies ls.deep_view()[k] == before.update(*line - 1, new_line_text@)[k] by {
                            if k != *line - 1 {
                                assert(ls@[k] == lv0[k]);
                            }
                        }
                        assert(ls.deep_view() =~= before.update(*line - 1, new_line_text@));
                    }
                }
            },
            WriteOp::ReplaceBacklogLine { line, text } => {
                if *line >= 1 && *line <= ls.len() {
                    let t = copy_text(text);
                    let ghost lv0 = ls@;
                    ls.set(*line - 1, t);
                    proof {
                        crate::text::lemma_deep_chars(t);
                        assert forall|k: int| 0 <= k < ls.len() implies ls.deep_view()[k] == before.update(*line - 1, text@)[k] by {
                            if k != *line - 1 {
                                assert(ls@[k] == lv0[k]);
                            }
                        }
                        assert(ls.deep_view() =~= before.update(*line - 1, text@));
                    }
                }
            },
            WriteOp::InsertBacklogLine { line, text } => {
                let at = if *line == 0 { 0 } else { *line - 1 };
                let pos = if at <= ls.len() { at } else { ls.len() };
                let t = copy_text(text);
                let ghost lv0 = ls@;
                ls.insert(pos, t);
                proof {
                    before.insert_ensures(pos as int, text@);
                    lv0.insert_ensures(pos as int, t);
                    assert forall|k: int| 0 <= k < ls.len() implies ls.deep_view()[k] == before.insert(pos as int, text@)[k] by {
                        if k < pos {
                            assert(ls@[k] == lv0[k]);
                        } else if k > pos {
                            assert(ls@[k] == lv0[k - 1]);
                        }
                    }
                    assert(ls.deep_view() =~= before.insert(pos as int, text@));
                }
            },
            WriteOp::DeleteBacklogLine { line } => {
                if *line >= 1 && *line <= ls.len() {
                    let ghost lv0 = ls@;
                    ls.remove(*line - 1);
                    proof {
                        before.remove_ensures(*line - 1);
                        assert forall|k: int| 0 <= k < ls.len() implies ls.deep_view()[k] == before.remove(*line - 1)[k] by {
                            if k < *line - 1 {
                                assert(ls@[k] == lv0[k]);
                            } else {
                                assert(ls@[k] == lv0[k + 1]);
                            }
                        }
                        assert(ls.deep_view() =~= before.remove(*line - 1));
                    }
                }
            },
        }
        i += 1;
    }
    assert(ov.skip(i as int) =~= Seq::<WriteOpV>::empty());
    let mut nl: Vec<char> = Vec::new();
    nl.push('\n');
    assert(nl@ =~= seq!['\n']);
    let mut out = join_vec(&ls, &nl);
    if c.len() > 0 && c[c.len() - 1] == '\n' {
        out.push('\n');
    }
    string_of(&out)
}

/// Deletes in strictly descending order, each inside the lines, remove the
/// same lines whether replayed as edits or as deletes.
proof fn lemma_descending_deletes(ls: Seq<Seq<char>>, ns: Seq<int>)
    requires
        ls.len() <= usize::MAX,
        strictly_descending(ns),
        forall|k: int| 0 <= k < ns.len() ==> 1 <= #[trigger] ns[k],
        ns.len() > 0 ==> ns[0] <= ls.len(),
    ensures
        apply_ops(ls, deletions(ns)) == apply_deletes(ls, ns),
    decreases ns.len(),
{
    if ns.len() > 0 {
        let d = deletions(ns);
        let rest = ns.drop_first();
        assert(d[0] == WriteOpV::DeleteBacklogLine { line: ns[0] as usize });
        assert(d.drop_first() =~= deletions(rest));
        assert forall|a: int, b: int| 0 <= a < b < rest.len() implies rest[a] > rest[b] by {
            assert(rest[a] == ns[a + 1] && rest[b] == ns[b + 1]);
        }
        assert forall|k: int| 0 <= k < rest.len() implies 1 <= #[trigger] rest[k] by {
            assert(rest[k] == ns[k + 1]);
        }
        if rest.len() > 0 {
            assert(rest[0] == ns[1]);
        }
        lemma_descending_deletes(ls.remove(ns[0] - 1), rest);
    }
}

/// Replaying a tombstone-collection plan on the lines of a backlog note
/// leaves exactly its lines that are not tombstones, in order.
pub proof fn lemma_gc_replay_keeps_non_tombstones(ls: Seq<Seq<char>>)
    requires
        ls.len() <= usize::MAX,
    ensures
        apply_ops(ls, deletions(tombstones_desc(ls))) == non_tombstones(ls),
{
    let ns = tombstones_desc(ls);
    lemma_tombstones_desc_shape(ls);
    assert forall|k: int| 0 <= k < ns.len() implies 1 <= #[trigger] ns[k] by {
        assert(tombstone_line(ls, ns[k]));
    }
    if ns.len() > 0 {
        assert(tombstone_line(ls, ns[0]));
    }
    lemma_descending_deletes(ls, ns);
    lemma_gc_plan_removes_only_tombstones(ls);
}

/// Replacements (a stamp or an in-place rewrite) never change the number
/// of lines.
pub proof fn lemma_replacements_keep_line_count(ls: Seq<Seq<char>>, ops: Seq<WriteOpV>)
    requires
        forall|k: int| 0 <= k < ops.len() ==> (#[trigger] ops[k] is ReplaceBacklogLine || ops[k] is AppendBlockId),
    ensures
        apply_ops(ls, ops).len() == ls.len(),
    decreases ops.len(),
{
    if ops.len() > 0 {
        let r = ops.drop_first();
        assert forall|k: int| 0 <= k < r.len() implies (#[trigger] r[k] is ReplaceBacklogLine || r[k] is AppendBlockId) by {
            assert(r[k] == ops[k + 1]);
        }
        assert(ops[0] is ReplaceBacklogLine || ops[0] is AppendBlockId);
        lemma_replacements_keep_line_count(apply_op(ls, ops[0]), r);
    }
}

/// The block IDs on the store's tasks, each once, in order of first
/// appearance.
pub open spec fn block_ids_of(nv: Seq<NoteV>) -> Seq<Seq<char>>
    decreases nv.len(),
{
    if nv.len() == 0 {
        Seq::empty()
    } else {
        add_ids(block_ids_of(nv.drop_last()), nv.last().tasks)
    }
}

pub open spec fn add_ids(acc: Seq<Seq<char>>, ts: Seq<TaskV>) -> Seq<Seq<char>>
    decreases ts.len(),
{
    if ts.len() == 0 {
        acc
    } else {
        let a = add_ids(acc, ts.drop_last());
        match ts.last().block_id {
            Some(id) => if a.contains(id) {
                a
            } else {
                a.push(id)
            },
            None => a,
        }
    }
}

/// Every block ID already present on a task of the store (for collision-free
/// ID generation), each once.
pub fn existing_block_ids(store: &NoteStore) -> (r: Vec<String>)
    ensures
        r.deep_view() == block_ids_of(store.notes.deep_view()),
{
    let ghost nv = store.notes.deep_view();
    let mut ids: Vec<String> = Vec::new();
    let mut i: usize = 0;
    while i < store.notes.len()
        invariant
            i <= store.notes.len(),
            nv == store.notes.deep_view(),
            ids.deep_view() == block_ids_of(nv.take(i as int)),
        decreases store.notes.len() - i,
    {
        proof {
            assert(nv.take(i + 1).drop_last() =~= nv.take(i as int));
            assert(nv[i as int] == store.notes[i as int].deep_view());
        }
        let note = &store.notes[i];
        let ghost base = ids.deep_view();
        let ghost tv = note.tasks.deep_view();
        let mut t: usize = 0;
        while t < note.tasks.len()
            invariant
                t <= note.tasks.len(),
                tv == note.tasks.deep_view(),
                ids.deep_view() == add_ids(base, tv.take(t as int)),
            decreases note.tasks.len() - t,
        {
            proof {
                assert(tv.take(t + 1).drop_last() =~= tv.take(t as int));
                assert(tv[t as int] == note.tasks[t as int].deep_view());
            }
            match &note.tasks[t].block_id {
                Some(id) => {
                    let mut seen = false;
                    let mut k: usize = 0;
                    while k < ids.len()
                        invariant
                            k <= ids.len(),
                            seen == exists|q: int| 0 <= q < k && ids.deep_view()[q] == id@,
                        decreases ids.len() - k,
                    {
                        assert(ids.deep_view()[k as int] == ids[k as int]@);
                        if crate::text::vec_eq(&chars_of_string(&ids[k]), &chars_of_string(id)) {
                            seen = true;
                        }
                        k += 1;
                    }
                    if !seen {
                        let ghost i0 = ids.deep_view();
                        ids.push(copy_string(id));
                        assert(ids.deep_view() =~= i0.push(id@));
                    } else {
                        proof {
                            let q = choose|q: int| 0 <= q < ids.len() && ids.deep_view()[q] == id@;
                            assert(ids.deep_view().contains(id@));
                        }
                    }
                },
                None => {},
            }
            t += 1;
        }
        assert(tv.take(t as int) =~= tv);
        i += 1;
    }
    assert(nv.take(i as int) =~= nv);
    ids
}


/// A scan's report of the vault parsed into `store`: the analyzers'
/// findings, the counts of regular, daily and weekly notes, and the path.
pub open spec fn scan_report(r: Report, nv: Seq<NoteV>, modified: Seq<Option<i64>>, path: Seq<char>) -> bool {
    &&& all_findings(nv, modified, r.findings.deep_view())
    &&& stats_of(
        r.stats,
        r.findings.deep_view(),
        kind_count(nv, NoteKind::Regular) as usize,
        kind_count(nv, NoteKind::Daily) as usize,
        kind_count(nv, NoteKind::Weekly) as usize,
    )
    &&& r.noteplan_path@ == path
}

/// The scan behind the scan command and the watcher. `scanned` holds the
/// vault parsed from `path` with each note's modification time, or `None`
/// when the path does not exist; the parse is kept in `cache`.
pub fn perform_scan(path: &str, scanned: Option<(NoteStore, Vec<Option<i64>>)>, cache: &mut NoteStoreCache) -> (r: Result<
    Report,
    String,
>)
    ensures
        match scanned {
            None => r is Err && r->Err_0@ == "Path does not exist: "@ + path@ && final(cache).store == old(cache).store,
            Some(sc) => r is Ok && scan_report(r->Ok_0, sc.0.notes.deep_view(), sc.1@, path@)
                && final(cache).store == Some(sc.0),
        },
{
    match scanned {
        None => {
            let mut msg = chars_of("Path does not exist: ");
            let p = chars_of(path);
            let ghost m0 = msg@;
            let mut i: usize = 0;
            while i < p.len()
                invariant
                    i <= p.len(),
                    p@ == path@,
                    m0 == "Path does not exist: "@,
                    msg@ == m0 + p@.take(i as int),
                decreases p.len() - i,
            {
                msg.push(p[i]);
                assert(p@.take(i + 1) =~= p@.take(i as int).push(p@[i as int]));
                i += 1;
            }
            assert(p@.take(i as int) =~= p@);
            Err(string_of(&msg))
        },
        Some((store, modified)) => {
            let total_notes = kind_count_exec(&store.notes, NoteKind::Regular);
            let total_daily = kind_count_exec(&store.notes, NoteKind::Daily);
            let total_weekly = kind_count_exec(&store.notes, NoteKind::Weekly);
            let ghost mods = modified@;
            let findings = run_all_analyzers(&store, modified);
            let report = Report::new(findings, total_notes, total_daily, total_weekly, string_of(&chars_of(path)));
            cache.set(store);
            Ok(report)
        },
    }
}


/// Only `noteplan://` URLs may be opened.
pub fn check_noteplan_url(url: &str) -> (r: Result<(), String>)
    ensures
        r is Ok <==> has_prefix(url@, "noteplan://"@),
        r matches Err(m) ==> m@ == "Invalid URL: only noteplan:// URLs are allowed"@,
{
    if crate::text::starts_with(&chars_of(url), &chars_of("noteplan://")) {
        Ok(())
    } else {
        Err(string_of(&chars_of("Invalid URL: only noteplan:// URLs are allowed")))
    }
}


// ─── Replaying edits ────────────────────────────────────────────────────────

proof fn lemma_join_update_last(p: Seq<Seq<char>>, sep: Seq<char>, c: char)
    requires
        p.len() >= 1,
    ensures
        join(p.update(p.len() - 1, p.last().push(c)), sep) == join(p, sep).push(c),
{
    let q = p.update(p.len() - 1, p.last().push(c));
    if p.len() == 1 {
        assert(q[0] == p[0].push(c));
    } else {
        assert(q.drop_last() =~= p.drop_last());
        assert(join(q, sep) =~= join(p, sep).push(c));
    }
}

/// Splitting at a character and joining with it again gives the text back.
proof fn lemma_join_split(s: Seq<char>, sep: char)
    ensures
        join(split_on(s, sep), seq![sep]) == s,
        split_on(s, sep).len() >= 1,
    decreases s.len(),
{
    if s.len() > 0 {
        lemma_join_split(s.drop_last(), sep);
        let p = split_on(s.drop_last(), sep);
        if s.last() == sep {
            assert(p.push(Seq::<char>::empty()).drop_last() =~= p);
            assert(join(p.push(Seq::<char>::empty()), seq![sep]) =~= s);
        } else {
            lemma_join_update_last(p, seq![sep], s.last());
            assert(s.drop_last().push(s.last()) =~= s);
        }
    }
}

/// The parts of a text split at `\n` hold no `\r` that the text does not.
proof fn lemma_split_no_cr(s: Seq<char>)
    requires
        !s.contains('\r'),
    ensures
        forall|k: int| 0 <= k < split_on(s, '\n').len() ==> !(#[trigger] split_on(s, '\n')[k]).contains('\r'),
    decreases s.len(),
{
    if s.len() > 0 {
        assert(!s.drop_last().contains('\r')) by {
            if s.drop_last().contains('\r') {
                let j = choose|j: int| 0 <= j < s.drop_last().len() && s.drop_last()[j] == '\r';
                assert(s[j] == '\r');
            }
        }
        lemma_split_no_cr(s.drop_last());
        lemma_join_split(s.drop_last(), '\n');
        let p = split_on(s.drop_last(), '\n');
        assert forall|k: int| 0 <= k < split_on(s, '\n').len() implies !(#[trigger] split_on(s, '\n')[k]).contains('\r') by {
            if s.last() == '\n' {
                if k < p.len() {
                    assert(split_on(s, '\n')[k] == p[k]);
                } else {
                    assert(split_on(s, '\n')[k] =~= Seq::<char>::empty());
                }
            } else if k < p.len() - 1 {
                assert(split_on(s, '\n')[k] == p[k]);
            } else {
                let x = p.last().push(s.last());
                assert(split_on(s, '\n')[k] == x);
                assert(s.last() != '\r') by {
                    assert(s[s.len() - 1] == s.last());
                }
                if x.contains('\r') {
                    let j = choose|j: int| 0 <= j < x.len() && x[j] == '\r';
                    if j < p.last().len() {
                        assert(p.last()[j] == '\r');
                    }
                }
            }
        }
    }
}

/// The lines of a text without carriage returns, joined with `\n` and with
/// the text's final line feed put back, are the text.
pub proof fn lemma_lines_round_trip(content: Seq<char>)
    requires
        !content.contains('\r'),
    ensures
        (if content.len() > 0 && content.last() == '\n' {
            join(lines(content), seq!['\n']).push('\n')
        } else {
            join(lines(content), seq!['\n'])
        }) == content,
{
    if content.len() > 0 {
        lemma_join_split(content, '\n');
        lemma_split_no_cr(content);
        let p = split_on(content, '\n');
        let done = p.drop_last().map_values(|l: Seq<char>| strip_cr(l));
        assert(done =~= p.drop_last()) by {
            assert forall|k: int| 0 <= k < done.len() implies done[k] == p.drop_last()[k] by {
                assert(!p[k].contains('\r'));
                if p[k].len() > 0 && p[k].last() == '\r' {
                    assert(p[k][p[k].len() - 1] == '\r');
                }
            }
        }
        if content.last() == '\n' {
            assert(p.len() >= 2) by {
                if p.len() == 1 {
                    lemma_join_split(content.drop_last(), '\n');
                }
            }
            assert(p.last() =~= Seq::<char>::empty()) by {
                lemma_join_split(content.drop_last(), '\n');
            }
            assert(join(p, seq!['\n']) =~= join(done, seq!['\n']).push('\n'));
        } else {
            assert(p.last() == strip_cr(p.last())) by {
                assert(!p[p.len() - 1].contains('\r'));
                if p.last().len() > 0 && p.last().last() == '\r' {
                    assert(p.last()[p.last().len() - 1] == '\r');
                }
            }
            assert(done.push(p.last()) =~= p);
        }
    }
}

/// Replaying no edits leaves a text without carriage returns as it was;
/// one edit changes the lines as `apply_op` says, and an edit of a line
/// that does not exist (other than an insert) leaves the text as it was.
pub proof fn lemma_replay_ops(content: Seq<char>, op: WriteOpV)
    requires
        !content.contains('\r'),
    ensures
        content_after(content, Seq::empty()) == content,
        content_after(content, seq![op]) == (if content.len() > 0 && content.last() == '\n' {
            join(apply_op(lines(content), op), seq!['\n']).push('\n')
        } else {
            join(apply_op(lines(content), op), seq!['\n'])
        }),
        apply_op(lines(content), op) == lines(content) ==> content_after(content, seq![op]) == content,
{
    lemma_lines_round_trip(content);
    assert(seq![op].drop_first() =~= Seq::<WriteOpV>::empty());
    assert(apply_ops(lines(content), seq![op]) == apply_ops(apply_op(lines(content), op), Seq::empty()));
}

} // verus!
