//! The backlog write protocol as a state machine. The app performs each
//! action the machine asks for (fetch a note, extend the watcher's
//! suppression window, write one line, patch the read cache, finish) and
//! hands back what each fetch or write returned; every decision is taken
//! here: which address to fetch, when to fall back to the title, what to
//! plan on which content, when to stop, and what the command answers.
use vstd::prelude::*;
use crate::backlog_write::{
    candidate_id, context_missing_msg, deletions, entries_with_id, entry_ids, first_free,
    id_entries, is_backlog_note, is_permutation, lemma_tombstones_desc_shape, no_free_id_msg, no_match,
    not_backlog_msg, only_match, placed, plan_append_entry, plan_gc_tombstones, plan_remove, plan_reorder,
    plan_stamp_block_id, remove_ambiguous_msg, remove_missing_msg, reorder_mismatch_msg, salt_taken,
    section, append_line, stamp_seed, stamped_line, task_ambiguous_msg, task_gone_msg, tombstone_line,
    tombstones_desc, two_matches, verify_all_tombstones, WriteOp, WriteOpV,
};
use crate::commands::{content_after, content_after_ops, ResolvedNote, ResolvedNoteV};
use crate::mcp::tools::{debug_text, NoteAddr};
use crate::models::NoteKind;
use crate::parser::task::clean;
use crate::text::{chars_of, chars_of_string, lines, string_of};

verus! {

// ─── What the planners promise, by name ─────────────────────────────────────

/// What `plan_stamp_block_id` promises of its result on `content`.
pub open spec fn stamp_plan(
    content: Seq<char>,
    title: Seq<char>,
    e: Seq<char>,
    ex: Seq<Seq<char>>,
    r: Result<(Seq<char>, Seq<WriteOpV>), Seq<char>>,
) -> bool {
    let ls = lines(content);
    let seed = stamp_seed(title, e);
    match r {
        Ok((id, ops)) => exists|i: int|
            #![trigger ls[i]]
            only_match(ls, e, i) && match clean(ls[i]).2 {
                Some(old_id) => id == old_id && ops.len() == 0,
                None => exists|s: u64|
                    first_free(seed, s, ex) && id == candidate_id(seed, s) && ops.len() == 1 && ops[0]
                        == (WriteOpV::AppendBlockId {
                        line: (i + 1) as usize,
                        new_line_text: stamped_line(ls[i], id),
                        block_id: id,
                    }),
            },
        Err(m) => (no_match(ls, e) && m == task_gone_msg(e)) || (two_matches(ls, e) && m == task_ambiguous_msg(e)) || (
        exists|i: int|
            #![trigger ls[i]]
            only_match(ls, e, i) && clean(ls[i]).2 is None && (forall|s: u64| #[trigger] salt_taken(seed, s, ex)) && m
                == no_free_id_msg()),
    }
}

/// What `plan_append_entry` promises.
pub open spec fn append_plan(content: Seq<char>, context: Seq<char>, entry: Seq<char>, r: Result<Seq<WriteOpV>, Seq<char>>) -> bool {
    let ls = lines(content);
    match r {
        Ok(ops) => is_backlog_note(content) && (section(ls, context) matches Some((h, items)) && ops == seq![
            WriteOpV::InsertBacklogLine { line: append_line(h, items) as usize, text: entry },
        ]),
        Err(m) => (!is_backlog_note(content) && m == not_backlog_msg()) || (is_backlog_note(content) && section(
            ls,
            context,
        ) is None && m == context_missing_msg(context)),
    }
}

/// What `plan_remove` promises.
pub open spec fn remove_plan(content: Seq<char>, context: Seq<char>, id: Seq<char>, r: Result<Seq<WriteOpV>, Seq<char>>) -> bool {
    let ls = lines(content);
    match r {
        Ok(ops) => is_backlog_note(content) && (section(ls, context) matches Some((h, items)) && entries_with_id(
            ls,
            items,
            id,
        ).len() == 1 && ops == seq![
            WriteOpV::ReplaceBacklogLine {
                line: entries_with_id(ls, items, id)[0] as usize,
                text: "<!-- np-backlog: removed -->"@,
            },
        ]),
        Err(m) => (!is_backlog_note(content) && m == not_backlog_msg()) || (is_backlog_note(content) && section(
            ls,
            context,
        ) is None && m == context_missing_msg(context)) || (is_backlog_note(content) && (section(ls, context) matches Some(
            (h, items),
        ) && entries_with_id(ls, items, id).len() == 0 && m == remove_missing_msg(id, context))) || (is_backlog_note(
            content,
        ) && (section(ls, context) matches Some((h, items)) && entries_with_id(ls, items, id).len() >= 2 && m
            == remove_ambiguous_msg(id, context))),
    }
}

/// What `plan_reorder` promises.
pub open spec fn reorder_plan(content: Seq<char>, context: Seq<char>, o: Seq<Seq<char>>, r: Result<Seq<WriteOpV>, Seq<char>>) -> bool {
    let ls = lines(content);
    match r {
        Ok(ops) => is_backlog_note(content) && (section(ls, context) matches Some((h, items)) && is_permutation(
            o,
            entry_ids(id_entries(ls, items)),
        ) && ops.len() == id_entries(ls, items).len() && forall|k: int|
            0 <= k < ops.len() ==> placed(ls, id_entries(ls, items), o, k, #[trigger] ops[k])),
        Err(m) => (!is_backlog_note(content) && m == not_backlog_msg()) || (is_backlog_note(content) && section(
            ls,
            context,
        ) is None && m == context_missing_msg(context)) || (is_backlog_note(content) && (section(ls, context) matches Some(
            (h, items),
        ) && !is_permutation(o, entry_ids(id_entries(ls, items))) && m == reorder_mismatch_msg(context))),
    }
}

/// The tombstone collection: the deletions of every tombstone, bottom up.
pub open spec fn gc_plan(content: Seq<char>, r: Result<Seq<WriteOpV>, Seq<char>>) -> bool {
    match r {
        Ok(ops) => is_backlog_note(content) && ops == deletions(tombstones_desc(lines(content))),
        Err(m) => !is_backlog_note(content) && m == not_backlog_msg(),
    }
}

pub open spec fn ops_view(ops: Seq<WriteOp>) -> Seq<WriteOpV> {
    ops.map_values(|o: WriteOp| o.deep_view())
}

pub open spec fn ops_result(r: Result<Vec<WriteOp>, String>) -> Result<Seq<WriteOpV>, Seq<char>> {
    match r {
        Ok(ops) => Ok(ops_view(ops@)),
        Err(m) => Err(m@),
    }
}

fn stamp_exec(content: &str, title: &str, e: &str, ex: &Vec<String>) -> (r: Result<(String, Vec<WriteOp>), String>)
    ensures
        stamp_plan(
            content@,
            title@,
            e@,
            ex.deep_view(),
            match r {
                Ok((id, ops)) => Ok((id@, ops_view(ops@))),
                Err(m) => Err(m@),
            },
        ),
{
    let r = plan_stamp_block_id(content, title, e, ex);
    assert(r is Ok && r->Ok_0.1.len() == 1 ==> ops_view(r->Ok_0.1@)[0] == r->Ok_0.1[0].deep_view());
    r
}

fn append_exec(content: &str, context: &str, entry: &str) -> (r: Result<Vec<WriteOp>, String>)
    requires
        content@.len() < usize::MAX,
    ensures
        append_plan(content@, context@, entry@, ops_result(r)),
{
    let r = plan_append_entry(content, context, entry);
    assert(r is Ok ==> ops_view(r->Ok_0@) =~= r->Ok_0.deep_view());
    r
}

fn remove_exec(content: &str, context: &str, id: &str) -> (r: Result<Vec<WriteOp>, String>)
    ensures
        remove_plan(content@, context@, id@, ops_result(r)),
{
    let r = plan_remove(content, context, id);
    assert(r is Ok ==> ops_view(r->Ok_0@) =~= r->Ok_0.deep_view());
    r
}

fn reorder_exec(content: &str, context: &str, o: &Vec<String>) -> (r: Result<Vec<WriteOp>, String>)
    ensures
        reorder_plan(content@, context@, o.deep_view(), ops_result(r)),
{
    let r = plan_reorder(content, context, o.as_slice());
    assert(r is Ok ==> forall|k: int| 0 <= k < r->Ok_0.len() ==> ops_view(r->Ok_0@)[k] == #[trigger] r->Ok_0[k].deep_view());
    r
}

/// The collection pass: plan the deletions, then confirm each target is a
/// tombstone before any is made.
fn gc_exec(content: &str) -> (r: Result<Vec<WriteOp>, String>)
    ensures
        gc_plan(content@, ops_result(r)),
{
    let ops = match plan_gc_tombstones(content) {
        Ok(ops) => ops,
        Err(m) => return Err(m),
    };
    let lv = crate::text::split_lines(&chars_of(content));
    let ghost ls = lines(content@);
    let ghost ts = tombstones_desc(ls);
    proof {
        lemma_tombstones_desc_shape(ls);
        assert(ops.deep_view().len() == ops.len());
        assert(lv.deep_view().len() == lv.len());
    }
    let mut targets: Vec<usize> = Vec::new();
    let mut i: usize = 0;
    while i < ops.len()
        invariant
            i <= ops.len() == ts.len(),
            ls.len() <= usize::MAX,
            ops.deep_view() == deletions(ts),
            forall|k: int| 0 <= k < ts.len() ==> tombstone_line(ls, #[trigger] ts[k]),
            targets@.len() == i,
            forall|k: int| 0 <= k < i ==> #[trigger] targets@[k] as int == ts[k],
        decreases ops.len() - i,
    {
        assert(ops.deep_view()[i as int] == ops[i as int].deep_view());
        assert(deletions(ts)[i as int] == WriteOpV::DeleteBacklogLine { line: ts[i as int] as usize });
        assert(tombstone_line(ls, ts[i as int]));
        match &ops[i] {
            WriteOp::DeleteBacklogLine { line } => {
                targets.push(*line);
            },
            _ => {
                assert(false);
            },
        }
        i += 1;
    }
    proof {
        assert forall|k: int| 0 <= k < targets@.len() implies tombstone_line(ls, #[trigger] targets@[k] as int) by {
            assert(tombstone_line(ls, ts[k]));
        }
    }
    match verify_all_tombstones(content, targets.as_slice()) {
        Ok(()) => {},
        Err(m) => {
            return Err(m);
        },
    }
    assert(ops_view(ops@) =~= ops.deep_view());
    Ok(ops)
}


// ─── The machine ────────────────────────────────────────────────────────────

/// Which note a write goes to: the task's content note, or the backlog note.
#[derive(Debug, Clone, Copy, PartialEq, Eq, Structural)]
pub enum Role {
    Source,
    Backlog,
}

/// Where a run stands.
#[derive(Debug, Clone, Copy, PartialEq, Eq, Structural)]
pub enum Stage {
    /// Waiting for the backlog note, fetched by its resolved address.
    FetchBacklog,
    /// Waiting for the backlog note, fetched again by its title.
    FetchBacklogByTitle,
    /// Waiting for the task's content note (ranking).
    FetchSource,
    /// Waiting for a write to the content note (ranking).
    WriteSource,
    /// Waiting for a write to the backlog note.
    WriteBacklog,
    Done,
}

/// The command a run carries out.
pub enum Job {
    /// Stamp a block ID on a task and list it in a context of the backlog.
    Rank { source: ResolvedNote, source_title: String, expected_text: String, context: String, existing: Vec<String> },
    /// Reorder a context's entries, then collect the tombstones.
    Reorder { context: String, ordered: Vec<String> },
    /// Tombstone a context's entry.
    Remove { context: String, block_id: String },
}

/// What the machine asks the app to do.
pub enum Action {
    /// Fetch a note's content; answer with `Event::Fetched`.
    Fetch { addr: NoteAddr },
    /// Extend the watcher's suppression window.
    Suppress,
    /// Apply one write; answer with `Event::Wrote`.
    Write { role: Role, addr: NoteAddr, op: WriteOp },
    /// Replace the cached note with the note parsed from `content`.
    Patch { file_path: String, relative_path: String, kind: NoteKind, content: String },
    /// The command's answer; nothing follows.
    Finish { result: Result<(), String> },
}

/// What the app hands back.
pub enum Event {
    Fetched { result: Result<String, String> },
    Wrote { result: Result<(), String> },
}

/// A run of one backlog command.
pub struct WriteRun {
    pub job: Job,
    /// The backlog note as resolved from the cache, and its title.
    pub backlog: ResolvedNote,
    pub backlog_title: String,
    /// Whether the run is in the tombstone collection that follows a reorder.
    pub gc: bool,
    pub stage: Stage,
    /// The address the backlog note was fetched by, and its content.
    pub backlog_addr: NoteAddr,
    pub backlog_content: String,
    /// The address and content of the task's note, and the block ID stamped.
    pub source_addr: NoteAddr,
    pub source_content: String,
    pub block_id: String,
    /// The writes being applied, and the one awaited.
    pub ops: Vec<WriteOp>,
    pub pos: usize,
}

pub open spec fn addr_v(a: NoteAddr) -> (bool, Seq<char>) {
    match a {
        NoteAddr::Title(t) => (false, t@),
        NoteAddr::Filename(f) => (true, f@),
    }
}

pub enum ActionV {
    Fetch { addr: (bool, Seq<char>) },
    Suppress,
    Write { role: Role, addr: (bool, Seq<char>), op: WriteOpV },
    Patch { file_path: Seq<char>, relative_path: Seq<char>, kind: NoteKind, content: Seq<char> },
    Finish { result: Result<(), Seq<char>> },
}

impl DeepView for Action {
    type V = ActionV;

    open spec fn deep_view(&self) -> ActionV {
        match self {
            Action::Fetch { addr } => ActionV::Fetch { addr: addr_v(*addr) },
            Action::Suppress => ActionV::Suppress,
            Action::Write { role, addr, op } => ActionV::Write { role: *role, addr: addr_v(*addr), op: op.deep_view() },
            Action::Patch { file_path, relative_path, kind, content } => ActionV::Patch {
                file_path: file_path@,
                relative_path: relative_path@,
                kind: *kind,
                content: content@,
            },
            Action::Finish { result } => ActionV::Finish {
                result: match result {
                    Ok(()) => Ok(()),
                    Err(m) => Err(m@),
                },
            },
        }
    }
}

pub enum EventV {
    Fetched(Result<Seq<char>, Seq<char>>),
    Wrote(Result<(), Seq<char>>),
}

pub open spec fn event_v(e: Event) -> EventV {
    match e {
        Event::Fetched { result } => EventV::Fetched(
            match result {
                Ok(c) => Ok(c@),
                Err(m) => Err(m@),
            },
        ),
        Event::Wrote { result } => EventV::Wrote(
            match result {
                Ok(()) => Ok(()),
                Err(m) => Err(m@),
            },
        ),
    }
}

pub enum JobV {
    Rank { source: ResolvedNoteV, title: Seq<char>, expected: Seq<char>, context: Seq<char>, existing: Seq<Seq<char>> },
    Reorder { context: Seq<char>, ordered: Seq<Seq<char>> },
    Remove { context: Seq<char>, block_id: Seq<char> },
}

pub struct RunV {
    pub job: JobV,
    pub backlog: ResolvedNoteV,
    pub backlog_title: Seq<char>,
    pub gc: bool,
    pub stage: Stage,
    pub backlog_addr: (bool, Seq<char>),
    pub backlog_content: Seq<char>,
    pub source_addr: (bool, Seq<char>),
    pub source_content: Seq<char>,
    pub block_id: Seq<char>,
    pub ops: Seq<WriteOpV>,
    pub pos: int,
}

pub open spec fn job_v(j: Job) -> JobV {
    match j {
        Job::Rank { source, source_title, expected_text, context, existing } => JobV::Rank {
            source: source.view_of(),
            title: source_title@,
            expected: expected_text@,
            context: context@,
            existing: existing.deep_view(),
        },
        Job::Reorder { context, ordered } => JobV::Reorder { context: context@, ordered: ordered.deep_view() },
        Job::Remove { context, block_id } => JobV::Remove { context: context@, block_id: block_id@ },
    }
}

impl WriteRun {
    pub open spec fn view_of(&self) -> RunV {
        RunV {
            job: job_v(self.job),
            backlog: self.backlog.view_of(),
            backlog_title: self.backlog_title@,
            gc: self.gc,
            stage: self.stage,
            backlog_addr: addr_v(self.backlog_addr),
            backlog_content: self.backlog_content@,
            source_addr: addr_v(self.source_addr),
            source_content: self.source_content@,
            block_id: self.block_id@,
            ops: ops_view(self.ops@),
            pos: self.pos as int,
        }
    }

    /// What a run keeps true between steps.
    pub open spec fn wf(&self) -> bool {
        &&& (self.stage == Stage::WriteSource || self.stage == Stage::WriteBacklog) ==> self.pos < self.ops.len()
        &&& (self.stage == Stage::FetchSource || self.stage == Stage::WriteSource) ==> self.job is Rank
        &&& self.backlog_content@.len() < usize::MAX
    }
}

/// Whether `e` answers what a run at `stage` waits for, with a content that
/// fits the planners' bounds.
pub open spec fn expects(stage: Stage, e: EventV) -> bool {
    match e {
        EventV::Fetched(r) => (stage == Stage::FetchBacklog || stage == Stage::FetchBacklogByTitle
            || stage == Stage::FetchSource) && (r matches Ok(c) ==> c.len() < usize::MAX),
        EventV::Wrote(_) => stage == Stage::WriteSource || stage == Stage::WriteBacklog,
    }
}

/// The backlog entry of a ranked task.
pub open spec fn rank_entry(title: Seq<char>, id: Seq<char>, expected: Seq<char>) -> Seq<char> {
    "- [["@ + title + "^"@ + id + "]] "@ + expected
}

/// How `Debug` writes a note address.
pub open spec fn debug_addr(a: (bool, Seq<char>)) -> Seq<char> {
    if a.0 {
        "Filename("@ + debug_text(a.1) + ")"@
    } else {
        "Title("@ + debug_text(a.1) + ")"@
    }
}

pub open spec fn source_fetch_msg(a: (bool, Seq<char>), m: Seq<char>) -> Seq<char> {
    "could not fetch the task's source note at "@ + debug_addr(a) + ": "@ + m
        + " — the note may have moved since the last scan; rescan and retry"@
}

/// The answer a run gives: the tombstone collection never fails the
/// reorder before it.
pub open spec fn finish(gc: bool, r: Result<(), Seq<char>>) -> ActionV {
    ActionV::Finish { result: if gc { Ok(()) } else { r } }
}

pub open spec fn done(s: RunV) -> RunV {
    RunV { stage: Stage::Done, ..s }
}

pub open spec fn fail(s: RunV, m: Seq<char>) -> (RunV, Seq<ActionV>) {
    (done(s), seq![finish(s.gc, Err(m))])
}

/// The cache patch of a note written with `ops` from `pre`, when the cache
/// can identify it.
pub open spec fn patch_acts(patch: Option<(Seq<char>, Seq<char>, NoteKind)>, pre: Seq<char>, ops: Seq<WriteOpV>) -> Seq<ActionV> {
    match patch {
        Some((f, r, k)) => seq![ActionV::Patch { file_path: f, relative_path: r, kind: k, content: content_after(pre, ops) }],
        None => Seq::empty(),
    }
}

/// All backlog writes made: extend the window, patch the cache, and answer,
/// or, after a reorder, go on to collect the tombstones.
pub open spec fn backlog_done(s: RunV) -> (RunV, Seq<ActionV>) {
    let acts = seq![ActionV::Suppress] + patch_acts(s.backlog.patch, s.backlog_content, s.ops);
    if s.job is Reorder && !s.gc {
        (
            RunV { gc: true, stage: Stage::FetchBacklog, ..s },
            acts.push(ActionV::Fetch { addr: (s.backlog.addr_is_filename, s.backlog.addr) }),
        )
    } else {
        (done(s), acts.push(finish(s.gc, Ok(()))))
    }
}

/// Starts the planned backlog writes, each after extending the window.
pub open spec fn start_backlog_ops(s: RunV, r: Result<Seq<WriteOpV>, Seq<char>>) -> (RunV, Seq<ActionV>) {
    match r {
        Err(m) => fail(s, m),
        Ok(ops) => if ops.len() == 0 {
            backlog_done(RunV { ops: ops, pos: 0, ..s })
        } else {
            (
                RunV { stage: Stage::WriteBacklog, ops: ops, pos: 0, ..s },
                seq![ActionV::Suppress, ActionV::Write { role: Role::Backlog, addr: s.backlog_addr, op: ops[0] }],
            )
        },
    }
}

/// The stamp is on disk: patch the content note, then list the entry.
pub open spec fn source_done(s: RunV, r: Result<Seq<WriteOpV>, Seq<char>>) -> (RunV, Seq<ActionV>) {
    let pa = match s.job {
        JobV::Rank { source, .. } => patch_acts(source.patch, s.source_content, s.ops),
        _ => Seq::empty(),
    };
    let next = start_backlog_ops(s, r);
    (next.0, pa + next.1)
}

/// The backlog note arrived by `addr` holding `c`.
pub open spec fn backlog_fetched(s: RunV, addr: (bool, Seq<char>), c: Seq<char>, r: Result<Seq<WriteOpV>, Seq<char>>) -> (RunV, Seq<ActionV>) {
    let s1 = RunV { backlog_addr: addr, backlog_content: c, ..s };
    match s.job {
        JobV::Rank { source, .. } => (
            RunV { stage: Stage::FetchSource, source_addr: (source.addr_is_filename, source.addr), ..s1 },
            seq![ActionV::Fetch { addr: (source.addr_is_filename, source.addr) }],
        ),
        _ => start_backlog_ops(s1, r),
    }
}

/// The planner outcomes a step may use.
pub struct PlanV {
    pub stamp: Result<(Seq<char>, Seq<WriteOpV>), Seq<char>>,
    pub ops: Result<Seq<WriteOpV>, Seq<char>>,
}

/// The plan of a backlog-only run on content `c`.
pub open spec fn job_plan(s: RunV, c: Seq<char>, r: Result<Seq<WriteOpV>, Seq<char>>) -> bool {
    if s.gc {
        gc_plan(c, r)
    } else {
        match s.job {
            JobV::Reorder { context, ordered } => reorder_plan(c, context, ordered, r),
            JobV::Remove { context, block_id } => remove_plan(c, context, block_id, r),
            JobV::Rank { .. } => true,
        }
    }
}

/// Which planner outcomes a step from `s` on `e` rests on.
pub open spec fn plan_ok(s: RunV, e: EventV, p: PlanV) -> bool {
    match e {
        EventV::Fetched(Ok(c)) => if s.stage == Stage::FetchBacklog || s.stage == Stage::FetchBacklogByTitle {
            job_plan(s, c, p.ops)
        } else if s.stage == Stage::FetchSource {
            match s.job {
                JobV::Rank { title, expected, context, existing, .. } => stamp_plan(c, title, expected, existing, p.stamp)
                    && match p.stamp {
                    Ok((id, ops)) => ops.len() == 0 ==> append_plan(
                        s.backlog_content,
                        context,
                        rank_entry(title, id, expected),
                        p.ops,
                    ),
                    Err(_) => true,
                },
                _ => true,
            }
        } else {
            true
        },
        EventV::Wrote(Ok(())) => s.stage == Stage::WriteSource && s.pos + 1 >= s.ops.len() ==> match s.job {
            JobV::Rank { title, expected, context, .. } => append_plan(
                s.backlog_content,
                context,
                rank_entry(title, s.block_id, expected),
                p.ops,
            ),
            _ => true,
        },
        _ => true,
    }
}

/// One step of a run: the state it moves to and the actions it asks for.
pub open spec fn run_step(s: RunV, e: EventV, p: PlanV) -> (RunV, Seq<ActionV>) {
    match s.stage {
        Stage::FetchBacklog => match e {
            EventV::Fetched(Ok(c)) => backlog_fetched(s, (s.backlog.addr_is_filename, s.backlog.addr), c, p.ops),
            EventV::Fetched(Err(m)) => if s.backlog.addr_is_filename {
                (
                    RunV { stage: Stage::FetchBacklogByTitle, ..s },
                    seq![ActionV::Fetch { addr: (false, s.backlog_title) }],
                )
            } else {
                fail(s, m)
            },
            _ => (s, Seq::empty()),
        },
        Stage::FetchBacklogByTitle => match e {
            EventV::Fetched(Ok(c)) => backlog_fetched(s, (false, s.backlog_title), c, p.ops),
            EventV::Fetched(Err(m)) => fail(s, m),
            _ => (s, Seq::empty()),
        },
        Stage::FetchSource => match e {
            EventV::Fetched(Err(m)) => fail(s, source_fetch_msg(s.source_addr, m)),
            EventV::Fetched(Ok(c)) => match p.stamp {
                Err(m) => fail(s, m),
                Ok((id, ops)) => {
                    let s1 = RunV { source_content: c, block_id: id, ops: ops, pos: 0, ..s };
                    if ops.len() == 0 {
                        source_done(s1, p.ops)
                    } else {
                        (
                            RunV { stage: Stage::WriteSource, ..s1 },
                            seq![ActionV::Suppress, ActionV::Write { role: Role::Source, addr: s.source_addr, op: ops[0] }],
                        )
                    }
                },
            },
            _ => (s, Seq::empty()),
        },
        Stage::WriteSource => match e {
            EventV::Wrote(Err(m)) => fail(s, m),
            EventV::Wrote(Ok(())) => if s.pos + 1 < s.ops.len() {
                (
                    RunV { pos: s.pos + 1, ..s },
                    seq![
                        ActionV::Suppress,
                        ActionV::Suppress,
                        ActionV::Write { role: Role::Source, addr: s.source_addr, op: s.ops[s.pos + 1] },
                    ],
                )
            } else {
                let next = source_done(s, p.ops);
                (next.0, seq![ActionV::Suppress] + next.1)
            },
            _ => (s, Seq::empty()),
        },
        Stage::WriteBacklog => match e {
            EventV::Wrote(Err(m)) => (done(s), seq![ActionV::Suppress, finish(s.gc, Err(m))]),
            EventV::Wrote(Ok(())) => if s.pos + 1 < s.ops.len() {
                (
                    RunV { pos: s.pos + 1, ..s },
                    seq![
                        ActionV::Suppress,
                        ActionV::Suppress,
                        ActionV::Write { role: Role::Backlog, addr: s.backlog_addr, op: s.ops[s.pos + 1] },
                    ],
                )
            } else {
                let next = backlog_done(s);
                (next.0, seq![ActionV::Suppress] + next.1)
            },
            _ => (s, Seq::empty()),
        },
        Stage::Done => (s, Seq::empty()),
    }
}


// ─── Running it ─────────────────────────────────────────────────────────────

fn copy_str(s: &String) -> (r: String)
    ensures
        r@ == s@,
{
    string_of(&chars_of_string(s))
}

fn copy_addr(a: &NoteAddr) -> (r: NoteAddr)
    ensures
        addr_v(r) == addr_v(*a),
{
    match a {
        NoteAddr::Title(t) => NoteAddr::Title(copy_str(t)),
        NoteAddr::Filename(f) => NoteAddr::Filename(copy_str(f)),
    }
}

fn copy_op(o: &WriteOp) -> (r: WriteOp)
    ensures
        r.deep_view() == o.deep_view(),
{
    match o {
        WriteOp::AppendBlockId { line, new_line_text, block_id } => WriteOp::AppendBlockId {
            line: *line,
            new_line_text: copy_str(new_line_text),
            block_id: copy_str(block_id),
        },
        WriteOp::InsertBacklogLine { line, text } => WriteOp::InsertBacklogLine { line: *line, text: copy_str(text) },
        WriteOp::ReplaceBacklogLine { line, text } => WriteOp::ReplaceBacklogLine { line: *line, text: copy_str(text) },
        WriteOp::DeleteBacklogLine { line } => WriteOp::DeleteBacklogLine { line: *line },
    }
}

fn push_act(v: &mut Vec<Action>, a: Action)
    ensures
        final(v).deep_view() == old(v).deep_view().push(a.deep_view()),
{
    let ghost v0 = v.deep_view();
    v.push(a);
    assert(v.deep_view() =~= v0.push(a.deep_view()));
}

fn append_acts(v: &mut Vec<Action>, w: Vec<Action>)
    ensures
        final(v).deep_view() == old(v).deep_view() + w.deep_view(),
{
    let ghost v0 = v.deep_view();
    let ghost wv = w.deep_view();
    let mut w = w;
    let mut rest: Vec<Action> = Vec::new();
    while w.len() > 0
        invariant
            w.deep_view() + rest.deep_view() == wv,
        decreases w.len(),
    {
        let ghost w0 = w.deep_view();
        let ghost r0 = rest.deep_view();
        let a = w.pop().unwrap();
        assert(w.deep_view() =~= w0.drop_last());
        assert(w0.last() == a.deep_view());
        rest.insert(0, a);
        assert(rest.deep_view() =~= seq![a.deep_view()] + r0);
        assert(w.deep_view() + rest.deep_view() =~= w0.drop_last() + (seq![w0.last()] + r0));
        assert(w0.drop_last() + (seq![w0.last()] + r0) =~= w0 + r0);
    }
    assert(rest.deep_view() =~= wv);
    let mut i: usize = 0;
    while i < rest.len()
        invariant
            i <= rest.len(),
            rest.deep_view() == wv,
            v.deep_view() == v0 + wv.take(i as int),
        decreases rest.len() - i,
    {
        let ghost before = v.deep_view();
        let a = match &rest[i] {
            Action::Fetch { addr } => Action::Fetch { addr: copy_addr(addr) },
            Action::Suppress => Action::Suppress,
            Action::Write { role, addr, op } => Action::Write { role: *role, addr: copy_addr(addr), op: copy_op(op) },
            Action::Patch { file_path, relative_path, kind, content } => Action::Patch {
                file_path: copy_str(file_path),
                relative_path: copy_str(relative_path),
                kind: *kind,
                content: copy_str(content),
            },
            Action::Finish { result } => Action::Finish {
                result: match result {
                    Ok(()) => Ok(()),
                    Err(m) => Err(copy_str(m)),
                },
            },
        };
        assert(a.deep_view() == rest.deep_view()[i as int]);
        push_act(v, a);
        assert(wv.take(i + 1) =~= wv.take(i as int).push(wv[i as int]));
        i += 1;
    }
    assert(wv.take(i as int) =~= wv);
}

fn finish_exec(gc: bool, r: Result<(), String>) -> (a: Action)
    ensures
        a.deep_view() == finish(
            gc,
            match r {
                Ok(()) => Ok(()),
                Err(m) => Err(m@),
            },
        ),
{
    if gc {
        Action::Finish { result: Ok(()) }
    } else {
        Action::Finish { result: r }
    }
}

fn patch_exec(patch: &Option<(String, String, NoteKind)>, pre: &String, ops: &Vec<WriteOp>) -> (acts: Vec<Action>)
    ensures
        acts.deep_view() == patch_acts(
            match patch {
                Some((f, r, k)) => Some((f@, r@, *k)),
                None => None,
            },
            pre@,
            ops_view(ops@),
        ),
{
    let mut acts: Vec<Action> = Vec::new();
    match patch {
        Some((f, r, k)) => {
            let content = content_after_ops(pre.as_str(), ops.as_slice());
            push_act(
                &mut acts,
                Action::Patch { file_path: copy_str(f), relative_path: copy_str(r), kind: *k, content },
            );
        },
        None => {},
    }
    assert(acts.deep_view() =~= patch_acts(
        match patch {
            Some((f, r, k)) => Some((f@, r@, *k)),
            None => None,
        },
        pre@,
        ops_view(ops@),
    ));
    acts
}

fn rank_entry_exec(title: &String, id: &String, expected: &String) -> (r: String)
    ensures
        r@ == rank_entry(title@, id@, expected@),
{
    let mut out = chars_of("- [[");
    crate::dump::put(&mut out, &chars_of_string(title));
    crate::dump::put_str(&mut out, "^");
    crate::dump::put(&mut out, &chars_of_string(id));
    crate::dump::put_str(&mut out, "]] ");
    crate::dump::put(&mut out, &chars_of_string(expected));
    string_of(&out)
}

fn debug_addr_exec(a: &NoteAddr) -> (r: Vec<char>)
    ensures
        r@ == debug_addr(addr_v(*a)),
{
    match a {
        NoteAddr::Filename(f) => {
            let mut out = chars_of("Filename(");
            crate::dump::put(&mut out, &chars_of_string(&crate::mcp::tools::debug_str(f.as_str())));
            crate::dump::put_str(&mut out, ")");
            out
        },
        NoteAddr::Title(t) => {
            let mut out = chars_of("Title(");
            crate::dump::put(&mut out, &chars_of_string(&crate::mcp::tools::debug_str(t.as_str())));
            crate::dump::put_str(&mut out, ")");
            out
        },
    }
}

impl WriteRun {
    /// Starts a run of `job` against the backlog note titled `backlog_title`,
    /// resolved from the cache as `backlog`; the first action fetches it.
    pub fn new(job: Job, backlog: ResolvedNote, backlog_title: String) -> (r: (WriteRun, Vec<Action>))
        ensures
            r.0.wf(),
            r.0.view_of().job == job_v(job),
            r.0.view_of().backlog == backlog.view_of(),
            r.0.view_of().backlog_title == backlog_title@,
            !r.0.gc,
            r.0.stage == Stage::FetchBacklog,
            r.1.deep_view() == seq![ActionV::Fetch { addr: addr_v(backlog.addr) }],
    {
        let first = copy_addr(&backlog.addr);
        let run = WriteRun {
            job,
            backlog_addr: copy_addr(&backlog.addr),
            backlog,
            backlog_title,
            gc: false,
            stage: Stage::FetchBacklog,
            backlog_content: String::new(),
            source_addr: NoteAddr::Title(String::new()),
            source_content: String::new(),
            block_id: String::new(),
            ops: Vec::new(),
            pos: 0,
        };
        let mut acts: Vec<Action> = Vec::new();
        push_act(&mut acts, Action::Fetch { addr: first });
        assert(acts.deep_view() =~= seq![ActionV::Fetch { addr: addr_v(run.backlog.addr) }]);
        (run, acts)
    }

    fn fail_exec(&mut self, m: String) -> (acts: Vec<Action>)
        ensures
            final(self).view_of() == fail(old(self).view_of(), m@).0,
            acts.deep_view() == fail(old(self).view_of(), m@).1,
            old(self).wf() ==> final(self).wf(),
    {
        self.stage = Stage::Done;
        let mut acts: Vec<Action> = Vec::new();
        push_act(&mut acts, finish_exec(self.gc, Err(m)));
        assert(acts.deep_view() =~= fail(old(self).view_of(), m@).1);
        acts
    }

    fn backlog_done_exec(&mut self) -> (acts: Vec<Action>)
        requires
            old(self).wf(),
        ensures
            final(self).view_of() == backlog_done(old(self).view_of()).0,
            acts.deep_view() == backlog_done(old(self).view_of()).1,
            final(self).wf(),
    {
        let ghost s = self.view_of();
        let mut acts: Vec<Action> = Vec::new();
        push_act(&mut acts, Action::Suppress);
        let pa = patch_exec(&self.backlog.patch, &self.backlog_content, &self.ops);
        append_acts(&mut acts, pa);
        assert(acts.deep_view() =~= seq![ActionV::Suppress] + patch_acts(s.backlog.patch, s.backlog_content, s.ops));
        let is_reorder = match &self.job {
            Job::Reorder { .. } => true,
            _ => false,
        };
        if is_reorder && !self.gc {
            self.gc = true;
            self.stage = Stage::FetchBacklog;
            push_act(&mut acts, Action::Fetch { addr: copy_addr(&self.backlog.addr) });
        } else {
            self.stage = Stage::Done;
            push_act(&mut acts, finish_exec(self.gc, Ok(())));
        }
        acts
    }

    fn start_backlog_ops_exec(&mut self, r: Result<Vec<WriteOp>, String>) -> (acts: Vec<Action>)
        requires
            old(self).wf(),
        ensures
            final(self).view_of() == start_backlog_ops(old(self).view_of(), ops_result(r)).0,
            acts.deep_view() == start_backlog_ops(old(self).view_of(), ops_result(r)).1,
            final(self).wf(),
    {
        match r {
            Err(m) => self.fail_exec(m),
            Ok(ops) => {
                let ghost ov = ops_view(ops@);
                if ops.len() == 0 {
                    self.ops = ops;
                    self.pos = 0;
                    self.stage = Stage::Done;
                    self.backlog_done_exec()
                } else {
                    let first = copy_op(&ops[0]);
                    assert(first.deep_view() == ov[0]);
                    self.ops = ops;
                    self.pos = 0;
                    self.stage = Stage::WriteBacklog;
                    let mut acts: Vec<Action> = Vec::new();
                    push_act(&mut acts, Action::Suppress);
                    push_act(&mut acts, Action::Write { role: Role::Backlog, addr: copy_addr(&self.backlog_addr), op: first });
                    acts
                }
            },
        }
    }

    fn source_done_exec(&mut self, r: Result<Vec<WriteOp>, String>) -> (acts: Vec<Action>)
        requires
            old(self).wf(),
            old(self).job is Rank,
        ensures
            final(self).view_of() == source_done(old(self).view_of(), ops_result(r)).0,
            acts.deep_view() == source_done(old(self).view_of(), ops_result(r)).1,
            final(self).wf(),
    {
        let pa = match &self.job {
            Job::Rank { source, .. } => patch_exec(&source.patch, &self.source_content, &self.ops),
            _ => Vec::new(),
        };
        let mut acts = pa;
        let rest = self.start_backlog_ops_exec(r);
        append_acts(&mut acts, rest);
        acts
    }

    /// Plans the backlog-only writes of the run on content `c`.
    fn plan_backlog(&self, c: &String) -> (r: Result<Vec<WriteOp>, String>)
        ensures
            job_plan(self.view_of(), c@, ops_result(r)),
    {
        if self.gc {
            return gc_exec(c.as_str());
        }
        match &self.job {
            Job::Reorder { context, ordered } => reorder_exec(c.as_str(), context.as_str(), ordered),
            Job::Remove { context, block_id } => remove_exec(c.as_str(), context.as_str(), block_id.as_str()),
            Job::Rank { .. } => Err(String::new()),
        }
    }

    fn backlog_fetched_exec(&mut self, addr: NoteAddr, c: String) -> (acts: Vec<Action>)
        requires
            old(self).wf(),
            c@.len() < usize::MAX,
        ensures
            exists|r: Result<Seq<WriteOpV>, Seq<char>>|
                job_plan(old(self).view_of(), c@, r) && final(self).view_of() == backlog_fetched(
                    old(self).view_of(),
                    addr_v(addr),
                    c@,
                    r,
                ).0 && acts.deep_view() == backlog_fetched(old(self).view_of(), addr_v(addr), c@, r).1,
            final(self).wf(),
    {
        let ghost s = self.view_of();
        let r = self.plan_backlog(&c);
        self.backlog_addr = addr;
        self.backlog_content = c;
        let is_rank = match &self.job {
            Job::Rank { .. } => true,
            _ => false,
        };
        if is_rank {
            let src = match &self.job {
                Job::Rank { source, .. } => copy_addr(&source.addr),
                _ => NoteAddr::Title(String::new()),
            };
            let again = copy_addr(&src);
            self.source_addr = src;
            self.stage = Stage::FetchSource;
            let mut acts: Vec<Action> = Vec::new();
            push_act(&mut acts, Action::Fetch { addr: again });
            assert(acts.deep_view() =~= backlog_fetched(s, addr_v(addr), c@, ops_result(r)).1);
            acts
        } else {
            self.start_backlog_ops_exec(r)
        }
    }

    /// Whether `e` answers what the run waits for.
    pub fn expects_event(&self, e: &Event) -> (b: bool)
        ensures
            b == expects(self.stage, event_v(*e)),
    {
        match e {
            Event::Fetched { result } => {
                let fetching = match self.stage {
                    Stage::FetchBacklog | Stage::FetchBacklogByTitle | Stage::FetchSource => true,
                    _ => false,
                };
                fetching && match result {
                    Ok(c) => chars_of_string(c).len() < usize::MAX,
                    Err(_) => true,
                }
            },
            Event::Wrote { .. } => match self.stage {
                Stage::WriteSource | Stage::WriteBacklog => true,
                _ => false,
            },
        }
    }

    /// One step: the app's answer to the last fetch or write comes in, the
    /// run moves on, and the actions to perform next come out.
    pub fn next(&mut self, e: Event) -> (acts: Vec<Action>)
        requires
            old(self).wf(),
            expects(old(self).stage, event_v(e)),
        ensures
            final(self).wf(),
            exists|p: PlanV|
                plan_ok(old(self).view_of(), event_v(e), p) && final(self).view_of() == run_step(
                    old(self).view_of(),
                    event_v(e),
                    p,
                ).0 && acts.deep_view() == run_step(old(self).view_of(), event_v(e), p).1,
    {
        let ghost s = self.view_of();
        let ghost ev = event_v(e);
        let ghost none = PlanV { stamp: Err(Seq::empty()), ops: Err(Seq::empty()) };
        match e {
            Event::Fetched { result } => {
                if self.stage == Stage::FetchSource {
                    match result {
                        Err(m) => {
                            let mut msg = chars_of("could not fetch the task's source note at ");
                            crate::dump::put(&mut msg, &debug_addr_exec(&self.source_addr));
                            crate::dump::put_str(&mut msg, ": ");
                            crate::dump::put(&mut msg, &chars_of_string(&m));
                            crate::dump::put_str(&mut msg, " — the note may have moved since the last scan; rescan and retry");
                            assert(msg@ =~= source_fetch_msg(s.source_addr, m@));
                            let acts = self.fail_exec(string_of(&msg));
                            assert(plan_ok(s, ev, none) && self.view_of() == run_step(s, ev, none).0 && acts.deep_view()
                                == run_step(s, ev, none).1);
                            acts
                        },
                        Ok(c) => {
                            assert(ev == EventV::Fetched(Ok(c@)));
                            self.source_fetched(c)
                        },
                    }
                } else {
                    let by_title = self.stage == Stage::FetchBacklogByTitle;
                    match result {
                        Ok(c) => {
                            let ghost cv = c@;
                            let addr = if by_title {
                                NoteAddr::Title(copy_str(&self.backlog_title))
                            } else {
                                copy_addr(&self.backlog.addr)
                            };
                            let ghost av = addr_v(addr);
                            assert(av == if by_title { (false, s.backlog_title) } else { (s.backlog.addr_is_filename, s.backlog.addr) });
                            let acts = self.backlog_fetched_exec(addr, c);
                            proof {
                                let r = choose|r: Result<Seq<WriteOpV>, Seq<char>>|
                                    job_plan(s, cv, r) && self.view_of() == backlog_fetched(s, av, cv, r).0
                                        && acts.deep_view() == backlog_fetched(s, av, cv, r).1;
                                let p = PlanV { stamp: Err(Seq::empty()), ops: r };
                                assert(plan_ok(s, ev, p) && self.view_of() == run_step(s, ev, p).0 && acts.deep_view()
                                    == run_step(s, ev, p).1);
                            }
                            acts
                        },
                        Err(m) => {
                            let filename = match &self.backlog.addr {
                                NoteAddr::Filename(_) => true,
                                NoteAddr::Title(_) => false,
                            };
                            if !by_title && filename {
                                self.stage = Stage::FetchBacklogByTitle;
                                let mut acts: Vec<Action> = Vec::new();
                                push_act(&mut acts, Action::Fetch { addr: NoteAddr::Title(copy_str(&self.backlog_title)) });
                                assert(acts.deep_view() =~= run_step(s, ev, none).1);
                                assert(plan_ok(s, ev, none) && self.view_of() == run_step(s, ev, none).0);
                                acts
                            } else {
                                let acts = self.fail_exec(m);
                                assert(plan_ok(s, ev, none) && self.view_of() == run_step(s, ev, none).0 && acts.deep_view()
                                    == run_step(s, ev, none).1);
                                acts
                            }
                        },
                    }
                }
            },
            Event::Wrote { result } => {
                if self.stage == Stage::WriteSource {
                    match result {
                        Err(m) => {
                            let acts = self.fail_exec(m);
                            assert(plan_ok(s, ev, none) && self.view_of() == run_step(s, ev, none).0 && acts.deep_view()
                                == run_step(s, ev, none).1);
                            acts
                        },
                        Ok(()) => {
                            assert(ev == EventV::Wrote(Ok(())));
                            self.source_wrote()
                        },
                    }
                } else {
                    match result {
                        Err(m) => {
                            self.stage = Stage::Done;
                            let mut acts: Vec<Action> = Vec::new();
                            push_act(&mut acts, Action::Suppress);
                            push_act(&mut acts, finish_exec(self.gc, Err(m)));
                            assert(acts.deep_view() =~= run_step(s, ev, none).1);
                            assert(plan_ok(s, ev, none) && self.view_of() == run_step(s, ev, none).0);
                            acts
                        },
                        Ok(()) => {
                            if self.pos + 1 < self.ops.len() {
                                self.pos = self.pos + 1;
                                let op = copy_op(&self.ops[self.pos]);
                                assert(op.deep_view() == s.ops[s.pos + 1]);
                                let mut acts: Vec<Action> = Vec::new();
                                push_act(&mut acts, Action::Suppress);
                                push_act(&mut acts, Action::Suppress);
                                push_act(&mut acts, Action::Write { role: Role::Backlog, addr: copy_addr(&self.backlog_addr), op });
                                assert(acts.deep_view() =~= run_step(s, ev, none).1);
                                assert(plan_ok(s, ev, none) && self.view_of() == run_step(s, ev, none).0);
                                acts
                            } else {
                                let mut acts: Vec<Action> = Vec::new();
                                push_act(&mut acts, Action::Suppress);
                                let rest = self.backlog_done_exec();
                                append_acts(&mut acts, rest);
                                assert(acts.deep_view() =~= run_step(s, ev, none).1);
                                assert(plan_ok(s, ev, none) && self.view_of() == run_step(s, ev, none).0);
                                acts
                            }
                        },
                    }
                }
            },
        }
    }

    fn rank_fields(&self) -> (r: (String, String, String, Vec<String>))
        requires
            self.job is Rank,
        ensures
            self.view_of().job matches JobV::Rank { title, expected, context, existing, .. } && r.0@ == title && r.1@
                == expected && r.2@ == context && r.3.deep_view() == existing,
    {
        match &self.job {
            Job::Rank { source_title, expected_text, context, existing, .. } => {
                let mut ex: Vec<String> = Vec::new();
                let mut i: usize = 0;
                while i < existing.len()
                    invariant
                        i <= existing.len(),
                        ex.deep_view() == existing.deep_view().take(i as int),
                    decreases existing.len() - i,
                {
                    let ghost e0 = ex.deep_view();
                    let x = copy_str(&existing[i]);
                    ex.push(x);
                    assert(ex.deep_view() =~= e0.push(x@));
                    assert(existing.deep_view()[i as int] == existing[i as int]@);
                    assert(existing.deep_view().take(i + 1) =~= existing.deep_view().take(i as int).push(existing[i as int]@));
                    i += 1;
                }
                assert(existing.deep_view().take(i as int) =~= existing.deep_view());
                (copy_str(source_title), copy_str(expected_text), copy_str(context), ex)
            },
            _ => {
                assert(false);
                (String::new(), String::new(), String::new(), Vec::new())
            },
        }
    }

    fn source_fetched(&mut self, c: String) -> (acts: Vec<Action>)
        requires
            old(self).wf(),
            old(self).stage == Stage::FetchSource,
            c@.len() < usize::MAX,
        ensures
            final(self).wf(),
            exists|p: PlanV|
                plan_ok(old(self).view_of(), EventV::Fetched(Ok(c@)), p) && final(self).view_of() == run_step(
                    old(self).view_of(),
                    EventV::Fetched(Ok(c@)),
                    p,
                ).0 && acts.deep_view() == run_step(old(self).view_of(), EventV::Fetched(Ok(c@)), p).1,
    {
        let ghost s = self.view_of();
        let ghost ev = EventV::Fetched(Ok(c@));
        let (title, expected, context, existing) = self.rank_fields();
        let st = stamp_exec(c.as_str(), title.as_str(), expected.as_str(), &existing);
        match st {
            Err(m) => {
                let ghost p = PlanV { stamp: Err(m@), ops: Err(Seq::empty()) };
                assert(plan_ok(s, ev, p));
                self.fail_exec(m)
            },
            Ok((id, ops)) => {
                let ghost ov = ops_view(ops@);
                self.source_content = c;
                self.block_id = id;
                if ops.len() == 0 {
                    self.ops = ops;
                    self.pos = 0;
                    let entry = rank_entry_exec(&title, &self.block_id, &expected);
                    let r = append_exec(self.backlog_content.as_str(), context.as_str(), entry.as_str());
                    let ghost p = PlanV { stamp: Ok((self.block_id@, ov)), ops: ops_result(r) };
                    assert(plan_ok(s, ev, p));
                    self.source_done_exec(r)
                } else {
                    let first = copy_op(&ops[0]);
                    assert(first.deep_view() == ov[0]);
                    self.ops = ops;
                    self.pos = 0;
                    self.stage = Stage::WriteSource;
                    let mut acts: Vec<Action> = Vec::new();
                    push_act(&mut acts, Action::Suppress);
                    push_act(&mut acts, Action::Write { role: Role::Source, addr: copy_addr(&self.source_addr), op: first });
                    let ghost p = PlanV { stamp: Ok((self.block_id@, ov)), ops: Err(Seq::empty()) };
                    assert(plan_ok(s, ev, p));
                    assert(acts.deep_view() =~= run_step(s, ev, p).1);
                    acts
                }
            },
        }
    }

    fn source_wrote(&mut self) -> (acts: Vec<Action>)
        requires
            old(self).wf(),
            old(self).stage == Stage::WriteSource,
        ensures
            final(self).wf(),
            exists|p: PlanV|
                plan_ok(old(self).view_of(), EventV::Wrote(Ok(())), p) && final(self).view_of() == run_step(
                    old(self).view_of(),
                    EventV::Wrote(Ok(())),
                    p,
                ).0 && acts.deep_view() == run_step(old(self).view_of(), EventV::Wrote(Ok(())), p).1,
    {
        let ghost s = self.view_of();
        let ghost ev = EventV::Wrote(Ok(()));
        if self.pos + 1 < self.ops.len() {
            let ghost p = PlanV { stamp: Err(Seq::empty()), ops: Err(Seq::empty()) };
            self.pos = self.pos + 1;
            let op = copy_op(&self.ops[self.pos]);
            assert(op.deep_view() == s.ops[s.pos + 1]);
            let mut acts: Vec<Action> = Vec::new();
            push_act(&mut acts, Action::Suppress);
            push_act(&mut acts, Action::Suppress);
            push_act(&mut acts, Action::Write { role: Role::Source, addr: copy_addr(&self.source_addr), op });
            assert(plan_ok(s, ev, p));
            assert(acts.deep_view() =~= run_step(s, ev, p).1);
            acts
        } else {
            let (title, expected, context, _existing) = self.rank_fields();
            let entry = rank_entry_exec(&title, &self.block_id, &expected);
            let r = append_exec(self.backlog_content.as_str(), context.as_str(), entry.as_str());
            let ghost p = PlanV { stamp: Err(Seq::empty()), ops: ops_result(r) };
            let mut acts: Vec<Action> = Vec::new();
            push_act(&mut acts, Action::Suppress);
            let rest = self.source_done_exec(r);
            append_acts(&mut acts, rest);
            assert(plan_ok(s, ev, p));
            assert(acts.deep_view() =~= run_step(s, ev, p).1);
            acts
        }
    }
}

// ─── Laws of the protocol ───────────────────────────────────────────────────

/// While content-note writes are pending, each is a block-ID stamp.
pub open spec fn stamps_only(s: RunV) -> bool {
    s.stage == Stage::WriteSource ==> forall|k: int| 0 <= k < s.ops.len() ==> #[trigger] s.ops[k] is AppendBlockId
}

pub open spec fn writes_source_only_stamps(acts: Seq<ActionV>) -> bool {
    forall|k: int|
        0 <= k < acts.len() ==> (#[trigger] acts[k] matches ActionV::Write { role: Role::Source, op, .. }
            ==> op is AppendBlockId)
}

proof fn lemma_stamp_ops(c: Seq<char>, title: Seq<char>, e: Seq<char>, ex: Seq<Seq<char>>, id: Seq<char>, ops: Seq<WriteOpV>)
    requires
        stamp_plan(c, title, e, ex, Ok((id, ops))),
    ensures
        ops.len() <= 1,
        forall|k: int| 0 <= k < ops.len() ==> #[trigger] ops[k] is AppendBlockId,
{
    let ls = lines(c);
    let i = choose|i: int| #![trigger ls[i]] only_match(ls, e, i) && match clean(ls[i]).2 {
        Some(old_id) => id == old_id && ops.len() == 0,
        None => exists|s: u64|
            first_free(stamp_seed(title, e), s, ex) && id == candidate_id(stamp_seed(title, e), s) && ops.len() == 1
                && ops[0] == (WriteOpV::AppendBlockId {
                line: (i + 1) as usize,
                new_line_text: stamped_line(ls[i], id),
                block_id: id,
            }),
    };
    assert forall|k: int| 0 <= k < ops.len() implies #[trigger] ops[k] is AppendBlockId by {
        assert(k == 0);
    }
}

pub open spec fn no_source_write(acts: Seq<ActionV>) -> bool {
    forall|k: int| 0 <= k < acts.len() ==> !(#[trigger] acts[k] matches ActionV::Write { role: Role::Source, .. })
}

proof fn lemma_no_source_concat(a: Seq<ActionV>, b: Seq<ActionV>)
    requires
        no_source_write(a),
        no_source_write(b),
    ensures
        no_source_write(a + b),
{
    assert forall|k: int| 0 <= k < (a + b).len() implies !(#[trigger] (a + b)[k] matches ActionV::Write { role: Role::Source, .. }) by {
        if k < a.len() {
            assert((a + b)[k] == a[k]);
        } else {
            assert((a + b)[k] == b[k - a.len()]);
        }
    }
}

proof fn lemma_backlog_done_no_source(s: RunV)
    ensures
        no_source_write(backlog_done(s).1),
{
    let acts = seq![ActionV::Suppress] + patch_acts(s.backlog.patch, s.backlog_content, s.ops);
    lemma_no_source_concat(seq![ActionV::Suppress], patch_acts(s.backlog.patch, s.backlog_content, s.ops));
    assert(no_source_write(acts.push(finish(s.gc, Ok(())))));
    assert(no_source_write(acts.push(ActionV::Fetch { addr: (s.backlog.addr_is_filename, s.backlog.addr) })));
}

proof fn lemma_backlog_steps_no_source(s: RunV, r: Result<Seq<WriteOpV>, Seq<char>>)
    ensures
        no_source_write(backlog_done(s).1),
        no_source_write(start_backlog_ops(s, r).1),
        no_source_write(source_done(s, r).1),
{
    lemma_backlog_done_no_source(s);
    if let Ok(ops) = r {
        if ops.len() == 0 {
            lemma_backlog_done_no_source(RunV { ops: ops, pos: 0, ..s });
        }
    }
    let pa = match s.job {
        JobV::Rank { source, .. } => patch_acts(source.patch, s.source_content, s.ops),
        _ => Seq::empty(),
    };
    lemma_no_source_concat(pa, start_backlog_ops(s, r).1);
}

/// The content note is only ever appended to: every write a step asks of
/// the task's note is a block-ID stamp.
pub proof fn lemma_content_note_append_only(s: RunV, e: EventV, p: PlanV)
    requires
        plan_ok(s, e, p),
        stamps_only(s),
        s.stage == Stage::FetchSource || s.stage == Stage::WriteSource ==> s.job is Rank,
        0 <= s.pos,
    ensures
        writes_source_only_stamps(run_step(s, e, p).1),
        stamps_only(run_step(s, e, p).0),
{
    let r = run_step(s, e, p);
    lemma_backlog_steps_no_source(s, p.ops);
    match s.stage {
        Stage::FetchBacklog | Stage::FetchBacklogByTitle => {
            if let EventV::Fetched(Ok(c)) = e {
                let addr = if s.stage == Stage::FetchBacklog { (s.backlog.addr_is_filename, s.backlog.addr) } else { (false, s.backlog_title) };
                lemma_backlog_steps_no_source(RunV { backlog_addr: addr, backlog_content: c, ..s }, p.ops);
            }
            assert(no_source_write(r.1));
        },
        Stage::FetchSource => {
            if let EventV::Fetched(Ok(c)) = e {
                if let Ok((id, ops)) = p.stamp {
                    if let JobV::Rank { title, expected, existing, .. } = s.job {
                        lemma_stamp_ops(c, title, expected, existing, id, ops);
                    }
                    let s1 = RunV { source_content: c, block_id: id, ops: ops, pos: 0, ..s };
                    lemma_backlog_steps_no_source(s1, p.ops);
                    if ops.len() > 0 {
                        assert(ops[0] is AppendBlockId);
                    }
                } else {
                    assert(no_source_write(r.1));
                }
            } else {
                assert(no_source_write(r.1));
            }
        },
        Stage::WriteSource => {
            if let EventV::Wrote(Ok(())) = e {
                if s.pos + 1 < s.ops.len() {
                    assert(s.ops[s.pos + 1] is AppendBlockId);
                } else {
                    lemma_no_source_concat(seq![ActionV::Suppress], source_done(s, p.ops).1);
                }
            } else {
                assert(no_source_write(r.1));
            }
        },
        Stage::WriteBacklog => {
            if let EventV::Wrote(Ok(())) = e {
                if s.pos + 1 >= s.ops.len() {
                    lemma_no_source_concat(seq![ActionV::Suppress], backlog_done(s).1);
                }
            }
            assert(no_source_write(r.1));
        },
        Stage::Done => {},
    }
}

/// A failed write ends the run: nothing more is written or patched, and
/// the last action answers.
pub proof fn lemma_failed_write_stops(s: RunV, m: Seq<char>, p: PlanV)
    requires
        s.stage == Stage::WriteSource || s.stage == Stage::WriteBacklog,
    ensures
        ({
            let r = run_step(s, EventV::Wrote(Err(m)), p);
            &&& r.0.stage == Stage::Done
            &&& r.1.len() > 0 && r.1.last() is Finish
            &&& forall|k: int| 0 <= k < r.1.len() ==> !(#[trigger] r.1[k] is Write) && !(r.1[k] is Patch)
        }),
{
}

/// A failed fetch writes and patches nothing.
pub proof fn lemma_failed_fetch_writes_nothing(s: RunV, m: Seq<char>, p: PlanV)
    ensures
        ({
            let r = run_step(s, EventV::Fetched(Err(m)), p);
            forall|k: int| 0 <= k < r.1.len() ==> !(#[trigger] r.1[k] is Write) && !(r.1[k] is Patch)
        }),
{
}

/// Every write is asked for right after the suppression window is
/// extended.
pub proof fn lemma_writes_follow_suppression(s: RunV, e: EventV, p: PlanV)
    ensures
        ({
            let acts = run_step(s, e, p).1;
            forall|k: int| 0 <= k < acts.len() && #[trigger] acts[k] is Write ==> k > 0 && acts[k - 1] is Suppress
        }),
{
    let acts = run_step(s, e, p).1;
    assert forall|k: int| 0 <= k < acts.len() && #[trigger] acts[k] is Write implies k > 0 && acts[k - 1] is Suppress by {
    }
}

/// The tombstone collection after a reorder never fails the command: every
/// answer it gives is `Ok`.
pub proof fn lemma_collection_never_fails_the_reorder(s: RunV, e: EventV, p: PlanV)
    requires
        s.gc,
    ensures
        ({
            let acts = run_step(s, e, p).1;
            forall|k: int| 0 <= k < acts.len() ==> (#[trigger] acts[k] matches ActionV::Finish { result } ==> result is Ok)
        }),
{
    let acts = run_step(s, e, p).1;
    assert forall|k: int| 0 <= k < acts.len() implies (#[trigger] acts[k] matches ActionV::Finish { result } ==> result is Ok) by {
    }
}

} // verus!
