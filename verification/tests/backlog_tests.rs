use chrono::{Datelike, NaiveDate};
use noteplan_organizer::models::{BacklogContext, Note, NoteKind};
use noteplan_organizer::parser::backlog::{
    build_backlog, calendar_task_in_context, folder_depth, parse_backlog_control,
    project_for_path, BacklogOptions,
};
use noteplan_organizer::parser::markdown::parse_note;
use noteplan_organizer::parser::NoteStore;

fn store(notes: Vec<Note>) -> NoteStore {
    NoteStore::new(notes)
}

fn test_opts() -> BacklogOptions {
    BacklogOptions {
        include_older_dailies: false,
        today: NaiveDate::from_ymd_opt(2026, 7, 5).unwrap().num_days_from_ce(),
    }
}

fn projects_note() -> Note {
    parse_note(
        "/p.md",
        "Notes/_NotePlan Organizer/Projects.md",
        "# P #np-projects\n## Work\n1. [[32 - Product Ownership]]\n",
        NoteKind::Regular,
    )
}

#[test]
fn test_ranked_and_pool() {
    let backlog_note = parse_note(
        "/b.md",
        "Notes/_NotePlan Organizer/Backlog.md",
        "# Backlog #np-backlog\n## Work\n1. [[32.01 Janet^a1b2c3]] Ship v2 spec\n",
        NoteKind::Regular,
    );
    let work_note = parse_note(
        "/w.md",
        "Notes/32 - Product Ownership/32.01 - Janet.md",
        "# Janet\n* Ship v2 spec !! #v2 ^a1b2c3\n* Email Palwasha !\n",
        NoteKind::Regular,
    );
    let st = store(vec![projects_note(), backlog_note, work_note]);

    let b = build_backlog(&st, &test_opts());
    assert_eq!(b.control_note_title.as_deref(), Some("Backlog"));
    let ctx = &b.contexts[0];
    assert_eq!(ctx.name, "Work");
    assert_eq!(ctx.ranked.len(), 1);
    assert!(ctx.ranked[0].resolved);
    assert_eq!(ctx.ranked[0].text, "Ship v2 spec #v2");
    assert_eq!(ctx.ranked[0].block_id, "a1b2c3");
    // Pool holds the other open task, excludes the already-ranked one.
    assert_eq!(ctx.pool.len(), 1);
    assert_eq!(ctx.pool[0].text, "Email Palwasha");
    assert_eq!(ctx.ranked[0].tags, vec!["v2".to_string()]);
    assert_eq!(
        ctx.ranked[0].project_title.as_deref(),
        Some("32 - Product Ownership")
    );
    assert_eq!(ctx.ranked[0].project_rank, Some(1));
    assert!(ctx.ranked[0].calendar_kind.is_none());
    assert_eq!(ctx.pool[0].project_rank, Some(1));
}

#[test]
fn test_stale_entry_marked_unresolved() {
    let backlog_note = parse_note(
        "/b.md",
        "Notes/_NotePlan Organizer/Backlog.md",
        "# Backlog #np-backlog\n## Work\n1. [[Gone^deadid1]] old\n",
        NoteKind::Regular,
    );
    let st = store(vec![projects_note(), backlog_note]);
    let b = build_backlog(&st, &test_opts());
    assert_eq!(b.contexts[0].ranked.len(), 1);
    let r = &b.contexts[0].ranked[0];
    assert!(!r.resolved);
    // 6tn: the preserved on-disk line still carries the original display text
    // and link title even though the block id no longer resolves.
    assert_eq!(r.text, "old");
    assert_eq!(r.source_note_title, "Gone");
    assert!(r.source_relative_path.is_empty());
    assert!(!r.is_ghost);
}

#[test]
fn test_unresolved_entry_preserves_text_and_title() {
    // A #np-backlog ranked entry whose block id matches NO live task: the
    // reader must surface the preserved link title + trailing text (6tn), not
    // a blank stale row, and leave the source path empty (the source is gone).
    let backlog_note = parse_note(
        "/b.md",
        "Notes/_NotePlan Organizer/Backlog.md",
        "# Backlog #np-backlog\n## Work\n1. [[Ship the thing^lostid]] finalize the deck\n",
        NoteKind::Regular,
    );
    let st = store(vec![projects_note(), backlog_note]);
    let b = build_backlog(&st, &test_opts());
    let ranked = &b.contexts[0].ranked;
    assert_eq!(ranked.len(), 1);
    assert!(!ranked[0].resolved);
    assert_eq!(ranked[0].block_id, "lostid");
    assert_eq!(ranked[0].text, "finalize the deck");
    assert_eq!(ranked[0].source_note_title, "Ship the thing");
    assert!(ranked[0].source_relative_path.is_empty());
}

#[test]
fn test_ranked_calendar_scheduled_task_marked_ghost() {
    // bqo: a ranked entry resolving to a calendar `[>]` (Scheduled) task is a
    // reschedule move-ghost — resolved stays true (the id resolves) but ghost
    // is set so the UI can mute it. A ranked Regular-note Scheduled task is NOT
    // a ghost (genuinely scheduled work).
    let backlog_note = parse_note(
        "/b.md",
        "Notes/_NotePlan Organizer/Backlog.md",
        "# Backlog #np-backlog\n## Work\n1. [[Day^ghst01]] Fix grill\n2. [[Janet^schd01]] \
         Ship\n",
        NoteKind::Regular,
    );
    let daily = parse_note(
        "/d.md",
        "Calendar/20260703.md",
        "# Day\n* [>] Fix grill >2026-07-05 ^ghst01\n",
        NoteKind::Daily,
    );
    let work_note = parse_note(
        "/w.md",
        "Notes/32 - Product Ownership/32.01 - Janet.md",
        "# Janet\n* [>] Ship v2 spec >2026-08-01 ^schd01\n",
        NoteKind::Regular,
    );
    let st = store(vec![projects_note(), backlog_note, daily, work_note]);
    let b = build_backlog(&st, &test_opts());
    let ranked = &b.contexts[0].ranked;
    let ghost = ranked.iter().find(|r| r.block_id == "ghst01").unwrap();
    assert!(
        ghost.resolved && ghost.is_ghost,
        "calendar [>] must be a ghost"
    );
    let scheduled = ranked.iter().find(|r| r.block_id == "schd01").unwrap();
    assert!(
        scheduled.resolved && !scheduled.is_ghost,
        "project-note [>] is genuinely scheduled, not a ghost"
    );
}

#[test]
fn test_no_backlog_note() {
    // No #np-backlog note: title stays None, but contexts still come from
    // #np-projects alone (union with an empty backlog control), each with
    // an empty ranked list.
    let st = store(vec![projects_note()]);
    let b = build_backlog(&st, &test_opts());
    assert_eq!(b.control_note_title, None);
    assert!(b.warnings.is_empty());
    assert_eq!(b.contexts.len(), 1);
    assert_eq!(b.contexts[0].name, "Work");
    assert!(b.contexts[0].ranked.is_empty());
}

#[test]
fn test_projects_only_vault_still_gets_contexts() {
    // No #np-backlog note at all: contexts come from #np-projects alone,
    // with empty ranked lists and a working pool.
    let projects_note = parse_note(
        "/p.md",
        "Notes/_NotePlan Organizer/Projects.md",
        "# P #np-projects\n## Work\n1. [[32 - Product Ownership]]\n",
        NoteKind::Regular,
    );
    let work_note = parse_note(
        "/w.md",
        "Notes/32 - Product Ownership/32.01 - Janet.md",
        "# Janet\n* Email Palwasha !\n",
        NoteKind::Regular,
    );
    let st = store(vec![projects_note, work_note]);
    let b = build_backlog(&st, &test_opts());
    assert_eq!(b.control_note_title, None);
    assert_eq!(b.contexts.len(), 1);
    assert_eq!(b.contexts[0].name, "Work");
    assert!(b.contexts[0].ranked.is_empty());
    assert_eq!(b.contexts[0].pool.len(), 1);
}

#[test]
fn test_prose_block_ref_is_not_a_ranked_entry() {
    // A prose line that merely mentions [[Note^id]] must NOT be counted as a
    // ranked entry — only list items are (matching the writer's grammar).
    let backlog_note = parse_note(
        "/b.md",
        "Notes/_NotePlan Organizer/Backlog.md",
        "# Backlog #np-backlog\n## Work\nsee [[Note^abc123]] for context\n- [[Janet^d4e5f6]] \
         Ship\n",
        NoteKind::Regular,
    );
    let st = store(vec![projects_note(), backlog_note]);
    let b = build_backlog(&st, &test_opts());
    let ranked = &b.contexts[0].ranked;
    assert_eq!(ranked.len(), 1, "only the list item counts, not the prose");
    assert_eq!(ranked[0].block_id, "d4e5f6");
}

#[test]
fn test_tombstoned_entry_ignored_by_reader() {
    // The remove path overwrites a ranked line in place with a tombstone
    // marker (`<!-- np-backlog: removed -->`) instead of deleting it. The
    // reader must ignore both that marker AND a bare blank line: neither
    // ENTRY_RE (needs a list-leader + [[…^id]]) nor HEADING_RE (needs ##)
    // matches either, so survivors keep their order and the tombstone never
    // ranks. (The `<!-- … -->` has no `#`, so it also can't be miscounted as
    // the #np-backlog ownership tag.)
    let backlog_note = parse_note(
        "/b.md",
        "Notes/_NotePlan Organizer/Backlog.md",
        "# Backlog #np-backlog\n## Work\n1. [[A^aaaa11]] x\n<!-- np-backlog: removed \
         -->\n\n1. [[C^cccc33]] z\n",
        NoteKind::Regular,
    );
    let st = store(vec![projects_note(), backlog_note]);
    let b = build_backlog(&st, &test_opts());
    let ids: Vec<&str> = b.contexts[0]
        .ranked
        .iter()
        .map(|r| r.block_id.as_str())
        .collect();
    assert_eq!(ids, vec!["aaaa11", "cccc33"]);
}

#[test]
fn test_entry_id_is_first_ref_when_text_embeds_another() {
    // The entry's anchor is the FIRST [[…^id]]; a second block-ref embedded in
    // the entry text must not be mistaken for the id (must match the writer's
    // leftmost capture, else reorder/remove would break).
    let backlog_note = parse_note(
        "/b.md",
        "Notes/_NotePlan Organizer/Backlog.md",
        "# Backlog #np-backlog\n## Work\n- [[Src^newid1]] Follow up on [[Meeting^ab12cd]] \
         notes\n",
        NoteKind::Regular,
    );
    let st = store(vec![projects_note(), backlog_note]);
    let b = build_backlog(&st, &test_opts());
    assert_eq!(b.contexts[0].ranked[0].block_id, "newid1");
}

#[test]
fn test_context_union_includes_project_only_contexts() {
    // #np-backlog has only Work; #np-projects has Work AND Home.
    let projects_note = parse_note(
        "/p.md",
        "Notes/_NotePlan Organizer/Projects.md",
        "# P #np-projects\n## Work\n1. [[32 - Product Ownership]]\n## Home\n1. [[21 - Home \
         Reno]]\n",
        NoteKind::Regular,
    );
    let backlog_note = parse_note(
        "/b.md",
        "Notes/_NotePlan Organizer/Backlog.md",
        "# Backlog #np-backlog\n## Work\n",
        NoteKind::Regular,
    );
    let st = store(vec![projects_note, backlog_note]);
    let b = build_backlog(&st, &test_opts());
    let names: Vec<&str> = b.contexts.iter().map(|c| c.name.as_str()).collect();
    assert_eq!(names, vec!["Work", "Home"]);
    assert!(b.contexts[1].ranked.is_empty());
}

#[test]
fn test_multiple_projects_control_notes_surface_warning() {
    // Two notes carry #np-projects: parse_project_control picks one
    // deterministically, but the ambiguity warning must still reach
    // Backlog.warnings (previously only #np-backlog's own warnings were
    // surfaced; the #np-projects side was silently dropped).
    let projects_a = parse_note(
        "/pa.md",
        "Notes/_NotePlan Organizer/Projects A.md",
        "# PA #np-projects\n## Work\n1. [[32 - Product Ownership]]\n",
        NoteKind::Regular,
    );
    let projects_b = parse_note(
        "/pb.md",
        "Notes/_NotePlan Organizer/Projects B.md",
        "# PB #np-projects\n## Work\n1. [[32 - Product Ownership]]\n",
        NoteKind::Regular,
    );
    let st = store(vec![projects_a, projects_b]);
    let b = build_backlog(&st, &test_opts());
    assert!(
        b.warnings.iter().any(|w| w.contains("np-projects")),
        "expected a #np-projects ambiguity warning, got {:?}",
        b.warnings
    );
}

#[test]
fn test_jd_collision_warning_reaches_backlog() {
    // A JD-prefixed ref that resolves among two JD-colliding folders (no
    // exact match) must surface its resolver warning in Backlog.warnings.
    let projects_note = parse_note(
        "/p.md",
        "Notes/_NotePlan Organizer/Projects.md",
        "# P #np-projects\n## Work\n1. [[12 - Alpha]]\n",
        NoteKind::Regular,
    );
    let a = parse_note(
        "/a.md",
        "Notes/12 - Alpha Project/a.md",
        "# A\n* x\n",
        NoteKind::Regular,
    );
    let b = parse_note(
        "/b.md",
        "Notes/12 - Alpha Archive/b.md",
        "# B\n* y\n",
        NoteKind::Regular,
    );
    let st = store(vec![projects_note, a, b]);
    let bk = build_backlog(&st, &test_opts());
    assert!(
        bk.warnings.iter().any(|w| w.contains("sharing JD id")),
        "expected the JD-collision warning in Backlog.warnings, got {:?}",
        bk.warnings
    );
}

#[test]
fn jd_collision_warning_names_chosen_folder() {
    let projects_note = parse_note(
        "/p.md",
        "Notes/_NotePlan Organizer/Projects.md",
        "# P #np-projects\n## Work\n1. [[12 - Alpha]]\n",
        NoteKind::Regular,
    );
    let a = parse_note("/a.md", "Notes/12 - Alpha Project/a.md", "# A\n* x\n", NoteKind::Regular);
    let b = parse_note("/b.md", "Notes/12 - Alpha Archive/b.md", "# B\n* y\n", NoteKind::Regular);
    let st = store(vec![projects_note, a, b]);
    let bk = build_backlog(&st, &test_opts());
    let w: Vec<&String> = bk.warnings.iter().filter(|w| w.contains("sharing JD id")).collect();
    assert_eq!(w.len(), 1);
    assert!(w[0].starts_with("Project reference [[12 - Alpha]] matches several folders sharing JD id 12; using Notes/12 - Alpha "));
}

#[test]
fn exact_folder_match_gives_no_collision_warning() {
    let projects_note = parse_note(
        "/p.md",
        "Notes/_NotePlan Organizer/Projects.md",
        "# P #np-projects\n## Work\n1. [[12 - Alpha Project]]\n",
        NoteKind::Regular,
    );
    let a = parse_note("/a.md", "Notes/12 - Alpha Project/a.md", "# A\n* x\n", NoteKind::Regular);
    let b = parse_note("/b.md", "Notes/12 - Alpha Archive/b.md", "# B\n* y\n", NoteKind::Regular);
    let st = store(vec![projects_note, a, b]);
    let bk = build_backlog(&st, &test_opts());
    assert!(!bk.warnings.iter().any(|w| w.contains("sharing JD id")));
}

#[test]
fn test_backlog_control_dir_note_wins_over_stray_sorting_earlier() {
    // A stray note tagged #np-backlog under @Archive sorts BEFORE the real
    // control note by relative_path, yet the CONTROL_DIR note must win — same
    // guarantee as #np-projects selection.
    let stray = parse_note(
        "/s.md",
        "Notes/@Archive/old.md",
        "# Old Backlog #np-backlog\n## Stale\n1. [[Ghost^dead111]]\n",
        NoteKind::Regular,
    );
    let real = parse_note(
        "/r.md",
        "Notes/_NotePlan Organizer/Backlog.md",
        "# Real Backlog #np-backlog\n## Work\n1. [[Janet^a1b2c3]]\n",
        NoteKind::Regular,
    );
    // stray first in scan order to prove CONTROL_DIR, not order, decides.
    let st = store(vec![stray, real]);
    let ctrl = parse_backlog_control(&st).expect("backlog control found");
    assert_eq!(ctrl.note_title, "Real Backlog");
    assert_eq!(ctrl.contexts[0].0, "Work");
    assert_eq!(ctrl.contexts[0].1[0].block_id, "a1b2c3");
    assert_eq!(ctrl.warnings.len(), 1);
}

#[test]
fn test_calendar_task_in_context_predicate() {
    let claimed: Vec<String> = ["work", "home"].iter().map(|s| s.to_string()).collect();
    // Legacy: context declares no tags → always include.
    assert!(calendar_task_in_context(&["home".into()], &[], &claimed));
    // Untagged calendar task → universal.
    assert!(calendar_task_in_context(&[], &["work".into()], &claimed));
    // Task tag matches this context.
    assert!(calendar_task_in_context(
        &["work".into()],
        &["work".into()],
        &claimed
    ));
    // Orphan tag (claimed by nobody) → universal.
    assert!(calendar_task_in_context(
        &["travel".into()],
        &["work".into()],
        &claimed
    ));
    // Case-insensitive match.
    assert!(calendar_task_in_context(
        &["Work".into()],
        &["work".into()],
        &claimed
    ));
    // Excluded: tag claimed by ANOTHER context, not this one.
    assert!(!calendar_task_in_context(
        &["home".into()],
        &["work".into()],
        &claimed
    ));
    // Hierarchical: #work/deck is scoped by declared #work.
    assert!(calendar_task_in_context(
        &["work/deck".into()],
        &["work".into()],
        &claimed
    ));
    // Hierarchical claim by another context excludes: #home/chores out of Work.
    assert!(!calendar_task_in_context(
        &["home/chores".into()],
        &["work".into()],
        &claimed
    ));
    // A lookalike (#workshop) is NOT a child of #work, so it stays an orphan
    // and remains universal — shows even under a Home-only context.
    assert!(calendar_task_in_context(
        &["workshop".into()],
        &["home".into()],
        &claimed
    ));
}

#[test]
fn test_tagged_calendar_task_scoped_to_context() {
    let projects = parse_note(
        "/p.md",
        "Notes/_NotePlan Organizer/Projects.md",
        "# P #np-projects\n## Work\n- #work\n1. [[32 - Product Ownership]]\n## Home\n- \
         #home\n1. [[21 - Home Reno]]\n",
        NoteKind::Regular,
    );
    let daily = parse_note(
        "/d.md",
        "Calendar/20260705.md",
        "# Day\n* Buy paint #home ^calx01\n* Prep deck #work ^caly01\n* Untagged chore \
         ^calz01\n",
        NoteKind::Daily,
    );
    let st = store(vec![projects, daily]);
    let b = build_backlog(&st, &test_opts());
    let work = b.contexts.iter().find(|c| c.name == "Work").unwrap();
    let home = b.contexts.iter().find(|c| c.name == "Home").unwrap();
    let has =
        |c: &BacklogContext, id: &str| c.pool.iter().any(|t| t.block_id.as_deref() == Some(id));
    // #work task in Work only; #home task in Home only; untagged in both.
    assert!(has(work, "caly01") && !has(work, "calx01") && has(work, "calz01"));
    assert!(has(home, "calx01") && !has(home, "caly01") && has(home, "calz01"));
}

#[test]
fn test_calendar_ghost_dropped_but_project_scheduled_kept() {
    // A daily note carrying a reschedule chain: `[>]` ghost hop (^ghost1) plus
    // the live `Open` tail (^live01). Only the live task should reach the pool.
    // A Regular PROJECT note's `[>]` Scheduled task is genuinely scheduled work,
    // not a calendar move-ghost, so it must still be harvested.
    let daily = parse_note(
        "/d.md",
        "Calendar/20260703.md",
        "# Day\n* [>] Fix the grill >2026-07-05 ^ghost1\n* Fix the grill <2026-07-03 ^live01\n",
        NoteKind::Daily,
    );
    let work_note = parse_note(
        "/w.md",
        "Notes/32 - Product Ownership/32.01 - Janet.md",
        "# Janet\n* [>] Ship v2 spec >2026-08-01 ^schd01\n",
        NoteKind::Regular,
    );
    let st = store(vec![projects_note(), daily, work_note]);
    let b = build_backlog(&st, &test_opts());
    let work = b.contexts.iter().find(|c| c.name == "Work").unwrap();
    let ids: Vec<&str> = work
        .pool
        .iter()
        .filter_map(|t| t.block_id.as_deref())
        .collect();
    assert!(ids.contains(&"live01"), "live reschedule tail missing");
    assert!(!ids.contains(&"ghost1"), "reschedule ghost leaked in");
    assert!(
        ids.contains(&"schd01"),
        "project-note scheduled task must be kept"
    );
}

// Regression guard for noteplan-organizer-v2i (validated not-a-bug 2026-07-13):
// NotePlan forward-scheduling leaves a greyed `[>]` ghost in the ORIGIN daily
// AND materializes a fresh Open copy in the TARGET (future) daily note. The
// origin ghost is correctly dropped as a move-ghost, but the Open copy — living
// in a SEPARATE future daily — must still be harvested. This is the exact case
// v2i feared would vanish: the daily window passes all future dates
// (`daily_within_window`: today - future < 0 <= 30), and the scan reads every
// Calendar/ file, so the forward-scheduled task never disappears from the pool.
// (The neighboring ghost-dropped test only covers ghost+live in the SAME note.)
#[test]
fn test_forward_scheduled_open_copy_in_future_daily_is_harvested() {
    let origin = parse_note(
        "/o.md",
        "Calendar/20260703.md", // 2 days before test today (2026-07-05): in-window
        "# Day\n* [>] Ship the thing >2026-08-01 ^orig01\n",
        NoteKind::Daily,
    );
    let target = parse_note(
        "/t.md",
        "Calendar/20260801.md", // future: in-window (future dailies always pass)
        "# Day\n* Ship the thing ^live01\n",
        NoteKind::Daily,
    );
    let st = store(vec![projects_note(), origin, target]);
    let b = build_backlog(&st, &test_opts());
    let work = b.contexts.iter().find(|c| c.name == "Work").unwrap();
    let ids: Vec<&str> = work
        .pool
        .iter()
        .filter_map(|t| t.block_id.as_deref())
        .collect();
    assert!(
        ids.contains(&"live01"),
        "future-daily Open copy of a forward-scheduled task must be harvested (v2i)"
    );
    assert!(
        !ids.contains(&"orig01"),
        "origin reschedule ghost must be dropped"
    );
}

#[test]
fn test_folder_depth_counts_segments() {
    assert_eq!(folder_depth("Notes"), 1);
    assert_eq!(folder_depth("Notes/32 - X"), 2);
    assert_eq!(folder_depth("Notes/32 - X/32.01 - Y"), 3);
}

#[test]
fn test_project_for_path_picks_most_specific_nested_folder() {
    // A project folder nested inside another resolved project's folder
    // must attribute to its OWN project (longest matching prefix), not
    // whichever ancestor happens to appear first in the control note.
    let outer = (
        "32 - Product Ownership".to_string(),
        1u32,
        "Outer".to_string(),
    );
    let inner = (
        "32 - Product Ownership/32.01 - Nested".to_string(),
        2u32,
        "Inner".to_string(),
    );
    let projects = vec![outer.clone(), inner.clone()];
    let hit = project_for_path(&projects, "32 - Product Ownership/32.01 - Nested/task.md");
    assert_eq!(hit.map(|(_, _, title)| title.as_str()), Some("Inner"));
    // A path only under the outer folder still resolves to the outer project.
    let outer_hit = project_for_path(&projects, "32 - Product Ownership/task.md");
    assert_eq!(outer_hit.map(|(_, _, title)| title.as_str()), Some("Outer"));
}
