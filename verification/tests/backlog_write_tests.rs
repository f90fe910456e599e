use noteplan_organizer::backlog_write::{
    generate_block_id, locate_unique_task_line, plan_append_entry, plan_gc_tombstones,
    plan_remove, plan_reorder, plan_stamp_block_id, verify_all_tombstones, WriteOp, TOMBSTONE,
};

fn empty() -> Vec<String> {
    Vec::new()
}

#[test]
fn test_generate_block_id_unique_and_stable() {
    let id1 = generate_block_id("seed-a", &empty());
    assert_eq!(id1.len(), 6);
    assert!(id1.chars().all(|c| c.is_ascii_alphanumeric()));
    // Collision avoidance: same seed but id already taken -> different id.
    let mut taken: Vec<String> = Vec::new();
    taken.push(id1.clone());
    let id2 = generate_block_id("seed-a", &taken);
    assert_ne!(id1, id2);
}

#[test]
fn test_stamp_plans_append_only() {
    let content = "# Janet\n* Ship v2 spec !!\n";
    let (id, ops) = plan_stamp_block_id(content, "Janet", "Ship v2 spec", &empty()).unwrap();
    assert_eq!(ops.len(), 1);
    match &ops[0] {
        WriteOp::AppendBlockId {
            line,
            new_line_text,
            block_id,
        } => {
            assert_eq!(*line, 2, "located line of the task");
            assert_eq!(block_id, &id);
            // Strictly additive: the exact source line + " ^id".
            assert_eq!(new_line_text, &format!("* Ship v2 spec !! ^{}", id));
        }
        other => panic!("expected AppendBlockId, got {:?}", other),
    }
    // SAFETY: the only content-note op is an append.
    assert!(ops
        .iter()
        .all(|op| !op.touches_content_note() || matches!(op, WriteOp::AppendBlockId { .. })));
}

#[test]
fn test_stamp_aborts_when_task_absent() {
    // No line matches the expected cleaned text -> locate returns 0 -> abort.
    let content = "# Janet\n* A totally different task\n";
    let err = plan_stamp_block_id(content, "Janet", "Ship v2 spec", &empty());
    assert!(err.is_err(), "must abort when the task is not found");
}

#[test]
fn test_stamp_aborts_when_note_empty() {
    let content = "# Janet\n";
    assert!(plan_stamp_block_id(content, "Janet", "x", &empty()).is_err());
}

#[test]
fn test_stamp_aborts_when_ambiguous() {
    // Two lines clean to the same text -> locate returns >1 -> abort (never
    // guess which identical task to stamp).
    let content = "# Janet\n* Ship v2 spec !!\n* Ship v2 spec\n";
    assert!(plan_stamp_block_id(content, "Janet", "Ship v2 spec", &empty()).is_err());
}

#[test]
fn test_stamp_idempotent_when_already_stamped() {
    let content = "# Janet\n* Ship v2 spec !! ^a1b2c3\n";
    let (id, ops) = plan_stamp_block_id(content, "Janet", "Ship v2 spec", &empty()).unwrap();
    assert_eq!(id, "a1b2c3");
    assert!(ops.is_empty(), "no write when already stamped");
}

const BL: &str = "# Backlog #np-backlog\n## Work\n- [[Janet^a1b2c3]] Ship v2 spec\n- \
                  [[Ops^d4e5f6]] Review tix\n## Home\n- [[Reno^g7h8i9]] Call contractor\n";

#[test]
fn test_append_entry_after_last_item_in_section() {
    let ops = plan_append_entry(BL, "Work", "- [[New^zzz111]] New task").unwrap();
    assert_eq!(ops.len(), 1);
    // Work section items are lines 3 and 4 (1-based); append after line 4.
    assert_eq!(
        ops[0],
        WriteOp::InsertBacklogLine {
            line: 5,
            text: "- [[New^zzz111]] New task".to_string()
        }
    );
}

#[test]
fn test_append_to_empty_section_after_heading() {
    let content = "# B #np-backlog\n## Work\n## Home\n- [[Reno^g7h8i9]] x\n";
    let ops = plan_append_entry(content, "Work", "- [[New^zzz111]] task").unwrap();
    // Work heading is line 2, no items -> insert at line 3.
    assert_eq!(
        ops[0],
        WriteOp::InsertBacklogLine {
            line: 3,
            text: "- [[New^zzz111]] task".to_string()
        }
    );
}

#[test]
fn test_append_unknown_context_errs() {
    assert!(plan_append_entry(BL, "Nope", "x").is_err());
}

#[test]
fn test_reorder_repositions_existing_lines_by_id() {
    // New order: Ops (d4e5f6) before Janet (a1b2c3). Each line's ORIGINAL text
    // is repositioned verbatim — reorder never rewrites entry text.
    let ops = plan_reorder(BL, "Work", &["d4e5f6".to_string(), "a1b2c3".to_string()]).unwrap();
    assert_eq!(
        ops,
        vec![
            WriteOp::ReplaceBacklogLine {
                line: 3,
                text: "- [[Ops^d4e5f6]] Review tix".to_string()
            },
            WriteOp::ReplaceBacklogLine {
                line: 4,
                text: "- [[Janet^a1b2c3]] Ship v2 spec".to_string()
            },
        ]
    );
}

#[test]
fn test_reorder_count_mismatch_errs() {
    assert!(plan_reorder(BL, "Work", &["a1b2c3".to_string()]).is_err());
}

#[test]
fn test_reorder_membership_mismatch_errs() {
    // Same count, but a substituted id (concurrent edit / frontend bug) -> abort.
    assert!(plan_reorder(BL, "Work", &["a1b2c3".to_string(), "zzzzzz".to_string()]).is_err());
}

#[test]
fn test_locate_unique_finds_shifted_line() {
    // The task's snapshot line was 2, but a line was inserted above it, so it
    // now lives on line 3. Relocate-by-content must find line 3, not line 2.
    let content = "# Janet\n* A newly inserted task\n* Ship v2 spec !!\n";
    let (line, raw) = locate_unique_task_line(content, "Ship v2 spec").unwrap();
    assert_eq!(line, 3);
    assert_eq!(raw, "* Ship v2 spec !!");
}

#[test]
fn test_locate_unique_aborts_on_zero_matches() {
    let content = "# Janet\n* Something else\n";
    assert!(locate_unique_task_line(content, "Ship v2 spec").is_err());
}

#[test]
fn test_locate_unique_aborts_on_multiple_matches() {
    // Two lines with identical cleaned text — refuse rather than risk the
    // wrong one (markers differ but clean to the same display text).
    let content = "# Janet\n* Ship v2 spec !!\n* Ship v2 spec\n";
    let err = locate_unique_task_line(content, "Ship v2 spec");
    assert!(err.is_err(), "must abort on ambiguous identical tasks");
}

#[test]
fn test_reorder_skips_hand_written_non_id_bullet() {
    // A hand-written bullet without a [[…^id]] must be left in place, and its
    // presence must not fail the reorder of the id-bearing entries.
    let bl = "# B #np-backlog\n## Work\n- [[Janet^a1b2c3]] Ship\n- a plain hand-written \
              note\n- [[Ops^d4e5f6]] Review\n";
    let ops = plan_reorder(bl, "Work", &["d4e5f6".to_string(), "a1b2c3".to_string()]).unwrap();
    // Only the two id-bearing lines (3 and 5) are rewritten; line 4 untouched.
    assert_eq!(
        ops,
        vec![
            WriteOp::ReplaceBacklogLine {
                line: 3,
                text: "- [[Ops^d4e5f6]] Review".to_string()
            },
            WriteOp::ReplaceBacklogLine {
                line: 5,
                text: "- [[Janet^a1b2c3]] Ship".to_string()
            },
        ]
    );
}

#[test]
fn test_reorder_duplicate_ids_preserve_both_texts() {
    // Two entries share an id but carry different text (e.g. from manual
    // editing). Reorder must preserve BOTH texts, never collapse them.
    let bl = "# B #np-backlog\n## Work\n- [[N^abc123]] Buy milk\n- [[N^abc123]] Buy oat milk\n";
    let ops = plan_reorder(bl, "Work", &["abc123".to_string(), "abc123".to_string()]).unwrap();
    // FIFO: original relative order preserved; both texts retained.
    assert_eq!(
        ops,
        vec![
            WriteOp::ReplaceBacklogLine {
                line: 3,
                text: "- [[N^abc123]] Buy milk".to_string()
            },
            WriteOp::ReplaceBacklogLine {
                line: 4,
                text: "- [[N^abc123]] Buy oat milk".to_string()
            },
        ]
    );
}

#[test]
fn test_reorder_preserves_stale_entry_text() {
    // A stale (unresolved) entry keeps a real block id in the backlog line; a
    // reorder must preserve its ORIGINAL text, not blank it out.
    let bl = "# B #np-backlog\n## Work\n- [[Gone^deadid1]] original stale text\n- \
              [[Janet^a1b2c3]] Ship\n";
    let ops = plan_reorder(bl, "Work", &["a1b2c3".to_string(), "deadid1".to_string()]).unwrap();
    assert_eq!(
        ops,
        vec![
            WriteOp::ReplaceBacklogLine {
                line: 3,
                text: "- [[Janet^a1b2c3]] Ship".to_string()
            },
            WriteOp::ReplaceBacklogLine {
                line: 4,
                text: "- [[Gone^deadid1]] original stale text".to_string()
            },
        ]
    );
}

#[test]
fn test_remove_tombstones_matching_line() {
    // Remove overwrites the line in place (edit_line) rather than deleting
    // it — no destructive `delete_lines` op, and the tombstone marker is
    // ignored by the reader.
    let ops = plan_remove(BL, "Work", "d4e5f6").unwrap();
    assert_eq!(
        ops,
        vec![WriteOp::ReplaceBacklogLine {
            line: 4,
            text: TOMBSTONE.to_string()
        }]
    );
}

#[test]
fn test_remove_missing_block_id_errs() {
    assert!(plan_remove(BL, "Work", "nomatch0").is_err());
}

#[test]
fn test_remove_aborts_on_ambiguous_block_id() {
    // Two entries in the same section carry the same block id — refuse to
    // guess which to blank (mirrors locate_unique_task_line's >1 abort).
    let bl = "# B #np-backlog\n## Work\n- [[A^dupeid1]] first\n- [[B^dupeid1]] second\n";
    assert!(plan_remove(bl, "Work", "dupeid1").is_err());
}

// --- Added safety-gap tests (beyond the plan) ---

#[test]
fn test_stamp_aborts_on_non_task_line() {
    // A bare `-` list item is not a task; locate finds no matching task line,
    // so the stamp is refused (defends against stamping arbitrary content).
    let content = "# Janet\n- just a plain list item\n";
    assert!(plan_stamp_block_id(content, "Janet", "just a plain list item", &empty()).is_err());
}

#[test]
fn test_planners_reject_non_backlog_note() {
    // Ownership gate: a note WITHOUT the #np-backlog marker must never be
    // mutated, even if it structurally has a `## Work` heading + entries.
    let not_backlog = "# Real Content Note\n## Work\n- [[Janet^a1b2c3]] Ship v2 spec\n";
    assert!(plan_append_entry(not_backlog, "Work", "- [[New^zzz111]] x").is_err());
    assert!(plan_reorder(not_backlog, "Work", &["a1b2c3".to_string()]).is_err());
    assert!(plan_remove(not_backlog, "Work", "a1b2c3").is_err());
}

#[test]
fn test_planners_accept_note_with_marker() {
    // Same structure but WITH the marker tag -> planners proceed.
    assert!(plan_append_entry(BL, "Work", "- [[New^zzz111]] x").is_ok());
    assert!(plan_reorder(BL, "Work", &["a1b2c3".to_string(), "d4e5f6".to_string()]).is_ok());
    assert!(plan_remove(BL, "Work", "a1b2c3").is_ok());
}

#[test]
fn test_rank_calendar_sourced_task_full_plan() {
    // Task 4 harvests calendar tasks (Weekly/Monthly/Quarterly/Yearly/windowed
    // Daily) into every backlog pool. Ranking one must flow through the SAME
    // planner as a Notes/-sourced task. `plan_stamp_block_id` (and the
    // `locate_unique_task_line` it delegates to) take only note CONTENT and
    // TITLE — no relative path at all — so a Calendar/ source note (here,
    // `Calendar/20260701.md`, title "Wednesday" per its `# Wednesday`
    // heading) needs no special-casing in the planner; this test locks that
    // in rather than adding a no-op path filter.
    let source_content = "# Wednesday\n\n* Log the standup notes >2026-07-01\n";
    let (id, source_ops) = plan_stamp_block_id(
        source_content,
        "Wednesday",
        "Log the standup notes >2026-07-01",
        &empty(),
    )
    .unwrap();
    assert_eq!(source_ops.len(), 1);
    match &source_ops[0] {
        WriteOp::AppendBlockId {
            line,
            new_line_text,
            block_id,
        } => {
            assert_eq!(*line, 3, "task is on line 3 of the calendar note");
            assert_eq!(block_id, &id);
            assert_eq!(
                new_line_text,
                &format!("* Log the standup notes >2026-07-01 ^{}", id)
            );
        }
        other => panic!("expected AppendBlockId, got {:?}", other),
    }
    assert!(
        source_ops
            .iter()
            .all(|op| !op.touches_content_note() || matches!(op, WriteOp::AppendBlockId { .. })),
        "SAFETY: only an append may touch the calendar content note"
    );

    // Plus the control-note insertion into the backlog's Work section.
    let entry = format!("- [[Wednesday^{}]] Log the standup notes >2026-07-01", id);
    let backlog_ops = plan_append_entry(BL, "Work", &entry).unwrap();
    assert_eq!(
        backlog_ops,
        vec![WriteOp::InsertBacklogLine {
            line: 5,
            text: entry,
        }]
    );
}

#[test]
fn test_only_append_touches_content_note() {
    // Locks the core data-safety invariant: AppendBlockId is the ONLY variant
    // that mutates a user content note. Any future variant must consciously
    // decide its classification here.
    assert!(
        WriteOp::AppendBlockId {
            line: 1,
            new_line_text: "x ^abcd".into(),
            block_id: "abcd".into(),
        }
        .touches_content_note()
    );
    assert!(
        !WriteOp::InsertBacklogLine {
            line: 1,
            text: "x".into()
        }
        .touches_content_note()
    );
    assert!(
        !WriteOp::ReplaceBacklogLine {
            line: 1,
            text: "x".into()
        }
        .touches_content_note()
    );
    // DeleteBacklogLine — the ONLY line-count-reducing op — targets the
    // app-owned backlog note ONLY, never user content. Conscious
    // classification: it must NOT touch a content note.
    assert!(!WriteOp::DeleteBacklogLine { line: 1 }.touches_content_note());
}

// --- GC tombstone planner (plan_gc_tombstones / verify_all_tombstones) ---

// A backlog note carrying two tombstones interspersed with real entries.
const BL_TOMBSTONED: &str = "# Backlog #np-backlog\n## Work\n- [[Janet^a1b2c3]] Ship v2 \
                             spec\n<!-- np-backlog: removed -->\n- [[Ops^d4e5f6]] Review \
                             tix\n## Home\n<!-- np-backlog: removed -->\n- [[Reno^g7h8i9]] \
                             Call contractor\n";

#[test]
fn test_gc_plans_deletes_only_tombstone_lines() {
    // Tombstones sit on lines 4 and 7 (1-based; line 6 is the `## Home`
    // heading). GC deletes EXACTLY those, in DESCENDING order, and never an
    // entry line number.
    let ops = plan_gc_tombstones(BL_TOMBSTONED).unwrap();
    assert_eq!(
        ops,
        vec![
            WriteOp::DeleteBacklogLine { line: 7 },
            WriteOp::DeleteBacklogLine { line: 4 },
        ]
    );
}

#[test]
fn test_gc_no_tombstones_is_noop() {
    // Entries only (no tombstone) → empty plan → no write.
    assert!(plan_gc_tombstones(BL).unwrap().is_empty());
}

#[test]
fn test_gc_exact_match_not_substring_or_blank() {
    // Line 3: bare marker (deleted). Line 4: marker as a SUBSTRING of a real
    // entry (kept). Line 5: marker + trailing text, trim != TOMBSTONE (kept).
    // Line 6: blank line (kept — blank tombstones are never written). Only the
    // bare marker on line 3 is deleted.
    let content = "# B #np-backlog\n## Work\n<!-- np-backlog: removed -->\n- real task <!-- \
                   np-backlog: removed -->\n<!-- np-backlog: removed --> extra text\n\n- \
                   [[Ops^d4e5f6]] Review\n";
    let ops = plan_gc_tombstones(content).unwrap();
    assert_eq!(ops, vec![WriteOp::DeleteBacklogLine { line: 3 }]);
}

#[test]
fn test_gc_descending_order() {
    // ≥3 tombstones → strictly descending line numbers (bottom-up invariant at
    // the planner, so sequential application never shifts a lower target).
    let content = "# B #np-backlog\n## Work\n<!-- np-backlog: removed -->\n- [[A^aaaa11]] \
                   one\n<!-- np-backlog: removed -->\n- [[B^bbbb22]] two\n<!-- np-backlog: \
                   removed -->\n";
    let ops = plan_gc_tombstones(content).unwrap();
    assert_eq!(
        ops,
        vec![
            WriteOp::DeleteBacklogLine { line: 7 },
            WriteOp::DeleteBacklogLine { line: 5 },
            WriteOp::DeleteBacklogLine { line: 3 },
        ]
    );
    // Strictly descending.
    let nums: Vec<usize> = ops
        .iter()
        .map(|op| match op {
            WriteOp::DeleteBacklogLine { line } => *line,
            other => panic!("expected DeleteBacklogLine, got {other:?}"),
        })
        .collect();
    assert!(nums.windows(2).all(|w| w[0] > w[1]), "strictly descending");
}

#[test]
fn test_gc_rejects_non_backlog_note() {
    // Ownership gate: a note WITHOUT the #np-backlog marker — even one that
    // structurally has a `##` section and a tombstone-looking line — must be
    // refused, so GC can never delete lines in a mis-addressed content note.
    let not_backlog =
        "# Real Content Note\n## Work\n<!-- np-backlog: removed -->\n- a real note line\n";
    assert!(plan_gc_tombstones(not_backlog).is_err());
}

#[test]
fn test_gc_mixed_entries_and_tombstones_leaves_entries_bytewise() {
    // Applying the planned deletes (descending) must remove ONLY the tombstone
    // lines and leave every real entry byte-identical. We apply against a
    // Vec<String> mirror the way the executor / content_after_ops does.
    let ops = plan_gc_tombstones(BL_TOMBSTONED).unwrap();
    let mut lines: Vec<String> = BL_TOMBSTONED.lines().map(String::from).collect();
    for op in &ops {
        if let WriteOp::DeleteBacklogLine { line } = op {
            lines.remove(*line - 1); // descending → lower indices stay valid
        }
    }
    let out = lines.join("\n");
    assert!(!out.contains(TOMBSTONE), "all tombstones gone: {out:?}");
    // Every real entry line survives byte-identically.
    for entry in [
        "- [[Janet^a1b2c3]] Ship v2 spec",
        "- [[Ops^d4e5f6]] Review tix",
        "- [[Reno^g7h8i9]] Call contractor",
        "## Work",
        "## Home",
        "# Backlog #np-backlog",
    ] {
        assert!(
            out.lines().any(|l| l == entry),
            "entry preserved: {entry:?}"
        );
    }
}

#[test]
fn test_verify_all_tombstones_ok_and_abort() {
    // OK: the two real tombstone lines (4, 7) verify.
    assert!(verify_all_tombstones(BL_TOMBSTONED, &[7, 4]).is_ok());
    // ABORT: line 3 is a real ENTRY, not a tombstone (simulated stale/bad
    // target) → Err, so the GC pass refuses to delete it.
    let err = verify_all_tombstones(BL_TOMBSTONED, &[3]).unwrap_err();
    assert!(err.contains("not a tombstone"), "names the reason: {err}");
    // ABORT: out-of-range line → Err (never index past the content).
    assert!(verify_all_tombstones(BL_TOMBSTONED, &[999]).is_err());
}

#[test]
fn generated_block_ids_are_base36() {
    for seed in ["a", "seed-b", "Design:Ship v2 spec", ""] {
        let id = generate_block_id(seed, &empty());
        assert_eq!(id.len(), 6);
        assert!(id.chars().all(|c| c.is_ascii_digit() || c.is_ascii_lowercase()), "{}", id);
    }
}
