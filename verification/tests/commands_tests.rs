use noteplan_organizer::commands::check_noteplan_url;
use noteplan_organizer::backlog_write::WriteOp;
use noteplan_organizer::commands::{
    content_after_ops, existing_block_ids, resolve_note, resolve_note_by_path, title_matches,
};
use noteplan_organizer::mcp::tools::NoteAddr;
use noteplan_organizer::models::NoteKind;
use noteplan_organizer::parser::markdown::parse_note;
use noteplan_organizer::parser::NoteStore;

#[test]
fn test_content_after_ops_replace_insert() {
    assert_eq!(
        content_after_ops(
            "# H\n* task\n* other\n",
            &[WriteOp::AppendBlockId {
                line: 2,
                new_line_text: "* task ^abc123".into(),
                block_id: "abc123".into(),
            }]
        ),
        "# H\n* task ^abc123\n* other\n"
    );
    assert_eq!(
        content_after_ops("a\nb\n", &[WriteOp::InsertBacklogLine { line: 2, text: "X".into() }]),
        "a\nX\nb\n"
    );
    assert_eq!(
        content_after_ops("a\nb\nc\n", &[WriteOp::ReplaceBacklogLine { line: 2, text: "".into() }]),
        "a\n\nc\n"
    );
    assert_eq!(
        content_after_ops(
            "one\ntwo\n",
            &[
                WriteOp::ReplaceBacklogLine { line: 1, text: "two".into() },
                WriteOp::ReplaceBacklogLine { line: 2, text: "one".into() },
            ]
        ),
        "two\none\n"
    );
    assert_eq!(
        content_after_ops(
            "keep1\ndrop2\nkeep3\ndrop4\nkeep5\n",
            &[WriteOp::DeleteBacklogLine { line: 4 }, WriteOp::DeleteBacklogLine { line: 2 }]
        ),
        "keep1\nkeep3\nkeep5\n"
    );
}

#[test]
fn test_title_matches_marker_insensitive() {
    assert!(title_matches("Backlog #np-backlog", "Backlog"));
    assert!(title_matches("Project Priorities #np-projects", "Project Priorities"));
    assert!(title_matches("Design", "design"));
    assert!(!title_matches("Beta Project", "Alpha Project"));
    assert!(!title_matches("Backlog #np-backlog", "Backlogs"));
}

#[test]
fn test_resolve_note_by_path_hits_cache() {
    let store = NoteStore::new(vec![
        parse_note("/abs/Calendar/20260701.md", "Calendar/20260701.md", "# Daily\n* one", NoteKind::Daily),
        parse_note("/abs/Calendar/20260702.md", "Calendar/20260702.md", "# Daily\n* two", NoteKind::Daily),
    ]);
    let resolved = resolve_note_by_path(Some(&store), "Calendar/20260702.md");
    assert!(
        matches!(&resolved.addr, NoteAddr::Filename(p) if p == "Calendar/20260702.md"),
        "expected Filename(\"Calendar/20260702.md\"), got {:?}",
        resolved.addr
    );
    let (file_path, rel, _kind) = resolved.patch.expect("path in cache must yield a patch identity");
    assert_eq!(file_path, "/abs/Calendar/20260702.md");
    assert_eq!(rel, "Calendar/20260702.md");
}

#[test]
fn test_resolve_note_by_path_misses_cache_still_prefers_filename() {
    let store = NoteStore::new(vec![]);
    let resolved = resolve_note_by_path(Some(&store), "Notes/new-note.md");
    assert!(
        matches!(&resolved.addr, NoteAddr::Filename(p) if p == "Notes/new-note.md"),
        "expected Filename(\"Notes/new-note.md\"), got {:?}",
        resolved.addr
    );
    assert!(resolved.patch.is_none());
}

#[test]
fn resolve_note_by_unique_title_uses_path() {
    let store = NoteStore::new(vec![
        parse_note("/abs/Notes/b.md", "Notes/b.md", "# Backlog #np-backlog\n## Work", NoteKind::Regular),
        parse_note("/abs/Notes/d.md", "Notes/d.md", "# Design\n", NoteKind::Regular),
    ]);
    let r = resolve_note(Some(&store), "Backlog");
    assert!(matches!(&r.addr, NoteAddr::Filename(p) if p == "Notes/b.md"));
    assert_eq!(r.addr.mode(), "filename");
    assert!(r.patch.is_some());
}

#[test]
fn resolve_note_by_ambiguous_title_falls_back_to_title() {
    let store = NoteStore::new(vec![
        parse_note("/abs/Calendar/1.md", "Calendar/1.md", "# Daily\n", NoteKind::Daily),
        parse_note("/abs/Calendar/2.md", "Calendar/2.md", "# Daily\n", NoteKind::Daily),
    ]);
    let r = resolve_note(Some(&store), "Daily");
    assert!(matches!(&r.addr, NoteAddr::Title(t) if t == "Daily"));
    assert_eq!(r.addr.mode(), "title");
    assert!(r.patch.is_none());
    let cold = resolve_note(None, "Daily");
    assert!(matches!(&cold.addr, NoteAddr::Title(t) if t == "Daily"));
}

#[test]
fn insert_past_end_appends_and_out_of_range_edits_do_nothing() {
    assert_eq!(
        content_after_ops("a\nb", &[WriteOp::InsertBacklogLine { line: 9, text: "Z".into() }]),
        "a\nb\nZ"
    );
    assert_eq!(
        content_after_ops(
            "a\n",
            &[
                WriteOp::ReplaceBacklogLine { line: 5, text: "x".into() },
                WriteOp::DeleteBacklogLine { line: 0 },
            ]
        ),
        "a\n"
    );
}

#[test]
fn gc_replay_leaves_only_non_tombstones() {
    let content = "# Backlog #np-backlog\n## Work\n- a ^x1\n<!-- np-backlog: removed -->\n- b ^x2\n<!-- np-backlog: removed -->\n";
    let ops = noteplan_organizer::backlog_write::plan_gc_tombstones(content).unwrap();
    assert_eq!(content_after_ops(content, &ops), "# Backlog #np-backlog\n## Work\n- a ^x1\n- b ^x2\n");
}

#[test]
fn block_ids_listed_once() {
    let store = NoteStore::new(vec![
        parse_note("/a.md", "Notes/a.md", "# A\n* one ^abc123\n* two ^def456\n", NoteKind::Regular),
        parse_note("/b.md", "Notes/b.md", "# B\n* three ^abc123\n", NoteKind::Regular),
    ]);
    assert_eq!(existing_block_ids(&store), vec!["abc123".to_string(), "def456".to_string()]);
}

#[test]
fn only_noteplan_urls_open() {
    assert_eq!(check_noteplan_url("noteplan://x-callback-url/openNote?noteTitle=A"), Ok(()));
    assert_eq!(
        check_noteplan_url("https://example.com"),
        Err("Invalid URL: only noteplan:// URLs are allowed".to_string())
    );
}

#[test]
fn replaying_no_edits_keeps_the_text() {
    for c in ["", "a", "a\n", "a\nb", "a\n\nb\n\n"] {
        assert_eq!(noteplan_organizer::commands::content_after_ops(c, &[]), c);
    }
}

#[test]
fn replaying_an_edit_of_a_missing_line_keeps_the_text() {
    let c = "a\nb\n";
    let op = WriteOp::ReplaceBacklogLine { line: 3, text: "x".to_string() };
    assert_eq!(noteplan_organizer::commands::content_after_ops(c, &[op]), c);
    let op = WriteOp::DeleteBacklogLine { line: 0 };
    assert_eq!(noteplan_organizer::commands::content_after_ops(c, &[op]), c);
    let op = WriteOp::ReplaceBacklogLine { line: 2, text: "x".to_string() };
    assert_eq!(noteplan_organizer::commands::content_after_ops(c, &[op]), "a\nx\n");
}
