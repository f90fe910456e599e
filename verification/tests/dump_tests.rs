use noteplan_organizer::dump::{activity_rows, dump_sums, generate_dump, render_dump};
use noteplan_organizer::models::{Note, NoteKind};
use noteplan_organizer::parser::markdown::parse_note;
use noteplan_organizer::parser::NoteStore;

const DAY: i64 = 86_400_000_000_000;

fn reg(path: &str, content: &str) -> Note {
    parse_note(&format!("/v/{}", path), path, content, NoteKind::Regular)
}

fn sample() -> NoteStore {
    NoteStore::new(vec![
        reg("Notes/2x - Beta/20 - Two/20.01 - x.md", "# T\nbody"),
        reg("Notes/1x - Alpha/10 - One/10.01 - a.md", "# T\nbody #work"),
        reg("Notes/1x - Alpha/10 - One/10.02 - b.md", "# T\nbody #work #home #work"),
        reg("Notes/1x - Alpha/11 - Eleven/11.01 - Sub/note.md", "# T\nbody"),
        reg("Notes/1x - Alpha/loose.md", "# T\nbody"),
        reg("Notes/root.md", "# T\nbody"),
        reg("Notes/@Trash/gone.md", "# T\nbody #work"),
        parse_note("/v/Calendar/20260101.md", "Calendar/20260101.md", "# d", NoteKind::Daily),
        reg("Elsewhere/x.md", "# T\nbody"),
    ])
}

fn rule(n: usize) -> String {
    "─".repeat(n)
}

#[test]
fn dump_header_and_overview_exact() {
    let store = sample();
    let out = render_dump(&store, "/vault", "2026-07-05 10:00:00", "1.5", "2.5", &vec![], &vec![], 0);
    let header = "╔══════════════════════════════════════════════════════════════╗\n\
                  ║           NotePlan System Assessment Dump                   ║\n\
                  ╚══════════════════════════════════════════════════════════════╝\n\
                  \nPath: /vault\nScanned at: 2026-07-05 10:00:00\n\n";
    assert!(out.starts_with(header));
    let overview = format!(
        "┌─ OVERVIEW {}\n│\n  Regular notes:  8\n  Daily notes:    1\n  Weekly notes:   0\n  Monthly notes:  0\n  Quarterly notes: 0\n  Yearly notes:   0\n  Templates:      0\n  Total:          9\n\n",
        rule(58 - 8)
    );
    assert!(out.contains(&overview));
}

#[test]
fn dump_tree_shows_counts_and_direct_notes() {
    let out = render_dump(&sample(), "/vault", "now", "1.5", "2.5", &vec![], &vec![], 0);
    let tree = format!(
        "┌─ JD HIERARCHY {}\n│\n  Notes/\n    1x - Alpha/  (4 notes, 1 direct)\n      10 - One/  (2 notes)\n      11 - Eleven/  (1 notes)\n        11.01 - Sub/  (1 notes)\n    2x - Beta/  (1 notes)\n      20 - Two/  (1 notes)\n\n",
        rule(58 - 12)
    );
    assert!(out.contains(&tree));
}

#[test]
fn dump_statistics_lines() {
    let out = render_dump(&sample(), "/vault", "now", "1.5", "2.5", &vec![], &vec![], 0);
    assert!(out.contains("  Top-level areas: 2\n"));
    assert!(out.contains("  Categories per area: min=1, max=2, avg=1.5\n"));
    assert!(out.contains("  Notes per area: min=1, max=4, avg=2.5\n"));
    assert!(out.contains("  Maximum folder depth: 2\n"));
    assert!(out.contains("\n  Single-note folders (2):\n    - 11.01 - Sub\n    - 20 - Two\n"));
    let head = format!(
        "  Per-area breakdown:\n  {:<40} {:>6} {:>6} {:>6}\n  {}\n",
        "Area", "Notes", "Cats", "Depth", rule(62)
    );
    assert!(out.contains(&head));
    assert!(out.contains(&format!("  {:<40} {:>6} {:>6} {:>6}\n", "1x - Alpha", 4, 2, 2)));
    assert!(out.contains(&format!("  {:<40} {:>6} {:>6} {:>6}\n", "2x - Beta", 1, 1, 1)));
}

#[test]
fn dump_tags_counted_by_uses_and_notes() {
    let out = render_dump(&sample(), "/vault", "now", "1.5", "2.5", &vec![], &vec![], 0);
    // #work in two notes (the trashed note is left out), #home in one; a
    // note's tags are counted once each.
    let table = format!(
        "  {:<30} {:>8} {:>8}\n  {}\n  {:<30} {:>8} {:>8}\n  {:<30} {:>8} {:>8}\n\n",
        "Tag", "Uses", "Notes", rule(48), "work", 2, 2, "home", 1, 1
    );
    assert!(out.contains(&table));
}

#[test]
fn dump_empty_vault_sections() {
    let out = render_dump(&NoteStore::new(vec![]), "/v", "now", "0.0", "0.0", &vec![], &vec![], 0);
    assert!(out.contains("  Top-level areas: 0\n  (No JD areas found)\n\n"));
    assert!(out.contains("  (No tags found)\n\n"));
    assert!(out.contains("  (All notes are within JD-structured folders)\n\n"));
    assert!(out.contains("  (No activity data available)\n\n"));
    assert!(out.contains("  Hub notes found: 0\n"));
}

fn activity_store() -> NoteStore {
    NoteStore::new(vec![
        reg("Notes/1x - Alpha/10 - One/a.md", "# A"),
        reg("Notes/1x - Alpha/b.md", "# B"),
        reg("Notes/2x - Beta/c.md", "# C"),
        reg("Notes/3x - Gamma/d.md", "# D"),
        reg("Notes/root.md", "# R"),
    ])
}

#[test]
fn activity_rows_count_recent_notes_and_latest_time() {
    let store = activity_store();
    let modified = vec![Some(100 * DAY), Some(200 * DAY), Some(295 * DAY), Some(50 * DAY), Some(299 * DAY)];
    let rows = activity_rows(&store, &modified, 300 * DAY);
    assert_eq!(
        rows,
        vec![
            ("1x - Alpha".to_string(), 0, 200 * DAY),
            ("2x - Beta".to_string(), 1, 295 * DAY),
            ("3x - Gamma".to_string(), 0, 50 * DAY),
        ]
    );
}

#[test]
fn activity_rows_skip_unknown_times() {
    let store = activity_store();
    let modified = vec![None, Some(10 * DAY)];
    let rows = activity_rows(&store, &modified, 20 * DAY);
    assert_eq!(rows, vec![("1x - Alpha".to_string(), 1, 10 * DAY)]);
}

#[test]
fn activity_table_marks_quiet_and_stale_areas() {
    let store = activity_store();
    let modified = vec![Some(100 * DAY), Some(200 * DAY), Some(295 * DAY), Some(50 * DAY), Some(299 * DAY)];
    let now = 300 * DAY;
    let rows = activity_rows(&store, &modified, now);
    let labels = vec!["d-alpha".to_string(), "d-beta".to_string(), "d-gamma".to_string()];
    let out = render_dump(&store, "/v", "now", "1.0", "1.0", &rows, &labels, now);
    let expect = format!(
        "  {:<40} {:>12} {:>14}\n  {}\n  {:<40} {:>12} {:>14}  * quiet *\n  {:<40} {:>12} {:>14}\n  {:<40} {:>12} {:>14}  *** STALE ***\n\n",
        "Area", "Active (90d)", "Last Modified", rule(68),
        "1x - Alpha", 0, "d-alpha",
        "2x - Beta", 1, "d-beta",
        "3x - Gamma", 0, "d-gamma"
    );
    assert!(out.ends_with(&expect));
}

#[test]
fn dump_sums_add_category_and_note_counts() {
    assert_eq!(dump_sums(&sample()), (3, 5, 2));
    assert_eq!(dump_sums(&NoteStore::new(vec![])), (0, 0, 0));
}

#[test]
fn generate_dump_has_every_section() {
    let store = sample();
    let modified = vec![None; 9];
    let out = generate_dump(&store, "/vault", &modified, "1.5", "2.5");
    assert!(out.contains("Path: /vault\nScanned at: "));
    for title in [
        "OVERVIEW",
        "JD HIERARCHY",
        "JD STATISTICS",
        "HUB COVERAGE",
        "TAG USAGE",
        "NOTES OUTSIDE JD SYSTEM",
        "ACTIVITY BY AREA (file modification dates)",
    ] {
        assert!(out.contains(&format!("┌─ {} ", title)), "missing {}", title);
    }
}
