use noteplan_organizer::models::NoteKind;
use noteplan_organizer::parser::backlog::{build_backlog, BacklogOptions};
use noteplan_organizer::parser::markdown::parse_note;
use noteplan_organizer::parser::projects::parse_project_control;
use noteplan_organizer::parser::scoped::{
    bears_any_block_id, is_control_path, scoped_folders, scoped_selection, unresolved_block_ids,
};
use noteplan_organizer::parser::NoteStore;

fn control(content: &str) -> noteplan_organizer::parser::projects::ProjectControl {
    let n = parse_note("/p.md", "Notes/_NotePlan Organizer/P.md", content, NoteKind::Regular);
    parse_project_control(&NoteStore::new(vec![n])).unwrap()
}

fn paths(ps: &[&str]) -> Vec<String> {
    ps.iter().map(|p| p.to_string()).collect()
}

#[test]
fn scoped_scan_keeps_only_resolved_project_folders() {
    let ps = paths(&[
        "Notes/_NotePlan Organizer/P.md",
        "Notes/32 - Product Ownership/a.md",
        "Notes/32 - Product Ownership/@Archive/old.md",
        "Notes/40 - Other/b.md",
        "Notes/32 - Product Ownership/sub/c.md",
    ]);
    let c = control("# P #np-projects\n## Work\n1. [[32 - Product Ownership]]\n");
    assert_eq!(scoped_folders(&ps, &c), vec!["Notes/32 - Product Ownership".to_string()]);
    assert_eq!(scoped_selection(&ps, &c), vec![false, true, false, false, true]);
}

#[test]
fn scoped_scan_without_matching_folder_keeps_nothing() {
    let ps = paths(&["Notes/40 - Other/b.md"]);
    let c = control("# P #np-projects\n## Work\n1. [[99 - Nowhere]]\n");
    assert!(scoped_folders(&ps, &c).is_empty());
    assert_eq!(scoped_selection(&ps, &c), vec![false]);
}

#[test]
fn control_paths_recognized() {
    assert!(is_control_path("Notes/_NotePlan Organizer/P.md"));
    assert!(!is_control_path("Notes/_NotePlan Organizer.md"));
    assert!(!is_control_path("Notes/x/P.md"));
}

#[test]
fn unresolved_ranked_ids_found_and_rescued() {
    let bl = parse_note(
        "/b.md",
        "Notes/_NotePlan Organizer/Backlog.md",
        "# Backlog #np-backlog\n## Work\n1. [[Janet^a1b2c3]] Ship v2 spec\n",
        NoteKind::Regular,
    );
    let st = NoteStore::new(vec![bl]);
    let opts = BacklogOptions { include_older_dailies: false, today: 739000 };
    let b = build_backlog(&st, &opts);
    assert_eq!(unresolved_block_ids(&b), vec!["a1b2c3".to_string()]);
    let elsewhere = parse_note("/j.md", "Notes/x/Janet.md", "# Janet\n* Ship v2 spec ^a1b2c3\n", NoteKind::Regular);
    let other = parse_note("/o.md", "Notes/x/Other.md", "# Other\n* Ship v3 ^zzzzzz\n", NoteKind::Regular);
    let ids = unresolved_block_ids(&b);
    assert!(bears_any_block_id(&elsewhere, &ids));
    assert!(!bears_any_block_id(&other, &ids));
}
