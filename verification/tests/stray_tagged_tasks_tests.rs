use noteplan_organizer::analyzer::stray_tagged_tasks::StrayTaggedTaskAnalyzer;
use noteplan_organizer::analyzer::Analyzer;
use noteplan_organizer::models::{Finding, FindingCategory, Note, NoteKind};
use noteplan_organizer::parser::markdown::parse_note;
use noteplan_organizer::parser::NoteStore;

fn projects() -> Note {
    parse_note(
        "/p.md",
        "Notes/_NotePlan Organizer/Projects.md",
        "# P #np-projects\n## Home\n- #home\n1. [[21 - Home Reno]]\n",
        NoteKind::Regular,
    )
}

fn cats(findings: &[Finding]) -> usize {
    findings
        .iter()
        .filter(|f| matches!(f.category, FindingCategory::StrayTaggedTask))
        .count()
}

#[test]
fn test_flags_tagged_task_outside_tracked_folder() {
    let loose = parse_note(
        "/l.md",
        "Notes/2x - Projects [Personal]/Loose Ideas.md",
        "# Loose Ideas\n* Paint the shed #home\n",
        NoteKind::Regular,
    );
    let store = NoteStore::new(vec![projects(), loose]);
    let f = StrayTaggedTaskAnalyzer.analyze(&store);
    assert_eq!(cats(&f), 1);
    assert!(f[0].file_path.ends_with("Loose Ideas.md"));
    assert!(f[0].context.as_deref().unwrap().contains("Paint the shed"));
}

#[test]
fn test_flags_hierarchical_child_tag() {
    // A declared `#home` also scopes a hierarchical `#home/chores` task.
    let loose = parse_note(
        "/l.md",
        "Notes/2x - Projects [Personal]/Loose Ideas.md",
        "# Loose Ideas\n* Fix the gutter #home/chores\n",
        NoteKind::Regular,
    );
    let store = NoteStore::new(vec![projects(), loose]);
    assert_eq!(cats(&StrayTaggedTaskAnalyzer.analyze(&store)), 1);
}

#[test]
fn test_ignores_tagged_task_inside_tracked_folder() {
    let inside = parse_note(
        "/h.md",
        "Notes/2x - Projects [Personal]/21 - Home Reno/21.01 - Kitchen.md",
        "# Kitchen\n* Order tiles #home\n",
        NoteKind::Regular,
    );
    let store = NoteStore::new(vec![projects(), inside]);
    assert_eq!(cats(&StrayTaggedTaskAnalyzer.analyze(&store)), 0);
}

#[test]
fn test_ignores_calendar_note() {
    let daily = parse_note(
        "/d.md",
        "Calendar/20260705.md",
        "# Day\n* Sweep the porch #home\n",
        NoteKind::Daily,
    );
    let store = NoteStore::new(vec![projects(), daily]);
    assert_eq!(cats(&StrayTaggedTaskAnalyzer.analyze(&store)), 0);
}

#[test]
fn test_ignores_undeclared_tag() {
    let loose = parse_note(
        "/l.md",
        "Notes/2x - Projects [Personal]/Loose Ideas.md",
        "# Loose Ideas\n* Random thought #musing\n",
        NoteKind::Regular,
    );
    let store = NoteStore::new(vec![projects(), loose]);
    assert_eq!(cats(&StrayTaggedTaskAnalyzer.analyze(&store)), 0);
}

#[test]
fn test_no_findings_when_no_context_declares_tags() {
    let projects = parse_note(
        "/p.md",
        "Notes/_NotePlan Organizer/Projects.md",
        "# P #np-projects\n## Home\n1. [[21 - Home Reno]]\n",
        NoteKind::Regular,
    );
    let loose = parse_note(
        "/l.md",
        "Notes/2x - Projects [Personal]/Loose Ideas.md",
        "# Loose Ideas\n* Paint the shed #home\n",
        NoteKind::Regular,
    );
    let store = NoteStore::new(vec![projects, loose]);
    assert_eq!(cats(&StrayTaggedTaskAnalyzer.analyze(&store)), 0);
}
