use noteplan_organizer::models::{Note, NoteKind, Section};
use noteplan_organizer::parser::filing::build_filing_targets;
use noteplan_organizer::parser::NoteStore;

fn make_note(
    title: &str,
    relative_path: &str,
    jd_id: Option<&str>,
    sections: Vec<(&str, u8)>,
    tags: Vec<&str>,
) -> Note {
    Note {
        file_path: format!("/base/{}", relative_path),
        relative_path: relative_path.to_string(),
        title: title.to_string(),
        jd_id: jd_id.map(|s| s.to_string()),
        title_jd_id: jd_id.map(|s| s.to_string()),
        parent_jd_id: None,
        note_id_kind: None,
        title_note_id_kind: None,
        kind: NoteKind::Regular,
        content: String::new(),
        tasks: vec![],
        wiki_links: vec![],
        sections: sections
            .into_iter()
            .map(|(heading, level)| Section {
                heading: heading.to_string(),
                level,
                line_number: 1,
                content_lines: vec![],
                is_empty: false,
            })
            .collect(),
        tags: tags.into_iter().map(|s| s.to_string()).collect(),
        mentions: vec![],
        has_frontmatter: false,
        placeholders: vec![],
    }
}

#[test]
fn test_regular_notes_are_targets() {
    let notes = vec![make_note(
        "10.01 - Project Alpha",
        "Notes/1x - Projects/10 - Alpha/10.01 - Project Alpha.md",
        Some("10.01"),
        vec![("Overview", 2), ("Tasks", 2)],
        vec!["work"],
    )];
    let store = NoteStore::new(notes);
    let targets = build_filing_targets(&store);
    assert_eq!(targets.len(), 1);
    assert_eq!(targets[0].title, "10.01 - Project Alpha");
    assert_eq!(targets[0].jd_id.as_deref(), Some("10.01"));
    assert_eq!(targets[0].folder_path, "1x - Projects/10 - Alpha");
    assert!(!targets[0].is_hub);
}

#[test]
fn test_hub_notes_detected() {
    let notes = vec![make_note(
        "00.PH - Project Hub",
        "Notes/1x - Projects/00.PH - Project Hub.md",
        None,
        vec![("Related", 2), ("Documentation", 2), ("Timeline", 2)],
        vec![],
    )];
    let store = NoteStore::new(notes);
    let targets = build_filing_targets(&store);
    assert_eq!(targets.len(), 1);
    assert!(targets[0].is_hub);
}

#[test]
fn test_daily_notes_excluded() {
    let notes = vec![Note {
        kind: NoteKind::Daily,
        ..make_note("20260316", "Calendar/20260316.md", None, vec![], vec![])
    }];
    let store = NoteStore::new(notes);
    let targets = build_filing_targets(&store);
    assert_eq!(targets.len(), 0);
}

#[test]
fn test_trash_excluded() {
    let notes = vec![make_note("Old Note", "Notes/@Trash/Old Note.md", None, vec![], vec![])];
    let store = NoteStore::new(notes);
    let targets = build_filing_targets(&store);
    assert_eq!(targets.len(), 0);
}

#[test]
fn test_root_notes_included() {
    let notes = vec![make_note("Quick Note", "Notes/Quick Note.md", None, vec![], vec![])];
    let store = NoteStore::new(notes);
    let targets = build_filing_targets(&store);
    assert_eq!(targets.len(), 1);
    assert_eq!(targets[0].folder_path, "");
}

#[test]
fn test_tags_carried_through() {
    let notes = vec![make_note(
        "Design Doc",
        "Notes/Design Doc.md",
        None,
        vec![],
        vec!["design", "frontend"],
    )];
    let store = NoteStore::new(notes);
    let targets = build_filing_targets(&store);
    assert!(targets[0].tags.contains(&"design".to_string()));
    assert!(targets[0].tags.contains(&"frontend".to_string()));
}

#[test]
fn notes_outside_notes_folder_are_not_targets() {
    let notes = vec![make_note("Loose", "Elsewhere/Loose.md", None, vec![], vec![])];
    let store = NoteStore::new(notes);
    assert!(build_filing_targets(&store).is_empty());
}

#[test]
fn section_headings_listed_in_order() {
    let notes = vec![make_note(
        "N",
        "Notes/A/B/N.md",
        None,
        vec![("One", 2), ("Key Points here", 2)],
        vec![],
    )];
    let store = NoteStore::new(notes);
    let targets = build_filing_targets(&store);
    assert_eq!(targets[0].section_headings, vec!["One".to_string(), "Key Points here".to_string()]);
    assert_eq!(targets[0].folder_path, "A/B");
    assert!(targets[0].is_hub);
}
