use noteplan_organizer::models::{Note, NoteKind};
use noteplan_organizer::parser::markdown::{parse_note, parse_sections};
use noteplan_organizer::parser::{is_excluded_relative, NoteStore};

#[test]
fn test_parse_note_basic() {
    let content = "# My Note\n## Related\n- [[Other Note]]\n## Tags\n#work #ai";
    let note = parse_note("/path/to/note.md", "Notes/note.md", content, NoteKind::Regular);
    assert_eq!(note.title, "My Note");
    assert_eq!(note.wiki_links.len(), 1);
    assert_eq!(note.wiki_links[0].target, "Other Note");
    assert!(note.tags.contains(&"work".to_string()));
}

#[test]
fn test_parse_sections() {
    let content = "# Title\n## Related\n- item\n## Empty Section\n- \n## Tags\n";
    let sections = parse_sections(content);
    assert_eq!(sections.len(), 1);
    assert_eq!(sections[0].heading, "Title");
    assert!(!sections[0].is_empty);
}

#[test]
fn test_parse_sibling_sections() {
    let content = "## Related\n- item\n## Empty Section\n\n## Tags\n#tag1\n";
    let sections = parse_sections(content);
    assert_eq!(sections.len(), 3);
    assert_eq!(sections[0].heading, "Related");
    assert!(!sections[0].is_empty);
    assert_eq!(sections[1].heading, "Empty Section");
    assert!(sections[1].is_empty);
    assert_eq!(sections[2].heading, "Tags");
    assert!(!sections[2].is_empty);
}

#[test]
fn test_section_empty_with_nested_headings() {
    let content = "## Parent\n### Child\nSome content\n## Sibling\n";
    let sections = parse_sections(content);
    assert_eq!(sections.len(), 2);
    assert!(!sections[0].is_empty);

    let content2 = "## Parent\n### Child\n## Sibling\n";
    let sections2 = parse_sections(content2);
    assert_eq!(sections2.len(), 2);
    assert!(sections2[0].is_empty);
}

#[test]
fn test_placeholders() {
    let content = "# [Project Name] [Project Version]\n## Related\n- [link to Project 1]";
    let note = parse_note("/p.md", "Notes/p.md", content, NoteKind::Regular);
    assert!(!note.placeholders.is_empty());
}

#[test]
fn test_frontmatter() {
    let content = "---\ntitle: Test\ntype: note\n---\n# Test Note\nContent here.";
    let note = parse_note("/t.md", "Notes/t.md", content, NoteKind::Regular);
    assert!(note.has_frontmatter);
}

#[test]
fn test_is_excluded_relative() {
    assert!(is_excluded_relative("Notes/@Trash/x.md"));
    assert!(is_excluded_relative("Notes/@Archive/x.md"));
    assert!(is_excluded_relative("Notes/@Templates/x.md"));
    assert!(is_excluded_relative("Notes/_attachments/x.png"));
    assert!(is_excluded_relative("Notes/_NotePlan Organizer/Backlog.md"));
    assert!(!is_excluded_relative("Notes/32 - Product Ownership/32.01 - Janet.md"));
}

fn note_fixture(rel: &str, content: &str) -> Note {
    parse_note(&format!("/abs/{rel}"), rel, content, NoteKind::Regular)
}

#[test]
fn test_update_note_replaces_in_place_and_keeps_indexes() {
    let mut store = NoteStore::new(vec![
        note_fixture("Notes/a.md", "# A\n* one"),
        note_fixture("Notes/b.md", "# B\n* two"),
    ]);
    store.update_note(note_fixture("Notes/a.md", "# A\n* one !!\n* extra ^abc123"));

    assert_eq!(store.notes.len(), 2, "replaced, not appended");
    let i = store.path_index("Notes/a.md").unwrap();
    assert_eq!(store.notes[i].tasks.len(), 2);
    assert!(store.notes[i].tasks.iter().any(|t| t.block_id.as_deref() == Some("abc123")));
    assert_eq!(store.notes[store.path_index("Notes/b.md").unwrap()].title, "B");
    assert!(store.has_note_titled("A"));
}

#[test]
fn test_update_note_title_change_rewires_title_index() {
    let mut store = NoteStore::new(vec![note_fixture("Notes/a.md", "# Old Title\n* x")]);
    store.update_note(note_fixture("Notes/a.md", "# New Title\n* x"));

    assert!(!store.has_note_titled("Old Title"), "old title dropped");
    assert!(store.has_note_titled("New Title"), "new title indexed");
    assert!(store.title_index("old title").is_empty());
}

#[test]
fn test_update_note_inserts_new_file() {
    let mut store = NoteStore::new(vec![note_fixture("Notes/a.md", "# A\n* x")]);
    store.update_note(note_fixture("Notes/c.md", "# C\n* y"));

    assert_eq!(store.notes.len(), 2, "new file appended");
    assert!(store.has_note_titled("C"));
    assert_eq!(store.notes[store.path_index("Notes/c.md").unwrap()].title, "C");
}
