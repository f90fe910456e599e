use noteplan_organizer::models::NoteKind;
use noteplan_organizer::parser::hierarchy::build_hierarchy;
use noteplan_organizer::parser::markdown::parse_note;
use noteplan_organizer::parser::NoteStore;

fn reg(path: &str) -> noteplan_organizer::models::Note {
    parse_note(&format!("/v/{}", path), path, "# T\nbody", NoteKind::Regular)
}

fn sample() -> NoteStore {
    NoteStore::new(vec![
        reg("Notes/2x - Beta/20 - Two/20.01 - x.md"),
        reg("Notes/1x - Alpha/10 - One/10.01 - a.md"),
        reg("Notes/1x - Alpha/10 - One/10.02 - b.md"),
        reg("Notes/1x - Alpha/11 - Eleven/11.01 - Sub/note.md"),
        reg("Notes/1x - Alpha/loose.md"),
        reg("Notes/root.md"),
        reg("Notes/@Trash/gone.md"),
        parse_note("/v/Calendar/20260101.md", "Calendar/20260101.md", "# d", NoteKind::Daily),
        reg("Elsewhere/x.md"),
    ])
}

#[test]
fn hierarchy_counts_every_filed_note_once() {
    let h = build_hierarchy(&sample());
    assert_eq!(h.root.name, "Notes");
    assert_eq!(h.root.note_count, 1);
    assert_eq!(h.root.deep_note_count(), 6);
    assert_eq!(h.root.max_depth(), 3);
}

#[test]
fn hierarchy_children_sorted_by_name() {
    let h = build_hierarchy(&sample());
    let names: Vec<&str> = h.root.children.iter().map(|c| c.name.as_str()).collect();
    assert_eq!(names, vec!["1x - Alpha", "2x - Beta"]);
    let alpha = &h.root.children[0];
    let cats: Vec<&str> = alpha.children.iter().map(|c| c.name.as_str()).collect();
    assert_eq!(cats, vec!["10 - One", "11 - Eleven"]);
    assert_eq!(alpha.jd_id.as_deref(), Some("1"));
    assert_eq!(alpha.note_count, 1);
    assert_eq!(alpha.children[0].note_count, 2);
}

#[test]
fn area_stats_follow_the_tree() {
    let h = build_hierarchy(&sample());
    assert_eq!(h.areas.len(), 2);
    assert_eq!(h.areas[0].folder_name, "1x - Alpha");
    assert_eq!(h.areas[0].total_notes, 4);
    assert_eq!(h.areas[0].category_count, 2);
    assert_eq!(h.areas[0].max_depth, 2);
    assert_eq!(h.areas[1].total_notes, 1);
    assert_eq!(h.areas[1].max_depth, 1);
    assert_eq!(h.areas[1].jd_id.as_deref(), Some("2"));
}

#[test]
fn empty_store_gives_empty_tree() {
    let h = build_hierarchy(&NoteStore::new(vec![]));
    assert_eq!(h.root.deep_note_count(), 0);
    assert_eq!(h.root.max_depth(), 0);
    assert!(h.areas.is_empty());
}
