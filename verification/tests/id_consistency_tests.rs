use noteplan_organizer::analyzer::id_consistency::IdConsistencyAnalyzer;
use noteplan_organizer::analyzer::Analyzer;
use noteplan_organizer::models::{Note, NoteKind, Severity};
use noteplan_organizer::parser::markdown::parse_note;
use noteplan_organizer::parser::NoteStore;

fn make_note(relative_path: &str, title: &str) -> Note {
    let content = format!("# {}\nSome content", title);
    parse_note(
        &format!("/fake/{}", relative_path),
        relative_path,
        &content,
        NoteKind::Regular,
    )
}

#[test]
fn test_bare_hub_flagged() {
    let note = make_note(
        "Notes/1x - Projects/10 - MyProject/00 - Hub.md",
        "00 - Hub",
    );
    let store = NoteStore::new(vec![note]);
    let findings = IdConsistencyAnalyzer.analyze(&store);
    assert_eq!(findings.len(), 1);
    assert_eq!(findings[0].severity, Severity::Error);
    assert!(findings[0].description.contains("bare '00'"));
}

#[test]
fn test_hub_code_no_finding() {
    let note = make_note(
        "Notes/1x - Projects/10 - MyProject/00.PH - Project Hub.md",
        "00.PH - Project Hub",
    );
    let store = NoteStore::new(vec![note]);
    let findings = IdConsistencyAnalyzer.analyze(&store);
    assert!(findings.is_empty());
}

#[test]
fn test_sequential_no_finding() {
    let note = make_note(
        "Notes/1x - Projects/10 - MyProject/01 - First.md",
        "01 - First",
    );
    let store = NoteStore::new(vec![note]);
    let findings = IdConsistencyAnalyzer.analyze(&store);
    assert!(findings.is_empty());
}

#[test]
fn test_duplicate_sequential_ids() {
    let note1 = make_note(
        "Notes/1x - Projects/10 - MyProject/01 - First.md",
        "01 - First",
    );
    let note2 = make_note(
        "Notes/1x - Projects/10 - MyProject/01 - Also First.md",
        "01 - Also First",
    );
    let store = NoteStore::new(vec![note1, note2]);
    let findings = IdConsistencyAnalyzer.analyze(&store);
    assert_eq!(findings.len(), 2); // One finding per duplicate
    assert!(findings.iter().all(|f| f.severity == Severity::Warning));
    assert!(findings
        .iter()
        .all(|f| f.description.contains("Duplicate sequential ID")));
}

#[test]
fn test_old_style_jd_id_flagged() {
    let note = make_note(
        "Notes/1x - Projects/10 - MyProject/10.01 - Category/10.01.01 - Deep Note.md",
        "10.01.01 - Deep Note",
    );
    let store = NoteStore::new(vec![note]);
    let findings = IdConsistencyAnalyzer.analyze(&store);
    assert_eq!(findings.len(), 1);
    assert_eq!(findings[0].severity, Severity::Info);
    assert!(findings[0].description.contains("old-style hierarchical ID"));
}

#[test]
fn test_date_prefix_no_finding() {
    let note = make_note(
        "Notes/1x - Projects/10 - MyProject/2026-03-09 - Daily Log.md",
        "2026-03-09 - Daily Log",
    );
    let store = NoteStore::new(vec![note]);
    let findings = IdConsistencyAnalyzer.analyze(&store);
    assert!(findings.is_empty());
}

#[test]
fn test_title_fixed_but_filename_stale_no_finding() {
    // User fixed title from "43.01.01 - X" to "01 - X" but NotePlan
    // didn't rename the file. The analyzer should use the title, not filename.
    let note = make_note(
        "Notes/4x - Family/43 - Daily/43.01 - Category/43.01.01 - The Family - TODOs.md",
        "01 - The Family - TODOs",
    );
    let store = NoteStore::new(vec![note]);
    let findings = IdConsistencyAnalyzer.analyze(&store);
    assert!(
        findings.is_empty(),
        "Should not flag stale filename when title has been fixed to sequential ID"
    );
}

#[test]
fn note_id_outside_its_parent_folder_flagged() {
    let note = make_note(
        "Notes/4x - Finance/42 - Financial/42.02 - Taxes/44.02.02 - Slip.md",
        "44.02.02 - Slip",
    );
    let findings = IdConsistencyAnalyzer.analyze(&NoteStore::new(vec![note]));
    assert_eq!(findings.len(), 1);
    assert_eq!(findings[0].severity, Severity::Warning);
    assert_eq!(findings[0].file_path, "Notes/4x - Finance/42 - Financial/42.02 - Taxes/44.02.02 - Slip.md");
    assert_eq!(findings[0].description, "Note ID '44.02.02' does not match its parent folder's ID '42.02'");
}

#[test]
fn note_sharing_its_folders_id_not_flagged() {
    let note = make_note("Notes/4x - Finance/42 - Financial/42.02 - Taxes/42.02 - Index.md", "42.02 - Index");
    let findings = IdConsistencyAnalyzer.analyze(&NoteStore::new(vec![note]));
    assert!(findings.is_empty(), "{:?}", findings.iter().map(|f| &f.description).collect::<Vec<_>>());
}
