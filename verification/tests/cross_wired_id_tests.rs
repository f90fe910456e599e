use noteplan_organizer::analyzer::cross_wired_id::CrossWiredIdAnalyzer;
use noteplan_organizer::analyzer::Analyzer;
use noteplan_organizer::models::NoteKind;
use noteplan_organizer::parser::markdown::parse_note;
use noteplan_organizer::parser::NoteStore;

#[test]
fn test_sequential_id_skipped() {
    // Sequential IDs should not trigger cross-wired findings
    let content = "# 01 - My Note\nContent";
    let note = parse_note(
        "/fake/Notes/5x - Refs/50 - Products/01 - My Note.md",
        "Notes/5x - Refs/50 - Products/01 - My Note.md",
        content,
        NoteKind::Regular,
    );
    let store = NoteStore::new(vec![note]);
    let findings = CrossWiredIdAnalyzer.analyze(&store);
    assert!(findings.is_empty());
}

#[test]
fn test_date_id_skipped() {
    let content = "# 2026-03-09 - Daily Log\nContent";
    let note = parse_note(
        "/fake/Notes/5x - Refs/50 - Products/2026-03-09 - Daily Log.md",
        "Notes/5x - Refs/50 - Products/2026-03-09 - Daily Log.md",
        content,
        NoteKind::Regular,
    );
    let store = NoteStore::new(vec![note]);
    let findings = CrossWiredIdAnalyzer.analyze(&store);
    assert!(findings.is_empty());
}

#[test]
fn test_hub_code_skipped() {
    let content = "# 00.PH - Project Hub\nContent";
    let note = parse_note(
        "/fake/Notes/5x - Refs/50 - Products/00.PH - Project Hub.md",
        "Notes/5x - Refs/50 - Products/00.PH - Project Hub.md",
        content,
        NoteKind::Regular,
    );
    let store = NoteStore::new(vec![note]);
    let findings = CrossWiredIdAnalyzer.analyze(&store);
    assert!(findings.is_empty());
}

#[test]
fn test_jd_id_cross_wired_still_flagged() {
    // A JD-dotted ID that doesn't match its folder should still be flagged
    let content = "# 31.03.01 - Units\nContent";
    let note = parse_note(
        "/fake/Notes/5x - Refs/50 - Products/50.04 - Agronomy/31.03.01 - Units.md",
        "Notes/5x - Refs/50 - Products/50.04 - Agronomy/31.03.01 - Units.md",
        content,
        NoteKind::Regular,
    );
    let store = NoteStore::new(vec![note]);
    let findings = CrossWiredIdAnalyzer.analyze(&store);
    assert_eq!(findings.len(), 1);
    assert!(findings[0].description.contains("31.03.01"));
}
