use noteplan_organizer::app_state::{NoteStoreCache, WriteSuppression};
use noteplan_organizer::commands::perform_scan;
use noteplan_organizer::models::{Finding, FindingCategory, NoteKind, Severity};
use noteplan_organizer::parser::markdown::parse_note;
use noteplan_organizer::parser::NoteStore;
use noteplan_organizer::report::Report;

fn finding(category: FindingCategory, severity: Severity) -> Finding {
    Finding {
        severity,
        category,
        file_path: "Notes/a.md".to_string(),
        description: "d".to_string(),
        suggestion: None,
        line_number: None,
        context: None,
        is_folder: false,
    }
}

#[test]
fn report_tallies_by_variant_name_and_severity() {
    let findings = vec![
        finding(FindingCategory::IdConsistency, Severity::Warning),
        finding(FindingCategory::BrokenLink, Severity::Info),
        finding(FindingCategory::IdConsistency, Severity::Error),
        finding(FindingCategory::CrossWiredId, Severity::Warning),
    ];
    let r = Report::new(findings, 7, 3, 1, "/vault".to_string());
    assert_eq!(r.stats.total_notes, 7);
    assert_eq!(r.stats.total_daily_notes, 3);
    assert_eq!(r.stats.total_weekly_notes, 1);
    assert_eq!(r.stats.total_findings, 4);
    assert_eq!(
        r.stats.findings_by_category,
        vec![("IdConsistency".to_string(), 2), ("BrokenLink".to_string(), 1), ("CrossWiredId".to_string(), 1)]
    );
    assert_eq!(
        r.stats.findings_by_severity,
        vec![("Warning".to_string(), 2), ("Info".to_string(), 1), ("Error".to_string(), 1)]
    );
    assert_eq!(r.noteplan_path, "/vault");
    assert_eq!(r.findings.len(), 4);
    assert_eq!(r.scanned_at.len(), 19);
    let sum: usize = r.stats.findings_by_category.iter().map(|e| e.1).sum();
    assert_eq!(sum, r.stats.total_findings);
}

#[test]
fn report_of_no_findings_is_empty() {
    let r = Report::new(vec![], 0, 0, 0, String::new());
    assert_eq!(r.stats.total_findings, 0);
    assert!(r.stats.findings_by_category.is_empty());
    assert!(r.stats.findings_by_severity.is_empty());
}

#[test]
fn scan_of_missing_path_is_refused() {
    let mut cache = NoteStoreCache::default();
    let r = perform_scan("/nope", None, &mut cache);
    assert_eq!(r.err(), Some("Path does not exist: /nope".to_string()));
    assert!(cache.store.is_none());
}

#[test]
fn scan_counts_notes_and_fills_the_cache() {
    let notes = vec![
        parse_note("/v/Notes/a.md", "Notes/a.md", "# A", NoteKind::Regular),
        parse_note("/v/Notes/b.md", "Notes/b.md", "# B", NoteKind::Regular),
        parse_note("/v/Calendar/20260101.md", "Calendar/20260101.md", "# d", NoteKind::Daily),
        parse_note("/v/Calendar/2026-W01.md", "Calendar/2026-W01.md", "# w", NoteKind::Weekly),
    ];
    let mut cache = NoteStoreCache::default();
    let r = perform_scan("/v", Some((NoteStore::new(notes), vec![None; 4])), &mut cache).unwrap();
    assert_eq!(r.stats.total_notes, 2);
    assert_eq!(r.stats.total_daily_notes, 1);
    assert_eq!(r.stats.total_weekly_notes, 1);
    assert_eq!(r.stats.total_findings, r.findings.len());
    assert_eq!(r.noteplan_path, "/v");
    assert_eq!(cache.store.as_ref().map(|s| s.notes.len()), Some(4));
}

#[test]
fn write_suppression_extends_never_shortens() {
    let mut w = WriteSuppression::new();
    assert!(!w.is_suppressed(0));
    w.suppress(10, 5);
    assert!(w.is_suppressed(14));
    assert!(!w.is_suppressed(15));
    w.suppress(11, 1);
    assert!(w.is_suppressed(14));
    w.suppress(12, 10);
    assert!(w.is_suppressed(21));
    assert!(!w.is_suppressed(22));
    assert_eq!(w.deadline, Some(22));
    assert!(WriteSuppression::default().deadline.is_none());
}

#[test]
fn cache_set_replaces_store() {
    let mut cache = NoteStoreCache::default();
    cache.set(NoteStore::new(vec![]));
    assert_eq!(cache.store.as_ref().map(|s| s.notes.len()), Some(0));
    cache.set(NoteStore::new(vec![parse_note("/x", "Notes/x.md", "# X", NoteKind::Regular)]));
    assert_eq!(cache.store.as_ref().map(|s| s.notes.len()), Some(1));
}
