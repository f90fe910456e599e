use chrono::{Datelike, NaiveDate};
use noteplan_organizer::analyzer::broken_links::BrokenLinkAnalyzer;
use noteplan_organizer::analyzer::duplicates::DuplicateAnalyzer;
use noteplan_organizer::analyzer::hub_completeness::HubCompletenessAnalyzer;
use noteplan_organizer::analyzer::orphaned_notes::OrphanedNoteAnalyzer;
use noteplan_organizer::analyzer::run_all_analyzers;
use noteplan_organizer::analyzer::stale_tasks::{find_stale_tasks, StaleTaskAnalyzer};
use noteplan_organizer::analyzer::template_placeholders::TemplatePlaceholderAnalyzer;
use noteplan_organizer::analyzer::unfiled::UnfiledSlipAnalyzer;
use noteplan_organizer::analyzer::Analyzer;
use noteplan_organizer::models::{FindingCategory, NoteKind, Severity};
use noteplan_organizer::parser::markdown::parse_note;
use noteplan_organizer::parser::NoteStore;

fn note(path: &str, content: &str, kind: NoteKind) -> noteplan_organizer::models::Note {
    parse_note(&format!("/v/{}", path), path, content, kind)
}

#[test]
fn broken_link_reported_with_line_and_context() {
    let a = note("Notes/a.md", "# A\nsee [[Missing Note]]\nand [[b]] and [[2026-01-01]]", NoteKind::Regular);
    let b = note("Notes/b.md", "# B\n", NoteKind::Regular);
    let d = note("Calendar/20260101.md", "# 2026-01-01\n", NoteKind::Daily);
    let f = BrokenLinkAnalyzer.analyze(&NoteStore::new(vec![a, b, d]));
    assert_eq!(f.len(), 1);
    assert_eq!(f[0].description, "Broken wiki-link: [[Missing Note]]");
    assert_eq!(f[0].line_number, Some(2));
    assert_eq!(f[0].context.as_deref(), Some("[[Missing Note]]"));
}

#[test]
fn date_link_without_daily_note_is_broken() {
    let a = note("Notes/a.md", "# A\nsee [[2026-01-01]]\nand [[2026-01-02]]", NoteKind::Regular);
    let d = note("Calendar/20260101.md", "# 2026-01-01\n", NoteKind::Daily);
    let f = BrokenLinkAnalyzer.analyze(&NoteStore::new(vec![a, d]));
    assert_eq!(f.len(), 1);
    assert_eq!(f[0].category, FindingCategory::BrokenLink);
    assert_eq!(f[0].severity, Severity::Warning);
    assert_eq!(f[0].description, "Broken wiki-link: [[2026-01-02]]");
    assert_eq!(f[0].line_number, Some(3));
    assert_eq!(
        f[0].suggestion.as_deref(),
        Some("No daily note found for '2026-01-02' in Calendar/. Create it or fix the link.")
    );
}

#[test]
fn orphan_reported_unless_linked_or_in_slips() {
    let a = note("Notes/a.md", "# Alpha\nlink to [[beta]]", NoteKind::Regular);
    let b = note("Notes/b.md", "# Beta\n", NoteKind::Regular);
    let s = note("Notes/00 - Slips/s.md", "# Slip\n", NoteKind::Regular);
    let f = OrphanedNoteAnalyzer.analyze(&NoteStore::new(vec![a, b, s]));
    assert_eq!(f.len(), 1);
    assert_eq!(f[0].file_path, "Notes/a.md");
    assert_eq!(f[0].description, "Orphaned note: no other notes link to 'Alpha'");
}

#[test]
fn self_linked_note_is_still_orphaned() {
    let a = note("Notes/10 - X/a.md", "# Solo\nsee [[Solo]]", NoteKind::Regular);
    let f = OrphanedNoteAnalyzer.analyze(&NoteStore::new(vec![a]));
    assert_eq!(f.len(), 1);
    assert_eq!(f[0].file_path, "Notes/10 - X/a.md");
    assert_eq!(f[0].category, FindingCategory::OrphanedNote);
}

#[test]
fn duplicates_grouped_by_exact_title() {
    let notes = vec![
        note("Notes/x/a.md", "# Same\n", NoteKind::Regular),
        note("Notes/y/a.md", "# Same\n", NoteKind::Regular),
        note("Notes/z/a.md", "# Other\n", NoteKind::Regular),
        note("Notes/@Trash/a.md", "# Same\n", NoteKind::Regular),
    ];
    let f = DuplicateAnalyzer.analyze(&NoteStore::new(notes));
    assert_eq!(f.len(), 1);
    assert_eq!(f[0].file_path, "Notes/x/a.md");
    assert_eq!(f[0].description, "Duplicate note name 'Same' found in 2 locations");
    assert_eq!(f[0].context.as_deref(), Some("  - Notes/x/a.md\n  - Notes/y/a.md"));
}

#[test]
fn template_title_flagged_outside_templates() {
    let a = note("Notes/a.md", "# [Project Name] plan\n", NoteKind::Regular);
    let t = note("Notes/@Templates/t.md", "# [Project Name]\n", NoteKind::Template);
    let f = TemplatePlaceholderAnalyzer.analyze(&NoteStore::new(vec![a, t]));
    assert_eq!(f.len(), 1);
    assert_eq!(f[0].description, "Note created from template but never renamed: '[Project Name] plan'");
}

#[test]
fn unfiled_slip_severity_follows_content() {
    let empty = note("Notes/a.md", "# [Add ID] x\n", NoteKind::Regular);
    let full = note("Notes/b.md", "# [Add Title]\n1\n2\n3\n", NoteKind::Regular);
    let f = UnfiledSlipAnalyzer.analyze(&NoteStore::new(vec![empty, full]));
    assert_eq!(f.len(), 2);
    assert_eq!(f[0].severity, Severity::Info);
    assert_eq!(f[0].description, "Unfiled slip: '[Add ID] x' (appears to be an empty template)");
    assert_eq!(f[1].severity, Severity::Warning);
    assert_eq!(f[1].description, "Unfiled slip: '[Add Title]' (has content that should be filed)");
}

#[test]
fn hub_completeness_reports_empty_sections_and_placeholders() {
    let hub = note(
        "Notes/h.md",
        "## Related\n\n## Description\n- item\n## Tags\n\n## Summary\n[Brief description]",
        NoteKind::Regular,
    );
    let f = HubCompletenessAnalyzer.analyze(&NoteStore::new(vec![hub]));
    assert!(f.iter().any(|x| x.description == "Hub note has empty section: '## Related'" && x.line_number == Some(1)));
    assert!(f.iter().all(|x| x.description != "Hub note has empty section: '## Tags'"));
    let last = f.last().unwrap();
    assert_eq!(last.severity, Severity::Warning);
    assert!(last.description.starts_with("Hub note contains 1 unfilled placeholder(s): "));
}

#[test]
fn stale_tasks_prefer_rescheduled_date() {
    let today = NaiveDate::from_ymd_opt(2026, 3, 31).unwrap().num_days_from_ce();
    let d = note(
        "Calendar/20260301.md",
        "# d\n* old one <2026-03-01 >2026-01-01\n* due >2026-03-20\n* late >2026-02-01\n* done task\n",
        NoteKind::Daily,
    );
    let f = find_stale_tasks(&NoteStore::new(vec![d]), today);
    assert_eq!(f.len(), 2);
    assert_eq!(f[0].category, FindingCategory::StaleTask);
    assert_eq!(f[0].severity, Severity::Info);
    assert!(f[0].description.starts_with("Task rescheduled from 2026-03-01 (30 days ago): "));
    assert_eq!(f[0].line_number, Some(2));
    assert_eq!(f[1].severity, Severity::Warning);
    assert!(f[1].description.starts_with("Task scheduled for 2026-02-01 is 58 days overdue: "));
}

#[test]
fn stale_task_text_truncated_to_eighty_bytes() {
    let today = NaiveDate::from_ymd_opt(2026, 3, 31).unwrap().num_days_from_ce();
    let long = "x".repeat(100);
    let d = note("Calendar/20260301.md", &format!("# d\n* {} >2026-01-01\n", long), NoteKind::Weekly);
    let f = find_stale_tasks(&NoteStore::new(vec![d]), today);
    assert_eq!(f.len(), 1);
    assert!(f[0].description.ends_with(&format!("{}...", "x".repeat(80))));
}

#[test]
fn run_all_concatenates_in_order() {
    let a = note("Notes/a.md", "# [Add ID] a\nsee [[Nowhere]]", NoteKind::Regular);
    let f = run_all_analyzers(&NoteStore::new(vec![a]), vec![None]);
    let cats: Vec<FindingCategory> = f.iter().map(|x| x.category).collect();
    let pos_unfiled = cats.iter().position(|c| *c == FindingCategory::UnfiledSlip).unwrap();
    let pos_broken = cats.iter().position(|c| *c == FindingCategory::BrokenLink).unwrap();
    let pos_orphan = cats.iter().position(|c| *c == FindingCategory::OrphanedNote).unwrap();
    assert!(pos_unfiled < pos_broken && pos_broken < pos_orphan);
}

#[test]
fn very_old_rescheduled_task_is_stale_whatever_the_clock() {
    let d = note("Calendar/20260301.md", "# d\n* pay the bill <1600-01-01\n", NoteKind::Daily);
    let f = StaleTaskAnalyzer.analyze(&NoteStore::new(vec![d]));
    assert_eq!(f.len(), 1);
    assert_eq!(f[0].category, FindingCategory::StaleTask);
    assert_eq!(f[0].severity, Severity::Warning);
}
