use noteplan_organizer::analyzer::area_balance::AreaBalanceAnalyzer;
use noteplan_organizer::analyzer::category_sprawl::CategorySprawlAnalyzer;
use noteplan_organizer::analyzer::depth_inconsistency::DepthInconsistencyAnalyzer;
use noteplan_organizer::analyzer::empty_structure::EmptyStructureAnalyzer;
use noteplan_organizer::analyzer::missing_hub::MissingHubAnalyzer;
use noteplan_organizer::analyzer::naming_inconsistency::NamingInconsistencyAnalyzer;
use noteplan_organizer::analyzer::stale_area::{area_activity, find_stale_areas};
use noteplan_organizer::analyzer::Analyzer;
use noteplan_organizer::models::{FindingCategory, NoteKind, Severity};
use noteplan_organizer::parser::markdown::parse_note;
use noteplan_organizer::parser::NoteStore;

fn reg(path: &str) -> noteplan_organizer::models::Note {
    parse_note(&format!("/v/{}", path), path, "# T\nbody", NoteKind::Regular)
}

#[test]
fn sprawl_flags_eleven_numbered_areas() {
    let notes: Vec<_> = (0..11).map(|i| reg(&format!("Notes/{}x - A{}/n.md", i, i))).collect();
    let f = CategorySprawlAnalyzer.analyze(&NoteStore::new(notes));
    assert_eq!(f.len(), 1);
    assert_eq!(f[0].description, "System has 11 JD areas (recommended max is 10)");
    assert_eq!(f[0].file_path, "Notes/");
    assert!(f[0].is_folder);
}

#[test]
fn sprawl_flags_big_category_unnumbered_area_and_root_notes() {
    let mut notes: Vec<_> = (0..51).map(|i| reg(&format!("Notes/1x - A/10 - Big/n{}.md", i))).collect();
    notes.push(reg("Notes/Misc/x.md"));
    notes.push(reg("Notes/loose.md"));
    let f = CategorySprawlAnalyzer.analyze(&NoteStore::new(notes));
    assert_eq!(f.len(), 3);
    assert_eq!(f[0].severity, Severity::Info);
    assert_eq!(f[0].file_path, "Notes/1x - A/10 - Big");
    assert_eq!(f[0].description, "Category '1x - A/10 - Big' has 51 notes — consider splitting into sub-categories");
    assert_eq!(f[1].file_path, "Notes/Misc");
    assert_eq!(f[1].description, "Top-level folder 'Misc' has no JD ID — sits outside the numbering system");
    assert_eq!(f[2].file_path, "Notes/loose.md");
    assert!(!f[2].is_folder);
}

#[test]
fn missing_hub_only_for_numbered_categories_with_three_notes() {
    let notes = vec![
        reg("Notes/1x - A/10 - Cat/a.md"),
        reg("Notes/1x - A/10 - Cat/b.md"),
        reg("Notes/1x - A/10 - Cat/c.md"),
        reg("Notes/1x - A/11 - Small/a.md"),
        reg("Notes/1x - A/Plain/a.md"),
        reg("Notes/1x - A/Plain/b.md"),
        reg("Notes/1x - A/Plain/c.md"),
    ];
    let f = MissingHubAnalyzer.analyze(&NoteStore::new(notes));
    assert_eq!(f.len(), 1);
    assert_eq!(f[0].category, FindingCategory::MissingHub);
    assert_eq!(f[0].description, "Category '1x - A/10 - Cat' (3 notes) has no hub/index note");
}

#[test]
fn missing_hub_satisfied_by_hub_note_in_category() {
    let hub = parse_note(
        "/v/h.md",
        "Notes/1x - A/10 - Cat/00.PH - Hub.md",
        "## Related\n- x\n## Description\ntext",
        NoteKind::Regular,
    );
    let notes = vec![hub, reg("Notes/1x - A/10 - Cat/a.md"), reg("Notes/1x - A/10 - Cat/b.md")];
    assert!(MissingHubAnalyzer.analyze(&NoteStore::new(notes)).is_empty());
}

#[test]
fn area_balance_reports_large_area_with_rounded_average() {
    let mut notes: Vec<_> = (0..10).map(|i| reg(&format!("Notes/1x - Big/10 - C/n{}.md", i))).collect();
    notes.push(reg("Notes/2x - Small/20 - C/a.md"));
    notes.push(reg("Notes/3x - Tiny/30 - C/a.md"));
    notes.push(reg("Notes/4x - Wee/40 - C/a.md"));
    let f = AreaBalanceAnalyzer.analyze(&NoteStore::new(notes));
    assert_eq!(f.len(), 1);
    assert_eq!(f[0].description, "Area '1x - Big' has 10 notes (average is 3) — significantly larger than other areas");
    assert_eq!(f[0].context.as_deref(), Some("1 categories, 10 notes total"));
}

#[test]
fn depth_inconsistency_flags_deep_area_and_spread() {
    let notes = vec![
        reg("Notes/1x - Deep/10 - A/10.01 - B/10.01.01 - C/x/n.md"),
        reg("Notes/2x - Flat/n.md"),
    ];
    let f = DepthInconsistencyAnalyzer.analyze(&NoteStore::new(notes));
    assert_eq!(f.len(), 2);
    assert_eq!(f[0].description, "Area '1x - Deep' has 4 levels of folder nesting (recommended max is 3)");
    assert_eq!(f[1].description, "Folder depth varies significantly across areas (min=0, max=4)");
}

#[test]
fn naming_flags_minority_term_and_separator() {
    let notes = vec![
        reg("Notes/1x - A/10 - Slips/a.md"),
        reg("Notes/1x - A/11 - Slips Two/a.md"),
        reg("Notes/1x - A/12 - Snips/a.md"),
        reg("Notes/1x - A/13- Odd/a.md"),
    ];
    let f = NamingInconsistencyAnalyzer.analyze(&NoteStore::new(notes));
    assert_eq!(f.len(), 2);
    assert_eq!(f[0].file_path, "Notes/12 - Snips");
    assert_eq!(f[0].description, "Folder uses 'Snips' but the majority use 'Slips' — inconsistent naming");
    assert_eq!(f[0].context.as_deref(), Some("2 folders use 'Slips', 1 folders use 'Snips'"));
    assert_eq!(f[1].file_path, "Notes/13- Odd");
    assert_eq!(f[1].description, "Folder uses '- ' separator but most folders use ' - ' — likely a typo");
}

#[test]
fn empty_structure_flags_deep_single_note_leaf() {
    let notes = vec![
        reg("Notes/1x - A/10 - Cat/only.md"),
        reg("Notes/1x - A/11 - Two/a.md"),
        reg("Notes/1x - A/11 - Two/b.md"),
        reg("Notes/1x - A/12 - Parent/p.md"),
        reg("Notes/1x - A/12 - Parent/Child/c.md"),
        reg("Notes/Top/t.md"),
    ];
    let f = EmptyStructureAnalyzer.analyze(&NoteStore::new(notes));
    let paths: Vec<&str> = f.iter().map(|x| x.file_path.as_str()).collect();
    assert_eq!(paths, vec!["Notes/1x - A/10 - Cat", "Notes/1x - A/12 - Parent/Child"]);
    assert_eq!(f[0].description, "Folder '10 - Cat' contains only 1 note — may be over-organized");
}

#[test]
fn stale_area_levels() {
    let notes = vec![
        reg("Notes/1x - Old/10 - C/a.md"),
        reg("Notes/2x - Quiet/20 - C/a.md"),
        reg("Notes/3x - Fresh/30 - C/a.md"),
        reg("Notes/4x - Archive/40 - C/a.md"),
        reg("Notes/5x - Unknown/50 - C/a.md"),
    ];
    let day: i64 = 86_400_000_000_000;
    let now = 1000 * day;
    let modified = vec![Some(now - 200 * day), Some(now - 100 * day), Some(now - 10 * day), Some(0), None];
    let act = area_activity(&NoteStore::new(notes), &modified);
    assert_eq!(act.len(), 3);
    let labels = vec!["L1".to_string(), "L2".to_string(), "L3".to_string()];
    let f = find_stale_areas(&act, now, &labels);
    assert_eq!(f.len(), 2);
    assert_eq!(f[0].severity, Severity::Warning);
    assert_eq!(f[0].description, "Area '1x - Old' has had no modifications in 200 days");
    assert_eq!(f[0].context.as_deref(), Some("Last modified: L1"));
    assert_eq!(f[1].severity, Severity::Info);
    assert_eq!(f[1].file_path, "Notes/2x - Quiet");
}

#[test]
fn stale_area_keeps_latest_modification_per_area() {
    let notes = vec![reg("Notes/1x - A/10 - C/a.md"), reg("Notes/1x - A/10 - C/b.md")];
    let act = area_activity(&NoteStore::new(notes), &vec![Some(5), Some(9)]);
    assert_eq!(act, vec![("1x - A".to_string(), 9)]);
}
