use noteplan_organizer::models::NoteKind;
use noteplan_organizer::parser::files::{classify_calendar_note, is_note_file, parse_note_file};

#[test]
fn calendar_notes_classified_by_stem() {
    assert_eq!(classify_calendar_note("/v/Calendar/20260702.md"), NoteKind::Daily);
    assert_eq!(classify_calendar_note("/v/Calendar/2026-W27.md"), NoteKind::Weekly);
    assert_eq!(classify_calendar_note("/v/Calendar/2026-07.md"), NoteKind::Monthly);
    assert_eq!(classify_calendar_note("/v/Calendar/2026-Q3.md"), NoteKind::Quarterly);
    assert_eq!(classify_calendar_note("/v/Calendar/2026.md"), NoteKind::Yearly);
    // Odd names fall back to daily.
    assert_eq!(classify_calendar_note("/v/Calendar/2026-7.md"), NoteKind::Daily);
    assert_eq!(classify_calendar_note("/v/Calendar/26-W27.md"), NoteKind::Daily);
    assert_eq!(classify_calendar_note("/v/Calendar/2026-W.md"), NoteKind::Daily);
    assert_eq!(classify_calendar_note("/v/Calendar/notes.md"), NoteKind::Daily);
    assert_eq!(classify_calendar_note("/v/Calendar/202.md"), NoteKind::Daily);
}

#[test]
fn only_md_and_txt_files_are_notes() {
    assert!(is_note_file("/v/Notes/a.md"));
    assert!(is_note_file("/v/Notes/b.c.txt"));
    assert!(!is_note_file("/v/Notes/image.png"));
    assert!(!is_note_file("/v/Notes/.md"));
    assert!(!is_note_file("/v/Notes/README"));
    assert!(!is_note_file("/v/Notes/dir/"));
}

#[test]
fn templates_parsed_as_templates() {
    let t = parse_note_file("/v/Notes/@Templates/t.md", "Notes/@Templates/t.md", "# T", NoteKind::Regular);
    assert_eq!(t.kind, NoteKind::Template);
    let n = parse_note_file("/v/Calendar/2026.md", "Calendar/2026.md", "# Y", NoteKind::Yearly);
    assert_eq!(n.kind, NoteKind::Yearly);
    assert_eq!(n.relative_path, "Calendar/2026.md");
}

use noteplan_organizer::parser::files::{check_noteplan_path, has_note_changes, list_daily_notes};

#[test]
fn only_note_file_changes_warrant_a_rescan() {
    assert!(!has_note_changes(&vec!["/v/Notes/.DS_Store".to_string(), "/v/Notes/x.icloud".to_string()]));
    assert!(has_note_changes(&vec!["/v/Notes/.DS_Store".to_string(), "/v/Calendar/20260101.txt".to_string()]));
    assert!(!has_note_changes(&vec![]));
}

#[test]
fn daily_notes_listed_newest_first() {
    let paths: Vec<String> = [
        "/v/Calendar/20260101.md",
        "/v/Calendar/2026-W01.md",
        "/v/Calendar/20260315.txt",
        "/v/Calendar/20251231.md",
        "/v/Calendar/2026010.md",
        "/v/Calendar/20260315.md",
        "/v/Calendar/notes.png",
    ]
    .iter()
    .map(|s| s.to_string())
    .collect();
    let listed: Vec<(String, String)> =
        list_daily_notes(&paths).into_iter().map(|d| (d.date_label, d.file_path)).collect();
    assert_eq!(
        listed,
        vec![
            ("2026-03-15".to_string(), "/v/Calendar/20260315.txt".to_string()),
            ("2026-03-15".to_string(), "/v/Calendar/20260315.md".to_string()),
            ("2026-01-01".to_string(), "/v/Calendar/20260101.md".to_string()),
            ("2025-12-31".to_string(), "/v/Calendar/20251231.md".to_string()),
        ]
    );
}

#[test]
fn paths_outside_the_vault_are_refused() {
    let base = "/Users/me/Library/Containers/co.noteplan.NotePlan3/Data";
    assert_eq!(check_noteplan_path("/Users/me/Library/Containers/co.noteplan.NotePlan3/Data/Notes/a.md", Some(base)), Ok(()));
    assert_eq!(check_noteplan_path(base, Some(base)), Ok(()));
    assert_eq!(
        check_noteplan_path("/Users/me/Library/Containers/co.noteplan.NotePlan3/DataX/a.md", Some(base)),
        Err("Access denied: path is outside the NotePlan data directory".to_string())
    );
    assert!(check_noteplan_path("/etc/passwd", Some(base)).is_err());
    assert_eq!(check_noteplan_path("/x/iCloud~co~noteplan~NotePlan3/Documents/a.md", None), Ok(()));
    assert!(check_noteplan_path("/tmp/a.md", None).is_err());
}
