use noteplan_organizer::models::NoteIdKind;
use noteplan_organizer::parser::folder::{parent_jd_id_from_path, parse_jd_id, parse_note_id};
use noteplan_organizer::parser::link::extract_wiki_links;

#[test]
fn test_parse_jd_id() {
    assert_eq!(parse_jd_id("42.02 - Taxes"), Some("42.02".into()));
    assert_eq!(
        parse_jd_id("30.10.01.2023-05-11 - Near Future.md"),
        Some("30.10.01.2023".into())
    );
    assert_eq!(parse_jd_id("28.03 - Taxes 2023.md"), Some("28.03".into()));
    assert_eq!(parse_jd_id("My Random Note.md"), None);
    assert_eq!(parse_jd_id("@Templates"), None);
    assert_eq!(parse_jd_id("1x - Projects [Work]"), Some("1".into()));
}

#[test]
fn test_parent_jd_id() {
    assert_eq!(
        parent_jd_id_from_path("Notes/42 - Financial/42.02 - Taxes/42.02.01 - Slips"),
        Some("42.02".into())
    );
}

#[test]
fn test_parse_note_id_hub_code() {
    assert_eq!(
        parse_note_id("00.PH - Project Hub.md"),
        Some(("00.PH".into(), NoteIdKind::HubCode))
    );
    assert_eq!(
        parse_note_id("00.DH - Domain Hub"),
        Some(("00.DH".into(), NoteIdKind::HubCode))
    );
    assert_eq!(
        parse_note_id("00.RH - Reference Hub.md"),
        Some(("00.RH".into(), NoteIdKind::HubCode))
    );
}

#[test]
fn test_parse_note_id_date() {
    assert_eq!(
        parse_note_id("2026-03-09 - Daily Note.md"),
        Some(("2026-03-09".into(), NoteIdKind::DatePrefix))
    );
    assert_eq!(
        parse_note_id("2024-12-25 - Christmas"),
        Some(("2024-12-25".into(), NoteIdKind::DatePrefix))
    );
}

#[test]
fn test_parse_note_id_sequential() {
    assert_eq!(
        parse_note_id("01 - First Note.md"),
        Some(("01".into(), NoteIdKind::Sequential))
    );
    assert_eq!(
        parse_note_id("42 - The Answer"),
        Some(("42".into(), NoteIdKind::Sequential))
    );
}

#[test]
fn test_parse_note_id_jd_dotted() {
    assert_eq!(
        parse_note_id("42.02 - Taxes.md"),
        Some(("42.02".into(), NoteIdKind::JdDotted))
    );
    assert_eq!(
        parse_note_id("42.02.01 - Tax Slips"),
        Some(("42.02.01".into(), NoteIdKind::JdDotted))
    );
}

#[test]
fn test_parse_note_id_bare_hub() {
    assert_eq!(
        parse_note_id("00 - Some Hub.md"),
        Some(("00".into(), NoteIdKind::BareHub))
    );
}

#[test]
fn test_parse_note_id_single_digit() {
    assert_eq!(
        parse_note_id("1x - Projects [Work]"),
        Some(("1".into(), NoteIdKind::JdDotted))
    );
}

#[test]
fn test_parse_note_id_no_id() {
    assert_eq!(parse_note_id("My Random Note.md"), None);
    assert_eq!(parse_note_id("@Templates"), None);
}

#[test]
fn hub_code_needs_word_boundary() {
    assert_eq!(
        parse_note_id("00.PHX notes"),
        Some(("00".into(), NoteIdKind::BareHub))
    );
}

#[test]
fn test_extract_wiki_links() {
    let content = "See [[My Note]] and also [[2025-07-28]] for details.\nAnother [[Link Here]].";
    let links = extract_wiki_links(content);
    assert_eq!(links.len(), 3);
    assert_eq!(links[0].target, "My Note");
    assert_eq!(links[0].line_number, 1);
    assert_eq!(links[1].target, "2025-07-28");
    assert_eq!(links[2].target, "Link Here");
    assert_eq!(links[2].line_number, 2);
}

#[test]
fn test_no_links() {
    let content = "Just plain text with no links.";
    assert!(extract_wiki_links(content).is_empty());
}

#[test]
fn triple_bracket_link_takes_inner_text() {
    let links = extract_wiki_links("[[[a]] and [[b]");
    assert_eq!(links.len(), 1);
    assert_eq!(links[0].target, "[a");
}
