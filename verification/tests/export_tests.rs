use noteplan_organizer::export::{assemble_context, generate_assessment_context, ASSESSMENT_PROMPT};
use noteplan_organizer::models::{Finding, FindingCategory, Note, NoteKind, Severity};
use noteplan_organizer::parser::markdown::parse_note;
use noteplan_organizer::parser::NoteStore;

fn reg(path: &str, content: &str) -> Note {
    parse_note(&format!("/v/{}", path), path, content, NoteKind::Regular)
}

fn finding(path: &str, category: FindingCategory, is_folder: bool) -> Finding {
    Finding {
        severity: Severity::Warning,
        category,
        file_path: path.to_string(),
        description: "d".to_string(),
        suggestion: None,
        line_number: None,
        context: None,
        is_folder,
    }
}

fn guide_store() -> NoteStore {
    NoteStore::new(vec![
        reg("Notes/Guide.md", "# My System Guide\nSee [[Child]] and [[Other]]"),
        reg("Notes/Child.md", "# Child\nThen [[Grandchild]]"),
        reg("Notes/Other.md", "# Other\nBack to [[My System Guide]]"),
        reg("Notes/Grandchild.md", "# Grandchild\nDeeper [[Great]]"),
        reg("Notes/Great.md", "# Great\nend"),
    ])
}

#[test]
fn context_opens_with_the_prompt() {
    let out = assemble_context(&NoteStore::new(vec![]), None, "DUMP\n", &vec![]);
    assert!(out.starts_with(&format!("<assessment_prompt>\n{}\n</assessment_prompt>\n\n<system_guide>\n", ASSESSMENT_PROMPT)));
    assert!(ASSESSMENT_PROMPT.starts_with("You are analyzing a NotePlan-based personal knowledge management system"));
    assert!(out.contains("</system_guide>\n\n<system_dump>\nDUMP\n</system_dump>\n\n<flagged_notes>\n"));
    assert!(out.ends_with("</flagged_notes>\n"));
}

#[test]
fn no_guide_and_no_flags_messages() {
    let out = assemble_context(&NoteStore::new(vec![reg("Notes/a.md", "# A")]), None, "", &vec![]);
    assert!(out.contains(
        "<system_guide>\nNo system guide note found. Create a note with 'System Guide' in the title to include your organizational conventions in future exports.\n</system_guide>\n"
    ));
    assert!(out.contains(
        "<flagged_notes>\nNo flagged notes found. All notes appear to be well-organized according to the automated checks.\n</flagged_notes>\n"
    ));
}

#[test]
fn guide_links_followed_two_deep_breadth_first() {
    let out = assemble_context(&guide_store(), None, "", &vec![]);
    let guide = "<system_guide>\n## Entry Point: My System Guide\n\n# My System Guide\nSee [[Child]] and [[Other]]\n\n\
                 ---\n\n## Linked: Child\n\n# Child\nThen [[Grandchild]]\n\n\
                 ---\n\n## Linked: Other\n\n# Other\nBack to [[My System Guide]]\n\n\
                 ---\n\n## Linked: Grandchild\n\n# Grandchild\nDeeper [[Great]]\n\n</system_guide>\n";
    assert!(out.contains(guide));
    assert!(!out.contains("## Linked: Great"));
}

#[test]
fn guide_title_picks_the_entry_ignoring_case() {
    let out = assemble_context(&guide_store(), Some("grandchild"), "", &vec![]);
    assert!(out.contains("## Entry Point: Grandchild\n"));
    assert!(out.contains("## Linked: Great\n"));
    // An unknown title falls back to the note that mentions "system guide".
    let out = assemble_context(&guide_store(), Some("nothing"), "", &vec![]);
    assert!(out.contains("## Entry Point: My System Guide\n"));
}

#[test]
fn guide_walk_stops_at_twenty_notes() {
    let mut notes = vec![];
    let mut hub = String::from("# System Guide\n");
    for i in 0..25 {
        hub.push_str(&format!("[[N{}]]\n", i));
        notes.push(reg(&format!("Notes/N{}.md", i), &format!("# N{}\nx", i)));
    }
    notes.insert(0, reg("Notes/Hub.md", &hub));
    let out = assemble_context(&NoteStore::new(notes), None, "", &vec![]);
    assert_eq!(out.matches("## Linked: ").count(), 20);
    assert!(out.contains("## Linked: N19\n"));
    assert!(!out.contains("## Linked: N20\n"));
}

#[test]
fn flagged_notes_grouped_sorted_and_labelled() {
    let store = NoteStore::new(vec![reg("Notes/b.md", "# B\nline one\nline two"), reg("Notes/a.md", "# A")]);
    let findings = vec![
        finding("Notes/b.md", FindingCategory::OrphanedNote, false),
        finding("Notes/b.md", FindingCategory::BrokenLink, false),
        finding("Notes/b.md", FindingCategory::OrphanedNote, false),
        finding("Notes/a.md", FindingCategory::Duplicate, false),
        finding("Notes", FindingCategory::UnfiledSlip, true),
        finding("Notes/missing.md", FindingCategory::CrossWiredId, false),
    ];
    let out = assemble_context(&store, None, "", &findings);
    let expect = "<flagged_notes>\n2 notes flagged by automated analysis:\n\n\
                  ## Notes/b.md (Flagged: Broken Link, Orphaned Note)\n\n# B\nline one\nline two\n\n---\n\n\
                  ## Notes/missing.md (Flagged: Cross-wired ID)\n\n(Note content not available)\n\n---\n\n\
                  </flagged_notes>\n";
    assert!(out.ends_with(expect), "{}", out);
}

#[test]
fn flagged_note_content_cut_at_five_hundred_lines() {
    let mut content = String::from("# Long\n");
    for i in 1..=600 {
        content.push_str(&format!("l{}\n", i));
    }
    let store = NoteStore::new(vec![reg("Notes/long.md", &content)]);
    let out = assemble_context(&store, None, "", &vec![finding("Notes/long.md", FindingCategory::IdConsistency, false)]);
    assert!(out.contains("l498\nl499\n\n[...truncated, 101 more lines]\n\n---\n\n"));
    assert!(!out.contains("l500"));
}

#[test]
fn flagged_list_capped_at_thirty() {
    let findings: Vec<Finding> =
        (0..35).map(|i| finding(&format!("Notes/n{:02}.md", i), FindingCategory::OrphanedNote, false)).collect();
    let out = assemble_context(&NoteStore::new(vec![]), None, "", &findings);
    assert!(out.contains("30 notes flagged by automated analysis:\n\n"));
    assert!(out.contains("## Notes/n29.md "));
    assert!(!out.contains("## Notes/n30.md "));
}

#[test]
fn oversized_context_cut_to_budget_at_a_line() {
    let dump: String = "0123456789\n".repeat(30_000);
    let out = assemble_context(&NoteStore::new(vec![]), None, &dump, &vec![]);
    let notice = "\n[...output truncated to fit context window budget. Some flagged notes were omitted. Re-run with fewer findings to see all.]\n</flagged_notes>\n";
    assert!(out.ends_with(&format!("0123456789\n{}", notice)));
    assert!(out.len() <= 200_000);
    assert!(out.len() - notice.len() <= 199_800);
    assert!(out.len() - notice.len() > 199_800 - 11);
}

#[test]
fn generate_context_is_always_ok() {
    let store = guide_store();
    let r = generate_assessment_context(&store, "/v", None, &vec![None; 5], "0.0", "0.0");
    let text = r.unwrap();
    assert!(text.contains("<system_dump>\n╔"));
    assert!(text.contains("## Entry Point: My System Guide"));
}
