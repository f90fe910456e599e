use noteplan_organizer::models::BlockKind;
use noteplan_organizer::parser::block::extract_content_blocks;

#[test]
fn test_basic_headed_sections() {
    let content = "# 20260316\n## Meeting Notes\n- Discussed roadmap\n- Action items\n## \
                   Tasks\n* Review PR #work\n";
    let blocks = extract_content_blocks(content);
    assert_eq!(blocks.len(), 2);
    assert_eq!(blocks[0].kind, BlockKind::Heading);
    assert_eq!(blocks[0].heading.as_deref(), Some("Meeting Notes"));
    assert_eq!(blocks[0].start_line, 2);
    assert_eq!(blocks[1].kind, BlockKind::Heading);
    assert_eq!(blocks[1].heading.as_deref(), Some("Tasks"));
}

#[test]
fn test_loose_tasks() {
    let content = "# Daily\n* Buy groceries #home\n* Call dentist\n";
    let blocks = extract_content_blocks(content);
    assert_eq!(blocks.len(), 1);
    assert_eq!(blocks[0].kind, BlockKind::TaskGroup);
    assert!(blocks[0].tags.contains(&"home".to_string()));
}

#[test]
fn test_loose_paragraph() {
    let content = "# Daily\nSome thoughts about the project.\nMore thoughts here.\n";
    let blocks = extract_content_blocks(content);
    assert_eq!(blocks.len(), 1);
    assert_eq!(blocks[0].kind, BlockKind::Paragraph);
    assert!(blocks[0].raw_text.contains("Some thoughts"));
}

#[test]
fn test_mixed_content() {
    let content = "# 20260316\nA loose thought.\n\n* Task one\n* Task two\n\n## Project \
                   X\nNotes about project X.\n[[Project X Hub]]\n";
    let blocks = extract_content_blocks(content);
    assert_eq!(blocks.len(), 3);
    assert_eq!(blocks[0].kind, BlockKind::Paragraph);
    assert_eq!(blocks[1].kind, BlockKind::TaskGroup);
    assert_eq!(blocks[2].kind, BlockKind::Heading);
    assert_eq!(blocks[2].heading.as_deref(), Some("Project X"));
    assert!(blocks[2].wiki_links.contains(&"Project X Hub".to_string()));
}

#[test]
fn test_frontmatter_skipped() {
    let content = "---\ntitle: Daily\ndate: 2026-03-16\n---\n# 20260316\nSome content.\n";
    let blocks = extract_content_blocks(content);
    assert_eq!(blocks.len(), 1);
    assert_eq!(blocks[0].kind, BlockKind::Paragraph);
}

#[test]
fn test_empty_note() {
    let content = "# 20260316\n\n";
    let blocks = extract_content_blocks(content);
    assert_eq!(blocks.len(), 0);
}

#[test]
fn test_nested_headings_stay_grouped() {
    let content = "# Daily\n## Project X\n### Design\nDesign notes\n### Implementation\nImpl \
                   notes\n## Other\nStuff\n";
    let blocks = extract_content_blocks(content);
    assert_eq!(blocks.len(), 2);
    assert_eq!(blocks[0].heading.as_deref(), Some("Project X"));
    assert!(blocks[0].raw_text.contains("Design notes"));
    assert!(blocks[0].raw_text.contains("Impl notes"));
    assert_eq!(blocks[1].heading.as_deref(), Some("Other"));
}

#[test]
fn test_tags_and_mentions_extracted() {
    let content = "# Daily\n## Standup\nDiscussed with @alice about #backend refactor\n";
    let blocks = extract_content_blocks(content);
    assert_eq!(blocks.len(), 1);
    assert!(blocks[0].tags.contains(&"backend".to_string()));
    assert!(blocks[0].mentions.contains(&"alice".to_string()));
}

#[test]
fn test_checkbox_tasks_recognized() {
    let content = "# Daily\n- [x] Done task @done(2026-03-16)\n- [ ] Open task\n";
    let blocks = extract_content_blocks(content);
    assert_eq!(blocks.len(), 1);
    assert_eq!(blocks[0].kind, BlockKind::TaskGroup);
}

#[test]
fn test_no_title_heading() {
    let content = "## Meeting\nNotes here\n";
    let blocks = extract_content_blocks(content);
    assert_eq!(blocks.len(), 1);
    assert_eq!(blocks[0].kind, BlockKind::Heading);
    assert_eq!(blocks[0].heading.as_deref(), Some("Meeting"));
}

#[test]
fn block_lines_are_one_based_and_trailing_blanks_dropped() {
    let content = "# Day\nfirst line\nsecond line\n\n\n## Head\nbody\n\n";
    let blocks = extract_content_blocks(content);
    assert_eq!(blocks.len(), 2);
    assert_eq!(blocks[0].start_line, 2);
    assert_eq!(blocks[0].end_line, 3);
    assert_eq!(blocks[0].raw_text, "first line\nsecond line");
    assert_eq!(blocks[1].start_line, 6);
    assert_eq!(blocks[1].end_line, 7);
    assert_eq!(blocks[1].raw_text, "## Head\nbody");
    assert_eq!(blocks[1].heading_level, Some(2));
}

#[test]
fn block_metadata_listed_once_in_order() {
    let content = "* a #x @bob [[L]]\n* b #y #x @done @bob [[L]]\n";
    let blocks = extract_content_blocks(content);
    assert_eq!(blocks.len(), 1);
    assert_eq!(blocks[0].tags, vec!["x".to_string(), "y".to_string()]);
    assert_eq!(blocks[0].mentions, vec!["bob".to_string()]);
    assert_eq!(blocks[0].wiki_links, vec!["L".to_string()]);
}

#[test]
fn blocks_cover_their_lines_in_order() {
    let content = "# Title\nIntro line\nmore intro\n\n## Section\nbody\n* task one\n* task two\n\nlast para\n";
    let lines: Vec<&str> = content.lines().collect();
    let blocks = noteplan_organizer::parser::block::extract_content_blocks(content);
    assert!(!blocks.is_empty());
    for (k, b) in blocks.iter().enumerate() {
        assert!(1 <= b.start_line && b.start_line <= b.end_line && b.end_line <= lines.len());
        assert_eq!(b.raw_text, lines[b.start_line - 1..b.end_line].join("\n"));
        if k + 1 < blocks.len() {
            assert!(b.end_line < blocks[k + 1].start_line);
        }
    }
}
