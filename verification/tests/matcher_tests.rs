use noteplan_organizer::models::{BlockKind, ContentBlock, FilingTarget};
use noteplan_organizer::parser::matcher::{extract_significant_words, match_signals, LinkStrength};

fn make_block(kind: BlockKind, raw_text: &str, tags: Vec<&str>, wiki_links: Vec<&str>) -> ContentBlock {
    ContentBlock {
        kind,
        start_line: 1,
        end_line: 1,
        raw_text: raw_text.to_string(),
        heading: None,
        heading_level: None,
        tags: tags.into_iter().map(|s| s.to_string()).collect(),
        mentions: vec![],
        wiki_links: wiki_links.into_iter().map(|s| s.to_string()).collect(),
    }
}

fn make_target(title: &str, tags: Vec<&str>) -> FilingTarget {
    FilingTarget {
        title: title.to_string(),
        file_path: format!("/notes/{}.md", title),
        relative_path: format!("Notes/{}.md", title),
        jd_id: None,
        folder_path: String::new(),
        is_hub: false,
        section_headings: vec![],
        tags: tags.into_iter().map(|s| s.to_string()).collect(),
        mentions: vec![],
    }
}

#[test]
fn test_stopwords_filtered() {
    let words = extract_significant_words("The Quick Brown Fox");
    assert!(!words.contains(&"the".to_string()));
    assert!(words.contains(&"quick".to_string()));
    assert!(words.contains(&"brown".to_string()));
}

#[test]
fn test_jd_ids_filtered_from_keywords() {
    let words = extract_significant_words("10.01 - Project Alpha Design");
    assert!(!words.contains(&"10".to_string()));
    assert!(!words.contains(&"01".to_string()));
    assert!(words.contains(&"project".to_string()));
    assert!(words.contains(&"alpha".to_string()));
    assert!(words.contains(&"design".to_string()));
}

#[test]
fn significant_words_in_order_and_lowercased() {
    let words = extract_significant_words("Big DB on the Server-Side 2024");
    assert_eq!(words, vec!["big".to_string(), "server".to_string(), "side".to_string()]);
}

#[test]
fn exact_wiki_link_signal_and_reason() {
    let block = make_block(BlockKind::Paragraph, "Discussed changes to [[Project Alpha]]", vec![], vec!["project alpha"]);
    let target = make_target("Project Alpha", vec![]);
    let s = match_signals(&block, &target);
    assert_eq!(s.link, LinkStrength::Exact);
    assert!(s.reasons.iter().any(|r| r == "Wiki link to «Project Alpha»"));
}

#[test]
fn partial_wiki_link_signal() {
    let block = make_block(BlockKind::Paragraph, "x", vec![], vec!["Alpha"]);
    let target = make_target("Project Alpha", vec![]);
    assert_eq!(match_signals(&block, &target).link, LinkStrength::Partial);
}

#[test]
fn shared_tags_ignore_ascii_case() {
    let block = make_block(BlockKind::TaskGroup, "* Fix #backend bug", vec!["Backend", "misc"], vec![]);
    let target = make_target("Backend Service", vec!["backend", "api"]);
    let s = match_signals(&block, &target);
    assert_eq!(s.shared_tags, vec!["Backend".to_string()]);
    assert_eq!(s.block_tag_count, 2);
    assert_eq!(s.target_tag_count, 2);
    assert!(s.reasons.iter().any(|r| r == "Shared tags: Backend"));
}

#[test]
fn keyword_hits_counted() {
    let block = make_block(BlockKind::Heading, "## Database Migration\nMigrated the user table schema", vec![], vec![]);
    let target = make_target("Database Migration Plan", vec![]);
    let s = match_signals(&block, &target);
    assert_eq!(s.keyword_count, 3);
    assert_eq!(s.matched_keywords, 2);
    assert_eq!(s.link, LinkStrength::Absent);
    assert_eq!(s.reasons, vec!["Keywords match «Database Migration Plan»".to_string()]);
}

#[test]
fn unrelated_block_has_no_signal() {
    let block = make_block(BlockKind::Paragraph, "Bought groceries", vec!["home"], vec![]);
    let target = make_target("Server Architecture", vec!["infra"]);
    let s = match_signals(&block, &target);
    assert_eq!(s.link, LinkStrength::Absent);
    assert!(s.shared_tags.is_empty());
    assert_eq!(s.matched_keywords, 0);
    assert!(s.reasons.is_empty());
}
