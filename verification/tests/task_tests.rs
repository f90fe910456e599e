use noteplan_organizer::models::TaskState;
use noteplan_organizer::parser::task::{clean_task_text, parse_tasks};

#[test]
fn test_open_task() {
    let tasks = parse_tasks("* Buy groceries #home");
    assert_eq!(tasks.len(), 1);
    assert!(matches!(tasks[0].state, TaskState::Open));
    assert_eq!(tasks[0].tags, vec!["home"]);
}

#[test]
fn test_done_task() {
    let tasks = parse_tasks("* [x] Finished this @done(2026-02-13 22:25)");
    assert_eq!(tasks.len(), 1);
    assert!(matches!(tasks[0].state, TaskState::Done));
}

#[test]
fn test_scheduled_task() {
    let tasks = parse_tasks("* Review docs >2026-02-20 #work");
    assert_eq!(tasks.len(), 1);
    assert!(matches!(tasks[0].state, TaskState::Open));
    assert_eq!(tasks[0].scheduled_to, Some("2026-02-20".into()));
}

#[test]
fn test_rescheduled_from() {
    let tasks = parse_tasks("* Old task <2026-01-15");
    assert_eq!(tasks.len(), 1);
    assert_eq!(tasks[0].rescheduled_from, Some("2026-01-15".into()));
}

#[test]
fn test_plain_list_item_skipped() {
    let tasks = parse_tasks("- Just a note, not a task");
    assert_eq!(tasks.len(), 0);
}

#[test]
fn test_checkbox_list_item() {
    let tasks = parse_tasks("- [ ] This is a task with checkbox");
    assert_eq!(tasks.len(), 1);
    assert!(matches!(tasks[0].state, TaskState::Open));
}

#[test]
fn test_priority_levels() {
    assert_eq!(parse_tasks("* Ship it !")[0].priority, 1);
    assert_eq!(parse_tasks("* Ship it !!")[0].priority, 2);
    assert_eq!(parse_tasks("* Ship it !!!")[0].priority, 3);
    assert_eq!(parse_tasks("* Ship it")[0].priority, 0);
}

#[test]
fn test_priority_clamped_and_stripped() {
    let t = &parse_tasks("* !!!! Big deal")[0];
    assert_eq!(t.priority, 3, "4+ bangs clamp to 3");
    assert_eq!(t.text, "Big deal", "priority marker stripped from display text");
}

#[test]
fn test_priority_ignores_word_attached_bang() {
    let t = &parse_tasks("* Ship it! today")[0];
    assert_eq!(t.priority, 0, "a bang glued to a word is not a priority marker");
    assert_eq!(t.text, "Ship it! today");
}

#[test]
fn test_block_id_parsed_and_stripped() {
    let t = &parse_tasks("* Ship v2 spec !! ^a1b2c3")[0];
    assert_eq!(t.block_id.as_deref(), Some("a1b2c3"));
    assert_eq!(t.priority, 2);
    assert_eq!(t.text, "Ship v2 spec", "both markers stripped from display text");
}

#[test]
fn test_no_block_id() {
    assert_eq!(parse_tasks("* Plain task")[0].block_id, None);
}

#[test]
fn clean_task_text_tab_separated_block_id() {
    let (text, prio, id) = clean_task_text("Ship it !!\t^abcd12  ");
    assert_eq!(text, "Ship it");
    assert_eq!(prio, 2);
    assert_eq!(id.as_deref(), Some("abcd12"));
}

#[test]
fn mentions_skip_done_and_keep_names() {
    let t = &parse_tasks("* [x] Review @jane with @bob @done(2026-06-20)")[0];
    assert_eq!(t.mentions, vec!["jane".to_string(), "bob".to_string()]);
}

#[test]
fn short_block_marker_is_text() {
    let t = &parse_tasks("* Call ^abc")[0];
    assert_eq!(t.block_id, None);
    assert_eq!(t.text, "Call ^abc");
}

#[test]
fn line_numbers_count_from_one() {
    let tasks = parse_tasks("# Title\n\n* one\ntext\n- [x] two\n");
    assert_eq!(tasks.len(), 2);
    assert_eq!(tasks[0].line_number, 3);
    assert_eq!(tasks[1].line_number, 5);
    assert!(matches!(tasks[1].state, TaskState::Done));
}
