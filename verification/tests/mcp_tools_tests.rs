use noteplan_organizer::mcp::tools::{
    assert_bridge_backend, backends_label, parse_delete_dry_run, parse_edit_response, parse_get_notes_content,
    Envelope, PreviewLine,
};
use serde_json::Value;

/// Reads a response the way the app does before handing it to the checks.
fn env(json: &str) -> Result<Envelope, String> {
    let v: Value = serde_json::from_str(json).map_err(|e| e.to_string())?;
    let s = |k: &str| v.get(k).and_then(Value::as_str).map(str::to_string);
    let b = |k: &str| v.get(k).and_then(Value::as_bool);
    Ok(Envelope {
        success: b("success"),
        has_more: b("hasMore"),
        dry_run: b("dryRun"),
        content: s("content"),
        message: s("message"),
        error: s("error"),
        confirmation_token: s("confirmationToken"),
        line_count_to_delete: v.get("lineCountToDelete").and_then(Value::as_u64),
        backends: v
            .get("backends")
            .and_then(Value::as_array)
            .map(|a| a.iter().map(|x| x.as_str().map(str::to_string)).collect()),
        deleted_lines_preview: v.get("deletedLinesPreview").and_then(Value::as_array).map(|a| {
            a.iter()
                .map(|e| PreviewLine {
                    line: e.get("line").and_then(Value::as_u64),
                    content: e.get("content").and_then(Value::as_str).map(str::to_string),
                })
                .collect()
        }),
    })
}

fn dry_run(json: &str, line: usize, expected: &str) -> Result<String, String> {
    parse_delete_dry_run(&env(json), json, line, expected)
}

fn get_notes(json: &str) -> Result<String, String> {
    parse_get_notes_content(&env(json), json)
}

fn edit(json: &str) -> Result<String, String> {
    parse_edit_response(&env(json), json)
}

fn bridge(json: &str, op: &str) -> Result<(), String> {
    assert_bridge_backend(&env(json), op)
}

const DRY_RUN_OK: &str = r##"{"success":true,"dryRun":true,"lineCountToDelete":1,"deletedLinesPreview":[{"line":4,"content":"  <!-- np-backlog: removed -->"}],"confirmationToken":"tok-uuid-1","confirmationExpiresAt":"2026-07-09T00:00:00Z","backends":["bridge"]}"##;
const TOMBSTONE: &str = "<!-- np-backlog: removed -->";

#[test]
fn test_parse_delete_dry_run_ok_returns_token() {
    assert_eq!(dry_run(DRY_RUN_OK, 4, TOMBSTONE).unwrap(), "tok-uuid-1");
}

#[test]
fn test_parse_delete_dry_run_missing_dryrun_flag_errs() {
    let json = r##"{"success":true,"lineCountToDelete":1,"deletedLinesPreview":[{"line":4,"content":"<!-- np-backlog: removed -->"}],"confirmationToken":"tok","backends":["bridge"]}"##;
    let err = dry_run(json, 4, TOMBSTONE).unwrap_err();
    assert!(err.contains("dryRun:true"), "unexpected error: {err}");
}

#[test]
fn test_parse_delete_dry_run_content_mismatch_errs() {
    let json = r##"{"success":true,"dryRun":true,"lineCountToDelete":1,"deletedLinesPreview":[{"line":4,"content":"- [[Real^task99]] a real entry"}],"confirmationToken":"tok","backends":["bridge"]}"##;
    let err = dry_run(json, 4, TOMBSTONE).unwrap_err();
    assert!(err.contains("does not match"), "names the mismatch: {err}");
}

#[test]
fn test_parse_delete_dry_run_wrong_line_errs() {
    assert!(dry_run(DRY_RUN_OK, 5, TOMBSTONE).is_err());
}

#[test]
fn test_parse_delete_dry_run_multi_line_count_errs() {
    let json = r##"{"success":true,"dryRun":true,"lineCountToDelete":2,"deletedLinesPreview":[{"line":4,"content":"<!-- np-backlog: removed -->"},{"line":5,"content":"<!-- np-backlog: removed -->"}],"confirmationToken":"tok","backends":["bridge"]}"##;
    assert!(dry_run(json, 4, TOMBSTONE).is_err());
}

#[test]
fn test_parse_delete_dry_run_missing_token_errs() {
    let json = r##"{"success":true,"dryRun":true,"lineCountToDelete":1,"deletedLinesPreview":[{"line":4,"content":"<!-- np-backlog: removed -->"}],"backends":["bridge"]}"##;
    assert!(dry_run(json, 4, TOMBSTONE).is_err());
    let empty = r##"{"success":true,"dryRun":true,"lineCountToDelete":1,"deletedLinesPreview":[{"line":4,"content":"<!-- np-backlog: removed -->"}],"confirmationToken":"","backends":["bridge"]}"##;
    assert!(dry_run(empty, 4, TOMBSTONE).is_err());
}

#[test]
fn test_parse_delete_dry_run_success_false_errs() {
    let json = r#"{"success":false,"error":"note not found"}"#;
    assert!(dry_run(json, 4, TOMBSTONE).is_err());
}

#[test]
fn test_parse_delete_dry_run_empty_preview_errs() {
    let json = r#"{"success":true,"dryRun":true,"lineCountToDelete":1,"deletedLinesPreview":[],"confirmationToken":"tok","backends":["bridge"]}"#;
    assert!(dry_run(json, 4, TOMBSTONE).is_err());
}

#[test]
fn test_parse_get_notes_content_ok() {
    let json = r##"{"success":true,"contentIncluded":true,"lineCount":2,"hasMore":false,"content":"# Title\n* a task"}"##;
    assert_eq!(get_notes(json).unwrap(), "# Title\n* a task");
}

#[test]
fn test_parse_get_notes_content_success_false_errs() {
    let json = r#"{"success":false,"error":"note not found"}"#;
    let err = get_notes(json).unwrap_err();
    assert!(err.contains("note not found"), "surfaces the error: {err}");
}

#[test]
fn test_parse_get_notes_content_has_more_errs() {
    let json = r#"{"success":true,"hasMore":true,"content":"only the first 500 lines"}"#;
    assert!(get_notes(json).is_err());
}

#[test]
fn test_parse_get_notes_content_missing_content_errs() {
    let json = r#"{"success":true,"lineCount":0}"#;
    assert!(get_notes(json).is_err());
}

#[test]
fn test_parse_get_notes_content_non_json_errs() {
    assert!(get_notes("Line 3 updated").is_err());
}

#[test]
fn test_parse_edit_response_ok() {
    let json = r#"{"success":true,"message":"Line 3 updated"}"#;
    assert_eq!(edit(json).unwrap(), "Line 3 updated");
}

#[test]
fn test_parse_edit_response_success_false_errs() {
    let json = r#"{"success":false,"error":"line 99 out of range"}"#;
    let err = edit(json).unwrap_err();
    assert!(err.contains("line 99 out of range"), "surfaces error: {err}");
}

#[test]
fn test_parse_edit_response_non_json_errs() {
    assert!(edit("ok").is_err());
}

#[test]
fn test_parse_edit_response_requires_explicit_success() {
    assert!(edit(r#"{"error":"boom"}"#).is_err());
    assert!(edit(r#"{"message":"did a thing"}"#).is_err());
}

#[test]
fn test_delete_lines_success_false_aborts_gc() {
    let json = r#"{"success":false,"error":"confirmationToken expired"}"#;
    assert!(edit(json).is_err());
}

#[test]
fn test_delete_lines_non_bridge_aborts() {
    assert!(bridge(r#"{"backends":["files"]}"#, "delete_lines").is_err());
    assert!(bridge(r#"{"success":true,"backends":["bridge"]}"#, "delete_lines").is_ok());
}

#[test]
fn test_assert_bridge_backend_ok() {
    assert!(bridge(r#"{"success":true,"backends":["bridge"]}"#, "edit_line").is_ok());
}

#[test]
fn test_assert_bridge_backend_rejects_non_bridge() {
    assert!(bridge(r#"{"backends":["files"]}"#, "edit_line").is_err());
}

#[test]
fn test_assert_bridge_backend_rejects_mixed() {
    assert!(bridge(r#"{"backends":["bridge","files"]}"#, "edit_line").is_err());
}

#[test]
fn test_assert_bridge_backend_rejects_missing_and_empty() {
    assert!(bridge(r#"{"success":true}"#, "edit_line").is_err());
    assert!(bridge(r#"{"backends":[]}"#, "edit_line").is_err());
}

#[test]
fn test_assert_bridge_backend_rejects_non_json() {
    assert!(bridge("Line 3 updated", "edit_line").is_err());
}

#[test]
fn test_assert_bridge_backend_error_names_backend_and_op() {
    let err = bridge(r#"{"backends":["files"]}"#, "get_note").unwrap_err();
    assert!(err.contains("get_note"), "names the op: {err}");
    assert!(err.contains("files"), "names the backend: {err}");
}

#[test]
fn bridge_errors_exact_text() {
    assert_eq!(
        bridge(r#"{"backends":["bridge",3]}"#, "op").unwrap_err(),
        "op: not applied through NotePlan (backend: <non-string>) — ensure NotePlan is running; aborting"
    );
    assert_eq!(
        bridge(r#"{"backends":[]}"#, "op").unwrap_err(),
        "op: empty `backends` — cannot confirm NotePlan applied it; aborting"
    );
    assert_eq!(
        bridge(r#"{"x":1}"#, "op").unwrap_err(),
        "op: response has no `backends` — cannot confirm NotePlan applied it; aborting"
    );
    assert!(bridge("nope", "op").unwrap_err().starts_with("op: response was not JSON ("));
}

#[test]
fn dry_run_errors_exact_text() {
    let wrong_line = dry_run(DRY_RUN_OK, 5, TOMBSTONE).unwrap_err();
    assert_eq!(wrong_line, "delete_lines dry run preview targets line Some(4), expected 5 — aborting before confirm.");
    let mismatch = r##"{"success":true,"dryRun":true,"lineCountToDelete":1,"deletedLinesPreview":[{"line":4,"content":" say \"hi\" "}],"confirmationToken":"tok"}"##;
    assert_eq!(
        dry_run(mismatch, 4, "x").unwrap_err(),
        "delete_lines dry run preview content \"say \\\"hi\\\"\" does not match the expected tombstone \"x\" — a concurrent edit may have shifted the note; aborting before confirm."
    );
    let count = r#"{"success":true,"dryRun":true,"lineCountToDelete":2}"#;
    assert_eq!(
        dry_run(count, 4, "x").unwrap_err(),
        "delete_lines dry run would delete 2 line(s), expected exactly 1 — aborting before confirm."
    );
    let no_count = r#"{"success":true,"dryRun":true}"#;
    assert!(dry_run(no_count, 4, "x").unwrap_err().contains("would delete ? line(s)"));
    let two = r##"{"success":true,"dryRun":true,"lineCountToDelete":1,"deletedLinesPreview":[{"line":4},{"line":5}]}"##;
    assert!(dry_run(two, 4, "x").unwrap_err().contains("preview had 2 entries"));
    let failed = r#"{"success":false,"message":"busy"}"#;
    assert_eq!(dry_run(failed, 4, "x").unwrap_err(), "delete_lines dry run did not report success: busy");
    let bad = r#"{"success":true}"#;
    assert_eq!(get_notes(bad).unwrap_err(), "get_notes response missing `content`.");
    assert_eq!(edit(r#"{"success":false}"#).unwrap_err(), "edit did not report success: unknown error");
    assert_eq!(edit(r#"{"success":true}"#).unwrap(), "");
}

#[test]
fn backends_label_joins_entries() {
    assert_eq!(backends_label(&env(r#"{"backends":["bridge","files",1]}"#)), "bridge,files,?");
    assert_eq!(backends_label(&env(r#"{"success":true}"#)), "?");
    assert_eq!(backends_label(&env("not json")), "?");
    assert_eq!(backends_label(&env(r#"{"backends":[]}"#)), "");
}
