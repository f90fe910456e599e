use noteplan_organizer::backlog_write::WriteOp;
use noteplan_organizer::commands::{resolve_note, resolve_note_by_path, ResolvedNote};
use noteplan_organizer::mcp::tools::NoteAddr;
use noteplan_organizer::models::NoteKind;
use noteplan_organizer::parser::markdown::parse_note;
use noteplan_organizer::parser::NoteStore;
use noteplan_organizer::write_run::{Action, Event, Job, Role, WriteRun};
use std::collections::HashMap;

const SRC_REL: &str = "Notes/10 - Design/Design.md";
const BL_REL: &str = "Notes/_NotePlan Organizer/backlog.md";
const BL_BODY: &str = "# Backlog #np-backlog\n## Work\n";
const BL_ENTRIES: &str = "# Backlog #np-backlog\n## Work\n- [[Janet^a1b2c3]] Ship v2 spec\n- [[Ops^d4e5f6]] Review tix\n";
const BL_ONE_TOMBSTONE: &str = "# Backlog #np-backlog\n## Work\n- [[Janet^a1b2c3]] Ship v2 spec\n<!-- np-backlog: removed -->\n- [[Ops^d4e5f6]] Review tix\n";

/// A stand-in for the MCP server: note bodies by path, and titles.
struct Server {
    bodies: HashMap<String, Vec<String>>,
    titles: HashMap<String, String>,
    fail_filename_fetch: bool,
    fail_write: Option<Role>,
    fail_delete: bool,
    calls: Vec<String>,
    patches: Vec<(String, String)>,
    suppressions: usize,
}

impl Server {
    fn new(notes: &[(&str, &str, &str)]) -> Server {
        let mut bodies = HashMap::new();
        let mut titles = HashMap::new();
        for (path, title, body) in notes {
            bodies.insert(path.to_string(), body.lines().map(String::from).collect());
            titles.insert(title.to_string(), path.to_string());
        }
        Server {
            bodies,
            titles,
            fail_filename_fetch: false,
            fail_write: None,
            fail_delete: false,
            calls: vec![],
            patches: vec![],
            suppressions: 0,
        }
    }

    fn key(&self, a: &NoteAddr) -> Option<String> {
        match a {
            NoteAddr::Filename(f) => Some(f.clone()),
            NoteAddr::Title(t) => self.titles.get(t).cloned(),
        }
    }

    fn body(&self, path: &str) -> String {
        self.bodies[path].join("\n")
    }

    /// Runs the machine to its answer, performing each action.
    fn drive(&mut self, run: WriteRun, first: Vec<Action>) -> Result<(), String> {
        let mut run = run;
        let mut pending = first;
        loop {
            let mut event = None;
            for a in pending {
                match a {
                    Action::Fetch { addr } => {
                        self.calls.push(format!("get {:?}", addr));
                        let r = match (&addr, self.key(&addr)) {
                            (NoteAddr::Filename(_), _) if self.fail_filename_fetch => Err("not found".to_string()),
                            (_, Some(k)) if self.bodies.contains_key(&k) => Ok(self.body(&k) + "\n"),
                            _ => Err("not found".to_string()),
                        };
                        event = Some(Event::Fetched { result: r });
                    },
                    Action::Suppress => self.suppressions += 1,
                    Action::Write { role, addr, op } => {
                        self.calls.push(format!("write {:?} {:?}", role, op));
                        let k = self.key(&addr).unwrap();
                        let fail = self.fail_write == Some(role)
                            || (self.fail_delete && matches!(op, WriteOp::DeleteBacklogLine { .. }));
                        let r = if fail {
                            Err("write refused".to_string())
                        } else {
                            let lines = self.bodies.get_mut(&k).unwrap();
                            match op {
                                WriteOp::AppendBlockId { line, new_line_text, .. } => lines[line - 1] = new_line_text,
                                WriteOp::ReplaceBacklogLine { line, text } => lines[line - 1] = text,
                                WriteOp::InsertBacklogLine { line, text } => {
                                    let at = (line.max(1) - 1).min(lines.len());
                                    lines.insert(at, text)
                                },
                                WriteOp::DeleteBacklogLine { line } => {
                                    lines.remove(line - 1);
                                },
                            }
                            Ok(())
                        };
                        event = Some(Event::Wrote { result: r });
                    },
                    Action::Patch { relative_path, content, .. } => self.patches.push((relative_path, content)),
                    Action::Finish { result } => return result,
                }
            }
            let e = event.expect("a step ends in a fetch, a write or the answer");
            assert!(run.expects_event(&e));
            pending = run.next(e);
        }
    }
}

fn store(source_body: &str, backlog_body: &str) -> NoteStore {
    NoteStore::new(vec![
        parse_note(&format!("/abs/{SRC_REL}"), SRC_REL, source_body, NoteKind::Regular),
        parse_note(&format!("/abs/{BL_REL}"), BL_REL, backlog_body, NoteKind::Regular),
    ])
}

fn rank_job(st: &NoteStore, expected: &str, existing: Vec<String>) -> Job {
    Job::Rank {
        source: resolve_note_by_path(Some(st), SRC_REL),
        source_title: "Design".to_string(),
        expected_text: expected.to_string(),
        context: "Work".to_string(),
        existing,
    }
}

fn start(job: Job, backlog: ResolvedNote) -> (WriteRun, Vec<Action>) {
    WriteRun::new(job, backlog, "Backlog".to_string())
}

#[test]
fn rank_stamps_the_task_then_lists_it() {
    let st = store("# Design\n* Ship v2 spec !!\n", BL_BODY);
    let mut server = Server::new(&[(SRC_REL, "Design", "# Design\n* Ship v2 spec !!\n"), (BL_REL, "Backlog", BL_BODY)]);
    let (run, first) = start(rank_job(&st, "Ship v2 spec", vec![]), resolve_note(Some(&st), "Backlog"));
    assert_eq!(server.drive(run, first), Ok(()));
    let src = server.body(SRC_REL);
    let stamped = src.lines().nth(1).unwrap();
    assert!(stamped.starts_with("* Ship v2 spec !! ^"), "{stamped}");
    let id = stamped.rsplit('^').next().unwrap().to_string();
    assert_eq!(server.body(BL_REL), format!("# Backlog #np-backlog\n## Work\n- [[Design^{id}]] Ship v2 spec"));
    // Both notes patched in the cache, the source first.
    assert_eq!(server.patches.len(), 2);
    assert_eq!(server.patches[0].0, SRC_REL);
    assert_eq!(server.patches[1].0, BL_REL);
    assert!(server.patches[1].1.contains(&format!("[[Design^{id}]]")));
    // Each write is wrapped in suppression, plus the trailing one.
    assert_eq!(server.suppressions, 5);
}

#[test]
fn rank_stamp_failure_never_touches_backlog() {
    let st = store("# Design\n* Ship v2 spec !!\n", BL_BODY);
    let mut server = Server::new(&[(SRC_REL, "Design", "# Design\n* Ship v2 spec !!\n"), (BL_REL, "Backlog", BL_BODY)]);
    server.fail_write = Some(Role::Source);
    let (run, first) = start(rank_job(&st, "Ship v2 spec", vec![]), resolve_note(Some(&st), "Backlog"));
    assert_eq!(server.drive(run, first), Err("write refused".to_string()));
    assert!(!server.calls.iter().any(|c| c.contains("Backlog")));
    assert_eq!(server.body(BL_REL), BL_BODY.trim_end());
    assert!(server.patches.is_empty());
}

#[test]
fn rank_insert_failure_keeps_source_patch() {
    let st = store("# Design\n* Ship v2 spec !!\n", BL_BODY);
    let mut server = Server::new(&[(SRC_REL, "Design", "# Design\n* Ship v2 spec !!\n"), (BL_REL, "Backlog", BL_BODY)]);
    server.fail_write = Some(Role::Backlog);
    let (run, first) = start(rank_job(&st, "Ship v2 spec", vec![]), resolve_note(Some(&st), "Backlog"));
    assert_eq!(server.drive(run, first), Err("write refused".to_string()));
    assert_eq!(server.patches.len(), 1);
    assert_eq!(server.patches[0].0, SRC_REL);
}

#[test]
fn rank_of_missing_task_aborts_before_any_write() {
    let st = store("# Design\n* Something else\n", BL_BODY);
    let mut server = Server::new(&[(SRC_REL, "Design", "# Design\n* Something else\n"), (BL_REL, "Backlog", BL_BODY)]);
    let (run, first) = start(rank_job(&st, "Ship v2 spec", vec![]), resolve_note(Some(&st), "Backlog"));
    assert!(server.drive(run, first).is_err());
    assert!(!server.calls.iter().any(|c| c.starts_with("write")));
}

#[test]
fn rank_source_fetch_failure_names_the_address() {
    let st = store("# Design\n* Ship v2 spec !!\n", BL_BODY);
    let mut server = Server::new(&[(BL_REL, "Backlog", BL_BODY)]);
    let (run, first) = start(rank_job(&st, "Ship v2 spec", vec![]), resolve_note(Some(&st), "Backlog"));
    assert_eq!(
        server.drive(run, first),
        Err(format!(
            "could not fetch the task's source note at Filename({:?}): not found — the note may have moved since the last scan; rescan and retry",
            SRC_REL
        ))
    );
}

#[test]
fn backlog_fetch_falls_back_to_title() {
    let st = store("# Design\n* x\n", BL_ENTRIES);
    let mut server = Server::new(&[(BL_REL, "Backlog", BL_ENTRIES)]);
    server.fail_filename_fetch = true;
    let job = Job::Remove { context: "Work".to_string(), block_id: "a1b2c3".to_string() };
    let (run, first) = start(job, resolve_note(Some(&st), "Backlog"));
    assert_eq!(server.drive(run, first), Ok(()));
    assert_eq!(server.calls[1], "get Title(\"Backlog\")");
    assert_eq!(
        server.body(BL_REL),
        "# Backlog #np-backlog\n## Work\n<!-- np-backlog: removed -->\n- [[Ops^d4e5f6]] Review tix"
    );
}

#[test]
fn title_resolved_backlog_does_not_retry() {
    let mut server = Server::new(&[]);
    let job = Job::Remove { context: "Work".to_string(), block_id: "a1b2c3".to_string() };
    let (run, first) = start(job, resolve_note(None, "Backlog"));
    assert_eq!(server.drive(run, first), Err("not found".to_string()));
    assert_eq!(server.calls.len(), 1);
}

#[test]
fn reorder_then_collects_tombstones() {
    let st = store("# Design\n* x\n", BL_ONE_TOMBSTONE);
    let mut server = Server::new(&[(BL_REL, "Backlog", BL_ONE_TOMBSTONE)]);
    let job = Job::Reorder { context: "Work".to_string(), ordered: vec!["d4e5f6".to_string(), "a1b2c3".to_string()] };
    let (run, first) = start(job, resolve_note(Some(&st), "Backlog"));
    assert_eq!(server.drive(run, first), Ok(()));
    assert_eq!(
        server.body(BL_REL),
        "# Backlog #np-backlog\n## Work\n- [[Ops^d4e5f6]] Review tix\n- [[Janet^a1b2c3]] Ship v2 spec"
    );
    assert_eq!(server.calls.iter().filter(|c| c.starts_with("get")).count(), 2);
}

#[test]
fn reorder_ok_when_collection_fails() {
    let st = store("# Design\n* x\n", BL_ONE_TOMBSTONE);
    let mut server = Server::new(&[(BL_REL, "Backlog", BL_ONE_TOMBSTONE)]);
    server.fail_delete = true;
    let job = Job::Reorder { context: "Work".to_string(), ordered: vec!["d4e5f6".to_string(), "a1b2c3".to_string()] };
    let (run, first) = start(job, resolve_note(Some(&st), "Backlog"));
    assert_eq!(server.drive(run, first), Ok(()));
    assert!(server.body(BL_REL).contains("<!-- np-backlog: removed -->"));
    // Only the reorder's patch stands.
    assert_eq!(server.patches.len(), 1);
}

#[test]
fn reorder_mismatch_aborts_without_collection() {
    let st = store("# Design\n* x\n", BL_ENTRIES);
    let mut server = Server::new(&[(BL_REL, "Backlog", BL_ENTRIES)]);
    let job = Job::Reorder { context: "Work".to_string(), ordered: vec!["d4e5f6".to_string()] };
    let (run, first) = start(job, resolve_note(Some(&st), "Backlog"));
    assert!(server.drive(run, first).is_err());
    assert_eq!(server.calls.len(), 1);
    assert_eq!(server.body(BL_REL), BL_ENTRIES.trim_end());
}
