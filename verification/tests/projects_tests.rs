use noteplan_organizer::models::NoteKind;
use noteplan_organizer::parser::markdown::parse_note;
use noteplan_organizer::parser::projects::{context_folder_projects, context_tags, parse_project_control};
use noteplan_organizer::parser::NoteStore;

fn store_with(content: &str, tag_note_path: &str) -> NoteStore {
    let note = parse_note("/x.md", tag_note_path, content, NoteKind::Regular);
    NoteStore::new(vec![note])
}

#[test]
fn test_parse_context_tags_discriminated_from_refs() {
    let content = "# P #np-projects\n## Work\n- #work #office\n1. [[32 - Product \
                   Ownership]]\n## Home\n- #home\n1. [[42 - House Reno]]\n## Someday\n1. [[50 \
                   - Read list]]\n";
    let store = store_with(content, "Notes/_NotePlan Organizer/P.md");
    let ctrl = parse_project_control(&store).unwrap();
    assert_eq!(ctrl.contexts.len(), 3);
    // Work: two declared tags, one ref (the #tag item is NOT a ref).
    assert_eq!(ctrl.contexts[0].name, "Work");
    assert_eq!(
        ctrl.contexts[0].tags,
        vec!["work".to_string(), "office".to_string()]
    );
    assert_eq!(
        ctrl.contexts[0].refs,
        vec!["32 - Product Ownership".to_string()]
    );
    // Home: one tag, one ref.
    assert_eq!(ctrl.contexts[1].tags, vec!["home".to_string()]);
    assert_eq!(ctrl.contexts[1].refs, vec!["42 - House Reno".to_string()]);
    // Someday: no tags (legacy context).
    assert!(ctrl.contexts[2].tags.is_empty());
    assert_eq!(ctrl.contexts[2].refs, vec!["50 - Read list".to_string()]);
}

#[test]
fn test_parse_context_tags_uppercase_normalized() {
    let content = "# P #np-projects\n## Work\n- #Work\n";
    let store = store_with(content, "Notes/_NotePlan Organizer/P.md");
    let ctrl = parse_project_control(&store).unwrap();
    assert_eq!(ctrl.contexts[0].tags, vec!["work".to_string()]);
}

#[test]
fn test_context_tags_accessor() {
    let content = "# P #np-projects\n## Work\n- #work\n1. [[32 - Product Ownership]]\n## \
                   Home\n1. [[42 - House Reno]]\n";
    let store = store_with(content, "Notes/_NotePlan Organizer/P.md");
    let got = context_tags(&store);
    assert_eq!(got.len(), 2);
    assert_eq!(got[0], ("Work".to_string(), vec!["work".to_string()]));
    assert_eq!(got[1], ("Home".to_string(), Vec::<String>::new()));
}

#[test]
fn test_parse_contexts_ordered() {
    let content = "# Project Priorities #np-projects\n\n## Work\n1. [[32 - Product \
                   Ownership]]\n2. [[35 - Platform Migration]]\n\n## Home\n1. [[42 - House \
                   Reno]]\n";
    let store = store_with(content, "Notes/_NotePlan Organizer/Project Priorities.md");
    let ctrl = parse_project_control(&store).expect("control note found by tag");
    assert_eq!(ctrl.contexts.len(), 2);
    assert_eq!(ctrl.contexts[0].name, "Work");
    assert_eq!(
        ctrl.contexts[0].refs,
        vec!["32 - Product Ownership", "35 - Platform Migration"]
    );
    assert_eq!(ctrl.contexts[1].name, "Home");
    assert_eq!(ctrl.contexts[1].refs, vec!["42 - House Reno"]);
}

#[test]
fn test_no_control_note() {
    let store = store_with("# Just a note\n- [[Something]]", "Notes/plain.md");
    assert!(parse_project_control(&store).is_none());
}

#[test]
fn test_plain_text_ref_without_wikilink() {
    let content = "# P #np-projects\n## Work\n- 32 - Product Ownership\n";
    let store = store_with(content, "Notes/_NotePlan Organizer/P.md");
    let ctrl = parse_project_control(&store).unwrap();
    assert_eq!(ctrl.contexts[0].refs, vec!["32 - Product Ownership"]);
}

#[test]
fn test_context_folder_projects_ranks_and_titles() {
    let control = parse_note(
        "/p.md",
        "Notes/_NotePlan Organizer/Projects.md",
        "# P #np-projects\n## Work\n1. [[99 - Ghost]]\n2. [[32 - Product Ownership]]\n",
        NoteKind::Regular,
    );
    let member = parse_note(
        "/m.md",
        "Notes/32 - Product Ownership/32.01 - Janet.md",
        "# Janet\n* task\n",
        NoteKind::Regular,
    );
    let store = NoteStore::new(vec![control, member]);
    let got = context_folder_projects(&store);
    assert_eq!(got.len(), 1);
    assert_eq!(got[0].0, "Work");
    // Ghost (rank 1) doesn't resolve to a folder; Product Ownership keeps ordinal rank 2.
    assert_eq!(
        got[0].1,
        vec![(
            "Notes/32 - Product Ownership".to_string(),
            2,
            "32 - Product Ownership".to_string()
        )]
    );
}

#[test]
fn test_bare_ref_collision_resolves_to_shallowest_folder() {
    let control = parse_note(
        "/p.md",
        "Notes/_NotePlan Organizer/P.md",
        "# P #np-projects\n## Work\n1. [[Shared]]\n",
        NoteKind::Regular,
    );
    let top = parse_note(
        "/t.md",
        "Notes/Shared/t.md",
        "# T\n* x\n",
        NoteKind::Regular,
    );
    let nested = parse_note(
        "/n.md",
        "Notes/12 - Alpha Project/Shared/n.md",
        "# N\n* y\n",
        NoteKind::Regular,
    );
    // nested first: old code returned the nested folder; new code must not.
    let store = NoteStore::new(vec![control.clone(), nested.clone(), top.clone()]);
    let got = context_folder_projects(&store);
    assert_eq!(
        got[0].1,
        vec![("Notes/Shared".to_string(), 1, "Shared".to_string())]
    );
    // opposite insertion order → same result.
    let store2 = NoteStore::new(vec![control, top, nested]);
    assert_eq!(context_folder_projects(&store2)[0].1[0].0, "Notes/Shared");
}

#[test]
fn test_exact_name_match_beats_shallower_jd_only_match() {
    // Ref `12 - Alpha Project` (JD id "12"). A decoy folder shares the JD id
    // but a different name, at a SHALLOWER depth; the real folder is an exact
    // name match nested deeper. Exact match must win over the shallower
    // JD-only match, so depth never overrides match quality.
    let control = parse_note(
        "/p.md",
        "Notes/_NotePlan Organizer/P.md",
        "# P #np-projects\n## Work\n1. [[12 - Alpha Project]]\n",
        NoteKind::Regular,
    );
    let decoy = parse_note(
        "/d.md",
        "Notes/12 - Old Alpha Archive/d.md",
        "# D\n* x\n",
        NoteKind::Regular,
    );
    let real = parse_note(
        "/r.md",
        "Notes/1x - Domains [Work]/12 - Alpha Project/r.md",
        "# R\n* y\n",
        NoteKind::Regular,
    );
    // decoy first in scan order to prove quality, not order, decides.
    let store = NoteStore::new(vec![control, decoy, real]);
    let got = context_folder_projects(&store);
    assert_eq!(
        got[0].1[0].0,
        "Notes/1x - Domains [Work]/12 - Alpha Project"
    );
}

#[test]
fn test_calendar_ref_does_not_claim_calendar_folder() {
    let control = parse_note(
        "/p.md",
        "Notes/_NotePlan Organizer/P.md",
        "# P #np-projects\n## Work\n1. [[Calendar]]\n",
        NoteKind::Regular,
    );
    let cal = parse_note(
        "/c.md",
        "Calendar/20260701.md",
        "# 20260701\n* t\n",
        NoteKind::Daily,
    );
    let store = NoteStore::new(vec![control, cal]);
    assert!(context_folder_projects(&store)[0].1.is_empty());
}

#[test]
fn test_calendar_named_project_folder_still_resolves() {
    let control = parse_note(
        "/p.md",
        "Notes/_NotePlan Organizer/P.md",
        "# P #np-projects\n## Work\n1. [[Calendar]]\n",
        NoteKind::Regular,
    );
    let proj = parse_note(
        "/m.md",
        "Notes/Calendar/note.md",
        "# N\n* t\n",
        NoteKind::Regular,
    );
    let store = NoteStore::new(vec![control, proj]);
    assert_eq!(context_folder_projects(&store)[0].1[0].0, "Notes/Calendar");
}

#[test]
fn control_folder_note_preferred_over_stray_tagged_note() {
    let stray = parse_note(
        "/s.md",
        "Notes/@Archive/old.md",
        "# Old #np-projects\n## Stale\n1. [[X]]\n",
        NoteKind::Regular,
    );
    let real = parse_note(
        "/r.md",
        "Notes/_NotePlan Organizer/P.md",
        "# Real #np-projects\n## Work\n1. [[Y]]\n",
        NoteKind::Regular,
    );
    let c = parse_project_control(&NoteStore::new(vec![stray, real])).unwrap();
    assert_eq!(c.note_title, "Real");
    assert_eq!(c.contexts.len(), 1);
    assert_eq!(c.contexts[0].name, "Work");
    assert_eq!(c.contexts[0].refs, vec!["Y".to_string()]);
    assert!(c.contexts[0].tags.is_empty());
    assert_eq!(c.warnings.len(), 1);
}
