use pp2ot_bridge::model::FormatterItem;
use pp2ot_bridge::model::InsertionMode;
use pp2ot_bridge::model::TimedEntry;
use pp2ot_bridge::push::CreateKind;
use pp2ot_bridge::push::CreateOp;
use pp2ot_bridge::push::PushEngine;
use pp2ot_bridge::push::PushStep;
use pp2ot_bridge::push::resolve_rundown_id;
use pp2ot_bridge::push::run_with_outcomes;

fn entry(id: &str, name: &str) -> TimedEntry {
    TimedEntry {
        item_id: id.to_string(),
        name: name.to_string(),
        item_type: "presentation".to_string(),
        duration: "00:05:00".to_string(),
        end_time: "00:00:00".to_string(),
        count_to_end: false,
        link_start: true,
    }
}

fn standalone(id: &str, name: &str) -> FormatterItem {
    FormatterItem::Standalone(entry(id, name))
}

fn group(name: &str, members: Vec<TimedEntry>) -> FormatterItem {
    FormatterItem::Group {
        id: "group-1".to_string(),
        name: name.to_string(),
        color: "#779BE7".to_string(),
        entries: members,
        collapsed: false,
    }
}

fn reference(id: &str, mode: InsertionMode) -> FormatterItem {
    FormatterItem::Reference {
        id: id.to_string(),
        title: "remote".to_string(),
        item_type: "event".to_string(),
        mode,
        time_end: 0,
    }
}

fn strings(v: &[&str]) -> Vec<String> {
    v.iter().map(|s| s.to_string()).collect()
}

fn outcomes(v: &[&str]) -> Vec<Option<String>> {
    v.iter().map(|s| Some(s.to_string())).collect()
}

fn event_title(op: &CreateOp) -> &str {
    match &op.kind {
        CreateKind::Event(f) => &f.title,
        CreateKind::Group { title, .. } => title,
    }
}

#[test]
fn full_push_scenario_chains_groups_and_siblings() {
    let items = vec![
        standalone("u1", "A"),
        group("G", vec![entry("u2", "B"), entry("u3", "C")]),
        standalone("u4", "D"),
    ];
    let ops = run_with_outcomes(
        items,
        &Vec::new(),
        Vec::new(),
        &outcomes(&["idA", "idG", "idB", "idC", "idD"]),
    );
    assert_eq!(ops.len(), 5);

    assert_eq!(event_title(&ops[0]), "A");
    assert_eq!(ops[0].parent, None);
    assert_eq!(ops[0].after, None);

    assert_eq!(event_title(&ops[1]), "G");
    assert!(matches!(ops[1].kind, CreateKind::Group { .. }));
    assert_eq!(ops[1].parent, None);
    assert_eq!(ops[1].after, Some("idA".to_string()));

    assert_eq!(event_title(&ops[2]), "B");
    assert_eq!(ops[2].parent, Some("idG".to_string()));
    assert_eq!(ops[2].after, None);

    assert_eq!(event_title(&ops[3]), "C");
    assert_eq!(ops[3].parent, Some("idG".to_string()));
    assert_eq!(ops[3].after, Some("idB".to_string()));

    assert_eq!(event_title(&ops[4]), "D");
    assert_eq!(ops[4].parent, None);
    assert_eq!(ops[4].after, Some("idG".to_string()));
}

#[test]
fn remote_duplicate_is_skipped_without_advancing_cursors() {
    // The remote rundown already holds a "B": the draft's B is never sent,
    // and C still attaches to the group with no `after`, since the internal
    // cursor never advanced.
    let items = vec![
        standalone("u1", "A"),
        group("G", vec![entry("u2", "B"), entry("u3", "C")]),
        standalone("u4", "D"),
    ];
    let ops = run_with_outcomes(
        items,
        &strings(&["remB"]),
        strings(&["B"]),
        &outcomes(&["idA", "idG", "idC", "idD"]),
    );
    assert_eq!(ops.len(), 4);

    assert_eq!(event_title(&ops[0]), "A");
    assert_eq!(ops[0].after, Some("remB".to_string()));

    assert_eq!(event_title(&ops[1]), "G");
    assert_eq!(ops[1].after, Some("idA".to_string()));

    assert_eq!(event_title(&ops[2]), "C");
    assert_eq!(ops[2].parent, Some("idG".to_string()));
    assert_eq!(ops[2].after, None);

    assert_eq!(event_title(&ops[3]), "D");
    assert_eq!(ops[3].after, Some("idG".to_string()));
}

#[test]
fn standalones_chain_after_each_created_id() {
    let items = vec![standalone("u1", "A"), standalone("u2", "B"), standalone("u3", "C")];
    let ops = run_with_outcomes(
        items,
        &strings(&["end"]),
        Vec::new(),
        &outcomes(&["id1", "id2", "id3"]),
    );
    assert_eq!(ops.len(), 3);
    assert_eq!(ops[0].after, Some("end".to_string()));
    assert_eq!(ops[1].after, Some("id1".to_string()));
    assert_eq!(ops[2].after, Some("id2".to_string()));
    assert!(ops.iter().all(|op| op.parent.is_none()));
}

#[test]
fn after_reference_makes_next_item_a_sibling() {
    let items = vec![reference("X", InsertionMode::After), standalone("u1", "A")];
    let ops = run_with_outcomes(items, &strings(&["end"]), Vec::new(), &outcomes(&["idA"]));
    assert_eq!(ops.len(), 1);
    assert_eq!(ops[0].after, Some("X".to_string()));
    assert_eq!(ops[0].parent, None);
}

#[test]
fn into_reference_makes_next_item_a_child() {
    let items = vec![reference("X", InsertionMode::Into), standalone("u1", "A")];
    let ops = run_with_outcomes(items, &strings(&["end"]), Vec::new(), &outcomes(&["idA"]));
    assert_eq!(ops.len(), 1);
    assert_eq!(ops[0].parent, Some("X".to_string()));
    assert_eq!(ops[0].after, None);
}

#[test]
fn duplicate_title_is_never_posted_and_keeps_the_cursor() {
    let items = vec![standalone("u1", "Taken"), standalone("u2", "Fresh")];
    let ops = run_with_outcomes(
        items,
        &strings(&["end"]),
        strings(&["Taken"]),
        &outcomes(&["idF"]),
    );
    assert_eq!(ops.len(), 1);
    assert_eq!(event_title(&ops[0]), "Fresh");
    assert_eq!(ops[0].after, Some("end".to_string()));
}

#[test]
fn failed_create_does_not_become_the_anchor() {
    let items = vec![standalone("u1", "A"), standalone("u2", "B")];
    let ops = run_with_outcomes(
        items,
        &strings(&["end"]),
        Vec::new(),
        &vec![None, Some("idB".to_string())],
    );
    assert_eq!(ops.len(), 2);
    assert_eq!(ops[0].after, Some("end".to_string()));
    // A's create failed, so B still chains after the original anchor.
    assert_eq!(ops[1].after, Some("end".to_string()));
}

#[test]
fn step_machine_reports_skips_and_cursor_moves() {
    let items = vec![
        reference("X", InsertionMode::After),
        standalone("u1", "Taken"),
        standalone("u2", "Fresh"),
    ];
    let mut eng = PushEngine::new(items, &Vec::new(), strings(&["Taken"]));
    match eng.step() {
        PushStep::CursorMoved(InsertionMode::After, id) => assert_eq!(id, "X"),
        other => panic!("expected a cursor move, got {:?}", other),
    }
    match eng.step() {
        PushStep::SkippedDuplicate(title) => assert_eq!(title, "Taken"),
        other => panic!("expected a skip, got {:?}", other),
    }
    match eng.step() {
        PushStep::Post(op) => {
            assert_eq!(event_title(&op), "Fresh");
            assert_eq!(op.after, Some("X".to_string()));
        }
        other => panic!("expected a post, got {:?}", other),
    }
    eng.provide_result(Some("idF".to_string()));
    assert!(matches!(eng.step(), PushStep::Finished));
}

#[test]
fn group_walk_reports_group_finished() {
    let items = vec![group("G", vec![entry("u1", "B")])];
    let mut eng = PushEngine::new(items, &Vec::new(), Vec::new());
    assert!(matches!(eng.step(), PushStep::Post(_)));
    eng.provide_result(Some("idG".to_string()));
    match eng.step() {
        PushStep::Post(op) => assert_eq!(op.parent, Some("idG".to_string())),
        other => panic!("expected a post, got {:?}", other),
    }
    eng.provide_result(Some("idB".to_string()));
    assert!(matches!(eng.step(), PushStep::GroupFinished));
    assert!(matches!(eng.step(), PushStep::Finished));
}

#[test]
fn response_body_id_feeds_the_cursor() {
    let items = vec![standalone("u1", "A"), standalone("u2", "B")];
    let mut eng = PushEngine::new(items, &Vec::new(), Vec::new());
    assert!(matches!(eng.step(), PushStep::Post(_)));
    eng.provide_response(Some("{\"id\":\"abc\",\"revision\":7}"));
    match eng.step() {
        PushStep::Post(op) => assert_eq!(op.after, Some("abc".to_string())),
        other => panic!("expected a post, got {:?}", other),
    }
}

#[test]
fn unreadable_response_body_counts_as_failure() {
    let items = vec![standalone("u1", "A"), standalone("u2", "B")];
    let mut eng = PushEngine::new(items, &strings(&["end"]), Vec::new());
    assert!(matches!(eng.step(), PushStep::Post(_)));
    eng.provide_response(Some("not json at all"));
    match eng.step() {
        PushStep::Post(op) => assert_eq!(op.after, Some("end".to_string())),
        other => panic!("expected a post, got {:?}", other),
    }
}

#[test]
fn rundown_id_resolution_reads_the_id_field() {
    assert_eq!(
        resolve_rundown_id(Some("{\"id\":\"r1\",\"title\":\"Show\"}")),
        Some("r1".to_string())
    );
    assert_eq!(resolve_rundown_id(Some("{\"id\": 5}")), None);
    assert_eq!(resolve_rundown_id(Some("garbage")), None);
    assert_eq!(resolve_rundown_id(None), None);
}
