use pp2ot_bridge::model::FormatterItem;
use pp2ot_bridge::model::FormatterModel;
use pp2ot_bridge::model::InsertionMode;
use pp2ot_bridge::model::TimeEditContext;
use pp2ot_bridge::model::TimeField;
use pp2ot_bridge::model::TimedEntry;

fn entry(id: &str, name: &str) -> TimedEntry {
    TimedEntry {
        item_id: id.to_string(),
        name: name.to_string(),
        item_type: "presentation".to_string(),
        duration: "00:05:00".to_string(),
        end_time: "00:00:00".to_string(),
        count_to_end: false,
        link_start: true,
    }
}

fn reference(id: &str, title: &str, mode: InsertionMode, time_end: u64) -> FormatterItem {
    FormatterItem::Reference {
        id: id.to_string(),
        title: title.to_string(),
        item_type: "event".to_string(),
        mode,
        time_end,
    }
}

#[test]
fn is_added_sees_group_members_but_not_references() {
    let mut m = FormatterModel::new();
    let g = m.add_group("GROUP 1".to_string(), "#779BE7".to_string());
    m.add_standalone_or_into_selected_group(entry("u1", "A"), Some(g));
    m.add_reference("r1".to_string(), "Remote".to_string(), "event".to_string(), InsertionMode::After, 0);
    assert!(m.is_added("u1"));
    assert!(!m.is_added("r1"));
}

#[test]
fn adding_twice_is_a_no_op() {
    let mut m = FormatterModel::new();
    m.add_standalone_or_into_selected_group(entry("u1", "A"), None);
    m.add_standalone_or_into_selected_group(entry("u1", "A again"), None);
    assert_eq!(m.items.len(), 1);
}

#[test]
fn adds_into_selected_group() {
    let mut m = FormatterModel::new();
    let g = m.add_group("GROUP 1".to_string(), "#779BE7".to_string());
    m.add_standalone_or_into_selected_group(entry("u1", "A"), Some(g));
    match &m.items[g] {
        FormatterItem::Group { entries, .. } => {
            assert_eq!(entries.len(), 1);
            assert_eq!(entries[0].name, "A");
        }
        other => panic!("expected a group, got {:?}", other),
    }
}

#[test]
fn selection_on_non_group_appends_standalone() {
    let mut m = FormatterModel::new();
    m.add_standalone_or_into_selected_group(entry("u1", "A"), None);
    m.add_standalone_or_into_selected_group(entry("u2", "B"), Some(0));
    assert_eq!(m.items.len(), 2);
    assert!(matches!(&m.items[1], FormatterItem::Standalone(e) if e.name == "B"));
}

#[test]
fn group_ids_count_present_groups() {
    let mut m = FormatterModel::new();
    m.add_group("GROUP 1".to_string(), "#779BE7".to_string());
    m.add_group("GROUP 2".to_string(), "#779BE7".to_string());
    let id_of = |item: &FormatterItem| match item {
        FormatterItem::Group { id, .. } => id.clone(),
        _ => panic!("expected a group"),
    };
    assert_eq!(id_of(&m.items[0]), "group-1");
    assert_eq!(id_of(&m.items[1]), "group-2");
    m.remove(0);
    let g = m.add_group("GROUP 2".to_string(), "#779BE7".to_string());
    // The generated id numbers only the groups present at the time, so a
    // deleted-and-readded group repeats a label.
    assert_eq!(id_of(&m.items[g]), "group-2");
}

#[test]
fn duplicate_reference_is_a_no_op() {
    let mut m = FormatterModel::new();
    m.add_reference("r1".to_string(), "X".to_string(), "event".to_string(), InsertionMode::After, 0);
    m.add_reference("r1".to_string(), "X".to_string(), "event".to_string(), InsertionMode::Into, 9);
    assert_eq!(m.items.len(), 1);
    assert!(m.is_referenced("r1"));
    assert!(!m.is_referenced("r2"));
}

#[test]
fn suggested_end_time_without_references_is_zero() {
    let m = FormatterModel::new();
    assert_eq!(m.suggested_end_time_for_next_add(300000), "00:00:00");
}

#[test]
fn suggested_end_time_uses_latest_nonzero_reference() {
    let mut m = FormatterModel::new();
    m.items.push(reference("r1", "X", InsertionMode::After, 5000));
    m.items.push(reference("r2", "Y", InsertionMode::After, 0));
    assert_eq!(m.suggested_end_time_for_next_add(300000), "00:05:05");
}

#[test]
fn move_item_splices_and_selection_follows() {
    let mut m = FormatterModel::new();
    m.add_standalone_or_into_selected_group(entry("u1", "A"), None);
    let g = m.add_group("GROUP 1".to_string(), "#779BE7".to_string());
    m.selected_group = Some(g);
    m.add_standalone_or_into_selected_group(entry("u2", "C"), None);
    m.move_item(g, 0);
    assert!(matches!(&m.items[0], FormatterItem::Group { .. }));
    assert!(matches!(&m.items[1], FormatterItem::Standalone(e) if e.name == "A"));
    assert_eq!(m.selected_group, Some(0));
}

#[test]
fn move_onto_selection_clears_it() {
    let mut m = FormatterModel::new();
    let g = m.add_group("GROUP 1".to_string(), "#779BE7".to_string());
    m.add_standalone_or_into_selected_group(entry("u1", "A"), None);
    m.selected_group = Some(g);
    m.move_item(1, g);
    assert_eq!(m.selected_group, None);
}

#[test]
fn remove_clears_matching_selection() {
    let mut m = FormatterModel::new();
    let g = m.add_group("GROUP 1".to_string(), "#779BE7".to_string());
    m.selected_group = Some(g);
    m.remove(g);
    assert!(m.items.is_empty());
    assert_eq!(m.selected_group, None);
}

#[test]
fn time_edit_sets_standalone_duration() {
    let mut m = FormatterModel::new();
    m.add_standalone_or_into_selected_group(entry("u1", "A"), None);
    let ctx = TimeEditContext {
        item_idx: 0,
        sub_item_idx: None,
        field: TimeField::Duration,
        current_value: "00:05:00".to_string(),
    };
    m.apply_time_edit(&ctx, "01:30:00".to_string());
    match &m.items[0] {
        FormatterItem::Standalone(e) => {
            assert_eq!(e.duration, "01:30:00");
            assert_eq!(e.end_time, "00:00:00");
        }
        other => panic!("expected a standalone, got {:?}", other),
    }
}

#[test]
fn time_edit_sets_group_entry_end_time() {
    let mut m = FormatterModel::new();
    let g = m.add_group("GROUP 1".to_string(), "#779BE7".to_string());
    m.add_standalone_or_into_selected_group(entry("u1", "A"), Some(g));
    m.add_standalone_or_into_selected_group(entry("u2", "B"), Some(g));
    let ctx = TimeEditContext {
        item_idx: g,
        sub_item_idx: Some(1),
        field: TimeField::EndTime,
        current_value: "00:00:00".to_string(),
    };
    m.apply_time_edit(&ctx, "18:45:00".to_string());
    match &m.items[g] {
        FormatterItem::Group { entries, .. } => {
            assert_eq!(entries[0].end_time, "00:00:00");
            assert_eq!(entries[1].end_time, "18:45:00");
            assert_eq!(entries[1].duration, "00:05:00");
        }
        other => panic!("expected a group, got {:?}", other),
    }
}

#[test]
fn time_edit_without_valid_target_changes_nothing() {
    let mut m = FormatterModel::new();
    let g = m.add_group("GROUP 1".to_string(), "#779BE7".to_string());
    m.add_standalone_or_into_selected_group(entry("u1", "A"), Some(g));
    let before = m.items.clone();
    let ctx = TimeEditContext {
        item_idx: g,
        sub_item_idx: Some(5),
        field: TimeField::Duration,
        current_value: String::new(),
    };
    m.apply_time_edit(&ctx, "01:00:00".to_string());
    assert_eq!(m.items, before);
}

#[test]
fn removes_a_single_group_entry() {
    let mut m = FormatterModel::new();
    let g = m.add_group("GROUP 1".to_string(), "#779BE7".to_string());
    m.add_standalone_or_into_selected_group(entry("u1", "A"), Some(g));
    m.add_standalone_or_into_selected_group(entry("u2", "B"), Some(g));
    m.remove_group_entry(g, 0);
    match &m.items[g] {
        FormatterItem::Group { entries, .. } => {
            assert_eq!(entries.len(), 1);
            assert_eq!(entries[0].name, "B");
        }
        other => panic!("expected a group, got {:?}", other),
    }
}

#[test]
fn clear_empties_draft_and_selection() {
    let mut m = FormatterModel::new();
    m.add_standalone_or_into_selected_group(entry("u1", "A"), None);
    let g = m.add_group("GROUP 1".to_string(), "#779BE7".to_string());
    m.selected_group = Some(g);
    m.clear();
    assert!(m.items.is_empty());
    assert_eq!(m.selected_group, None);
}
