use pp2ot_bridge::ontime::OntimeEntry;
use pp2ot_bridge::ontime::OntimeRundown;
use pp2ot_bridge::ontime::entry_for;
use pp2ot_bridge::ontime::ids_and_titles;
use pp2ot_bridge::ontime::rundown_events;
use pp2ot_bridge::settings::AppSettings;

fn plain_entry(id: &str, title: &str, entry_type: &str) -> OntimeEntry {
    OntimeEntry {
        id: id.to_string(),
        entry_type: entry_type.to_string(),
        title: title.to_string(),
        cue: String::new(),
        note: String::new(),
        colour: String::new(),
        duration: 0,
        time_start: 0,
        time_end: 0,
        parent: None,
    }
}

fn rundown(entries: Vec<(String, OntimeEntry)>, flat: &[&str]) -> OntimeRundown {
    OntimeRundown {
        id: "r1".to_string(),
        title: "Show".to_string(),
        order: Vec::new(),
        flat_order: flat.iter().map(|s| s.to_string()).collect(),
        entries,
        revision: 1,
    }
}

#[test]
fn events_follow_flat_order_and_skip_unknown_ids() {
    let r = rundown(
        vec![
            ("a".to_string(), plain_entry("a", "Alpha", "event")),
            ("b".to_string(), plain_entry("b", "Beta", "event")),
        ],
        &["b", "missing", "a"],
    );
    let events = rundown_events(&r);
    assert_eq!(events.len(), 2);
    assert_eq!(events[0].id, "b");
    assert_eq!(events[0].title, "Beta");
    assert_eq!(events[1].id, "a");
}

#[test]
fn untitled_entries_show_type_and_id() {
    let r = rundown(
        vec![("g".to_string(), plain_entry("g", "", "group"))],
        &["g"],
    );
    let events = rundown_events(&r);
    assert_eq!(events.len(), 1);
    assert_eq!(events[0].title, "group (g)");
    assert_eq!(events[0].event_type, "group");
}

#[test]
fn lookup_returns_first_match() {
    let entries = vec![
        ("a".to_string(), plain_entry("a", "First", "event")),
        ("a".to_string(), plain_entry("a", "Second", "event")),
    ];
    let found = entry_for(&entries, "a").expect("entry should be found");
    assert_eq!(found.title, "First");
    assert!(entry_for(&entries, "b").is_none());
}

#[test]
fn ids_and_titles_stay_parallel() {
    let r = rundown(
        vec![
            ("a".to_string(), plain_entry("a", "Alpha", "event")),
            ("b".to_string(), plain_entry("b", "Beta", "event")),
        ],
        &["a", "b"],
    );
    let events = rundown_events(&r);
    let (ids, titles) = ids_and_titles(&events);
    assert_eq!(ids, vec!["a".to_string(), "b".to_string()]);
    assert_eq!(titles, vec!["Alpha".to_string(), "Beta".to_string()]);
}

#[test]
fn settings_defaults_match_the_documented_values() {
    let s = AppSettings::default();
    assert_eq!(s.pp_host, "localhost");
    assert_eq!(s.pp_port, "1025");
    assert_eq!(s.ot_host, "localhost");
    assert_eq!(s.ot_port, "4001");
    assert_eq!(s.default_duration, "00:05:00");
    assert_eq!(s.default_end_time, "00:00:00");
    assert!(s.favorite_durations.is_empty());
    assert!(s.favorite_end_times.is_empty());
}
