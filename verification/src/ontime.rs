//! The destination rundown as this crate sees it: a snapshot of its
//! entries, the flat order that linearises them, and the event list the
//! editing surface and the push engine work from.

use vstd::prelude::*;
use vstd::string::StrSliceExecFns;
use vstd::string::StringExecFns;

verus! {

broadcast use vstd::std_specs::vec::axiom_spec_len;

/// One row of the rundown as shown and referenced: id, display title, and
/// the entry's type (`"event"` or `"group"`).
#[derive(Debug, Clone, PartialEq)]
pub struct OntimeEvent {
    pub id: String,
    pub title: String,
    pub event_type: String,
}

/// One schedulable unit of the destination rundown, with the fields this
/// crate consumes; unknown response fields are dropped before a value gets
/// here. Times are milliseconds.
#[derive(Debug, Clone, PartialEq)]
pub struct OntimeEntry {
    pub id: String,
    pub entry_type: String,
    pub title: String,
    pub cue: String,
    pub note: String,
    pub colour: String,
    pub duration: u64,
    pub time_start: u64,
    pub time_end: u64,
    pub parent: Option<String>,
}

/// A snapshot of the destination's current rundown. `entries` is the
/// remote id-to-entry table as an association list in response order; a
/// lookup takes the first match.
#[derive(Debug, Clone, PartialEq)]
pub struct OntimeRundown {
    pub id: String,
    pub title: String,
    pub order: Vec<String>,
    pub flat_order: Vec<String>,
    pub entries: Vec<(String, OntimeEntry)>,
    pub revision: u64,
}

/// First entry filed under this id, scanning the table in order.
pub open spec fn lookup_entry(
    entries: Seq<(String, OntimeEntry)>,
    id: Seq<char>,
) -> Option<OntimeEntry>
    decreases entries.len(),
{
    if entries.len() == 0 {
        None
    } else if entries[0].0@ == id {
        Some(entries[0].1)
    } else {
        lookup_entry(entries.drop_first(), id)
    }
}

/// The title a rundown row shows: the entry's own title, or
/// `"{type} ({id})"` when the title is empty.
pub open spec fn display_title(e: OntimeEntry) -> Seq<char> {
    if e.title@.len() == 0 {
        e.entry_type@ + " ("@ + e.id@ + ")"@
    } else {
        e.title@
    }
}

/// An `OntimeEvent` reduced to the text it carries.
#[verifier::ext_equal]
pub struct EventV {
    pub id: Seq<char>,
    pub title: Seq<char>,
    pub event_type: Seq<char>,
}

pub open spec fn event_view(ev: OntimeEvent) -> EventV {
    EventV { id: ev.id@, title: ev.title@, event_type: ev.event_type@ }
}

/// The row an entry contributes to the event list.
pub open spec fn entry_event(e: OntimeEntry) -> EventV {
    EventV { id: e.id@, title: display_title(e), event_type: e.entry_type@ }
}

/// The event list a rundown yields: one row for each id of the flat order
/// that the entry table resolves, in flat order; unresolved ids contribute
/// nothing.
pub open spec fn events_of(
    entries: Seq<(String, OntimeEntry)>,
    flat: Seq<String>,
) -> Seq<EventV>
    decreases flat.len(),
{
    if flat.len() == 0 {
        Seq::empty()
    } else {
        let rest = events_of(entries, flat.drop_last());
        match lookup_entry(entries, flat.last()@) {
            Some(e) => rest.push(entry_event(e)),
            None => rest,
        }
    }
}

/// Look an entry up by remote id: the first match in the table, if any.
pub fn entry_for<'a>(
    entries: &'a Vec<(String, OntimeEntry)>,
    id: &str,
) -> (r: Option<&'a OntimeEntry>)
    ensures
        match r {
            Some(e) => lookup_entry(entries@, id@) == Some(*e),
            None => lookup_entry(entries@, id@) is None,
        },
{
    let key = id.to_owned();
    let n = entries.len();
    proof {
        assert(entries@.skip(0) =~= entries@);
    }
    let mut i: usize = 0;
    while i < n
        invariant
            0 <= i <= n,
            n == entries@.len(),
            key@ == id@,
            lookup_entry(entries@, id@) == lookup_entry(entries@.skip(i as int), id@),
        decreases n - i,
    {
        proof {
            assert(entries@.skip(i as int).drop_first() =~= entries@.skip(i + 1));
            assert(entries@.skip(i as int)[0] == entries@[i as int]);
        }
        if entries[i].0.eq(&key) {
            return Some(&entries[i].1);
        }
        i = i + 1;
    }
    proof {
        assert(entries@.skip(n as int) =~= Seq::<(String, OntimeEntry)>::empty());
    }
    None
}

/// The rundown's rows in flat order: each id the entry table resolves
/// becomes one event, titled by the entry or by `"{type} ({id})"` when the
/// entry has no title.
pub fn rundown_events(r: &OntimeRundown) -> (events: Vec<OntimeEvent>)
    ensures
        events@.map_values(|ev: OntimeEvent| event_view(ev)) == events_of(r.entries@, r.flat_order@),
{
    let n = r.flat_order.len();
    let mut events: Vec<OntimeEvent> = Vec::new();
    proof {
        assert(r.flat_order@.subrange(0, 0) =~= Seq::<String>::empty());
        assert(events@.map_values(|ev: OntimeEvent| event_view(ev))
            =~= Seq::<EventV>::empty());
    }
    let mut i: usize = 0;
    while i < n
        invariant
            0 <= i <= n,
            n == r.flat_order@.len(),
            events@.map_values(|ev: OntimeEvent| event_view(ev))
                == events_of(r.entries@, r.flat_order@.subrange(0, i as int)),
        decreases n - i,
    {
        let ghost prefix = r.flat_order@.subrange(0, i as int);
        let ghost prefix1 = r.flat_order@.subrange(0, i + 1);
        proof {
            assert(prefix1.drop_last() =~= prefix);
            assert(prefix1.last() == r.flat_order@[i as int]);
        }
        match entry_for(&r.entries, r.flat_order[i].as_str()) {
            Some(entry) => {
                let title = if entry.title.as_str().is_empty() {
                    proof {
                        reveal_strlit(" (");
                        reveal_strlit(")");
                    }
                    let mut t = entry.entry_type.clone();
                    t.append(" (");
                    t.append(entry.id.as_str());
                    t.append(")");
                    t
                } else {
                    entry.title.clone()
                };
                let ev = OntimeEvent {
                    id: entry.id.clone(),
                    title,
                    event_type: entry.entry_type.clone(),
                };
                proof {
                    assert(event_view(ev) =~= entry_event(*entry));
                }
                events.push(ev);
                proof {
                    assert(events@.map_values(|x: OntimeEvent| event_view(x))
                        =~= events_of(r.entries@, prefix).push(entry_event(*entry)));
                }
            },
            None => {},
        }
        i = i + 1;
    }
    proof {
        assert(r.flat_order@.subrange(0, n as int) =~= r.flat_order@);
    }
    events
}

/// The parallel id and title lists of an event list, in the same order:
/// the shape the push engine takes its snapshot of the remote rundown in.
pub fn ids_and_titles(events: &Vec<OntimeEvent>) -> (r: (Vec<String>, Vec<String>))
    ensures
        r.0@.len() == events@.len(),
        r.1@.len() == events@.len(),
        forall|i: int| 0 <= i < events@.len()
            ==> r.0@[i] == (#[trigger] events@[i]).id && r.1@[i] == events@[i].title,
{
    let n = events.len();
    let mut ids: Vec<String> = Vec::new();
    let mut titles: Vec<String> = Vec::new();
    let mut i: usize = 0;
    while i < n
        invariant
            0 <= i <= n,
            n == events@.len(),
            ids@.len() == i,
            titles@.len() == i,
            forall|t: int| 0 <= t < i
                ==> ids@[t] == (#[trigger] events@[t]).id && titles@[t] == events@[t].title,
        decreases n - i,
    {
        ids.push(events[i].id.clone());
        titles.push(events[i].title.clone());
        i = i + 1;
    }
    (ids, titles)
}

} // verus!
