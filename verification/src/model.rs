//! The draft model: an ordered list of formatter items — standalone timed
//! entries, named groups of entries, and insertion-point references into the
//! remote rundown — plus the membership and default-value queries the
//! editing surface needs.

use vstd::prelude::*;
use vstd::string::StringExecFns;

use crate::time_format::dec_str;
use crate::time_format::format_hms_spec;
use crate::time_format::format_ms_to_duration;
use crate::time_format::u64_to_dec;
use crate::time_format::wrap_u64;

verus! {

/// A single schedulable item: identity and title from the source playlist,
/// timing text in `HH:MM:SS` form, and the two scheduling flags.
#[derive(Debug, Clone, PartialEq)]
pub struct TimedEntry {
    pub item_id: String,
    pub name: String,
    pub item_type: String,
    pub duration: String,
    pub end_time: String,
    pub count_to_end: bool,
    pub link_start: bool,
}

/// A named container of timed entries.
#[derive(Debug, Clone, PartialEq)]
pub struct FormatterGroup {
    pub id: String,
    pub name: String,
    pub color: String,
    pub entries: Vec<TimedEntry>,
    pub collapsed: bool,
}

/// How a reference item repositions the cursor: following items become
/// siblings after the referenced entry, or children inside it.
#[derive(Debug, Clone, Copy, PartialEq)]
pub enum InsertionMode {
    After,
    Into,
}

/// Which timing field of an entry is being edited.
#[derive(Debug, Clone, PartialEq, Copy)]
pub enum TimeField {
    Duration,
    EndTime,
}

/// Where a time edit applies: the item, the entry inside it when the item
/// is a group, the field, and the text being replaced.
#[derive(Debug, Clone, PartialEq)]
pub struct TimeEditContext {
    pub item_idx: usize,
    pub sub_item_idx: Option<usize>,
    pub field: TimeField,
    pub current_value: String,
}

/// One position of the draft list: a standalone entry to create, a group
/// whose entries are created as its children, or a pure cursor-control
/// reference to an existing remote entry.
#[derive(Debug, Clone, PartialEq)]
pub enum FormatterItem {
    Standalone(TimedEntry),
    Group {
        id: String,
        name: String,
        color: String,
        entries: Vec<TimedEntry>,
        collapsed: bool,
    },
    Reference {
        id: String,
        title: String,
        item_type: String,
        mode: InsertionMode,
        time_end: u64,
    },
}

/// Whether a playlist item id occurs in this draft item: as the standalone
/// entry itself or inside a group's entries. Reference items never hold
/// playlist entries.
pub open spec fn item_has_entry_id(item: FormatterItem, id: Seq<char>) -> bool {
    match item {
        FormatterItem::Standalone(e) => e.item_id@ == id,
        FormatterItem::Group { entries, .. } =>
            exists|k: int| 0 <= k < entries@.len() && #[trigger] entries@[k].item_id@ == id,
        FormatterItem::Reference { .. } => false,
    }
}

/// This item is a reference to the given remote id.
pub open spec fn item_is_reference_to(item: FormatterItem, id: Seq<char>) -> bool {
    item matches FormatterItem::Reference { id: rid, .. } && rid@ == id
}

/// Whether a reference item pointing at this remote id is in the list.
pub open spec fn has_reference_to(items: Seq<FormatterItem>, id: Seq<char>) -> bool {
    exists|i: int| 0 <= i < items.len() && item_is_reference_to(#[trigger] items[i], id)
}

/// Number of group items in the list.
pub open spec fn group_count(items: Seq<FormatterItem>) -> int
    decreases items.len(),
{
    if items.len() == 0 {
        0
    } else {
        group_count(items.drop_last()) + if items.last() is Group { 1int } else { 0int }
    }
}

/// The `timeEnd` of the most recent reference item with a nonzero one,
/// scanning from the end of the list.
pub open spec fn latest_nonzero_ref_end(items: Seq<FormatterItem>) -> Option<u64>
    decreases items.len(),
{
    if items.len() == 0 {
        None
    } else {
        match items.last() {
            FormatterItem::Reference { time_end, .. } => if time_end != 0 {
                Some(time_end)
            } else {
                latest_nonzero_ref_end(items.drop_last())
            },
            _ => latest_nonzero_ref_end(items.drop_last()),
        }
    }
}

/// The suggested end time for the next added entry: the latest referenced
/// end time plus the default duration, or the zero sentinel when no
/// reference provides one.
pub open spec fn suggested_end_spec(items: Seq<FormatterItem>, default_ms: u64) -> Seq<char> {
    match latest_nonzero_ref_end(items) {
        Some(e) => format_hms_spec(wrap_u64(e + default_ms)),
        None => format_hms_spec(0),
    }
}

/// `sel` names a group item of the list.
pub open spec fn targets_group(items: Seq<FormatterItem>, sel: Option<usize>) -> bool {
    sel matches Some(idx) && idx < items.len() && items[idx as int] is Group
}

/// `new_it` is `old_it` — a group — with `entry` appended to its entries.
pub open spec fn group_with_entry_appended(
    old_it: FormatterItem,
    new_it: FormatterItem,
    entry: TimedEntry,
) -> bool {
    &&& old_it matches FormatterItem::Group {
        id: oid, name: onm, color: oco, entries: oen, collapsed: ocl }
    &&& new_it matches FormatterItem::Group {
        id: nid, name: nnm, color: nco, entries: nen, collapsed: ncl }
    &&& nid@ == oid@
    &&& nnm@ == onm@
    &&& nco@ == oco@
    &&& ncl == ocl
    &&& nen@ == oen@.push(entry)
}

/// The entry with the chosen timing field replaced.
pub open spec fn with_time_field(e: TimedEntry, field: TimeField, v: String) -> TimedEntry {
    match field {
        TimeField::Duration => TimedEntry { duration: v, ..e },
        TimeField::EndTime => TimedEntry { end_time: v, ..e },
    }
}

/// How many entries an item holds when it is a group; none otherwise.
pub open spec fn sub_entry_count(item: FormatterItem) -> int {
    match item {
        FormatterItem::Group { entries, .. } => entries@.len() as int,
        _ => 0,
    }
}

/// `new_it` is `old_it` — a group — with entry `k`'s timing field
/// replaced and everything else as it was.
pub open spec fn group_with_entry_edited(
    old_it: FormatterItem,
    new_it: FormatterItem,
    k: int,
    field: TimeField,
    v: String,
) -> bool {
    &&& old_it matches FormatterItem::Group {
        id: oid, name: onm, color: oco, entries: oen, collapsed: ocl }
    &&& new_it matches FormatterItem::Group {
        id: nid, name: nnm, color: nco, entries: nen, collapsed: ncl }
    &&& nid@ == oid@
    &&& nnm@ == onm@
    &&& nco@ == oco@
    &&& ncl == ocl
    &&& 0 <= k < oen@.len()
    &&& nen@ == oen@.update(k, with_time_field(oen@[k], field, v))
}

/// `new_it` is `old_it` — a group — with entry `k` removed.
pub open spec fn group_with_entry_removed(
    old_it: FormatterItem,
    new_it: FormatterItem,
    k: int,
) -> bool {
    &&& old_it matches FormatterItem::Group {
        id: oid, name: onm, color: oco, entries: oen, collapsed: ocl }
    &&& new_it matches FormatterItem::Group {
        id: nid, name: nnm, color: nco, entries: nen, collapsed: ncl }
    &&& nid@ == oid@
    &&& nnm@ == onm@
    &&& nco@ == oco@
    &&& ncl == ocl
    &&& 0 <= k < oen@.len()
    &&& nen@ == oen@.remove(k)
}

/// The user's draft: the ordered item list and which group, if any, is
/// selected to receive newly added entries.
#[derive(Debug, Clone, PartialEq)]
pub struct FormatterModel {
    pub items: Vec<FormatterItem>,
    pub selected_group: Option<usize>,
}

impl FormatterModel {
    /// A playlist item id occurs somewhere in the draft, as a standalone
    /// entry or inside a group.
    pub open spec fn contains_entry_id(self, id: Seq<char>) -> bool {
        exists|i: int| 0 <= i < self.items@.len()
            && item_has_entry_id(#[trigger] self.items@[i], id)
    }

    pub fn new() -> (m: FormatterModel)
        ensures
            m.items@.len() == 0,
            m.selected_group is None,
    {
        FormatterModel { items: Vec::new(), selected_group: None }
    }

    /// True when the playlist item id is already present as a standalone
    /// entry or inside any group; reference items never match.
    pub fn is_added(&self, item_id: &str) -> (r: bool)
        ensures
            r == self.contains_entry_id(item_id@),
    {
        let key = item_id.to_owned();
        let n = self.items.len();
        let mut i: usize = 0;
        while i < n
            invariant
                0 <= i <= n,
                n == self.items@.len(),
                key@ == item_id@,
                forall|t: int| 0 <= t < i ==> !item_has_entry_id(#[trigger] self.items@[t], item_id@),
            decreases n - i,
        {
            match &self.items[i] {
                FormatterItem::Standalone(e) => {
                    if e.item_id == key {
                        return true;
                    }
                },
                FormatterItem::Group { entries, .. } => {
                    let m = entries.len();
                    let mut k: usize = 0;
                    while k < m
                        invariant
                            0 <= k <= m,
                            i < self.items@.len(),
                            m == entries@.len(),
                            key@ == item_id@,
                            self.items@[i as int] matches FormatterItem::Group { entries: es, .. }
                                && es@ == entries@,
                            forall|t: int| 0 <= t < k ==> #[trigger] entries@[t].item_id@ != item_id@,
                        decreases m - k,
                    {
                        if entries[k].item_id == key {
                            assert(item_has_entry_id(self.items@[i as int], item_id@));
                            return true;
                        }
                        k = k + 1;
                    }
                    proof {
                        assert(!item_has_entry_id(self.items@[i as int], item_id@));
                    }
                },
                FormatterItem::Reference { .. } => {},
            }
            i = i + 1;
        }
        false
    }

    /// True when a reference item to this remote id is already in the list.
    pub fn is_referenced(&self, remote_id: &str) -> (r: bool)
        ensures
            r == has_reference_to(self.items@, remote_id@),
    {
        let key = remote_id.to_owned();
        let n = self.items.len();
        let mut i: usize = 0;
        while i < n
            invariant
                0 <= i <= n,
                n == self.items@.len(),
                key@ == remote_id@,
                forall|t: int| 0 <= t < i
                    ==> !item_is_reference_to(#[trigger] self.items@[t], remote_id@),
            decreases n - i,
        {
            if let FormatterItem::Reference { id, .. } = &self.items[i] {
                if *id == key {
                    return true;
                }
            }
            i = i + 1;
        }
        false
    }

    /// Add a timed entry: a no-op when its playlist id is already present;
    /// otherwise appended to the selected group when `selected_group` names
    /// a group item, and appended as a standalone item at the end of the
    /// list otherwise. Selection is left as it is.
    pub fn add_standalone_or_into_selected_group(
        &mut self,
        entry: TimedEntry,
        selected_group: Option<usize>,
    )
        ensures
            final(self).selected_group == old(self).selected_group,
            old(self).contains_entry_id(entry.item_id@)
                ==> final(self).items@ == old(self).items@,
            !old(self).contains_entry_id(entry.item_id@)
                && targets_group(old(self).items@, selected_group)
                ==> {
                    let idx = selected_group->0 as int;
                    &&& final(self).items@.len() == old(self).items@.len()
                    &&& forall|t: int| 0 <= t < old(self).items@.len() && t != idx
                        ==> final(self).items@[t] == old(self).items@[t]
                    &&& group_with_entry_appended(
                        old(self).items@[idx], final(self).items@[idx], entry)
                },
            !old(self).contains_entry_id(entry.item_id@)
                && !targets_group(old(self).items@, selected_group)
                ==> final(self).items@
                    == old(self).items@.push(FormatterItem::Standalone(entry)),
    {
        if self.is_added(entry.item_id.as_str()) {
            return;
        }
        let use_group = match selected_group {
            Some(idx) => idx < self.items.len() && matches!(&self.items[idx], FormatterItem::Group { .. }),
            None => false,
        };
        if use_group {
            let idx = match selected_group {
                Some(idx) => idx,
                None => 0,
            };
            let it = self.items.remove(idx);
            match it {
                FormatterItem::Group { id, name, color, mut entries, collapsed } => {
                    entries.push(entry);
                    self.items.insert(idx, FormatterItem::Group { id, name, color, entries, collapsed });
                    proof {
                        assert(final(self).items@ =~= old(self).items@.update(
                            idx as int, final(self).items@[idx as int]));
                    }
                },
                other => {
                    // `use_group` saw a group at this index.
                    self.items.insert(idx, other);
                    assert(false);
                },
            }
        } else {
            self.items.push(FormatterItem::Standalone(entry));
        }
    }

    /// Append a new empty group under the given display name. Its generated
    /// id numbers it after the groups currently present, so the id is not
    /// unique across deletions; it is a display label only, never a remote
    /// key.
    pub fn add_group(&mut self, name: String, color: String) -> (idx: usize)
        requires
            old(self).items@.len() < usize::MAX,
        ensures
            idx == old(self).items@.len(),
            final(self).selected_group == old(self).selected_group,
            final(self).items@.len() == old(self).items@.len() + 1,
            forall|t: int| 0 <= t < old(self).items@.len()
                ==> final(self).items@[t] == old(self).items@[t],
            final(self).items@.last() matches FormatterItem::Group {
                id, name: nm, color: c, entries, collapsed }
                && id@ == "group-"@ + dec_str(group_count(old(self).items@) + 1)
                && nm@ == name@
                && c@ == color@
                && entries@.len() == 0
                && !collapsed,
    {
        let n = self.items.len();
        let mut count: usize = 0;
        let mut i: usize = 0;
        while i < n
            invariant
                0 <= i <= n,
                n == self.items@.len(),
                count <= i,
                count == group_count(self.items@.subrange(0, i as int)),
            decreases n - i,
        {
            proof {
                assert(self.items@.subrange(0, i + 1).drop_last()
                    =~= self.items@.subrange(0, i as int));
            }
            if matches!(&self.items[i], FormatterItem::Group { .. }) {
                count = count + 1;
            }
            i = i + 1;
        }
        proof {
            assert(self.items@.subrange(0, n as int) =~= self.items@);
        }
        let number = u64_to_dec((count as u64) + 1);
        let mut id = String::from_str("group-");
        id.append(number.as_str());
        let idx = self.items.len();
        self.items.push(FormatterItem::Group {
            id,
            name,
            color,
            entries: Vec::new(),
            collapsed: false,
        });
        idx
    }

    /// Add a reference item pointing at an existing remote entry: a no-op
    /// when a reference with the same remote id is already in the list.
    pub fn add_reference(
        &mut self,
        id: String,
        title: String,
        item_type: String,
        mode: InsertionMode,
        time_end: u64,
    )
        ensures
            final(self).selected_group == old(self).selected_group,
            has_reference_to(old(self).items@, id@)
                ==> final(self).items@ == old(self).items@,
            !has_reference_to(old(self).items@, id@)
                ==> final(self).items@ == old(self).items@.push(
                    FormatterItem::Reference { id, title, item_type, mode, time_end }),
    {
        if self.is_referenced(id.as_str()) {
            return;
        }
        self.items.push(FormatterItem::Reference { id, title, item_type, mode, time_end });
    }

    /// The end-time text to prefill for the next added entry: the latest
    /// nonzero referenced end time plus the default duration, formatted; the
    /// zero sentinel when no reference provides one.
    pub fn suggested_end_time_for_next_add(&self, default_duration_ms: u64) -> (s: String)
        ensures
            s@ == suggested_end_spec(self.items@, default_duration_ms),
    {
        let n = self.items.len();
        proof {
            assert(self.items@.subrange(0, n as int) =~= self.items@);
        }
        let mut k: usize = n;
        while k > 0
            invariant
                0 <= k <= n,
                n == self.items@.len(),
                latest_nonzero_ref_end(self.items@.subrange(0, k as int))
                    == latest_nonzero_ref_end(self.items@),
            decreases k,
        {
            proof {
                assert(self.items@.subrange(0, k as int).drop_last()
                    =~= self.items@.subrange(0, k - 1));
                assert(self.items@.subrange(0, k as int).last() == self.items@[k - 1]);
            }
            k = k - 1;
            if let FormatterItem::Reference { time_end, .. } = &self.items[k] {
                if *time_end != 0 {
                    let e = *time_end;
                    let sum = ((e as u128 + default_duration_ms as u128)
                        % 0x1_0000_0000_0000_0000u128) as u64;
                    return format_ms_to_duration(sum);
                }
            }
        }
        proof {
            assert(self.items@.subrange(0, 0) =~= Seq::<FormatterItem>::empty());
        }
        format_ms_to_duration(0)
    }

    /// Move the item at `source` so that it sits at `dest`, keeping the
    /// relative order of everything else. A selection on the moved item
    /// follows it; a selection on the index it lands on is cleared;
    /// any other selection is kept.
    pub fn move_item(&mut self, source: usize, dest: usize)
        requires
            source < old(self).items@.len(),
            dest < old(self).items@.len(),
        ensures
            final(self).items@ == old(self).items@.remove(source as int)
                .insert(dest as int, old(self).items@[source as int]),
            final(self).selected_group == (if old(self).selected_group == Some(source) {
                Some(dest)
            } else if old(self).selected_group == Some(dest) {
                Option::<usize>::None
            } else {
                old(self).selected_group
            }),
    {
        let it = self.items.remove(source);
        self.items.insert(dest, it);
        match self.selected_group {
            Some(sel) => {
                if sel == source {
                    self.selected_group = Some(dest);
                } else if sel == dest {
                    self.selected_group = None;
                }
            },
            None => {},
        }
    }

    /// Delete the item at `index`; a selection on it is cleared.
    pub fn remove(&mut self, index: usize)
        requires
            index < old(self).items@.len(),
        ensures
            final(self).items@ == old(self).items@.remove(index as int),
            final(self).selected_group == (if old(self).selected_group == Some(index) {
                Option::<usize>::None
            } else {
                old(self).selected_group
            }),
    {
        self.items.remove(index);
        match self.selected_group {
            Some(sel) => {
                if sel == index {
                    self.selected_group = None;
                }
            },
            None => {},
        }
    }

    /// Write a time-edit result back into the draft: set the chosen field
    /// of the standalone entry at `ctx.item_idx`, or of entry
    /// `ctx.sub_item_idx` of the group there. Anything the context does
    /// not name — an index past the list, a group edit without a valid
    /// sub-index, a reference item — leaves the draft unchanged.
    pub fn apply_time_edit(&mut self, ctx: &TimeEditContext, new_value: String)
        ensures
            final(self).selected_group == old(self).selected_group,
            ({
                let items = old(self).items@;
                let idx = ctx.item_idx as int;
                if ctx.item_idx < items.len() {
                    match items[idx] {
                        FormatterItem::Standalone(entry) => final(self).items@
                            == items.update(idx, FormatterItem::Standalone(
                                with_time_field(entry, ctx.field, new_value))),
                        FormatterItem::Group { .. } => {
                            if (ctx.sub_item_idx matches Some(k)
                                && sub_entry_count(items[idx]) > k) {
                                &&& final(self).items@.len() == items.len()
                                &&& forall|t: int| 0 <= t < items.len() && t != idx
                                    ==> final(self).items@[t] == items[t]
                                &&& group_with_entry_edited(
                                    items[idx], final(self).items@[idx],
                                    ctx.sub_item_idx->0 as int, ctx.field, new_value)
                            } else {
                                final(self).items@ == items
                            }
                        },
                        FormatterItem::Reference { .. } => final(self).items@ == items,
                    }
                } else {
                    final(self).items@ == items
                }
            }),
    {
        if ctx.item_idx >= self.items.len() {
            return;
        }
        let idx = ctx.item_idx;
        let it = self.items.remove(idx);
        match it {
            FormatterItem::Standalone(mut entry) => {
                match ctx.field {
                    TimeField::Duration => {
                        entry.duration = new_value;
                    },
                    TimeField::EndTime => {
                        entry.end_time = new_value;
                    },
                }
                self.items.insert(idx, FormatterItem::Standalone(entry));
                proof {
                    assert(final(self).items@ =~= old(self).items@.update(
                        idx as int, final(self).items@[idx as int]));
                }
            },
            FormatterItem::Group { id, name, color, mut entries, collapsed } => {
                let sub_ok = match ctx.sub_item_idx {
                    Some(k) => k < entries.len(),
                    None => false,
                };
                if sub_ok {
                    let k = match ctx.sub_item_idx {
                        Some(k) => k,
                        None => 0,
                    };
                    let mut entry = entries.remove(k);
                    match ctx.field {
                        TimeField::Duration => {
                            entry.duration = new_value;
                        },
                        TimeField::EndTime => {
                            entry.end_time = new_value;
                        },
                    }
                    entries.insert(k, entry);
                    proof {
                        assert(entries@ =~= old(self).items@[idx as int]
                            ->Group_entries@.update(k as int, entries@[k as int]));
                    }
                }
                self.items.insert(idx, FormatterItem::Group { id, name, color, entries, collapsed });
                proof {
                    if !(ctx.sub_item_idx matches Some(k)
                        && sub_entry_count(old(self).items@[idx as int]) > k) {
                        assert(final(self).items@ =~= old(self).items@);
                    } else {
                        assert(final(self).items@ =~= old(self).items@.update(
                            idx as int, final(self).items@[idx as int]));
                    }
                }
            },
            FormatterItem::Reference { id, title, item_type, mode, time_end } => {
                self.items.insert(idx, FormatterItem::Reference {
                    id, title, item_type, mode, time_end });
                proof {
                    assert(final(self).items@ =~= old(self).items@);
                }
            },
        }
    }

    /// Delete entry `entry_idx` from the group at `item_idx`; everything
    /// else stays as it is.
    pub fn remove_group_entry(&mut self, item_idx: usize, entry_idx: usize)
        requires
            item_idx < old(self).items@.len(),
            old(self).items@[item_idx as int] matches FormatterItem::Group { entries, .. }
                ==> entry_idx < entries@.len(),
        ensures
            final(self).selected_group == old(self).selected_group,
            ({
                let items = old(self).items@;
                let idx = item_idx as int;
                if items[idx] is Group {
                    &&& final(self).items@.len() == items.len()
                    &&& forall|t: int| 0 <= t < items.len() && t != idx
                        ==> final(self).items@[t] == items[t]
                    &&& group_with_entry_removed(
                        items[idx], final(self).items@[idx], entry_idx as int)
                } else {
                    final(self).items@ == items
                }
            }),
    {
        let it = self.items.remove(item_idx);
        match it {
            FormatterItem::Group { id, name, color, mut entries, collapsed } => {
                entries.remove(entry_idx);
                self.items.insert(item_idx, FormatterItem::Group {
                    id, name, color, entries, collapsed });
                proof {
                    assert(final(self).items@ =~= old(self).items@.update(
                        item_idx as int, final(self).items@[item_idx as int]));
                }
            },
            other => {
                self.items.insert(item_idx, other);
                proof {
                    assert(final(self).items@ =~= old(self).items@);
                }
            },
        }
    }

    /// Empty the draft and clear the selection — the reset a successful
    /// push performs.
    pub fn clear(&mut self)
        ensures
            final(self).items@.len() == 0,
            final(self).selected_group is None,
    {
        self.items.clear();
        self.selected_group = None;
    }
}

/// An id that sits inside some group's entries is reported as present by
/// the membership query.
pub proof fn lemma_group_member_is_added(m: FormatterModel, i: int, k: int, id: Seq<char>)
    requires
        0 <= i < m.items@.len(),
        m.items@[i] matches FormatterItem::Group { entries, .. }
            && 0 <= k < entries@.len() && entries@[k].item_id@ == id,
    ensures
        m.contains_entry_id(id),
{
    assert(item_has_entry_id(m.items@[i], id));
}

/// Reference items alone never make the membership query true: a draft of
/// references contains no playlist entry at all.
pub proof fn lemma_references_not_added(m: FormatterModel, id: Seq<char>)
    requires
        forall|i: int| 0 <= i < m.items@.len() ==> #[trigger] m.items@[i] is Reference,
    ensures
        !m.contains_entry_id(id),
{
}

} // verus!
