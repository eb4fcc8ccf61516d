//! The push engine: walks a snapshot of the draft list and turns it into an
//! ordered sequence of create-entry operations against the destination
//! rundown, maintaining the `after`/`parent` cursor across the walk.
//!
//! The engine is a step machine. `step` yields the next thing to do — a
//! create operation to send, a note that a duplicate title was skipped or
//! that a reference moved the cursor — and after sending an operation the
//! caller reports the created id (or the failure) back, which advances the
//! cursor. `engine_run` is the mathematical account of a whole walk, given
//! the sequence of per-operation outcomes, and the laws at the bottom of
//! this file are proved against it.

use vstd::prelude::*;

use crate::model::FormatterItem;
use crate::model::InsertionMode;
use crate::model::TimedEntry;
use crate::time_format::duration_ms_spec;
use crate::time_format::parse_duration_to_ms;

verus! {

broadcast use vstd::std_specs::vec::axiom_spec_len;

/// The body of a create-event call: title, timing in milliseconds, and the
/// two scheduling flags.
#[derive(Debug, Clone, PartialEq)]
pub struct EventFields {
    pub title: String,
    pub duration_ms: u64,
    pub time_end_ms: u64,
    pub count_to_end: bool,
    pub link_start: bool,
}

/// What a create operation makes: a timed event or a coloured group.
#[derive(Debug, Clone, PartialEq)]
pub enum CreateKind {
    Event(EventFields),
    Group { title: String, colour: String },
}

/// One create-entry call: the payload plus the optional `parent` and
/// `after` attachment fields derived from the cursor.
#[derive(Debug, Clone, PartialEq)]
pub struct CreateOp {
    pub kind: CreateKind,
    pub parent: Option<String>,
    pub after: Option<String>,
}

/// The create-event operation for a timed entry at the given cursor.
pub open spec fn event_op(
    entry: TimedEntry,
    parent: Option<String>,
    after: Option<String>,
) -> CreateOp {
    CreateOp {
        kind: CreateKind::Event(EventFields {
            title: entry.name,
            duration_ms: duration_ms_spec(entry.duration@),
            time_end_ms: duration_ms_spec(entry.end_time@),
            count_to_end: entry.count_to_end,
            link_start: entry.link_start,
        }),
        parent,
        after,
    }
}

/// The create-group operation for a group at the given cursor.
pub open spec fn group_op(
    title: String,
    colour: String,
    parent: Option<String>,
    after: Option<String>,
) -> CreateOp {
    CreateOp { kind: CreateKind::Group { title, colour }, parent, after }
}

/// A title occurs in the list of existing remote titles (the sole,
/// case-sensitive duplicate test).
pub open spec fn title_present(titles: Seq<String>, name: Seq<char>) -> bool {
    exists|i: int| 0 <= i < titles.len() && #[trigger] titles[i]@ == name
}

/// Where the walk stands: at a top-level item, inside a group's children,
/// or waiting for the outcome of the operation just handed out.
#[derive(Debug, Clone, Copy, PartialEq)]
pub enum Phase {
    AtItem,
    AwaitItem,
    AwaitGroup,
    AtChild(usize),
    AwaitChild(usize),
}

/// What the engine asks of its caller next.
#[derive(Debug, Clone, PartialEq)]
pub enum PushStep {
    /// Send this create operation, and report the outcome back.
    Post(CreateOp),
    /// This entry's title already exists remotely: it was skipped without a
    /// call and without touching the cursor.
    SkippedDuplicate(String),
    /// A reference item repositioned the cursor; no call was made.
    CursorMoved(InsertionMode, String),
    /// All children of the current group are done; the walk is back at the
    /// top level, chaining after the group itself.
    GroupFinished,
    /// The walk is complete.
    Finished,
}

/// The push walk's whole state: the immutable snapshot (draft items and
/// existing remote titles), the outer cursor, the in-group cursor, and the
/// position of the walk.
pub struct PushEngine {
    pub items: Vec<FormatterItem>,
    pub existing_titles: Vec<String>,
    pub after_id: Option<String>,
    pub parent_id: Option<String>,
    pub group_id: Option<String>,
    pub internal_after: Option<String>,
    pub pos: usize,
    pub phase: Phase,
}

/// First element of the outcome sequence, `None` when exhausted: an
/// outcome list shorter than the walk reads as failures from there on.
pub open spec fn first_out(outs: Seq<Option<String>>) -> Option<String> {
    if outs.len() > 0 {
        outs[0]
    } else {
        None
    }
}

pub open spec fn rest_out(outs: Seq<Option<String>>) -> Seq<Option<String>> {
    if outs.len() > 0 {
        outs.drop_first()
    } else {
        outs
    }
}

pub open spec fn skip_out(outs: Seq<Option<String>>, n: int) -> Seq<Option<String>> {
    if 0 <= n <= outs.len() {
        outs.skip(n)
    } else if n > outs.len() {
        Seq::empty()
    } else {
        outs
    }
}

/// The walk moved past the item at `pos` with the cursor untouched.
pub open spec fn advanced(e: PushEngine) -> PushEngine {
    PushEngine { pos: (e.pos + 1) as usize, ..e }
}

/// A reference item set the cursor: `After` chains siblings after the
/// referenced entry, `Into` descends into it with no sibling anchor yet.
pub open spec fn after_reference(e: PushEngine, id: String, mode: InsertionMode) -> PushEngine {
    match mode {
        InsertionMode::After => PushEngine {
            after_id: Some(id),
            parent_id: None,
            pos: (e.pos + 1) as usize,
            ..e
        },
        InsertionMode::Into => PushEngine {
            parent_id: Some(id),
            after_id: None,
            pos: (e.pos + 1) as usize,
            ..e
        },
    }
}

/// The outcome of a standalone create: on success the next sibling chains
/// after the new entry; a failure leaves the cursor where it was.
pub open spec fn resolve_item(e: PushEngine, id: Option<String>) -> PushEngine {
    PushEngine {
        after_id: if id is Some {
            id
        } else {
            e.after_id
        },
        pos: (e.pos + 1) as usize,
        phase: Phase::AtItem,
        ..e
    }
}

/// The outcome of a group create: the walk descends into the children with
/// a fresh internal cursor; on success the group itself becomes the outer
/// sibling anchor for whatever follows it.
pub open spec fn resolve_group(e: PushEngine, gid: Option<String>) -> PushEngine {
    PushEngine {
        group_id: gid,
        internal_after: None,
        after_id: if gid is Some {
            gid
        } else {
            e.after_id
        },
        phase: Phase::AtChild(0),
        ..e
    }
}

/// The outcome of a child create: on success the next child chains after
/// it inside the group; the outer cursor is untouched.
pub open spec fn resolve_child(e: PushEngine, c: int, id: Option<String>) -> PushEngine {
    PushEngine {
        internal_after: if id is Some {
            id
        } else {
            e.internal_after
        },
        phase: Phase::AtChild((c + 1) as usize),
        ..e
    }
}

/// All children done: back to the top level at the next item. The outer
/// cursor already chains after the group, not after its last child.
pub open spec fn group_exit(e: PushEngine) -> PushEngine {
    PushEngine {
        group_id: None,
        internal_after: None,
        pos: (e.pos + 1) as usize,
        phase: Phase::AtItem,
        ..e
    }
}

/// The operations emitted for a group's children from child `c` on, given
/// the group's created id, the internal cursor, and the outcomes of the
/// successive calls. A child whose title already exists remotely emits
/// nothing and leaves the internal cursor unchanged.
pub open spec fn child_run(
    entries: Vec<TimedEntry>,
    c: int,
    titles: Seq<String>,
    gid: Option<String>,
    iafter: Option<String>,
    outs: Seq<Option<String>>,
) -> Seq<CreateOp>
    decreases entries.len() - c,
{
    if c < 0 || c >= entries.len() {
        Seq::empty()
    } else if title_present(titles, entries@[c].name@) {
        child_run(entries, c + 1, titles, gid, iafter, outs)
    } else {
        let op = event_op(entries@[c], gid, iafter);
        let out = first_out(outs);
        let next_iafter = if out is Some {
            out
        } else {
            iafter
        };
        seq![op] + child_run(entries, c + 1, titles, gid, next_iafter, rest_out(outs))
    }
}

/// The operations a whole walk emits from a top-level state, given the
/// outcome of each successive call: each emitted operation consumes exactly
/// one outcome, in order.
pub open spec fn engine_run(e: PushEngine, outs: Seq<Option<String>>) -> Seq<CreateOp>
    decreases e.items.len() - e.pos,
{
    if !(e.phase is AtItem) || e.pos >= e.items.len() {
        Seq::empty()
    } else {
        match e.items@[e.pos as int] {
            FormatterItem::Reference { id, mode, .. } => engine_run(
                after_reference(e, id, mode),
                outs,
            ),
            FormatterItem::Standalone(entry) => {
                if title_present(e.existing_titles@, entry.name@) {
                    engine_run(advanced(e), outs)
                } else {
                    let op = event_op(entry, e.parent_id, e.after_id);
                    seq![op] + engine_run(resolve_item(e, first_out(outs)), rest_out(outs))
                }
            },
            FormatterItem::Group { name, color, entries, .. } => {
                let op = group_op(name, color, e.parent_id, e.after_id);
                let gid = first_out(outs);
                let ch = child_run(entries, 0, e.existing_titles@, gid, None, rest_out(outs));
                seq![op] + ch + engine_run(
                    group_exit(resolve_group(e, gid)),
                    skip_out(rest_out(outs), ch.len() as int),
                )
            },
        }
    }
}

/// What a walk still emits from any state the machine can rest in between
/// calls: a top-level position continues as `engine_run`; a position inside
/// a group finishes the remaining children and then continues past the
/// group.
pub open spec fn remaining_run(e: PushEngine, outs: Seq<Option<String>>) -> Seq<CreateOp> {
    match e.phase {
        Phase::AtItem => engine_run(e, outs),
        Phase::AtChild(c) => {
            if e.pos < e.items.len() {
                match e.items@[e.pos as int] {
                    FormatterItem::Group { entries, .. } => {
                        let ch = child_run(
                            entries, c as int, e.existing_titles@,
                            e.group_id, e.internal_after, outs);
                        ch + engine_run(group_exit(e), skip_out(outs, ch.len() as int))
                    },
                    _ => Seq::empty(),
                }
            } else {
                Seq::empty()
            }
        },
        _ => Seq::empty(),
    }
}

/// The state a fresh walk starts from: at the first item, appending to the
/// very end of the existing rundown (the last existing id, if any, is the
/// initial sibling anchor) with no parent.
pub open spec fn initial_engine(
    items: Vec<FormatterItem>,
    ids: Seq<String>,
    titles: Vec<String>,
) -> PushEngine {
    PushEngine {
        items,
        existing_titles: titles,
        after_id: if ids.len() > 0 {
            Some(ids.last())
        } else {
            None
        },
        parent_id: None,
        group_id: None,
        internal_after: None,
        pos: 0,
        phase: Phase::AtItem,
    }
}

impl PushEngine {
    /// The walk's position makes sense for its items.
    pub open spec fn wf(self) -> bool {
        match self.phase {
            Phase::AtItem => self.pos <= self.items.len(),
            Phase::AwaitItem => self.pos < self.items.len(),
            Phase::AwaitGroup => self.pos < self.items.len()
                && self.items@[self.pos as int] is Group,
            Phase::AtChild(c) => self.pos < self.items.len()
                && (self.items@[self.pos as int] matches FormatterItem::Group { entries, .. }
                    && c <= entries.len()),
            Phase::AwaitChild(c) => self.pos < self.items.len()
                && (self.items@[self.pos as int] matches FormatterItem::Group { entries, .. }
                    && c < entries.len()),
        }
    }

    /// The machine rests between calls: it is not waiting for an outcome.
    pub open spec fn ready(self) -> bool {
        self.phase is AtItem || self.phase matches Phase::AtChild(_)
    }

    /// Start a walk over a snapshot of the draft items against a snapshot
    /// of the existing remote entries, given as parallel id and title
    /// lists in rundown order.
    pub fn new(
        items: Vec<FormatterItem>,
        existing_ids: &Vec<String>,
        existing_titles: Vec<String>,
    ) -> (e: PushEngine)
        ensures
            e == initial_engine(items, existing_ids@, existing_titles),
            e.wf(),
            e.ready(),
    {
        let after_id = if existing_ids.len() > 0 {
            Some(existing_ids[existing_ids.len() - 1].clone())
        } else {
            None
        };
        PushEngine {
            items,
            existing_titles,
            after_id,
            parent_id: None,
            group_id: None,
            internal_after: None,
            pos: 0,
            phase: Phase::AtItem,
        }
    }

    /// Hand out the next thing to do. A `Post` leaves the machine waiting
    /// for the call's outcome (`provide_result`); every other result leaves
    /// it ready for the next `step`. A duplicate title is skipped without a
    /// call and without touching any cursor; a reference item only moves
    /// the cursor; a group whose children are exhausted hands the walk back
    /// to the top level, chaining after the group itself.
    pub fn step(&mut self) -> (r: PushStep)
        requires
            old(self).wf(),
            old(self).ready(),
        ensures
            final(self).wf(),
            ({
                let pre = *old(self);
                let post = *final(self);
                match r {
                    PushStep::Finished => {
                        &&& pre.phase is AtItem
                        &&& pre.pos >= pre.items.len()
                        &&& post == pre
                    },
                    PushStep::CursorMoved(mode, id) => {
                        &&& pre.phase is AtItem
                        &&& pre.pos < pre.items.len()
                        &&& pre.items@[pre.pos as int] matches FormatterItem::Reference {
                            id: rid, mode: rmode, .. } && id == rid && mode == rmode
                        &&& post == after_reference(pre, id, mode)
                    },
                    PushStep::SkippedDuplicate(title) => {
                        ||| {
                            &&& pre.phase is AtItem
                            &&& pre.pos < pre.items.len()
                            &&& pre.items@[pre.pos as int] matches FormatterItem::Standalone(entry)
                                && title == entry.name
                                && title_present(pre.existing_titles@, entry.name@)
                            &&& post == advanced(pre)
                        }
                        ||| {
                            &&& pre.phase matches Phase::AtChild(c)
                            &&& pre.items@[pre.pos as int] matches FormatterItem::Group {
                                entries, .. }
                                && c < entries.len()
                                && title == entries@[c as int].name
                                && title_present(pre.existing_titles@, entries@[c as int].name@)
                                && post == resolve_child(pre, c as int, None)
                        }
                    },
                    PushStep::Post(op) => {
                        ||| {
                            &&& pre.phase is AtItem
                            &&& pre.pos < pre.items.len()
                            &&& pre.items@[pre.pos as int] matches FormatterItem::Standalone(entry)
                                && !title_present(pre.existing_titles@, entry.name@)
                                && op == event_op(entry, pre.parent_id, pre.after_id)
                            &&& post == awaiting_item(pre)
                        }
                        ||| {
                            &&& pre.phase is AtItem
                            &&& pre.pos < pre.items.len()
                            &&& pre.items@[pre.pos as int] matches FormatterItem::Group {
                                name, color, .. }
                                && op == group_op(name, color, pre.parent_id, pre.after_id)
                            &&& post == awaiting_group(pre)
                        }
                        ||| {
                            &&& pre.phase matches Phase::AtChild(c)
                            &&& pre.items@[pre.pos as int] matches FormatterItem::Group {
                                entries, .. }
                                && c < entries.len()
                                && !title_present(pre.existing_titles@, entries@[c as int].name@)
                                && op == event_op(entries@[c as int], pre.group_id, pre.internal_after)
                                && post == awaiting_child(pre, c as int)
                        }
                    },
                    PushStep::GroupFinished => {
                        &&& pre.phase matches Phase::AtChild(c)
                        &&& pre.items@[pre.pos as int] matches FormatterItem::Group { entries, .. }
                            && c == entries.len()
                        &&& post == group_exit(pre)
                    },
                }
            }),
    {
        match self.phase {
            Phase::AtItem => {
                if self.pos >= self.items.len() {
                    return PushStep::Finished;
                }
                match &self.items[self.pos] {
                    FormatterItem::Reference { id, mode, .. } => {
                        let idc = id.clone();
                        let m = *mode;
                        match m {
                            InsertionMode::After => {
                                self.after_id = Some(idc.clone());
                                self.parent_id = None;
                            },
                            InsertionMode::Into => {
                                self.parent_id = Some(idc.clone());
                                self.after_id = None;
                            },
                        }
                        self.pos = self.pos + 1;
                        PushStep::CursorMoved(m, idc)
                    },
                    FormatterItem::Standalone(entry) => {
                        if title_in(&self.existing_titles, &entry.name) {
                            let t = entry.name.clone();
                            self.pos = self.pos + 1;
                            PushStep::SkippedDuplicate(t)
                        } else {
                            let op = CreateOp {
                                kind: CreateKind::Event(EventFields {
                                    title: entry.name.clone(),
                                    duration_ms: parse_duration_to_ms(entry.duration.as_str()),
                                    time_end_ms: parse_duration_to_ms(entry.end_time.as_str()),
                                    count_to_end: entry.count_to_end,
                                    link_start: entry.link_start,
                                }),
                                parent: clone_opt(&self.parent_id),
                                after: clone_opt(&self.after_id),
                            };
                            self.phase = Phase::AwaitItem;
                            PushStep::Post(op)
                        }
                    },
                    FormatterItem::Group { name, color, .. } => {
                        let op = CreateOp {
                            kind: CreateKind::Group {
                                title: name.clone(),
                                colour: color.clone(),
                            },
                            parent: clone_opt(&self.parent_id),
                            after: clone_opt(&self.after_id),
                        };
                        self.phase = Phase::AwaitGroup;
                        PushStep::Post(op)
                    },
                }
            },
            Phase::AtChild(c) => {
                match &self.items[self.pos] {
                    FormatterItem::Group { entries, .. } => {
                        if c >= entries.len() {
                            self.group_id = None;
                            self.internal_after = None;
                            self.pos = self.pos + 1;
                            self.phase = Phase::AtItem;
                            PushStep::GroupFinished
                        } else {
                            let entry = &entries[c];
                            if title_in(&self.existing_titles, &entry.name) {
                                let t = entry.name.clone();
                                self.phase = Phase::AtChild(c + 1);
                                PushStep::SkippedDuplicate(t)
                            } else {
                                let op = CreateOp {
                                    kind: CreateKind::Event(EventFields {
                                        title: entry.name.clone(),
                                        duration_ms: parse_duration_to_ms(entry.duration.as_str()),
                                        time_end_ms: parse_duration_to_ms(entry.end_time.as_str()),
                                        count_to_end: entry.count_to_end,
                                        link_start: entry.link_start,
                                    }),
                                    parent: clone_opt(&self.group_id),
                                    after: clone_opt(&self.internal_after),
                                };
                                self.phase = Phase::AwaitChild(c);
                                PushStep::Post(op)
                            }
                        }
                    },
                    _ => {
                        proof {
                            assert(false);
                        }
                        PushStep::Finished
                    },
                }
            },
            _ => {
                proof {
                    assert(false);
                }
                PushStep::Finished
            },
        }
    }

    /// Report the outcome of the operation `step` handed out: the created
    /// remote id on success, `None` on any failure. A success becomes the
    /// new sibling anchor at the level the operation belonged to; a failure
    /// leaves every cursor unchanged, so a failed create never becomes an
    /// insertion anchor.
    pub fn provide_result(&mut self, id: Option<String>)
        requires
            old(self).wf(),
            !old(self).ready(),
        ensures
            final(self).wf(),
            final(self).ready(),
            ({
                let pre = *old(self);
                let post = *final(self);
                &&& (pre.phase is AwaitItem ==> post == resolve_item(pre, id))
                &&& (pre.phase is AwaitGroup ==> post == resolve_group(pre, id))
                &&& (pre.phase matches Phase::AwaitChild(c)
                    ==> post == resolve_child(pre, c as int, id))
            }),
    {
        match self.phase {
            Phase::AwaitItem => {
                match id {
                    Some(s) => {
                        self.after_id = Some(s);
                    },
                    None => {},
                }
                self.pos = self.pos + 1;
                self.phase = Phase::AtItem;
            },
            Phase::AwaitGroup => {
                match id {
                    Some(s) => {
                        self.after_id = Some(s.clone());
                        self.group_id = Some(s);
                    },
                    None => {
                        self.group_id = None;
                    },
                }
                self.internal_after = None;
                self.phase = Phase::AtChild(0);
            },
            Phase::AwaitChild(c) => {
                match id {
                    Some(s) => {
                        self.internal_after = Some(s);
                    },
                    None => {},
                }
                self.phase = Phase::AtChild(c + 1);
            },
            _ => {
                proof {
                    assert(false);
                }
            },
        }
    }
}

/// The machine is waiting for the outcome of a standalone create.
pub open spec fn awaiting_item(e: PushEngine) -> PushEngine {
    PushEngine { phase: Phase::AwaitItem, ..e }
}

/// The machine is waiting for the outcome of a group create.
pub open spec fn awaiting_group(e: PushEngine) -> PushEngine {
    PushEngine { phase: Phase::AwaitGroup, ..e }
}

/// The machine is waiting for the outcome of a child create.
pub open spec fn awaiting_child(e: PushEngine, c: int) -> PushEngine {
    PushEngine { phase: Phase::AwaitChild(c as usize), ..e }
}

/// A title is in the list of existing remote titles (exact, case-sensitive
/// comparison).
fn title_in(titles: &Vec<String>, name: &String) -> (r: bool)
    ensures
        r == title_present(titles@, name@),
{
    let n = titles.len();
    let mut i: usize = 0;
    while i < n
        invariant
            0 <= i <= n,
            n == titles@.len(),
            forall|t: int| 0 <= t < i ==> (#[trigger] titles@[t])@ != name@,
        decreases n - i,
    {
        if titles[i].eq(name) {
            return true;
        }
        i = i + 1;
    }
    false
}

fn clone_opt(o: &Option<String>) -> (r: Option<String>)
    ensures
        r == *o,
{
    match o {
        Some(s) => Some(s.clone()),
        None => None,
    }
}

/// How much of the walk is left at the current position, for termination:
/// the rank falls with every transition that stays on the same item.
pub open spec fn phase_rank(e: PushEngine) -> int {
    match e.phase {
        Phase::AtItem => {
            if e.pos < e.items.len() {
                match e.items@[e.pos as int] {
                    FormatterItem::Group { entries, .. } => 2 * entries.len() + 2,
                    _ => 2,
                }
            } else {
                0
            }
        },
        Phase::AtChild(c) => {
            if e.pos < e.items.len() {
                match e.items@[e.pos as int] {
                    FormatterItem::Group { entries, .. } => {
                        if c <= entries.len() {
                            2 * (entries.len() - c) + 1
                        } else {
                            0
                        }
                    },
                    _ => 0,
                }
            } else {
                0
            }
        },
        _ => 0,
    }
}

/// Consuming one outcome and then skipping `n` is skipping `n + 1`.
proof fn lemma_skip_out_shift(outs: Seq<Option<String>>, n: int)
    requires
        n >= 0,
    ensures
        skip_out(outs, n + 1) == skip_out(rest_out(outs), n),
{
    if outs.len() > 0 {
        if n + 1 <= outs.len() {
            assert(outs.skip(n + 1) =~= outs.drop_first().skip(n));
        }
    } else {
        if n == 0 {
            assert(outs.skip(0) =~= outs);
        }
    }
}

/// Walk the whole machine against a pre-supplied list of outcomes — the
/// outcome of the `k`-th sent operation being the `k`-th list element, and
/// anything past the list's end a failure — and collect the operations it
/// emits, in order. This is the executable counterpart of `engine_run`: a
/// dry run of a push under hypothetical outcomes.
pub fn run_with_outcomes(
    items: Vec<FormatterItem>,
    existing_ids: &Vec<String>,
    existing_titles: Vec<String>,
    outcomes: &Vec<Option<String>>,
) -> (ops: Vec<CreateOp>)
    ensures
        ops@ == engine_run(initial_engine(items, existing_ids@, existing_titles), outcomes@),
{
    let ghost init = initial_engine(items, existing_ids@, existing_titles);
    let mut eng = PushEngine::new(items, existing_ids, existing_titles);
    let mut ops: Vec<CreateOp> = Vec::new();
    let mut j: usize = 0;
    proof {
        assert(outcomes@.skip(0) =~= outcomes@);
        assert(ops@ + remaining_run(eng, outcomes@) =~= remaining_run(eng, outcomes@));
    }
    loop
        invariant_except_break
            eng.wf(),
            eng.ready(),
            j <= outcomes@.len(),
            ops@ + remaining_run(eng, outcomes@.skip(j as int))
                == engine_run(init, outcomes@),
        ensures
            ops@ == engine_run(init, outcomes@),
        decreases eng.items.len() - eng.pos, phase_rank(eng),
    {
        let ghost pre = eng;
        let ghost outs = outcomes@.skip(j as int);
        let r = eng.step();
        match r {
            PushStep::Finished => {
                proof {
                    assert(remaining_run(pre, outs) =~= Seq::<CreateOp>::empty());
                    assert(ops@ + Seq::<CreateOp>::empty() =~= ops@);
                }
                break;
            },
            PushStep::Post(op) => {
                let ghost prev_ops = ops@;
                ops.push(op);
                let out: Option<String> = if j < outcomes.len() {
                    let o = clone_opt(&outcomes[j]);
                    j = j + 1;
                    o
                } else {
                    None
                };
                proof {
                    assert(out == first_out(outs));
                    if outs.len() > 0 {
                        assert(outcomes@.skip(j as int) =~= rest_out(outs));
                    } else {
                        assert(outcomes@.skip(j as int) =~= rest_out(outs));
                    }
                }
                eng.provide_result(out);
                proof {
                    let rest = rest_out(outs);
                    if pre.phase is AtItem {
                        match pre.items@[pre.pos as int] {
                            FormatterItem::Standalone(entry) => {
                                assert(eng == resolve_item(pre, out));
                                assert(remaining_run(pre, outs)
                                    == seq![op] + remaining_run(eng, rest));
                            },
                            FormatterItem::Group { name, color, entries, .. } => {
                                assert(eng == resolve_group(pre, out));
                                let ch = child_run(
                                    entries, 0, pre.existing_titles@, out, None, rest);
                                assert(engine_run(pre, outs)
                                    == seq![op] + ch + engine_run(
                                        group_exit(resolve_group(pre, out)),
                                        skip_out(rest, ch.len() as int)));
                                assert(group_exit(eng) == group_exit(resolve_group(pre, out)));
                                assert(remaining_run(eng, rest)
                                    == ch + engine_run(
                                        group_exit(eng), skip_out(rest, ch.len() as int)));
                                assert(remaining_run(pre, outs)
                                    =~= seq![op] + remaining_run(eng, rest));
                            },
                            _ => {
                                assert(false);
                            },
                        }
                    } else {
                        let c = pre.phase->AtChild_0 as int;
                        match pre.items@[pre.pos as int] {
                            FormatterItem::Group { entries, .. } => {
                                assert(eng == resolve_child(pre, c, out));
                                let ch_pre = child_run(
                                    entries, c, pre.existing_titles@,
                                    pre.group_id, pre.internal_after, outs);
                                let ch_post = child_run(
                                    entries, c + 1, pre.existing_titles@,
                                    eng.group_id, eng.internal_after, rest);
                                assert(ch_pre == seq![op] + ch_post);
                                assert(group_exit(eng) == group_exit(pre));
                                lemma_skip_out_shift(outs, ch_post.len() as int);
                                assert(skip_out(outs, ch_pre.len() as int)
                                    == skip_out(rest, ch_post.len() as int));
                                assert(remaining_run(pre, outs)
                                    =~= seq![op] + remaining_run(eng, rest));
                            },
                            _ => {
                                assert(false);
                            },
                        }
                    }
                    assert(prev_ops + seq![op] + remaining_run(eng, outcomes@.skip(j as int))
                        =~= prev_ops + (seq![op] + remaining_run(eng, outcomes@.skip(j as int))));
                    assert(ops@ + remaining_run(eng, outcomes@.skip(j as int))
                        == engine_run(init, outcomes@));
                }
            },
            PushStep::SkippedDuplicate(_) => {
                proof {
                    if pre.phase is AtItem {
                        assert(remaining_run(pre, outs) == remaining_run(eng, outs));
                    } else {
                        let c = pre.phase->AtChild_0 as int;
                        match pre.items@[pre.pos as int] {
                            FormatterItem::Group { entries, .. } => {
                                assert(eng == resolve_child(pre, c, None));
                                assert(group_exit(eng) == group_exit(pre));
                                assert(child_run(
                                    entries, c, pre.existing_titles@,
                                    pre.group_id, pre.internal_after, outs)
                                    == child_run(
                                        entries, c + 1, pre.existing_titles@,
                                        eng.group_id, eng.internal_after, outs));
                                assert(remaining_run(pre, outs) == remaining_run(eng, outs));
                            },
                            _ => {
                                assert(false);
                            },
                        }
                    }
                }
            },
            PushStep::CursorMoved(_, _) => {
                proof {
                    assert(remaining_run(pre, outs) == remaining_run(eng, outs));
                }
            },
            PushStep::GroupFinished => {
                proof {
                    let c = pre.phase->AtChild_0 as int;
                    match pre.items@[pre.pos as int] {
                        FormatterItem::Group { entries, .. } => {
                            let ch = child_run(
                                entries, c, pre.existing_titles@,
                                pre.group_id, pre.internal_after, outs);
                            assert(ch =~= Seq::<CreateOp>::empty());
                            assert(skip_out(outs, 0) =~= outs);
                            assert(remaining_run(pre, outs)
                                =~= engine_run(group_exit(pre), outs));
                            assert(remaining_run(pre, outs) =~= remaining_run(eng, outs));
                        },
                        _ => {
                            assert(false);
                        },
                    }
                }
            },
        }
    }
    ops
}

/// The string under the top-level `"id"` key of a JSON document, when the
/// document parses as JSON and carries one: named here, applied by the
/// wrapper below, and a function of the document text alone.
pub uninterp spec fn json_id_field(s: Seq<char>) -> Option<Seq<char>>;

/// Relies on `serde_json::from_str`, `serde_json::Value::get` and
/// `serde_json::Value::as_str`: the result is the string under the
/// document's top-level `"id"` key, when the body parses as JSON and that
/// key holds a string, and nothing otherwise.
#[verifier::external_body]
fn extract_id_field(body: &str) -> (r: Option<String>)
    ensures
        r is Some <==> json_id_field(body@) is Some,
        r matches Some(s) ==> json_id_field(body@) matches Some(v) && s@ == v,
{
    match serde_json::from_str::<serde_json::Value>(body) {
        Ok(v) => v.get("id").and_then(|x| x.as_str()).map(|s| s.to_string()),
        Err(_) => None,
    }
}

/// The id a response carries: nothing for a failed call (no body), else
/// whatever string the body's top-level `"id"` field holds.
pub open spec fn resp_id(body: Option<&str>) -> Option<Seq<char>> {
    match body {
        Some(b) => json_id_field(b@),
        None => None,
    }
}

pub open spec fn opt_str_view(o: Option<String>) -> Option<Seq<char>> {
    match o {
        Some(s) => Some(s@),
        None => None,
    }
}

/// Read the destination's current-rundown id from its response body, if
/// any. A push is aborted before any create when this yields nothing:
/// failing to resolve the target rundown is the one fatal error of a push.
pub fn resolve_rundown_id(body: Option<&str>) -> (r: Option<String>)
    ensures
        opt_str_view(r) == resp_id(body),
{
    match body {
        Some(b) => extract_id_field(b),
        None => None,
    }
}

impl PushEngine {
    /// Report the raw response of the operation `step` handed out: the
    /// body of a successful call, `None` when the call failed or returned
    /// a non-success status. The created id is read from the body's `"id"`
    /// field; a body without one counts, like any failure, as no outcome,
    /// and leaves every cursor unchanged.
    pub fn provide_response(&mut self, body: Option<&str>)
        requires
            old(self).wf(),
            !old(self).ready(),
        ensures
            final(self).wf(),
            final(self).ready(),
            ({
                let pre = *old(self);
                let post = *final(self);
                &&& (pre.phase is AwaitItem ==> exists|id: Option<String>|
                    opt_str_view(id) == resp_id(body) && post == resolve_item(pre, id))
                &&& (pre.phase is AwaitGroup ==> exists|id: Option<String>|
                    opt_str_view(id) == resp_id(body) && post == resolve_group(pre, id))
                &&& (pre.phase matches Phase::AwaitChild(c) ==> exists|id: Option<String>|
                    opt_str_view(id) == resp_id(body) && post == resolve_child(pre, c as int, id))
            }),
    {
        let id = match body {
            Some(b) => extract_id_field(b),
            None => None,
        };
        let ghost gid = id;
        let ghost pre = *self;
        self.provide_result(id);
        proof {
            assert(opt_str_view(gid) == resp_id(body));
            if pre.phase is AwaitItem {
                assert(*self == resolve_item(pre, gid));
            }
            if pre.phase is AwaitGroup {
                assert(*self == resolve_group(pre, gid));
            }
            match pre.phase {
                Phase::AwaitChild(c) => {
                    assert(*self == resolve_child(pre, c as int, gid));
                },
                _ => {},
            }
        }
    }
}

/// With only standalone items ahead and no parent context, the walk emits
/// sibling creates alone: no operation carries a `parent`, the first
/// chains after the current anchor, and — when every create succeeds —
/// each later one chains after the id the previous create returned.
pub proof fn lemma_standalone_chain(e: PushEngine, outs: Seq<Option<String>>)
    requires
        e.phase is AtItem,
        e.parent_id is None,
        forall|i: int| e.pos <= i < e.items@.len() ==> (#[trigger] e.items@[i]) is Standalone,
        forall|k: int| 0 <= k < outs.len() ==> (#[trigger] outs[k]) is Some,
    ensures
        ({
            let ops = engine_run(e, outs);
            &&& forall|k: int| 0 <= k < ops.len() ==> (#[trigger] ops[k]).parent is None
            &&& ops.len() > 0 ==> ops[0].after == e.after_id
            &&& forall|k: int| 1 <= k < ops.len() && k - 1 < outs.len()
                ==> (#[trigger] ops[k]).after == outs[k - 1]
        }),
    decreases e.items.len() - e.pos,
{
    if e.pos < e.items.len() {
        match e.items@[e.pos as int] {
            FormatterItem::Standalone(entry) => {
                if title_present(e.existing_titles@, entry.name@) {
                    lemma_standalone_chain(advanced(e), outs);
                } else {
                    let e2 = resolve_item(e, first_out(outs));
                    let rest = rest_out(outs);
                    assert(forall|k: int| 0 <= k < rest.len()
                        ==> (#[trigger] rest[k]) is Some) by {
                        assert(forall|k: int| 0 <= k < rest.len()
                            ==> rest[k] == outs[k + 1] && (#[trigger] rest[k]) == outs[k + 1]);
                    }
                    lemma_standalone_chain(e2, rest);
                    let op = event_op(entry, e.parent_id, e.after_id);
                    let ops = engine_run(e, outs);
                    let rest_ops = engine_run(e2, rest);
                    assert(ops == seq![op] + rest_ops);
                    assert(ops[0] == op);
                    assert(forall|k: int| 1 <= k < ops.len()
                        ==> (#[trigger] ops[k]) == rest_ops[k - 1]);
                    assert forall|k: int| 1 <= k < ops.len() && k - 1 < outs.len()
                        implies (#[trigger] ops[k]).after == outs[k - 1] by {
                        if k == 1 {
                            assert(outs.len() > 0);
                            assert(outs[0] is Some);
                            assert(e2.after_id == outs[0]);
                            assert(rest_ops.len() > 0);
                            assert(rest_ops[0].after == e2.after_id);
                        } else {
                            assert(rest_ops[k - 1].after == rest[k - 2]);
                            assert(rest[k - 2] == outs[k - 1]);
                        }
                    }
                }
            },
            _ => {
                assert(false);
            },
        }
    }
}

/// Inside a group, every child create carries the group's created id as
/// its `parent` (the `gid` this run was entered with), the first emitted
/// child carries the internal anchor the run started from (none, at group
/// entry), and — when every create succeeds — each later one chains after
/// the id the previous child's create returned. A child skipped as a
/// duplicate emits nothing and leaves the chain untouched.
pub proof fn lemma_group_children_chain(
    entries: Vec<TimedEntry>,
    c: int,
    titles: Seq<String>,
    gid: Option<String>,
    iafter: Option<String>,
    outs: Seq<Option<String>>,
)
    requires
        forall|k: int| 0 <= k < outs.len() ==> (#[trigger] outs[k]) is Some,
    ensures
        ({
            let ops = child_run(entries, c, titles, gid, iafter, outs);
            &&& forall|k: int| 0 <= k < ops.len() ==> (#[trigger] ops[k]).parent == gid
            &&& ops.len() > 0 ==> ops[0].after == iafter
            &&& forall|k: int| 1 <= k < ops.len() && k - 1 < outs.len()
                ==> (#[trigger] ops[k]).after == outs[k - 1]
        }),
    decreases entries.len() - c,
{
    if 0 <= c < entries.len() {
        if title_present(titles, entries@[c].name@) {
            lemma_group_children_chain(entries, c + 1, titles, gid, iafter, outs);
        } else {
            let out = first_out(outs);
            let next_iafter = if out is Some {
                out
            } else {
                iafter
            };
            let rest = rest_out(outs);
            assert(forall|k: int| 0 <= k < rest.len() ==> (#[trigger] rest[k]) is Some) by {
                assert(forall|k: int| 0 <= k < rest.len()
                    ==> rest[k] == outs[k + 1] && (#[trigger] rest[k]) == outs[k + 1]);
            }
            lemma_group_children_chain(entries, c + 1, titles, gid, next_iafter, rest);
            let op = event_op(entries@[c], gid, iafter);
            let ops = child_run(entries, c, titles, gid, iafter, outs);
            let rest_ops = child_run(entries, c + 1, titles, gid, next_iafter, rest);
            assert(ops == seq![op] + rest_ops);
            assert(ops[0] == op);
            assert(forall|k: int| 1 <= k < ops.len()
                ==> (#[trigger] ops[k]) == rest_ops[k - 1]);
            assert forall|k: int| 1 <= k < ops.len() && k - 1 < outs.len()
                implies (#[trigger] ops[k]).after == outs[k - 1] by {
                if k == 1 {
                    assert(outs.len() > 0);
                    assert(outs[0] is Some);
                    assert(next_iafter == outs[0]);
                    assert(rest_ops[0].after == next_iafter);
                } else {
                    assert(rest_ops[k - 1].after == rest[k - 2]);
                    assert(rest[k - 2] == outs[k - 1]);
                }
            }
        }
    }
}

/// An `After` reference immediately followed by a fresh standalone entry
/// makes that entry a sibling after the referenced id: its operation has
/// `after` equal to the reference's id and no `parent`.
pub proof fn lemma_reference_after_directs_next(e: PushEngine, outs: Seq<Option<String>>)
    requires
        e.phase is AtItem,
        e.pos + 1 < e.items.len(),
        e.items@[e.pos as int] matches FormatterItem::Reference {
            mode: InsertionMode::After, .. },
        e.items@[e.pos + 1] matches FormatterItem::Standalone(entry)
            && !title_present(e.existing_titles@, entry.name@),
    ensures
        ({
            let ops = engine_run(e, outs);
            &&& ops.len() > 0
            &&& ops[0].parent is None
            &&& e.items@[e.pos as int] matches FormatterItem::Reference { id, .. }
                ==> ops[0].after == Some(id)
        }),
{
    match e.items@[e.pos as int] {
        FormatterItem::Reference { id, mode, .. } => {
            let e2 = after_reference(e, id, mode);
            assert(engine_run(e, outs) == engine_run(e2, outs));
            match e.items@[e.pos + 1] {
                FormatterItem::Standalone(entry) => {
                    assert(engine_run(e2, outs)
                        == seq![event_op(entry, e2.parent_id, e2.after_id)]
                            + engine_run(resolve_item(e2, first_out(outs)), rest_out(outs)));
                },
                _ => {
                    assert(false);
                },
            }
        },
        _ => {
            assert(false);
        },
    }
}

/// An `Into` reference immediately followed by a fresh standalone entry
/// makes that entry a child of the referenced id: its operation has
/// `parent` equal to the reference's id and no `after`.
pub proof fn lemma_reference_into_directs_next(e: PushEngine, outs: Seq<Option<String>>)
    requires
        e.phase is AtItem,
        e.pos + 1 < e.items.len(),
        e.items@[e.pos as int] matches FormatterItem::Reference {
            mode: InsertionMode::Into, .. },
        e.items@[e.pos + 1] matches FormatterItem::Standalone(entry)
            && !title_present(e.existing_titles@, entry.name@),
    ensures
        ({
            let ops = engine_run(e, outs);
            &&& ops.len() > 0
            &&& ops[0].after is None
            &&& e.items@[e.pos as int] matches FormatterItem::Reference { id, .. }
                ==> ops[0].parent == Some(id)
        }),
{
    match e.items@[e.pos as int] {
        FormatterItem::Reference { id, mode, .. } => {
            let e2 = after_reference(e, id, mode);
            assert(engine_run(e, outs) == engine_run(e2, outs));
            match e.items@[e.pos + 1] {
                FormatterItem::Standalone(entry) => {
                    assert(engine_run(e2, outs)
                        == seq![event_op(entry, e2.parent_id, e2.after_id)]
                            + engine_run(resolve_item(e2, first_out(outs)), rest_out(outs)));
                },
                _ => {
                    assert(false);
                },
            }
        },
        _ => {
            assert(false);
        },
    }
}

/// A standalone entry whose title already exists remotely contributes no
/// operation at all, and the walk continues past it with the outer cursor
/// exactly as it was.
pub proof fn lemma_duplicate_not_posted(e: PushEngine, outs: Seq<Option<String>>)
    requires
        e.phase is AtItem,
        e.pos < e.items.len(),
        e.items@[e.pos as int] matches FormatterItem::Standalone(entry)
            && title_present(e.existing_titles@, entry.name@),
    ensures
        engine_run(e, outs) == engine_run(advanced(e), outs),
        advanced(e).after_id == e.after_id,
        advanced(e).parent_id == e.parent_id,
        advanced(e).pos == e.pos + 1,
{
}

} // verus!
