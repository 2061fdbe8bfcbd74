//! The three commands: what each decides for an entry, and what a run over a
//! whole set of linkfiles leaves behind.

use vstd::prelude::*;
use crate::entry::{classify, Entry, EntryStatus, EntryView, Node, NodeView};
use crate::linkfile::{entries_view, LinkfileSet, LinkfileView};
use crate::snapshot::Snapshot;

verus! {

/// The command that is run over a set of linkfiles.
#[derive(Clone, Copy, Debug, PartialEq, Eq, Structural)]
pub enum Operation {
    /// Report the entries that are not healthy.
    Check,
    /// Bring every entry to the healthy state.
    Link,
    /// Remove the symlinks that stand at the destinations.
    Clean,
}

/// What a command does at the destination of one entry.
#[derive(Clone, Copy, Debug, PartialEq, Eq, Structural)]
pub enum Action {
    /// Nothing has to be done.
    Skip,
    /// A symlink to the source is created where nothing stood.
    Create,
    /// The symlink that stands there is removed and one to the source is created.
    Replace,
    /// The symlink that stands there is removed.
    Remove,
    /// A file or a directory stands there, and is left alone.
    Refuse,
}

/// The action of a link command on a destination with the given status.
pub open spec fn link_action(status: EntryStatus) -> Action {
    match status {
        EntryStatus::Healthy => Action::Skip,
        EntryStatus::Unlinked => Action::Create,
        EntryStatus::Mismatched => Action::Replace,
        EntryStatus::Occupied => Action::Refuse,
    }
}

/// The action of a clean command on a destination that holds `node`.
pub open spec fn clean_action(node: NodeView) -> Action {
    match node {
        NodeView::Absent => Action::Skip,
        NodeView::Link(_) => Action::Remove,
        NodeView::Occupant => Action::Refuse,
    }
}

/// Whether carrying out `action` changes the filesystem.
pub open spec fn is_mutating(action: Action) -> bool {
    action == Action::Create || action == Action::Replace || action == Action::Remove
}

/// What stands at a destination that held `node` once `action` has been
/// carried out for a source `src`. A symlink is created only where nothing
/// stands, and only a symlink is ever removed.
pub open spec fn performed(action: Action, src: Seq<char>, node: NodeView) -> NodeView {
    match action {
        Action::Skip => node,
        Action::Refuse => node,
        Action::Create => if node == NodeView::Absent {
            NodeView::Link(src)
        } else {
            node
        },
        Action::Replace => if node is Link {
            NodeView::Link(src)
        } else {
            node
        },
        Action::Remove => if node is Link {
            NodeView::Absent
        } else {
            node
        },
    }
}

/// The action that `operation` takes for a source `src` whose destination
/// holds `node`.
pub open spec fn action_for(operation: Operation, src: Seq<char>, node: NodeView) -> Action {
    match operation {
        Operation::Check => Action::Skip,
        Operation::Link => link_action(classify(src, node)),
        Operation::Clean => clean_action(node),
    }
}

/// Whether the entry counts towards the outcome code of `operation`: an
/// entry that is not healthy for a check, a refused one for the others.
pub open spec fn needs_attention(operation: Operation, src: Seq<char>, node: NodeView) -> bool {
    match operation {
        Operation::Check => classify(src, node) != EntryStatus::Healthy,
        _ => action_for(operation, src, node) == Action::Refuse,
    }
}

/// What stands at the destination after `operation` has visited the entry.
/// A dry run changes nothing.
pub open spec fn node_after(
    operation: Operation,
    dry_run: bool,
    src: Seq<char>,
    node: NodeView,
) -> NodeView {
    if dry_run {
        node
    } else {
        performed(action_for(operation, src, node), src, node)
    }
}

impl Action {
    /// Whether carrying out the action changes the filesystem.
    pub fn mutates(self) -> (mutating: bool)
        ensures
            mutating == is_mutating(self),
    {
        match self {
            Action::Skip => false,
            Action::Refuse => false,
            Action::Create => true,
            Action::Replace => true,
            Action::Remove => true,
        }
    }

    /// What stands at the destination of `entry`, which held `node`, once the
    /// action has been carried out.
    pub fn apply(self, entry: &Entry, node: &Node) -> (after: Node)
        ensures
            after@ == performed(self, entry.src@, node@),
    {
        match self {
            Action::Skip => node.clone(),
            Action::Refuse => node.clone(),
            Action::Create => match node {
                Node::Absent => Node::Link(entry.src.clone()),
                _ => node.clone(),
            },
            Action::Replace => match node {
                Node::Link(_) => Node::Link(entry.src.clone()),
                _ => node.clone(),
            },
            Action::Remove => match node {
                Node::Link(_) => Node::Absent,
                _ => node.clone(),
            },
        }
    }
}

/// The action of a link command for a destination with the given status.
pub fn plan_link(status: EntryStatus) -> (action: Action)
    ensures
        action == link_action(status),
{
    match status {
        EntryStatus::Healthy => Action::Skip,
        EntryStatus::Unlinked => Action::Create,
        EntryStatus::Mismatched => Action::Replace,
        EntryStatus::Occupied => Action::Refuse,
    }
}

/// The action of a clean command for a destination that holds `node`.
pub fn plan_clean(node: &Node) -> (action: Action)
    ensures
        action == clean_action(node@),
{
    match node {
        Node::Absent => Action::Skip,
        Node::Link(_) => Action::Remove,
        Node::Occupant => Action::Refuse,
    }
}

/// The nodes of a filesystem by path.
pub type Nodes = Map<Seq<char>, NodeView>;

/// One line of what a command reports.
#[derive(Debug)]
pub enum Event {
    /// The entries of the linkfile with this name follow.
    Loading { linkfile: String },
    /// An entry was visited: the status that was found, the action that was
    /// decided, and whether the entry counts towards the outcome code. In a
    /// dry run the action is what would have been done.
    Visited { status: EntryStatus, action: Action, attention: bool, src: String, dst: String },
}

/// Mathematical value of an [`Event`].
pub enum EventView {
    Loading { linkfile: Seq<char> },
    Visited {
        status: EntryStatus,
        action: Action,
        attention: bool,
        src: Seq<char>,
        dst: Seq<char>,
    },
}

impl View for Event {
    type V = EventView;

    open spec fn view(&self) -> EventView {
        match self {
            Event::Loading { linkfile } => EventView::Loading { linkfile: linkfile@ },
            Event::Visited { status, action, attention, src, dst } => EventView::Visited {
                status: *status,
                action: *action,
                attention: *attention,
                src: src@,
                dst: dst@,
            },
        }
    }
}

impl Clone for Event {
    fn clone(&self) -> (copy: Self)
        ensures
            copy@ == self@,
    {
        match self {
            Event::Loading { linkfile } => Event::Loading { linkfile: linkfile.clone() },
            Event::Visited { status, action, attention, src, dst } => Event::Visited {
                status: *status,
                action: *action,
                attention: *attention,
                src: src.clone(),
                dst: dst.clone(),
            },
        }
    }
}

impl PartialEq for Event {
    fn eq(&self, other: &Self) -> (equal: bool) {
        match self {
            Event::Loading { linkfile } => match other {
                Event::Loading { linkfile: other_linkfile } => *linkfile == *other_linkfile,
                _ => false,
            },
            Event::Visited { status, action, attention, src, dst } => match other {
                Event::Visited {
                    status: other_status,
                    action: other_action,
                    attention: other_attention,
                    src: other_src,
                    dst: other_dst,
                } => *status == *other_status && *action == *other_action && *attention
                    == *other_attention && *src == *other_src && *dst == *other_dst,
                _ => false,
            },
        }
    }
}

impl vstd::std_specs::cmp::PartialEqSpecImpl for Event {
    open spec fn obeys_eq_spec() -> bool {
        true
    }

    open spec fn eq_spec(&self, other: &Self) -> bool {
        self@ == other@
    }
}

/// The mathematical value of a vector of events.
pub open spec fn events_view(events: Seq<Event>) -> Seq<EventView> {
    Seq::new(events.len(), |i: int| events[i]@)
}

/// What a command reports: its events in order, and its outcome code, which
/// is zero where no entry needs attention.
#[derive(Debug)]
pub struct Report {
    pub events: Vec<Event>,
    pub code: i32,
}

/// What a command finds and decides at one entry.
#[derive(Debug)]
pub struct Visit {
    pub status: EntryStatus,
    pub action: Action,
    /// Whether the entry counts towards the outcome code.
    pub attention: bool,
    /// What stands at the destination afterwards.
    pub after: Node,
}

/// Visits one entry whose destination holds `node`.
pub fn visit(operation: Operation, entry: &Entry, node: &Node, dry_run: bool) -> (visit: Visit)
    ensures
        visit.status == classify(entry.src@, node@),
        visit.action == action_for(operation, entry.src@, node@),
        visit.attention == needs_attention(operation, entry.src@, node@),
        visit.after@ == node_after(operation, dry_run, entry.src@, node@),
{
    let status = entry.status(node);
    let action = match operation {
        Operation::Check => Action::Skip,
        Operation::Link => plan_link(status),
        Operation::Clean => plan_clean(node),
    };
    let attention = match operation {
        Operation::Check => status != EntryStatus::Healthy,
        _ => action == Action::Refuse,
    };
    let after = if dry_run {
        node.clone()
    } else {
        action.apply(entry, node)
    };
    Visit { status, action, attention, after }
}

/// The event of a visit to an entry whose destination holds `node`.
pub open spec fn visit_event(operation: Operation, entry: EntryView, node: NodeView) -> EventView {
    EventView::Visited {
        status: classify(entry.src, node),
        action: action_for(operation, entry.src, node),
        attention: needs_attention(operation, entry.src, node),
        src: entry.src,
        dst: entry.dst,
    }
}

/// Whether a run that is `verbose` or not shows `event`: a quiet run shows
/// the visits to the entries that need attention, a verbose run everything.
pub open spec fn is_shown(event: EventView, verbose: bool) -> bool {
    match event {
        EventView::Loading { .. } => true,
        EventView::Visited { attention, .. } => verbose || attention,
    }
}

impl Event {
    /// Whether a run that is `verbose` or not shows the event.
    pub fn is_shown(&self, verbose: bool) -> (shown: bool)
        ensures
            shown == is_shown(self@, verbose),
    {
        match self {
            Event::Loading { .. } => true,
            Event::Visited { attention, .. } => verbose || *attention,
        }
    }
}

/// The filesystem after `operation` has visited `entries` in order,
/// starting from `nodes`.
pub open spec fn nodes_after_entries(
    operation: Operation,
    dry_run: bool,
    nodes: Nodes,
    entries: Seq<EntryView>,
) -> Nodes
    decreases entries.len(),
{
    if entries.len() == 0 {
        nodes
    } else {
        let before = nodes_after_entries(operation, dry_run, nodes, entries.drop_last());
        let entry = entries.last();
        before.insert(entry.dst, node_after(operation, dry_run, entry.src, before[entry.dst]))
    }
}

/// The number of `entries` that need attention when `operation` visits them
/// in order, starting from `nodes`.
pub open spec fn attention_in_entries(
    operation: Operation,
    dry_run: bool,
    nodes: Nodes,
    entries: Seq<EntryView>,
) -> nat
    decreases entries.len(),
{
    if entries.len() == 0 {
        0
    } else {
        let before = nodes_after_entries(operation, dry_run, nodes, entries.drop_last());
        let entry = entries.last();
        attention_in_entries(operation, dry_run, nodes, entries.drop_last()) + if needs_attention(
            operation,
            entry.src,
            before[entry.dst],
        ) {
            1nat
        } else {
            0nat
        }
    }
}

/// The events of the visits of `operation` to `entries`, one for each entry
/// in order, starting from `nodes`.
pub open spec fn events_of_entries(
    operation: Operation,
    dry_run: bool,
    nodes: Nodes,
    entries: Seq<EntryView>,
) -> Seq<EventView>
    decreases entries.len(),
{
    if entries.len() == 0 {
        Seq::empty()
    } else {
        let before = nodes_after_entries(operation, dry_run, nodes, entries.drop_last());
        let entry = entries.last();
        events_of_entries(operation, dry_run, nodes, entries.drop_last()).push(
            visit_event(operation, entry, before[entry.dst]),
        )
    }
}

/// The filesystem after `operation` has run over `files` in order, starting
/// from `nodes`.
pub open spec fn nodes_after_files(
    operation: Operation,
    dry_run: bool,
    nodes: Nodes,
    files: Seq<LinkfileView>,
) -> Nodes
    decreases files.len(),
{
    if files.len() == 0 {
        nodes
    } else {
        nodes_after_entries(
            operation,
            dry_run,
            nodes_after_files(operation, dry_run, nodes, files.drop_last()),
            files.last().entries,
        )
    }
}

/// The number of entries of `files` that need attention in a run of
/// `operation` that starts from `nodes`.
pub open spec fn attention_in_files(
    operation: Operation,
    dry_run: bool,
    nodes: Nodes,
    files: Seq<LinkfileView>,
) -> nat
    decreases files.len(),
{
    if files.len() == 0 {
        0
    } else {
        attention_in_files(operation, dry_run, nodes, files.drop_last()) + attention_in_entries(
            operation,
            dry_run,
            nodes_after_files(operation, dry_run, nodes, files.drop_last()),
            files.last().entries,
        )
    }
}

/// The events of a run of `operation` over `files` that starts from `nodes`:
/// one for each entry in order. A verbose run announces each linkfile before
/// its entries.
pub open spec fn events_of_files(
    operation: Operation,
    dry_run: bool,
    verbose: bool,
    nodes: Nodes,
    files: Seq<LinkfileView>,
) -> Seq<EventView>
    decreases files.len(),
{
    if files.len() == 0 {
        Seq::empty()
    } else {
        let earlier = events_of_files(operation, dry_run, verbose, nodes, files.drop_last());
        let announced = if verbose {
            earlier.push(EventView::Loading { linkfile: files.last().name })
        } else {
            earlier
        };
        announced + events_of_entries(
            operation,
            dry_run,
            nodes_after_files(operation, dry_run, nodes, files.drop_last()),
            files.last().entries,
        )
    }
}

/// The outcome code for `count` entries that need attention: the count
/// itself, as far as the code can hold it.
pub open spec fn outcome_code(count: int) -> int {
    if count > i32::MAX {
        i32::MAX as int
    } else {
        count
    }
}

/// Runs `operation` over the entries of one linkfile, on behalf of
/// [`run`].
fn run_entries(
    operation: Operation,
    entries: &Vec<Entry>,
    snapshot: &mut Snapshot,
    dry_run: bool,
    events: &mut Vec<Event>,
    code: &mut i32,
)
    requires
        0 <= *old(code),
    ensures
        final(snapshot)@ == nodes_after_entries(
            operation,
            dry_run,
            old(snapshot)@,
            entries_view(entries@),
        ),
        events_view(final(events)@) == events_view(old(events)@) + events_of_entries(
            operation,
            dry_run,
            old(snapshot)@,
            entries_view(entries@),
        ),
        *final(code) == outcome_code(
            *old(code) + attention_in_entries(
                operation,
                dry_run,
                old(snapshot)@,
                entries_view(entries@),
            ),
        ),
{
    let ghost all = entries_view(entries@);
    let ghost start = snapshot@;
    let ghost reported = events_view(events@);
    let ghost first_code = *code as int;
    let mut i: usize = 0;
    proof {
        assert(events_view(events@) =~= reported + Seq::<EventView>::empty());
    }
    while i < entries.len()
        invariant
            i <= entries.len(),
            all == entries_view(entries@),
            0 <= first_code,
            snapshot@ == nodes_after_entries(operation, dry_run, start, all.take(i as int)),
            events_view(events@) == reported + events_of_entries(
                operation,
                dry_run,
                start,
                all.take(i as int),
            ),
            *code == outcome_code(
                first_code + attention_in_entries(operation, dry_run, start, all.take(i as int)),
            ),
        decreases entries.len() - i,
    {
        let entry = &entries[i];
        let ghost before = snapshot@;
        let ghost earlier = events_view(events@);
        proof {
            let prefix = all.take(i + 1);
            assert(prefix.drop_last() =~= all.take(i as int));
            assert(prefix.last() == entry@);
            snapshot.lemma_total();
        }
        let node = snapshot.node(entry.dst.as_str());
        let found = visit(operation, entry, &node, dry_run);
        if found.attention && *code < i32::MAX {
            *code = *code + 1;
        }
        events.push(
            Event::Visited {
                status: found.status,
                action: found.action,
                attention: found.attention,
                src: entry.src.clone(),
                dst: entry.dst.clone(),
            },
        );
        proof {
            assert(events_view(events@) =~= earlier.push(
                visit_event(operation, entry@, before[entry@.dst]),
            ));
        }
        if !dry_run && found.action.mutates() {
            snapshot.record(entry.dst.clone(), found.after);
        } else {
            proof {
                assert(before.insert(entry@.dst, before[entry@.dst]) =~= before);
            }
        }
        i = i + 1;
    }
    proof {
        assert(all.take(i as int) =~= all);
    }
}

/// Runs `operation` over every entry of every linkfile of `set`, in order.
///
/// `snapshot` holds what stands at the destinations. Each visit reads it and,
/// unless the run is dry, writes back what the action leaves there, so that a
/// later entry with the same destination sees what an earlier one did.
pub fn run(
    operation: Operation,
    set: &LinkfileSet,
    snapshot: &mut Snapshot,
    dry_run: bool,
    verbose: bool,
) -> (report: Report)
    ensures
        final(snapshot)@ == nodes_after_files(operation, dry_run, old(snapshot)@, set@),
        events_view(report.events@) == events_of_files(
            operation,
            dry_run,
            verbose,
            old(snapshot)@,
            set@,
        ),
        report.code == outcome_code(
            attention_in_files(operation, dry_run, old(snapshot)@, set@) as int,
        ),
{
    let ghost start = snapshot@;
    let mut events: Vec<Event> = Vec::new();
    let mut code: i32 = 0;
    let mut i: usize = 0;
    proof {
        assert(events_view(events@) =~= Seq::<EventView>::empty());
    }
    while i < set.len()
        invariant
            i <= set@.len(),
            snapshot@ == nodes_after_files(operation, dry_run, start, set@.take(i as int)),
            events_view(events@) == events_of_files(
                operation,
                dry_run,
                verbose,
                start,
                set@.take(i as int),
            ),
            code == outcome_code(
                attention_in_files(operation, dry_run, start, set@.take(i as int)) as int,
            ),
        decreases set@.len() - i,
    {
        let file = set.file(i);
        let ghost earlier = events_view(events@);
        proof {
            let prefix = set@.take(i + 1);
            assert(prefix.drop_last() =~= set@.take(i as int));
            assert(prefix.last() == file@);
        }
        if verbose {
            events.push(Event::Loading { linkfile: file.name.clone() });
            proof {
                assert(events_view(events@) =~= earlier.push(
                    EventView::Loading { linkfile: file@.name },
                ));
            }
        }
        run_entries(operation, &file.entries, snapshot, dry_run, &mut events, &mut code);
        i = i + 1;
    }
    proof {
        assert(set@.take(i as int) =~= set@);
    }
    Report { events, code }
}

/// Audits `set` against `snapshot`: reports the status of every entry. The
/// outcome code is the number of entries that are not healthy.
pub fn command_check(set: &LinkfileSet, snapshot: &Snapshot, verbose: bool) -> (report: Report)
    ensures
        events_view(report.events@) == events_of_files(
            Operation::Check,
            false,
            verbose,
            snapshot@,
            set@,
        ),
        report.code == outcome_code(
            attention_in_files(Operation::Check, false, snapshot@, set@) as int,
        ),
{
    let mut scratch = snapshot.clone();
    run(Operation::Check, set, &mut scratch, false, verbose)
}

/// Links every entry of `set`: creates the symlink where nothing stands,
/// replaces a symlink that points elsewhere, leaves a healthy one alone, and
/// refuses a destination that a file or a directory occupies. The outcome
/// code is the number of refused entries. In a dry run the actions are
/// decided and reported, and `snapshot` stays as it is.
pub fn command_link(set: &LinkfileSet, snapshot: &mut Snapshot, dry_run: bool, verbose: bool) -> (report:
    Report)
    ensures
        final(snapshot)@ == nodes_after_files(Operation::Link, dry_run, old(snapshot)@, set@),
        events_view(report.events@) == events_of_files(
            Operation::Link,
            dry_run,
            verbose,
            old(snapshot)@,
            set@,
        ),
        report.code == outcome_code(
            attention_in_files(Operation::Link, dry_run, old(snapshot)@, set@) as int,
        ),
{
    run(Operation::Link, set, snapshot, dry_run, verbose)
}

/// Cleans every entry of `set`: removes the symlink that stands at the
/// destination, whatever its target, and refuses a destination that a file
/// or a directory occupies. The outcome code is the number of refused
/// entries. In a dry run `snapshot` stays as it is.
pub fn command_clean(set: &LinkfileSet, snapshot: &mut Snapshot, dry_run: bool, verbose: bool) -> (report:
    Report)
    ensures
        final(snapshot)@ == nodes_after_files(Operation::Clean, dry_run, old(snapshot)@, set@),
        events_view(report.events@) == events_of_files(
            Operation::Clean,
            dry_run,
            verbose,
            old(snapshot)@,
            set@,
        ),
        report.code == outcome_code(
            attention_in_files(Operation::Clean, dry_run, old(snapshot)@, set@) as int,
        ),
{
    run(Operation::Clean, set, snapshot, dry_run, verbose)
}

} // verus!
