//! What holds of every run of the commands.

use vstd::prelude::*;
use crate::entry::{classify, EntryStatus, EntryView, NodeView};
use crate::linkfile::{all_entries, is_ascending, LinkfileView};
use crate::order::lemma_precedes_asymmetric;
use crate::entry::resolves_to;
use crate::path::{
    expanded_by, is_normal, is_rooted, joined, with_separator, PathResolverView,
};
use crate::reconcile::{
    action_for, events_of_entries, events_of_files, is_mutating, node_after, nodes_after_entries,
    nodes_after_files, performed, Action, EventView, Nodes, Operation,
};

verus! {

/// Visiting `first` and then `second` is visiting the two in one go.
pub proof fn lemma_nodes_after_concat(
    operation: Operation,
    dry_run: bool,
    nodes: Nodes,
    first: Seq<EntryView>,
    second: Seq<EntryView>,
)
    ensures
        nodes_after_entries(operation, dry_run, nodes, first + second) == nodes_after_entries(
            operation,
            dry_run,
            nodes_after_entries(operation, dry_run, nodes, first),
            second,
        ),
    decreases second.len(),
{
    if second.len() == 0 {
        assert(first + second =~= first);
    } else {
        assert((first + second).drop_last() =~= first + second.drop_last());
        assert((first + second).last() == second.last());
        lemma_nodes_after_concat(operation, dry_run, nodes, first, second.drop_last());
    }
}

/// A run over linkfiles is a run over all their entries in order.
pub proof fn lemma_nodes_after_flat(
    operation: Operation,
    dry_run: bool,
    nodes: Nodes,
    files: Seq<LinkfileView>,
)
    ensures
        nodes_after_files(operation, dry_run, nodes, files) == nodes_after_entries(
            operation,
            dry_run,
            nodes,
            all_entries(files),
        ),
    decreases files.len(),
{
    if files.len() > 0 {
        lemma_nodes_after_flat(operation, dry_run, nodes, files.drop_last());
        lemma_nodes_after_concat(
            operation,
            dry_run,
            nodes,
            all_entries(files.drop_last()),
            files.last().entries,
        );
    }
}

/// A run neither makes nor removes an occupant, and it leaves every path in
/// the domain.
proof fn lemma_occupants_stay(
    operation: Operation,
    dry_run: bool,
    nodes: Nodes,
    entries: Seq<EntryView>,
)
    ensures
        forall|path: Seq<char>|
            (#[trigger] nodes_after_entries(operation, dry_run, nodes, entries)[path]
                == NodeView::Occupant) <==> nodes[path] == NodeView::Occupant,
        forall|path: Seq<char>|
            nodes.dom().contains(path) ==> #[trigger] nodes_after_entries(
                operation,
                dry_run,
                nodes,
                entries,
            ).dom().contains(path),
        forall|i: int|
            0 <= i < entries.len() ==> nodes_after_entries(
                operation,
                dry_run,
                nodes,
                entries,
            ).dom().contains(#[trigger] entries[i].dst),
    decreases entries.len(),
{
    if entries.len() > 0 {
        lemma_occupants_stay(operation, dry_run, nodes, entries.drop_last());
        let before = nodes_after_entries(operation, dry_run, nodes, entries.drop_last());
        let after = nodes_after_entries(operation, dry_run, nodes, entries);
        let last = entries.last();
        assert forall|path: Seq<char>|
            (#[trigger] after[path] == NodeView::Occupant) <==> nodes[path]
                == NodeView::Occupant by {
            if path != last.dst {
                assert(after[path] == before[path]);
            }
        }
        assert forall|i: int| 0 <= i < entries.len() implies after.dom().contains(
            #[trigger] entries[i].dst,
        ) by {
            if i < entries.len() - 1 {
                assert(entries[i] == entries.drop_last()[i]);
            }
        }
    }
}

/// A path with its slashes replaced is written with the separator, and
/// replacing them once more changes nothing.
pub proof fn law_normal_form_is_stable(path: Seq<char>, separator: char)
    ensures
        is_normal(with_separator(path, separator), separator),
        with_separator(with_separator(path, separator), separator) == with_separator(
            path,
            separator,
        ),
{
    assert(with_separator(with_separator(path, separator), separator) =~= with_separator(
        path,
        separator,
    ));
}

/// The status of an entry is decided by its source and by what stands at
/// its destination, and by nothing else. The four statuses exclude each
/// other, and each stands for one kind of destination: a symlink to the
/// source, nothing, a symlink to another target, a file or a directory.
pub proof fn law_status_is_decided_by_destination(src: Seq<char>, node: NodeView)
    ensures
        classify(src, node) == EntryStatus::Healthy <==> node == NodeView::Link(src),
        classify(src, node) == EntryStatus::Unlinked <==> node == NodeView::Absent,
        classify(src, node) == EntryStatus::Mismatched <==> (node is Link && node->Link_0
            != src),
        classify(src, node) == EntryStatus::Occupied <==> node == NodeView::Occupant,
{
}

/// No command deletes or overwrites what stands at an occupied path: no
/// action changes an occupant, no command decides a mutating action for an
/// occupied destination, and after a run over any linkfiles the occupant
/// still stands.
pub proof fn law_occupied_is_never_touched(
    operation: Operation,
    dry_run: bool,
    nodes: Nodes,
    files: Seq<LinkfileView>,
    path: Seq<char>,
)
    requires
        nodes[path] == NodeView::Occupant,
    ensures
        nodes_after_files(operation, dry_run, nodes, files)[path] == NodeView::Occupant,
        forall|src: Seq<char>|
            !is_mutating(#[trigger] action_for(operation, src, NodeView::Occupant)),
        forall|src: Seq<char>| #[trigger]
            node_after(operation, dry_run, src, NodeView::Occupant) == NodeView::Occupant,
        forall|action: Action, src: Seq<char>| #[trigger]
            performed(action, src, NodeView::Occupant) == NodeView::Occupant,
{
    lemma_nodes_after_flat(operation, dry_run, nodes, files);
    lemma_occupants_stay(operation, dry_run, nodes, all_entries(files));
}

/// A dry run, and a check, leave every path as it was while they visit
/// `entries`.
proof fn lemma_idle_entries(
    operation: Operation,
    dry_run: bool,
    nodes: Nodes,
    entries: Seq<EntryView>,
)
    requires
        dry_run || operation == Operation::Check,
        forall|path: Seq<char>| nodes.dom().contains(path),
    ensures
        nodes_after_entries(operation, dry_run, nodes, entries) == nodes,
    decreases entries.len(),
{
    if entries.len() > 0 {
        lemma_idle_entries(operation, dry_run, nodes, entries.drop_last());
        let last = entries.last();
        assert(nodes.insert(last.dst, nodes[last.dst]) =~= nodes);
    }
}

/// A dry run leaves every path as it was, whatever the command.
pub proof fn law_dry_run_changes_nothing(
    operation: Operation,
    nodes: Nodes,
    files: Seq<LinkfileView>,
)
    requires
        forall|path: Seq<char>| nodes.dom().contains(path),
    ensures
        nodes_after_files(operation, true, nodes, files) == nodes,
    decreases files.len(),
{
    if files.len() > 0 {
        law_dry_run_changes_nothing(operation, nodes, files.drop_last());
        lemma_idle_entries(operation, true, nodes, files.last().entries);
    }
}

/// A check leaves every path as it was.
pub proof fn law_check_changes_nothing(dry_run: bool, nodes: Nodes, files: Seq<LinkfileView>)
    requires
        forall|path: Seq<char>| nodes.dom().contains(path),
    ensures
        nodes_after_files(Operation::Check, dry_run, nodes, files) == nodes,
    decreases files.len(),
{
    if files.len() > 0 {
        law_check_changes_nothing(dry_run, nodes, files.drop_last());
        lemma_idle_entries(Operation::Check, dry_run, nodes, files.last().entries);
    }
}

/// After a link run every destination that no occupant holds is a symlink.
proof fn lemma_link_makes_links(nodes: Nodes, entries: Seq<EntryView>, i: int)
    requires
        0 <= i < entries.len(),
        nodes[entries[i].dst] != NodeView::Occupant,
    ensures
        nodes_after_entries(Operation::Link, false, nodes, entries)[entries[i].dst] is Link,
    decreases entries.len(),
{
    let before = nodes_after_entries(Operation::Link, false, nodes, entries.drop_last());
    let last = entries.last();
    lemma_occupants_stay(Operation::Link, false, nodes, entries.drop_last());
    if entries[i].dst == last.dst {
        assert(before[last.dst] != NodeView::Occupant);
    } else {
        assert(entries[i] == entries.drop_last()[i]);
        lemma_link_makes_links(nodes, entries.drop_last(), i);
    }
}

/// After a clean run nothing stands at a destination that no occupant held.
proof fn lemma_clean_removes_links(nodes: Nodes, entries: Seq<EntryView>, i: int)
    requires
        0 <= i < entries.len(),
        nodes[entries[i].dst] != NodeView::Occupant,
    ensures
        nodes_after_entries(Operation::Clean, false, nodes, entries)[entries[i].dst]
            == NodeView::Absent,
    decreases entries.len(),
{
    let before = nodes_after_entries(Operation::Clean, false, nodes, entries.drop_last());
    let last = entries.last();
    lemma_occupants_stay(Operation::Clean, false, nodes, entries.drop_last());
    if entries[i].dst == last.dst {
        assert(before[last.dst] != NodeView::Occupant);
    } else {
        assert(entries[i] == entries.drop_last()[i]);
        lemma_clean_removes_links(nodes, entries.drop_last(), i);
    }
}

/// Linking and then cleaning returns every entry that was unlinked to the
/// unlinked state.
pub proof fn law_link_then_clean_unlinks(nodes: Nodes, files: Seq<LinkfileView>, i: int)
    requires
        0 <= i < all_entries(files).len(),
        classify(all_entries(files)[i].src, nodes[all_entries(files)[i].dst])
            == EntryStatus::Unlinked,
    ensures
        ({
            let entry = all_entries(files)[i];
            let linked = nodes_after_files(Operation::Link, false, nodes, files);
            let cleaned = nodes_after_files(Operation::Clean, false, linked, files);
            &&& classify(entry.src, linked[entry.dst]) != EntryStatus::Unlinked
            &&& classify(entry.src, cleaned[entry.dst]) == EntryStatus::Unlinked
        }),
{
    let entries = all_entries(files);
    let linked = nodes_after_files(Operation::Link, false, nodes, files);
    lemma_nodes_after_flat(Operation::Link, false, nodes, files);
    lemma_nodes_after_flat(Operation::Clean, false, linked, files);
    lemma_link_makes_links(nodes, entries, i);
    lemma_clean_removes_links(linked, entries, i);
}

/// Whether the entries that share a destination agree on the source,
/// wherever no occupant holds that destination.
pub open spec fn destinations_agree(nodes: Nodes, entries: Seq<EntryView>) -> bool {
    forall|i: int, j: int|
        0 <= i < entries.len() && 0 <= j < entries.len() && (#[trigger] entries[i]).dst == (
        #[trigger] entries[j]).dst && nodes[entries[i].dst] != NodeView::Occupant
            ==> entries[i].src == entries[j].src
}

/// After a link run over entries that agree, every entry whose destination no
/// occupant holds is linked to its source.
proof fn lemma_link_reaches_sources(nodes: Nodes, entries: Seq<EntryView>, i: int)
    requires
        destinations_agree(nodes, entries),
        0 <= i < entries.len(),
        nodes[entries[i].dst] != NodeView::Occupant,
    ensures
        nodes_after_entries(Operation::Link, false, nodes, entries)[entries[i].dst]
            == NodeView::Link(entries[i].src),
    decreases entries.len(),
{
    let shorter = entries.drop_last();
    let before = nodes_after_entries(Operation::Link, false, nodes, shorter);
    let last = entries.last();
    lemma_occupants_stay(Operation::Link, false, nodes, shorter);
    if entries[i].dst == last.dst {
        assert(before[last.dst] != NodeView::Occupant);
        assert(entries[i].src == entries[entries.len() - 1].src);
    } else {
        assert(entries[i] == shorter[i]);
        assert(destinations_agree(nodes, shorter)) by {
            assert forall|a: int, b: int|
                0 <= a < shorter.len() && 0 <= b < shorter.len() && (#[trigger] shorter[a]).dst
                    == (#[trigger] shorter[b]).dst && nodes[shorter[a].dst]
                    != NodeView::Occupant implies shorter[a].src == shorter[b].src by {
                assert(shorter[a] == entries[a]);
                assert(shorter[b] == entries[b]);
            }
        }
        lemma_link_reaches_sources(nodes, shorter, i);
    }
}

/// Whether every one of `entries` is either linked to its source or held by
/// an occupant.
pub open spec fn is_settled(nodes: Nodes, entries: Seq<EntryView>) -> bool {
    forall|i: int|
        0 <= i < entries.len() ==> nodes.dom().contains((#[trigger] entries[i]).dst) && (
        nodes[entries[i].dst] == NodeView::Occupant || nodes[entries[i].dst] == NodeView::Link(
            entries[i].src,
        ))
}

/// A link run over settled entries changes nothing.
proof fn lemma_settled_stays(nodes: Nodes, entries: Seq<EntryView>, visited: Seq<EntryView>)
    requires
        is_settled(nodes, entries),
        forall|i: int| 0 <= i < visited.len() ==> entries.contains(#[trigger] visited[i]),
    ensures
        nodes_after_entries(Operation::Link, false, nodes, visited) == nodes,
    decreases visited.len(),
{
    if visited.len() > 0 {
        let shorter = visited.drop_last();
        assert forall|i: int| 0 <= i < shorter.len() implies entries.contains(
            #[trigger] shorter[i],
        ) by {
            assert(shorter[i] == visited[i]);
        }
        lemma_settled_stays(nodes, entries, shorter);
        let last = visited.last();
        assert(entries.contains(visited[visited.len() - 1]));
        let k = choose|k: int| 0 <= k < entries.len() && entries[k] == last;
        assert(nodes.dom().contains(entries[k].dst));
        assert(nodes.insert(last.dst, nodes[last.dst]) =~= nodes);
    }
}

/// Whether `event` reports no mutating action.
pub open spec fn is_quiet(event: EventView) -> bool {
    event matches EventView::Visited { action, .. } ==> !is_mutating(action)
}

/// A link run over settled entries reports no mutating action.
proof fn lemma_settled_entries_are_quiet(
    nodes: Nodes,
    entries: Seq<EntryView>,
    visited: Seq<EntryView>,
)
    requires
        is_settled(nodes, entries),
        forall|i: int| 0 <= i < visited.len() ==> entries.contains(#[trigger] visited[i]),
    ensures
        forall|k: int|
            0 <= k < events_of_entries(Operation::Link, false, nodes, visited).len()
                ==> is_quiet(
                #[trigger] events_of_entries(Operation::Link, false, nodes, visited)[k],
            ),
    decreases visited.len(),
{
    if visited.len() > 0 {
        let shorter = visited.drop_last();
        assert forall|i: int| 0 <= i < shorter.len() implies entries.contains(
            #[trigger] shorter[i],
        ) by {
            assert(shorter[i] == visited[i]);
        }
        lemma_settled_entries_are_quiet(nodes, entries, shorter);
        lemma_settled_stays(nodes, entries, shorter);
        let last = visited.last();
        assert(entries.contains(visited[visited.len() - 1]));
        let k = choose|k: int| 0 <= k < entries.len() && entries[k] == last;
        assert(nodes[entries[k].dst] == NodeView::Occupant || nodes[entries[k].dst]
            == NodeView::Link(entries[k].src));
        let earlier = events_of_entries(Operation::Link, false, nodes, shorter);
        let events = events_of_entries(Operation::Link, false, nodes, visited);
        assert forall|i: int| 0 <= i < events.len() implies is_quiet(#[trigger] events[i]) by {
            if i < earlier.len() {
                assert(events[i] == earlier[i]);
            }
        }
    }
}

/// A link run over linkfiles whose entries are settled changes nothing and
/// reports no mutating action.
proof fn lemma_settled_files_are_quiet(
    nodes: Nodes,
    entries: Seq<EntryView>,
    files: Seq<LinkfileView>,
    verbose: bool,
)
    requires
        is_settled(nodes, entries),
        forall|i: int|
            0 <= i < all_entries(files).len() ==> entries.contains(
                #[trigger] all_entries(files)[i],
            ),
    ensures
        nodes_after_files(Operation::Link, false, nodes, files) == nodes,
        forall|k: int|
            0 <= k < events_of_files(Operation::Link, false, verbose, nodes, files).len()
                ==> is_quiet(
                #[trigger] events_of_files(Operation::Link, false, verbose, nodes, files)[k],
            ),
    decreases files.len(),
{
    if files.len() > 0 {
        let shorter = files.drop_last();
        let last = files.last().entries;
        let flat = all_entries(files);
        assert forall|i: int| 0 <= i < all_entries(shorter).len() implies entries.contains(
            #[trigger] all_entries(shorter)[i],
        ) by {
            assert(all_entries(shorter)[i] == flat[i]);
        }
        assert forall|i: int| 0 <= i < last.len() implies entries.contains(
            #[trigger] last[i],
        ) by {
            assert(last[i] == flat[all_entries(shorter).len() + i]);
        }
        lemma_settled_files_are_quiet(nodes, entries, shorter, verbose);
        lemma_settled_stays(nodes, entries, last);
        lemma_settled_entries_are_quiet(nodes, entries, last);
        let earlier = events_of_files(Operation::Link, false, verbose, nodes, shorter);
        let announced = if verbose {
            earlier.push(EventView::Loading { linkfile: files.last().name })
        } else {
            earlier
        };
        let visits = events_of_entries(Operation::Link, false, nodes, last);
        let events = events_of_files(Operation::Link, false, verbose, nodes, files);
        assert(events == announced + visits);
        assert forall|i: int| 0 <= i < events.len() implies is_quiet(#[trigger] events[i]) by {
            if i < earlier.len() {
                assert(events[i] == earlier[i]);
            } else if i < announced.len() {
                assert(events[i] == announced[i]);
            } else {
                assert(events[i] == visits[i - announced.len()]);
            }
        }
    }
}

/// Linking twice: after the first run every entry that it did not refuse is
/// healthy. The second run finds every path as the first run left it,
/// before each of its visits and at its end, and it decides and reports no
/// mutating action. The entries that share a destination have to agree on the source,
/// unless an occupant holds that destination: of two entries that want
/// different links at one place only the later one is healthy afterwards.
pub proof fn law_link_twice(nodes: Nodes, files: Seq<LinkfileView>)
    requires
        destinations_agree(nodes, all_entries(files)),
    ensures
        ({
            let entries = all_entries(files);
            let once = nodes_after_files(Operation::Link, false, nodes, files);
            &&& forall|i: int|
                0 <= i < entries.len() && nodes[(#[trigger] entries[i]).dst]
                    != NodeView::Occupant ==> classify(entries[i].src, once[entries[i].dst])
                    == EntryStatus::Healthy
            &&& forall|i: int|
                0 <= i < entries.len() ==> !is_mutating(
                    action_for(
                        Operation::Link,
                        (#[trigger] entries[i]).src,
                        once[entries[i].dst],
                    ),
                )
            &&& forall|k: int|
                0 <= k <= entries.len() ==> #[trigger] nodes_after_entries(
                    Operation::Link,
                    false,
                    once,
                    entries.take(k),
                ) == once
            &&& nodes_after_files(Operation::Link, false, once, files) == once
            &&& forall|verbose: bool, k: int|
                0 <= k < events_of_files(Operation::Link, false, verbose, once, files).len()
                    ==> is_quiet(
                    #[trigger] events_of_files(Operation::Link, false, verbose, once, files)[k],
                )
        }),
{
    let entries = all_entries(files);
    let once = nodes_after_files(Operation::Link, false, nodes, files);
    lemma_nodes_after_flat(Operation::Link, false, nodes, files);
    lemma_occupants_stay(Operation::Link, false, nodes, entries);
    assert forall|i: int| 0 <= i < entries.len() implies once.dom().contains(
        (#[trigger] entries[i]).dst,
    ) && (once[entries[i].dst] == NodeView::Occupant || once[entries[i].dst] == NodeView::Link(
        entries[i].src,
    )) by {
        if nodes[entries[i].dst] != NodeView::Occupant {
            lemma_link_reaches_sources(nodes, entries, i);
        }
    }
    assert(is_settled(once, entries));
    assert forall|k: int| 0 <= k <= entries.len() implies #[trigger] nodes_after_entries(
        Operation::Link,
        false,
        once,
        entries.take(k),
    ) == once by {
        let visited = entries.take(k);
        assert forall|i: int| 0 <= i < visited.len() implies entries.contains(
            #[trigger] visited[i],
        ) by {
            assert(entries[i] == visited[i]);
        }
        lemma_settled_stays(once, entries, visited);
    }
    assert(entries.take(entries.len() as int) =~= entries);
    assert forall|verbose: bool, k: int|
        0 <= k < events_of_files(Operation::Link, false, verbose, once, files).len() implies is_quiet(
        #[trigger] events_of_files(Operation::Link, false, verbose, once, files)[k],
    ) by {
        lemma_settled_files_are_quiet(once, entries, files, verbose);
    }
    lemma_settled_files_are_quiet(once, entries, files, true);
}

/// No two linkfiles of a set have the same name, so that every entry of the
/// set belongs to one linkfile.
pub proof fn law_names_are_distinct(files: Seq<LinkfileView>, i: int, j: int)
    requires
        is_ascending(files),
        0 <= i < files.len(),
        0 <= j < files.len(),
        files[i].name == files[j].name,
    ensures
        i == j,
{
    if i < j {
        lemma_precedes_asymmetric(files[i].name, files[j].name);
    } else if j < i {
        lemma_precedes_asymmetric(files[j].name, files[i].name);
    }
}

/// Where paths are written with `/` and the home directory begins with a
/// slash, the destination of every resolved entry is an absolute path: it
/// begins with a slash. Its source is one if the expanded `dotdir/key` is
/// one, as it is where `dotdir` begins with a slash and neither it nor the
/// key refers to a variable.
pub proof fn law_resolved_entry_is_absolute(
    resolver: PathResolverView,
    dotdir: Seq<char>,
    key: Seq<char>,
    value: Seq<char>,
    entry: EntryView,
)
    requires
        resolver.separator == '/',
        is_rooted(resolver.home),
        resolves_to(resolver, dotdir, key, value, Ok(entry)),
    ensures
        is_rooted(entry.dst),
        is_rooted(entry.src) <==> is_rooted(expanded_by(resolver, joined(dotdir, key))->Ok_0),
        is_rooted(dotdir) && !joined(dotdir, key).contains('$') ==> is_rooted(entry.src),
{
    let source = expanded_by(resolver, joined(dotdir, key))->Ok_0;
    assert(joined(dotdir, key)[0] == dotdir[0] || dotdir.len() == 0);
    assert(entry.src.len() == source.len());
}

} // verus!
