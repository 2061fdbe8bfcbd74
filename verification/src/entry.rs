//! One declared link and the classification of its destination.

use vstd::prelude::*;
use crate::error::{LoadError, LoadErrorView};
use crate::path::{
    expanded_by, is_normal, is_placement, is_rooted, joined, with_separator, PathResolver,
    PathResolverView,
};

verus! {

/// How the destination of an entry relates to its declaration.
#[derive(Clone, Copy, Debug, PartialEq, Eq, Structural)]
pub enum EntryStatus {
    /// The destination is a symlink whose target is the source.
    Healthy,
    /// Nothing stands at the destination.
    Unlinked,
    /// The destination is a symlink that points somewhere else.
    Mismatched,
    /// The destination is a file or a directory, not a symlink.
    Occupied,
}

/// What stands at a path of the filesystem, as far as linking is concerned.
#[derive(Debug)]
pub enum Node {
    /// No file, symlink or directory.
    Absent,
    /// A symlink, with the target it holds.
    Link(String),
    /// A regular file or a directory.
    Occupant,
}

/// Mathematical value of a [`Node`].
pub enum NodeView {
    Absent,
    Link(Seq<char>),
    Occupant,
}

impl View for Node {
    type V = NodeView;

    open spec fn view(&self) -> NodeView {
        match self {
            Node::Absent => NodeView::Absent,
            Node::Link(target) => NodeView::Link(target@),
            Node::Occupant => NodeView::Occupant,
        }
    }
}

impl Clone for Node {
    fn clone(&self) -> (copy: Self)
        ensures
            copy@ == self@,
    {
        match self {
            Node::Absent => Node::Absent,
            Node::Link(target) => Node::Link(target.clone()),
            Node::Occupant => Node::Occupant,
        }
    }
}

impl PartialEq for Node {
    fn eq(&self, other: &Self) -> (equal: bool) {
        match self {
            Node::Absent => matches!(other, Node::Absent),
            Node::Link(target) => match other {
                Node::Link(other_target) => *target == *other_target,
                _ => false,
            },
            Node::Occupant => matches!(other, Node::Occupant),
        }
    }
}

impl vstd::std_specs::cmp::PartialEqSpecImpl for Node {
    open spec fn obeys_eq_spec() -> bool {
        true
    }

    open spec fn eq_spec(&self, other: &Self) -> bool {
        self@ == other@
    }
}

/// The status of a declaration with source `src` whose destination holds `node`.
pub open spec fn classify(src: Seq<char>, node: NodeView) -> EntryStatus {
    match node {
        NodeView::Absent => EntryStatus::Unlinked,
        NodeView::Link(target) => if target == src {
            EntryStatus::Healthy
        } else {
            EntryStatus::Mismatched
        },
        NodeView::Occupant => EntryStatus::Occupied,
    }
}

/// One resolved pair of paths: the file in the repository and the place
/// where a symlink to it should stand.
#[derive(Debug)]
pub struct Entry {
    pub src: String,
    pub dst: String,
}

/// Mathematical value of an [`Entry`].
pub struct EntryView {
    pub src: Seq<char>,
    pub dst: Seq<char>,
}

impl View for Entry {
    type V = EntryView;

    open spec fn view(&self) -> EntryView {
        EntryView { src: self.src@, dst: self.dst@ }
    }
}

impl Clone for Entry {
    fn clone(&self) -> (copy: Self)
        ensures
            copy@ == self@,
    {
        Entry { src: self.src.clone(), dst: self.dst.clone() }
    }
}

impl PartialEq for Entry {
    fn eq(&self, other: &Self) -> (equal: bool) {
        self.src == other.src && self.dst == other.dst
    }
}

impl vstd::std_specs::cmp::PartialEqSpecImpl for Entry {
    open spec fn obeys_eq_spec() -> bool {
        true
    }

    open spec fn eq_spec(&self, other: &Self) -> bool {
        self@ == other@
    }
}

/// Whether both paths of the declaration `key = value` can be expanded.
pub open spec fn is_expandable(
    resolver: PathResolverView,
    dotdir: Seq<char>,
    key: Seq<char>,
    value: Seq<char>,
) -> bool {
    expanded_by(resolver, joined(dotdir, key)) is Ok && expanded_by(resolver, value) is Ok
}

/// Whether `outcome` is what the declaration `key = value` resolves to.
///
/// The source is the expanded `dotdir/key`. The destination is the expanded
/// `value`, under the home directory where it is a relative path. Both are
/// written with the separator of the resolver. The error is that of the
/// source if it cannot be expanded, else that of the value.
pub open spec fn resolves_to(
    resolver: PathResolverView,
    dotdir: Seq<char>,
    key: Seq<char>,
    value: Seq<char>,
    outcome: Result<EntryView, LoadErrorView>,
) -> bool {
    match expanded_by(resolver, joined(dotdir, key)) {
        Err(variable) => outcome == Err::<EntryView, LoadErrorView>(
            LoadErrorView::PathExpansion { variable },
        ),
        Ok(source) => match expanded_by(resolver, value) {
            Err(variable) => outcome == Err::<EntryView, LoadErrorView>(
                LoadErrorView::PathExpansion { variable },
            ),
            Ok(target) => outcome is Ok && outcome->Ok_0.src == with_separator(
                source,
                resolver.separator,
            ) && is_placement(resolver, target, outcome->Ok_0.dst),
        },
    }
}

/// Whether both paths of `entry` are written with `separator`, as every
/// resolved entry is.
pub open spec fn is_resolved(entry: EntryView, separator: char) -> bool {
    is_normal(entry.src, separator) && is_normal(entry.dst, separator)
}

/// The mathematical value of the outcome of a resolution.
pub open spec fn resolution_view(outcome: Result<Entry, LoadError>) -> Result<
    EntryView,
    LoadErrorView,
> {
    match outcome {
        Ok(entry) => Ok(entry@),
        Err(error) => Err(error@),
    }
}

impl Entry {
    /// The entry that the declaration `key = value` of a linkfile for the
    /// directory `dotdir` stands for.
    ///
    /// Fails where one of the two paths refers to an undefined variable.
    pub fn resolve(resolver: &PathResolver, dotdir: &str, key: &str, value: &str) -> (outcome:
        Result<Entry, LoadError>)
        ensures
            resolves_to(resolver@, dotdir@, key@, value@, resolution_view(outcome)),
            outcome is Ok ==> is_resolved(outcome->Ok_0@, resolver@.separator),
            outcome is Ok && resolver@.separator == '/' && is_rooted(resolver@.home) ==> is_rooted(
                outcome->Ok_0@.dst,
            ),
    {
        let src = match resolver.source(dotdir, key) {
            Ok(path) => path,
            Err(error) => {
                return Err(error);
            },
        };
        match resolver.destination(value) {
            Ok(dst) => Ok(Entry { src, dst }),
            Err(error) => Err(error),
        }
    }

    /// Classifies the entry against `node`, the current content of its
    /// destination. Nothing is remembered between calls.
    pub fn status(&self, node: &Node) -> (status: EntryStatus)
        ensures
            status == classify(self.src@, node@),
    {
        match node {
            Node::Absent => EntryStatus::Unlinked,
            Node::Link(target) => if *target == self.src {
                EntryStatus::Healthy
            } else {
                EntryStatus::Mismatched
            },
            Node::Occupant => EntryStatus::Occupied,
        }
    }
}

} // verus!
