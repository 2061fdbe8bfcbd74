//! What the caller has observed of the filesystem.

use vstd::prelude::*;
use crate::entry::{Node, NodeView};

verus! {

/// The node that a list of observations assigns to `path`: the one that was
/// recorded last, and `Absent` where none was.
pub open spec fn observed(records: Seq<(String, Node)>, path: Seq<char>) -> NodeView
    decreases records.len(),
{
    if records.len() == 0 {
        NodeView::Absent
    } else if records.last().0@ == path {
        records.last().1@
    } else {
        observed(records.drop_last(), path)
    }
}

/// Two lists of observations that agree record by record assign the same
/// node to every path.
proof fn lemma_observed_alike(a: Seq<(String, Node)>, b: Seq<(String, Node)>, path: Seq<char>)
    requires
        a.len() == b.len(),
        forall|i: int| 0 <= i < a.len() ==> a[i].0@ == b[i].0@ && a[i].1@ == b[i].1@,
    ensures
        observed(a, path) == observed(b, path),
    decreases a.len(),
{
    if a.len() > 0 {
        lemma_observed_alike(a.drop_last(), b.drop_last(), path);
    }
}

/// The nodes that stand at the paths of interest. A path of which nothing
/// was recorded counts as absent.
#[derive(Debug)]
pub struct Snapshot {
    records: Vec<(String, Node)>,
}

impl View for Snapshot {
    type V = Map<Seq<char>, NodeView>;

    closed spec fn view(&self) -> Map<Seq<char>, NodeView> {
        Map::total(|path: Seq<char>| observed(self.records@, path))
    }
}

impl Clone for Snapshot {
    fn clone(&self) -> (copy: Self)
        ensures
            copy@ == self@,
    {
        let mut records: Vec<(String, Node)> = Vec::new();
        let mut i: usize = 0;
        while i < self.records.len()
            invariant
                i <= self.records.len(),
                records.len() == i,
                forall|k: int|
                    0 <= k < i ==> records[k].0@ == self.records[k].0@ && records[k].1@
                        == self.records[k].1@,
            decreases self.records.len() - i,
        {
            records.push((self.records[i].0.clone(), self.records[i].1.clone()));
            i = i + 1;
        }
        let copy = Snapshot { records };
        proof {
            assert forall|path: Seq<char>| #[trigger]
                observed(copy.records@, path) == observed(self.records@, path) by {
                lemma_observed_alike(copy.records@, self.records@, path);
            }
            assert(copy@ =~= self@);
        }
        copy
    }
}

impl Snapshot {
    /// The snapshot of an empty filesystem.
    pub fn new() -> (snapshot: Snapshot)
        ensures
            snapshot@ == Map::total(|path: Seq<char>| NodeView::Absent),
    {
        let snapshot = Snapshot { records: Vec::new() };
        assert(snapshot@ =~= Map::total(|path: Seq<char>| NodeView::Absent));
        snapshot
    }

    /// Every path has a node in a snapshot.
    pub proof fn lemma_total(&self)
        ensures
            forall|path: Seq<char>| self@.dom().contains(path),
    {
    }

    /// Records that `node` stands at `path`.
    pub fn record(&mut self, path: String, node: Node)
        ensures
            final(self)@ == old(self)@.insert(path@, node@),
    {
        let ghost before = self.records@;
        self.records.push((path, node));
        proof {
            assert(self.records@.drop_last() =~= before);
            assert(self@ =~= old(self)@.insert(path@, node@));
        }
    }

    /// The node that stands at `path`.
    pub fn node(&self, path: &str) -> (node: Node)
        ensures
            node@ == self@[path@],
    {
        let key = path.to_owned();
        let mut i: usize = self.records.len();
        proof {
            assert(self.records@.take(i as int) =~= self.records@);
        }
        while i > 0
            invariant
                i <= self.records.len(),
                key@ == path@,
                observed(self.records@, path@) == observed(self.records@.take(i as int), path@),
            decreases i,
        {
            i = i - 1;
            proof {
                let prefix = self.records@.take(i + 1);
                assert(prefix.last() == self.records@[i as int]);
                assert(prefix.drop_last() =~= self.records@.take(i as int));
            }
            if self.records[i].0 == key {
                return self.records[i].1.clone();
            }
        }
        Node::Absent
    }
}

} // verus!
