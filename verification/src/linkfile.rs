//! Linkfiles: named groups of entries.

use vstd::prelude::*;
use crate::document::{items_view, parse_document, toml_document, Value, ValueView};
use crate::entry::{is_expandable, is_resolved, resolves_to, Entry, EntryView};
use crate::error::{LoadError, LoadErrorView};
use crate::order::{compare, lemma_precedes_transitive, precedes, Order};
use crate::path::{PathResolver, PathResolverView};

verus! {

/// The mathematical value of a vector of entries.
pub open spec fn entries_view(entries: Seq<Entry>) -> Seq<EntryView> {
    Seq::new(entries.len(), |i: int| entries[i]@)
}

/// The declarations of a document: its keys that have a string for a value,
/// each with that string, in the order of the document. The other items say
/// nothing of links and are passed over.
pub open spec fn declarations(items: Seq<(Seq<char>, ValueView)>) -> Seq<(Seq<char>, Seq<char>)>
    decreases items.len(),
{
    if items.len() == 0 {
        Seq::empty()
    } else {
        let earlier = declarations(items.drop_last());
        match items.last().1 {
            ValueView::Text(value) => earlier.push((items.last().0, value)),
            _ => earlier,
        }
    }
}

/// Whether `outcome` is what `declared` resolves to: one entry for each
/// declaration, in order, or the error of the first declaration that cannot
/// be resolved.
pub open spec fn entries_resolve_to(
    resolver: PathResolverView,
    dotdir: Seq<char>,
    declared: Seq<(Seq<char>, Seq<char>)>,
    outcome: Result<Seq<EntryView>, LoadErrorView>,
) -> bool {
    match outcome {
        Ok(entries) => entries.len() == declared.len() && forall|k: int|
            0 <= k < declared.len() ==> resolves_to(
                resolver,
                dotdir,
                (#[trigger] declared[k]).0,
                declared[k].1,
                Ok(entries[k]),
            ),
        Err(error) => exists|k: int|
            0 <= k < declared.len() && first_failure(resolver, dotdir, declared, k, error),
    }
}

/// Whether the declaration at position `k` is the first that cannot be
/// resolved, and fails with `error`.
pub open spec fn first_failure(
    resolver: PathResolverView,
    dotdir: Seq<char>,
    declared: Seq<(Seq<char>, Seq<char>)>,
    k: int,
    error: LoadErrorView,
) -> bool {
    &&& forall|j: int|
        0 <= j < k ==> is_expandable(resolver, dotdir, (#[trigger] declared[j]).0, declared[j].1)
    &&& resolves_to(resolver, dotdir, declared[k].0, declared[k].1, Err(error))
}

/// Whether every one of `entries` is written with `separator`.
pub open spec fn all_resolved(entries: Seq<EntryView>, separator: char) -> bool {
    forall|k: int| 0 <= k < entries.len() ==> is_resolved(#[trigger] entries[k], separator)
}

/// The mathematical value of the outcome of reading a linkfile.
pub open spec fn entries_outcome_view(outcome: Result<Vec<Entry>, LoadError>) -> Result<
    Seq<EntryView>,
    LoadErrorView,
> {
    match outcome {
        Ok(entries) => Ok(entries_view(entries@)),
        Err(error) => Err(error@),
    }
}

/// The declarations of the first items of a document are the first
/// declarations of the document.
pub proof fn lemma_declarations_of_prefix(items: Seq<(Seq<char>, ValueView)>, i: int)
    requires
        0 <= i <= items.len(),
    ensures
        declarations(items.take(i)).len() <= declarations(items).len(),
        declarations(items.take(i)) == declarations(items).take(
            declarations(items.take(i)).len() as int,
        ),
    decreases items.len(),
{
    if i == items.len() {
        assert(items.take(i) =~= items);
        assert(declarations(items) =~= declarations(items).take(
            declarations(items).len() as int,
        ));
    } else {
        let shorter = items.drop_last();
        assert(shorter.take(i) =~= items.take(i));
        lemma_declarations_of_prefix(shorter, i);
        let part = declarations(items.take(i));
        assert(part =~= declarations(items).take(part.len() as int));
    }
}

/// The entries that the items of a linkfile for the directory `dotdir`
/// declare, in the order of the items. An item whose value is no string is
/// passed over. Nothing is returned unless every declaration resolves.
pub fn declared_entries(items: &Vec<(String, Value)>, dotdir: &str, resolver: &PathResolver) -> (outcome:
    Result<Vec<Entry>, LoadError>)
    ensures
        entries_resolve_to(
            resolver@,
            dotdir@,
            declarations(items_view(items@)),
            entries_outcome_view(outcome),
        ),
        outcome is Ok ==> all_resolved(entries_view(outcome->Ok_0@), resolver@.separator),
{
    let ghost all = items_view(items@);
    let ghost declared = declarations(all);
    let mut entries: Vec<Entry> = Vec::new();
    let mut i: usize = 0;
    while i < items.len()
        invariant
            i <= items.len(),
            all == items_view(items@),
            declared == declarations(all),
            entries.len() == declarations(all.take(i as int)).len(),
            entries.len() <= declared.len(),
            all_resolved(entries_view(entries@), resolver@.separator),
            forall|k: int|
                0 <= k < entries.len() ==> resolves_to(
                    resolver@,
                    dotdir@,
                    (#[trigger] declared[k]).0,
                    declared[k].1,
                    Ok(entries[k]@),
                ),
        decreases items.len() - i,
    {
        let ghost k = entries.len() as int;
        proof {
            let prefix = all.take(i + 1);
            assert(prefix.drop_last() =~= all.take(i as int));
            assert(prefix.last() == all[i as int]);
            lemma_declarations_of_prefix(all, i + 1);
        }
        match &items[i].1 {
            Value::Text(value) => {
                proof {
                    let next = declarations(all.take(i + 1));
                    assert(all[i as int].1 == ValueView::Text(value@));
                    assert(next == declarations(all.take(i as int)).push(
                        (items[i as int].0@, value@),
                    ));
                    assert(next[k] == declared.take(next.len() as int)[k]);
                    assert(declared[k] == (items[i as int].0@, value@));
                }
                match Entry::resolve(resolver, dotdir, items[i].0.as_str(), value.as_str()) {
                    Ok(entry) => {
                        let ghost earlier = entries_view(entries@);
                        entries.push(entry);
                        proof {
                            let longer = entries_view(entries@);
                            assert forall|j: int| 0 <= j < longer.len() implies is_resolved(
                                #[trigger] longer[j],
                                resolver@.separator,
                            ) by {
                                if j < earlier.len() {
                                    assert(longer[j] == earlier[j]);
                                }
                            }
                        }
                    },
                    Err(error) => {
                        proof {
                            assert(first_failure(resolver@, dotdir@, declared, k, error@));
                        }
                        return Err(error);
                    },
                }
            },
            _ => {},
        }
        i = i + 1;
    }
    proof {
        assert(all.take(i as int) =~= all);
    }
    Ok(entries)
}

/// Whether `outcome` is what reading a linkfile with the text `content`
/// gives: a parse error where `content` is no document, else one entry for
/// each declaration or the error of the first declaration that cannot be
/// resolved.
pub open spec fn loads(
    resolver: PathResolverView,
    dotdir: Seq<char>,
    content: Seq<char>,
    outcome: Result<Seq<EntryView>, LoadErrorView>,
) -> bool {
    match toml_document(content) {
        None => outcome == Err::<Seq<EntryView>, LoadErrorView>(LoadErrorView::ConfigParse),
        Some(items) => {
            &&& entries_resolve_to(resolver, dotdir, declarations(items), outcome)
            &&& outcome is Ok ==> all_resolved(outcome->Ok_0, resolver.separator)
        },
    }
}

/// The entries that the linkfile with the text `content` declares for the
/// directory `dotdir`.
///
/// Fails with `ConfigParse` where `content` is no document of keys and
/// values, and with `PathExpansion` where a declaration refers to an
/// undefined variable.
pub fn parse_linkfile(content: &str, dotdir: &str, resolver: &PathResolver) -> (outcome: Result<
    Vec<Entry>,
    LoadError,
>)
    ensures
        loads(resolver@, dotdir@, content@, entries_outcome_view(outcome)),
{
    match parse_document(content) {
        Ok(items) => declared_entries(&items, dotdir, resolver),
        Err(error) => Err(error),
    }
}

/// The entries that one linkfile declares, in the order of its declarations.
#[derive(Debug)]
pub struct Linkfile {
    pub name: String,
    pub entries: Vec<Entry>,
}

/// Mathematical value of a [`Linkfile`].
pub struct LinkfileView {
    pub name: Seq<char>,
    pub entries: Seq<EntryView>,
}

impl View for Linkfile {
    type V = LinkfileView;

    open spec fn view(&self) -> LinkfileView {
        LinkfileView { name: self.name@, entries: entries_view(self.entries@) }
    }
}

/// The mathematical value of a vector of linkfiles.
pub open spec fn linkfiles_view(files: Seq<Linkfile>) -> Seq<LinkfileView> {
    Seq::new(files.len(), |i: int| files[i]@)
}

/// Every entry of `files`, in the order in which a run visits them.
pub open spec fn all_entries(files: Seq<LinkfileView>) -> Seq<EntryView>
    decreases files.len(),
{
    if files.len() == 0 {
        Seq::empty()
    } else {
        all_entries(files.drop_last()) + files.last().entries
    }
}

/// Whether the names of `files` ascend strictly, in the order of strings.
pub open spec fn is_ascending(files: Seq<LinkfileView>) -> bool {
    forall|i: int, j: int|
        0 <= i < j < files.len() ==> precedes((#[trigger] files[i]).name, (#[trigger] files[j]).name)
}

/// The position of the first of `files` whose name does not come before
/// `name`: the place of a linkfile of that name among ascending `files`.
pub open spec fn position(files: Seq<LinkfileView>, name: Seq<char>) -> int
    decreases files.len(),
{
    if files.len() == 0 || !precedes(files[0].name, name) {
        0
    } else {
        1 + position(files.drop_first(), name)
    }
}

/// `files` with `file` in its place: instead of the linkfile of the same
/// name, if one is there.
pub open spec fn with_file(files: Seq<LinkfileView>, file: LinkfileView) -> Seq<LinkfileView> {
    let place = position(files, file.name);
    if place < files.len() && files[place].name == file.name {
        files.update(place, file)
    } else {
        files.insert(place, file)
    }
}

/// The set that holds `files`, each put in its place in turn: a later
/// linkfile takes the place of an earlier one of the same name.
pub open spec fn collected(files: Seq<LinkfileView>) -> Seq<LinkfileView>
    decreases files.len(),
{
    if files.len() == 0 {
        Seq::empty()
    } else {
        with_file(collected(files.drop_last()), files.last())
    }
}

/// The linkfiles of one run, in the order of their names. No two of them
/// have the same name.
#[derive(Debug)]
pub struct LinkfileSet {
    files: Vec<Linkfile>,
}

impl View for LinkfileSet {
    type V = Seq<LinkfileView>;

    closed spec fn view(&self) -> Seq<LinkfileView> {
        linkfiles_view(self.files@)
    }
}

impl LinkfileSet {
    /// Whether the set is in order: the names of its linkfiles ascend
    /// strictly. `new` makes such a set, and `insert` keeps it so.
    pub open spec fn well_formed(&self) -> bool {
        is_ascending(self@)
    }

    /// A set without linkfiles.
    pub fn new() -> (set: LinkfileSet)
        ensures
            set@ == Seq::<LinkfileView>::empty(),
            set.well_formed(),
    {
        LinkfileSet { files: Vec::new() }
    }

    /// The number of linkfiles.
    pub fn len(&self) -> (n: usize)
        ensures
            n == self@.len(),
    {
        self.files.len()
    }

    /// The linkfile at position `index`.
    pub fn file(&self, index: usize) -> (file: &Linkfile)
        requires
            index < self@.len(),
        ensures
            file@ == self@[index as int],
    {
        &self.files[index]
    }

    /// Puts `file` in its place: instead of the linkfile of the same name,
    /// if one is there.
    pub fn insert(&mut self, file: Linkfile)
        requires
            old(self).well_formed(),
        ensures
            final(self)@ == with_file(old(self)@, file@),
            final(self).well_formed(),
    {
        let ghost before = self@;
        let ghost name = file@.name;
        let mut i: usize = 0;
        let mut found = false;
        proof {
            assert(before.skip(0) =~= before);
        }
        while i < self.files.len()
            invariant_except_break
                !found,
                position(before, name) == i + position(before.skip(i as int), name),
            invariant
                i <= self.files.len(),
                self@ == before,
                before.len() == self.files.len(),
                name == file@.name,
                forall|k: int| 0 <= k < i ==> precedes((#[trigger] before[k]).name, name),
            ensures
                position(before, name) == i,
                found ==> i < before.len() && before[i as int].name == name,
                !found && i < before.len() ==> precedes(name, before[i as int].name),
            decreases self.files.len() - i,
        {
            proof {
                assert(before.skip(i as int)[0] == before[i as int]);
                assert(before.skip(i as int).drop_first() =~= before.skip(i + 1));
            }
            match compare(self.files[i].name.as_str(), file.name.as_str()) {
                Order::Before => {
                    i = i + 1;
                },
                Order::Same => {
                    found = true;
                    break ;
                },
                Order::After => {
                    break ;
                },
            }
        }
        if found {
            self.files[i] = file;
            proof {
                assert(self@ =~= before.update(i as int, file@));
                assert forall|p: int, q: int| 0 <= p < q < self@.len() implies precedes(
                    (#[trigger] self@[p]).name,
                    (#[trigger] self@[q]).name,
                ) by {
                    assert(self@[p].name == before[p].name);
                    assert(self@[q].name == before[q].name);
                }
            }
        } else {
            self.files.insert(i, file);
            proof {
                assert(self@ =~= before.insert(i as int, file@));
                assert forall|p: int, q: int| 0 <= p < q < self@.len() implies precedes(
                    (#[trigger] self@[p]).name,
                    (#[trigger] self@[q]).name,
                ) by {
                    if q == i {
                        assert(self@[p] == before[p]);
                    } else if p == i {
                        assert(self@[q] == before[q - 1]);
                        if q - 1 > i {
                            assert(precedes(before[i as int].name, before[q - 1].name));
                            lemma_precedes_transitive(
                                name,
                                before[i as int].name,
                                before[q - 1].name,
                            );
                        }
                    } else if q < i {
                        assert(self@[p] == before[p]);
                        assert(self@[q] == before[q]);
                    } else if p < i {
                        assert(self@[p] == before[p]);
                        assert(self@[q] == before[q - 1]);
                        if q - 1 > i {
                            assert(precedes(before[i as int].name, before[q - 1].name));
                        }
                        lemma_precedes_transitive(before[p].name, name, before[i as int].name);
                        if q - 1 > i {
                            lemma_precedes_transitive(
                                before[p].name,
                                before[i as int].name,
                                before[q - 1].name,
                            );
                        }
                    } else {
                        assert(self@[p] == before[p - 1]);
                        assert(self@[q] == before[q - 1]);
                    }
                }
            }
        }
    }
}

} // verus!
