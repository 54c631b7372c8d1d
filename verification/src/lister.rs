//! From what a directory read reported to the ordered listing of a column.

use crate::entry::{
    entry_le, entry_views, lemma_entry_le_total, lemma_entry_le_transitive, Entry, EntryKind,
    EntryView,
};
use crate::path::{is_segment, is_valid_segment, join_path, joined, lemma_joined_injective};
use crate::text::{is_hidden, is_hidden_name, name_le};
use vstd::prelude::*;

verus! {

/// What reading a directory reported of one child.
#[derive(Debug, PartialEq, Eq)]
pub struct ChildRecord {
    pub name: String,
    /// `Unreadable` for a symbolic link and for a child without metadata.
    pub kind: EntryKind,
}

/// A child record as plain values.
pub struct ChildView {
    pub name: Seq<char>,
    pub kind: EntryKind,
}

impl View for ChildRecord {
    type V = ChildView;

    open spec fn view(&self) -> ChildView {
        ChildView { name: self.name@, kind: self.kind }
    }
}

impl ChildRecord {
    /// A record from its two parts.
    pub fn new(name: &str, kind: EntryKind) -> (record: ChildRecord)
        ensures
            record@ == (ChildView { name: name@, kind }),
    {
        ChildRecord { name: name.to_owned(), kind }
    }
}

/// The views of a run of records, in the same order.
pub open spec fn child_views(children: Seq<ChildRecord>) -> Seq<ChildView> {
    children.map_values(|r: ChildRecord| r@)
}

/// The outcome of reading one directory.
#[derive(Debug, PartialEq, Eq)]
pub enum DirectoryRead {
    /// The directory could not be read: no permission, or it is gone.
    Failed,
    /// The children, in the order in which they were reported.
    Children(Vec<ChildRecord>),
}

impl View for DirectoryRead {
    type V = Option<Seq<ChildView>>;

    open spec fn view(&self) -> Option<Seq<ChildView>> {
        match self {
            DirectoryRead::Failed => None,
            DirectoryRead::Children(children) => Some(child_views(children@)),
        }
    }
}

impl DirectoryRead {
    /// Whether the directory could be read.
    pub fn is_listable(&self) -> (r: bool)
        ensures
            r == (self@ is Some),
    {
        match self {
            DirectoryRead::Failed => false,
            DirectoryRead::Children(_) => true,
        }
    }
}

/// Whether a listing shows `child`: never a symbolic link or a child that
/// could not be examined, never a name that is no path segment, and a name
/// that starts with a dot only where hidden entries are shown.
pub open spec fn is_listed(child: ChildView, show_hidden: bool) -> bool {
    &&& child.kind != EntryKind::Unreadable
    &&& is_segment(child.name)
    &&& show_hidden || !is_hidden_name(child.name)
}

/// The entry that stands for `child` of the directory `dir`.
pub open spec fn entry_of(dir: Seq<char>, child: ChildView) -> EntryView {
    EntryView { name: child.name, absolute_path: joined(dir, child.name), kind: child.kind }
}

/// `is_listed` as a predicate on children.
pub open spec fn listed_under(show_hidden: bool) -> spec_fn(ChildView) -> bool {
    |c: ChildView| is_listed(c, show_hidden)
}

/// `entry_of` as a function on children.
pub open spec fn entry_in(dir: Seq<char>) -> spec_fn(ChildView) -> EntryView {
    |c: ChildView| entry_of(dir, c)
}

/// The entries of the children that a listing shows, in the order read.
pub open spec fn candidates(
    dir: Seq<char>,
    children: Seq<ChildView>,
    show_hidden: bool,
) -> Seq<EntryView> {
    children.filter(listed_under(show_hidden)).map_values(entry_in(dir))
}

/// Each entry comes no later than every entry behind it.
pub open spec fn is_sorted(entries: Seq<EntryView>) -> bool {
    forall|i: int, j: int| 0 <= i <= j < entries.len() ==> entry_le(entries[i], entries[j])
}

/// Where `entry` goes into `sorted`: behind the last entry that comes no
/// later than it.
pub open spec fn insertion_point(sorted: Seq<EntryView>, entry: EntryView) -> int
    decreases sorted.len(),
{
    if sorted.len() == 0 {
        0
    } else if entry_le(sorted.last(), entry) {
        sorted.len() as int
    } else {
        insertion_point(sorted.drop_last(), entry)
    }
}

/// `sorted` with `entry` put in at its insertion point.
pub open spec fn inserted(sorted: Seq<EntryView>, entry: EntryView) -> Seq<EntryView> {
    sorted.insert(insertion_point(sorted, entry), entry)
}

/// The entries in listing order; entries that the order does not tell apart
/// keep the order in which they were given.
pub open spec fn sorted_stably(entries: Seq<EntryView>) -> Seq<EntryView>
    decreases entries.len(),
{
    if entries.len() == 0 {
        entries
    } else {
        inserted(sorted_stably(entries.drop_last()), entries.last())
    }
}

/// What a column shows for the directory `dir` after `read`: nothing where
/// the read failed, else the listed children in listing order.
pub open spec fn listing(
    dir: Seq<char>,
    read: Option<Seq<ChildView>>,
    show_hidden: bool,
) -> Seq<EntryView> {
    match read {
        None => Seq::empty(),
        Some(children) => sorted_stably(candidates(dir, children, show_hidden)),
    }
}

/// The predicate that holds of an entry whose name does not start with a dot.
pub open spec fn not_hidden() -> spec_fn(EntryView) -> bool {
    |e: EntryView| !is_hidden_name(e.name)
}

/// The entries that stand for no hidden name, in the same order.
pub open spec fn without_hidden(entries: Seq<EntryView>) -> Seq<EntryView> {
    entries.filter(not_hidden())
}

/// What the insertion point is: the entry before it comes no later than
/// `entry`, and every entry from it on comes strictly later.
pub proof fn lemma_insertion_point(sorted: Seq<EntryView>, entry: EntryView)
    ensures
        0 <= insertion_point(sorted, entry) <= sorted.len(),
        insertion_point(sorted, entry) > 0 ==> entry_le(
            sorted[insertion_point(sorted, entry) - 1],
            entry,
        ),
        forall|j: int|
            insertion_point(sorted, entry) <= j < sorted.len() ==> !entry_le(sorted[j], entry),
    decreases sorted.len(),
{
    if sorted.len() > 0 && !entry_le(sorted.last(), entry) {
        let head = sorted.drop_last();
        lemma_insertion_point(head, entry);
        assert forall|j: int| insertion_point(sorted, entry) <= j < sorted.len() implies !entry_le(
            sorted[j],
            entry,
        ) by {
            if j < head.len() {
                assert(head[j] == sorted[j]);
            }
        }
    }
}

/// A position with the two properties of the insertion point is that point.
pub proof fn lemma_insertion_point_is(sorted: Seq<EntryView>, entry: EntryView, at: int)
    requires
        0 <= at <= sorted.len(),
        at > 0 ==> entry_le(sorted[at - 1], entry),
        forall|j: int| at <= j < sorted.len() ==> !entry_le(sorted[j], entry),
    ensures
        insertion_point(sorted, entry) == at,
    decreases sorted.len(),
{
    if at < sorted.len() {
        lemma_insertion_point_is(sorted.drop_last(), entry, at);
    }
}

/// Putting an entry into a sorted run leaves it sorted.
pub proof fn lemma_inserted_sorted(sorted: Seq<EntryView>, entry: EntryView)
    requires
        is_sorted(sorted),
    ensures
        is_sorted(inserted(sorted, entry)),
{
    lemma_insertion_point(sorted, entry);
    let at = insertion_point(sorted, entry);
    let out = inserted(sorted, entry);
    assert forall|i: int, j: int| 0 <= i <= j < out.len() implies entry_le(out[i], out[j]) by {
        if i == j {
            lemma_entry_le_total(out[i], out[i]);
        } else if j < at {
        } else if i > at {
            assert(out[i] == sorted[i - 1] && out[j] == sorted[j - 1]);
        } else if i == at {
            assert(out[j] == sorted[j - 1]);
            lemma_entry_le_total(sorted[j - 1], entry);
        } else if j == at {
            lemma_entry_le_transitive(sorted[i], sorted[at - 1], entry);
        } else {
            assert(out[j] == sorted[j - 1]);
        }
    }
}

/// A stable sort gives a sorted run with the same entries.
pub proof fn lemma_sorted_stably(entries: Seq<EntryView>)
    ensures
        is_sorted(sorted_stably(entries)),
        sorted_stably(entries).to_multiset() == entries.to_multiset(),
        sorted_stably(entries).len() == entries.len(),
    decreases entries.len(),
{
    broadcast use vstd::seq_lib::group_to_multiset_ensures;

    if entries.len() > 0 {
        let head = entries.drop_last();
        lemma_sorted_stably(head);
        lemma_inserted_sorted(sorted_stably(head), entries.last());
        lemma_insertion_point(sorted_stably(head), entries.last());
        assert(entries =~= head.push(entries.last()));
    }
}

/// One more child adds its entry behind the candidates so far, if a listing
/// shows it.
proof fn lemma_candidates_push(
    dir: Seq<char>,
    children: Seq<ChildView>,
    child: ChildView,
    show_hidden: bool,
)
    ensures
        candidates(dir, children.push(child), show_hidden) == if is_listed(child, show_hidden) {
            candidates(dir, children, show_hidden).push(entry_of(dir, child))
        } else {
            candidates(dir, children, show_hidden)
        },
{
    reveal(Seq::filter);
    let more = children.push(child);
    assert(more.drop_last() =~= children);
    let keep = listed_under(show_hidden);
    assert(more.filter(keep) == if is_listed(child, show_hidden) {
        children.filter(keep).push(child)
    } else {
        children.filter(keep)
    });
    assert(candidates(dir, more, show_hidden) =~= if is_listed(child, show_hidden) {
        candidates(dir, children, show_hidden).push(entry_of(dir, child))
    } else {
        candidates(dir, children, show_hidden)
    });
}

/// What holds of every entry that a listing of `dir` shows.
pub open spec fn is_shown_entry(dir: Seq<char>, entry: EntryView, show_hidden: bool) -> bool {
    &&& entry.kind != EntryKind::Unreadable
    &&& is_segment(entry.name)
    &&& show_hidden || !is_hidden_name(entry.name)
    &&& entry.absolute_path == joined(dir, entry.name)
}

/// Every candidate stands for a child that a listing shows.
proof fn lemma_candidates_shown(dir: Seq<char>, children: Seq<ChildView>, show_hidden: bool)
    ensures
        forall|i: int|
            0 <= i < candidates(dir, children, show_hidden).len() ==> is_shown_entry(
                dir,
                #[trigger] candidates(dir, children, show_hidden)[i],
                show_hidden,
            ),
    decreases children.len(),
{
    if children.len() == 0 {
        reveal(Seq::filter);
    } else {
        let head = children.drop_last();
        lemma_candidates_shown(dir, head, show_hidden);
        lemma_candidates_push(dir, head, children.last(), show_hidden);
        assert(children =~= head.push(children.last()));
    }
}

/// Filtering a run with one more element at its end.
proof fn lemma_filter_push(entries: Seq<EntryView>, last: EntryView, keep: spec_fn(EntryView) -> bool)
    ensures
        entries.push(last).filter(keep) == if keep(last) {
            entries.filter(keep).push(last)
        } else {
            entries.filter(keep)
        },
{
    reveal(Seq::filter);
    assert(entries.push(last).drop_last() =~= entries);
}

/// What a filter keeps was in the run.
pub(crate) proof fn lemma_filter_subset(entries: Seq<EntryView>, keep: spec_fn(EntryView) -> bool)
    ensures
        forall|i: int|
            0 <= i < entries.filter(keep).len() ==> entries.contains(
                #[trigger] entries.filter(keep)[i],
            ),
    decreases entries.len(),
{
    reveal(Seq::filter);
    if entries.len() > 0 {
        let head = entries.drop_last();
        lemma_filter_subset(head, keep);
        assert forall|i: int| 0 <= i < entries.filter(keep).len() implies entries.contains(
            #[trigger] entries.filter(keep)[i],
        ) by {
            if i < head.filter(keep).len() {
                let e = head.filter(keep)[i];
                assert(head.contains(e));
                let k = choose|k: int| 0 <= k < head.len() && head[k] == e;
                assert(entries[k] == e);
            } else {
                assert(entries[entries.len() - 1] == entries.filter(keep)[i]);
            }
        }
    }
}

/// Putting an entry in, seen from the end of the run.
proof fn lemma_inserted_unfold(sorted: Seq<EntryView>, entry: EntryView)
    requires
        sorted.len() > 0,
    ensures
        inserted(sorted, entry) == if entry_le(sorted.last(), entry) {
            sorted.push(entry)
        } else {
            inserted(sorted.drop_last(), entry).push(sorted.last())
        },
{
    lemma_insertion_point(sorted.drop_last(), entry);
    if entry_le(sorted.last(), entry) {
        assert(inserted(sorted, entry) =~= sorted.push(entry));
    } else {
        assert(inserted(sorted, entry) =~= inserted(sorted.drop_last(), entry).push(
            sorted.last(),
        ));
    }
}

/// Filtering after putting an entry into a sorted run is putting it into the
/// filtered run, if the filter keeps it.
proof fn lemma_inserted_filter(
    sorted: Seq<EntryView>,
    entry: EntryView,
    keep: spec_fn(EntryView) -> bool,
)
    requires
        is_sorted(sorted),
    ensures
        inserted(sorted, entry).filter(keep) == if keep(entry) {
            inserted(sorted.filter(keep), entry)
        } else {
            sorted.filter(keep)
        },
    decreases sorted.len(),
{
    if sorted.len() == 0 {
        reveal(Seq::filter);
        assert(inserted(sorted, entry) =~= Seq::<EntryView>::empty().push(entry));
        lemma_filter_push(Seq::<EntryView>::empty(), entry, keep);
        assert(sorted.filter(keep) =~= Seq::<EntryView>::empty());
        assert(inserted(sorted.filter(keep), entry) =~= Seq::<EntryView>::empty().push(entry));
    } else {
        let head = sorted.drop_last();
        let last = sorted.last();
        assert(sorted =~= head.push(last));
        lemma_inserted_unfold(sorted, entry);
        lemma_filter_push(head, last, keep);
        let kept = sorted.filter(keep);
        if entry_le(last, entry) {
            lemma_filter_push(sorted, entry, keep);
            if keep(entry) {
                lemma_filter_subset(sorted, keep);
                assert forall|j: int| 0 <= j < kept.len() implies entry_le(kept[j], entry) by {
                    assert(sorted.contains(kept[j]));
                    let k = choose|k: int| 0 <= k < sorted.len() && sorted[k] == kept[j];
                    lemma_entry_le_transitive(sorted[k], last, entry);
                }
                if kept.len() > 0 {
                    lemma_insertion_point_is(kept, entry, kept.len() as int);
                }
                assert(inserted(kept, entry) =~= kept.push(entry));
            }
        } else {
            assert(is_sorted(head)) by {
                assert forall|i: int, j: int| 0 <= i <= j < head.len() implies entry_le(
                    head[i],
                    head[j],
                ) by {
                    assert(head[i] == sorted[i] && head[j] == sorted[j]);
                }
            }
            lemma_inserted_filter(head, entry, keep);
            lemma_filter_push(inserted(head, entry), last, keep);
            if keep(last) && keep(entry) {
                lemma_inserted_unfold(kept, entry);
                assert(kept.drop_last() =~= head.filter(keep));
            }
        }
    }
}

/// Filtering a stably sorted run is sorting the filtered run.
proof fn lemma_sort_filter(entries: Seq<EntryView>, keep: spec_fn(EntryView) -> bool)
    ensures
        sorted_stably(entries).filter(keep) == sorted_stably(entries.filter(keep)),
    decreases entries.len(),
{
    if entries.len() == 0 {
        reveal(Seq::filter);
    } else {
        let head = entries.drop_last();
        let last = entries.last();
        assert(entries =~= head.push(last));
        lemma_sort_filter(head, keep);
        lemma_sorted_stably(head);
        lemma_inserted_filter(sorted_stably(head), last, keep);
        lemma_filter_push(head, last, keep);
        if keep(last) {
            assert(head.filter(keep).push(last).drop_last() =~= head.filter(keep));
        }
    }
}

/// The candidates with hidden entries left out are the candidates with all
/// entries shown, less those with a hidden name.
proof fn lemma_candidates_hidden(dir: Seq<char>, children: Seq<ChildView>)
    ensures
        candidates(dir, children, false) == without_hidden(candidates(dir, children, true)),
    decreases children.len(),
{
    if children.len() == 0 {
        reveal(Seq::filter);
        assert(candidates(dir, children, false) =~= without_hidden(
            candidates(dir, children, true),
        ));
    } else {
        let head = children.drop_last();
        let last = children.last();
        assert(children =~= head.push(last));
        lemma_candidates_hidden(dir, head);
        lemma_candidates_push(dir, head, last, false);
        lemma_candidates_push(dir, head, last, true);
        if is_listed(last, true) {
            lemma_filter_push(candidates(dir, head, true), entry_of(dir, last), not_hidden());
        }
    }
}

/// With hidden entries left out, a listing holds no name that starts with a
/// dot, and it is the listing with all entries shown, less the entries with
/// such a name: the two show the common entries in the same order.
pub proof fn lemma_hidden_entries_left_out(dir: Seq<char>, read: Option<Seq<ChildView>>)
    ensures
        forall|i: int|
            0 <= i < listing(dir, read, false).len() ==> !is_hidden_name(
                #[trigger] listing(dir, read, false)[i].name,
            ),
        listing(dir, read, false) == without_hidden(listing(dir, read, true)),
        forall|i: int|
            0 <= i < listing(dir, read, false).len() ==> listing(dir, read, true).contains(
                #[trigger] listing(dir, read, false)[i],
            ),
{
    lemma_filter_subset(listing(dir, read, true), not_hidden());
    lemma_listing_shown(dir, read, false);
    match read {
        None => {
            reveal(Seq::filter);
            assert(listing(dir, read, false) =~= without_hidden(listing(dir, read, true)));
        },
        Some(children) => {
            lemma_candidates_hidden(dir, children);
            lemma_sort_filter(candidates(dir, children, true), not_hidden());
        },
    }
}

/// Every entry of a listing stands for a child that the listing shows: a
/// directory or a file, under a name that is a path segment, with the path
/// of that child of `dir`.
pub proof fn lemma_listing_shown(dir: Seq<char>, read: Option<Seq<ChildView>>, show_hidden: bool)
    ensures
        forall|i: int|
            0 <= i < listing(dir, read, show_hidden).len() ==> is_shown_entry(
                dir,
                #[trigger] listing(dir, read, show_hidden)[i],
                show_hidden,
            ),
{
    broadcast use vstd::seq_lib::group_to_multiset_ensures;

    if let Some(children) = read {
        let given = candidates(dir, children, show_hidden);
        let shown = listing(dir, read, show_hidden);
        lemma_candidates_shown(dir, children, show_hidden);
        lemma_sorted_stably(given);
        assert forall|i: int| 0 <= i < shown.len() implies is_shown_entry(
            dir,
            #[trigger] shown[i],
            show_hidden,
        ) by {
            assert(shown.contains(shown[i]));
            assert(shown.to_multiset().count(shown[i]) > 0);
            assert(given.contains(shown[i]));
            let k = choose|k: int| 0 <= k < given.len() && given[k] == shown[i];
            assert(is_shown_entry(dir, given[k], show_hidden));
        }
    }
}

/// In every listing each directory stands before each file, and the names
/// of each kind ascend.
pub proof fn lemma_listing_order(dir: Seq<char>, read: Option<Seq<ChildView>>, show_hidden: bool)
    ensures
        is_sorted(listing(dir, read, show_hidden)),
        forall|i: int, j: int|
            #![trigger listing(dir, read, show_hidden)[i], listing(dir, read, show_hidden)[j]]
            0 <= i < j < listing(dir, read, show_hidden).len() ==> {
                let first = listing(dir, read, show_hidden)[i];
                let second = listing(dir, read, show_hidden)[j];
                &&& first.kind == EntryKind::File ==> second.kind == EntryKind::File
                &&& second.kind == EntryKind::Directory ==> first.kind == EntryKind::Directory
                &&& first.kind == second.kind ==> name_le(first.name, second.name)
            },
{
    lemma_listing_shown(dir, read, show_hidden);
    if let Some(children) = read {
        lemma_sorted_stably(candidates(dir, children, show_hidden));
    }
    let shown = listing(dir, read, show_hidden);
    assert forall|i: int, j: int| 0 <= i < j < shown.len() implies {
        let first = #[trigger] shown[i];
        let second = #[trigger] shown[j];
        &&& first.kind == EntryKind::File ==> second.kind == EntryKind::File
        &&& second.kind == EntryKind::Directory ==> first.kind == EntryKind::Directory
        &&& first.kind == second.kind ==> name_le(first.name, second.name)
    } by {
        assert(entry_le(shown[i], shown[j]));
        assert(is_shown_entry(dir, shown[i], show_hidden));
        assert(is_shown_entry(dir, shown[j], show_hidden));
    }
}

/// No two children have the same name, as in every directory.
pub open spec fn has_distinct_names(children: Seq<ChildView>) -> bool {
    forall|i: int, j: int| 0 <= i < j < children.len() ==> children[i].name != children[j].name
}

/// What holds of every successful read: the directory holds no name twice.
pub open spec fn is_plain_read(read: Option<Seq<ChildView>>) -> bool {
    read matches Some(children) ==> has_distinct_names(children)
}

/// No two entries have the same path.
pub open spec fn has_distinct_paths(entries: Seq<EntryView>) -> bool {
    forall|i: int, j: int|
        0 <= i < j < entries.len() ==> entries[i].absolute_path != entries[j].absolute_path
}

/// The names of the candidates are names of the children, and none occurs
/// twice where none occurs twice among the children.
proof fn lemma_candidates_distinct(dir: Seq<char>, children: Seq<ChildView>, show_hidden: bool)
    requires
        has_distinct_names(children),
    ensures
        forall|i: int|
            0 <= i < candidates(dir, children, show_hidden).len() ==> exists|k: int|
                0 <= k < children.len() && (#[trigger] children[k]).name == (#[trigger] candidates(
                    dir,
                    children,
                    show_hidden,
                )[i]).name,
        forall|i: int, j: int|
            0 <= i < j < candidates(dir, children, show_hidden).len() ==> candidates(
                dir,
                children,
                show_hidden,
            )[i].name != candidates(dir, children, show_hidden)[j].name,
    decreases children.len(),
{
    let given = candidates(dir, children, show_hidden);
    if children.len() == 0 {
        reveal(Seq::filter);
    } else {
        let head = children.drop_last();
        let last = children.last();
        let before = candidates(dir, head, show_hidden);
        assert(children =~= head.push(last));
        assert(has_distinct_names(head)) by {
            assert forall|i: int, j: int| 0 <= i < j < head.len() implies head[i].name
                != head[j].name by {
                assert(head[i] == children[i] && head[j] == children[j]);
            }
        }
        lemma_candidates_distinct(dir, head, show_hidden);
        lemma_candidates_push(dir, head, last, show_hidden);
        assert forall|i: int| 0 <= i < given.len() implies exists|k: int|
            0 <= k < children.len() && (#[trigger] children[k]).name == (#[trigger] given[i]).name by {
            if i < before.len() {
                let k = choose|k: int|
                    0 <= k < head.len() && (#[trigger] head[k]).name == before[i].name;
                assert(children[k].name == given[i].name);
            } else {
                assert(children[children.len() - 1].name == given[i].name);
            }
        }
        assert forall|i: int, j: int| 0 <= i < j < given.len() implies given[i].name
            != given[j].name by {
            if j == before.len() {
                let k = choose|k: int|
                    0 <= k < head.len() && (#[trigger] head[k]).name == before[i].name;
                assert(children[k].name != children[children.len() - 1].name);
            }
        }
    }
}

/// A directory that holds no name twice is listed without a path twice.
pub proof fn lemma_listing_distinct_paths(
    dir: Seq<char>,
    read: Option<Seq<ChildView>>,
    show_hidden: bool,
)
    requires
        is_plain_read(read),
    ensures
        has_distinct_paths(listing(dir, read, show_hidden)),
{
    broadcast use vstd::seq_lib::group_to_multiset_ensures;

    if let Some(children) = read {
        let given = candidates(dir, children, show_hidden);
        let shown = listing(dir, read, show_hidden);
        lemma_candidates_distinct(dir, children, show_hidden);
        lemma_sorted_stably(given);
        lemma_listing_shown(dir, read, show_hidden);
        assert(given.no_duplicates());
        given.lemma_multiset_has_no_duplicates();
        shown.lemma_multiset_has_no_duplicates_conv();
        assert forall|i: int, j: int| 0 <= i < j < shown.len() implies shown[i].absolute_path
            != shown[j].absolute_path by {
            if shown[i].absolute_path == shown[j].absolute_path {
                assert(is_shown_entry(dir, shown[i], show_hidden));
                assert(is_shown_entry(dir, shown[j], show_hidden));
                lemma_joined_injective(dir, shown[i].name, shown[j].name);
                assert(shown[i] != shown[j]);
                assert(shown.contains(shown[i]) && shown.contains(shown[j]));
                assert(shown.to_multiset().count(shown[i]) > 0);
                assert(shown.to_multiset().count(shown[j]) > 0);
                assert(given.contains(shown[i]) && given.contains(shown[j]));
                let a = choose|a: int| 0 <= a < given.len() && given[a] == shown[i];
                let b = choose|b: int| 0 <= b < given.len() && given[b] == shown[j];
                if a < b {
                    assert(given[a].name != given[b].name);
                } else {
                    assert(given[b].name != given[a].name);
                }
            }
        }
    }
}

/// Whether a listing shows `child`.
fn shows(child: &ChildRecord, show_hidden: bool) -> (r: bool)
    ensures
        r == is_listed(child@, show_hidden),
{
    let examined = match child.kind {
        EntryKind::Unreadable => false,
        _ => true,
    };
    examined && is_valid_segment(child.name.as_str()) && (show_hidden || !is_hidden(
        child.name.as_str(),
    ))
}

/// Puts `entry` into `entries` behind the last entry that comes no later.
fn insert_entry(entries: &mut Vec<Entry>, entry: Entry)
    ensures
        entry_views(final(entries)@) == inserted(entry_views(old(entries)@), entry@),
{
    let ghost before = entry_views(entries@);
    let mut at = entries.len();
    while at > 0
        invariant
            at <= entries.len(),
            entry_views(entries@) == before,
            forall|j: int| at <= j < entries.len() ==> !entry_le(before[j], entry@),
        ensures
            at <= entries.len(),
            entry_views(entries@) == before,
            forall|j: int| at <= j < entries.len() ==> !entry_le(before[j], entry@),
            at > 0 ==> entry_le(before[at - 1], entry@),
        decreases at,
    {
        if entries[at - 1].precedes(&entry) {
            break;
        }
        at = at - 1;
    }
    proof {
        lemma_insertion_point_is(before, entry@, at as int);
    }
    entries.insert(at, entry);
    assert(entry_views(entries@) =~= before.insert(at as int, entry@));
}

/// The listing of the directory `dir` from what reading it reported.
///
/// A failed read gives an empty listing. Symbolic links and children that
/// could not be examined are left out, names that no child of a directory
/// can have, and names that start with a dot unless `show_hidden` is set.
/// Directories come before files, and within each kind the names ascend by
/// code point. The path of each entry is that of `dir` with the name
/// joined to it.
pub fn list(dir: &str, read: &DirectoryRead, show_hidden: bool) -> (entries: Vec<Entry>)
    ensures
        entry_views(entries@) == listing(dir@, read@, show_hidden),
        is_sorted(entry_views(entries@)),
        forall|i: int|
            0 <= i < entries@.len() ==> is_shown_entry(
                dir@,
                #[trigger] entry_views(entries@)[i],
                show_hidden,
            ),
        match read@ {
            Some(children) => entry_views(entries@).to_multiset() == candidates(
                dir@,
                children,
                show_hidden,
            ).to_multiset(),
            None => entries@.len() == 0,
        },
{
    let mut entries: Vec<Entry> = Vec::new();
    match read {
        DirectoryRead::Failed => {
            assert(entry_views(entries@) =~= listing(dir@, read@, show_hidden));
        },
        DirectoryRead::Children(children) => {
            let ghost all = child_views(children@);
            let mut i: usize = 0;
            proof {
                reveal(Seq::filter);
                assert(candidates(dir@, all.take(0), show_hidden) =~= Seq::<EntryView>::empty());
                assert(entry_views(entries@) =~= Seq::<EntryView>::empty());
            }
            while i < children.len()
                invariant
                    i <= children.len(),
                    all == child_views(children@),
                    entry_views(entries@) == sorted_stably(
                        candidates(dir@, all.take(i as int), show_hidden),
                    ),
                decreases children.len() - i,
            {
                let child = &children[i];
                proof {
                    assert(all.take(i + 1) =~= all.take(i as int).push(child@));
                    lemma_candidates_push(dir@, all.take(i as int), child@, show_hidden);
                    let given = candidates(dir@, all.take(i as int), show_hidden);
                    assert(given.push(entry_of(dir@, child@)).drop_last() =~= given);
                }
                if shows(child, show_hidden) {
                    let entry = Entry {
                        name: child.name.clone(),
                        absolute_path: join_path(dir, child.name.as_str()),
                        kind: child.kind,
                    };
                    insert_entry(&mut entries, entry);
                }
                i = i + 1;
            }
            proof {
                assert(all.take(i as int) =~= all);
                lemma_sorted_stably(candidates(dir@, all, show_hidden));
            }
        },
    }
    proof {
        lemma_listing_order(dir@, read@, show_hidden);
        lemma_listing_shown(dir@, read@, show_hidden);
    }
    entries
}

} // verus!
