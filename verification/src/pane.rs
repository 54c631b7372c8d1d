//! One column: an ordered run of entries and the cursor on it.

use crate::entry::{entry_views, Entry, EntryView};
use crate::text::same_text;
use vstd::prelude::*;

verus! {

/// A column as plain values.
pub struct PaneView {
    pub entries: Seq<EntryView>,
    /// The index of the selected entry, if one is selected.
    pub selected: Option<int>,
}

/// `index` is the first position of `entries` at which `wanted` holds.
pub open spec fn is_first_match(
    entries: Seq<EntryView>,
    wanted: spec_fn(EntryView) -> bool,
    index: int,
) -> bool {
    &&& 0 <= index < entries.len()
    &&& wanted(entries[index])
    &&& forall|j: int| 0 <= j < index ==> !wanted(entries[j])
}

/// The first position of `entries` at which `wanted` holds, if there is one.
pub open spec fn first_match(entries: Seq<EntryView>, wanted: spec_fn(EntryView) -> bool) -> Option<
    int,
> {
    if exists|i: int| is_first_match(entries, wanted, i) {
        Some(choose|i: int| is_first_match(entries, wanted, i))
    } else {
        None
    }
}

/// The predicate that holds of the entries with the path `path`.
pub open spec fn has_path(path: Seq<char>) -> spec_fn(EntryView) -> bool {
    |e: EntryView| e.absolute_path == path
}

/// A first match is the value of `first_match`.
pub proof fn lemma_first_match_is(
    entries: Seq<EntryView>,
    wanted: spec_fn(EntryView) -> bool,
    index: int,
)
    requires
        is_first_match(entries, wanted, index),
    ensures
        first_match(entries, wanted) == Some(index),
{
    let found = choose|i: int| is_first_match(entries, wanted, i);
    if found < index {
        assert(!wanted(entries[found]));
    } else if index < found {
        assert(!wanted(entries[index]));
    }
}

/// Where nothing matches, `first_match` finds nothing.
pub proof fn lemma_first_match_none(entries: Seq<EntryView>, wanted: spec_fn(EntryView) -> bool)
    requires
        forall|j: int| 0 <= j < entries.len() ==> !wanted(entries[j]),
    ensures
        first_match(entries, wanted) is None,
{
}

/// What `first_match` finds is a first match; where it finds nothing,
/// nothing matches.
pub proof fn lemma_first_match(entries: Seq<EntryView>, wanted: spec_fn(EntryView) -> bool)
    ensures
        match first_match(entries, wanted) {
            Some(i) => is_first_match(entries, wanted, i),
            None => forall|j: int| 0 <= j < entries.len() ==> !wanted(entries[j]),
        },
{
    if first_match(entries, wanted) is None {
        assert forall|j: int| 0 <= j < entries.len() implies !wanted(entries[j]) by {
            if wanted(entries[j]) {
                lemma_least_match(entries, wanted, j);
            }
        }
    }
}

/// Where something matches at or before `bound`, there is a first match.
proof fn lemma_least_match(entries: Seq<EntryView>, wanted: spec_fn(EntryView) -> bool, bound: int)
    requires
        0 <= bound < entries.len(),
        wanted(entries[bound]),
    ensures
        exists|i: int| is_first_match(entries, wanted, i),
    decreases bound,
{
    if forall|j: int| 0 <= j < bound ==> !wanted(entries[j]) {
        assert(is_first_match(entries, wanted, bound));
    } else {
        let j = choose|j: int| 0 <= j < bound && wanted(entries[j]);
        lemma_least_match(entries, wanted, j);
    }
}

impl PaneView {
    /// The cursor, if there is one, stands on an entry.
    pub open spec fn well_formed(self) -> bool {
        self.selected matches Some(i) ==> 0 <= i < self.entries.len()
    }

    /// The column without entries.
    pub open spec fn empty() -> PaneView {
        PaneView { entries: Seq::empty(), selected: None }
    }

    /// The column that shows `entries`, with nothing selected.
    pub open spec fn showing(entries: Seq<EntryView>) -> PaneView {
        PaneView { entries, selected: None }
    }

    /// The selected entry.
    pub open spec fn selected_entry(self) -> Option<EntryView> {
        match self.selected {
            Some(i) => Some(self.entries[i]),
            None => None,
        }
    }

    /// The path of the selected entry.
    pub open spec fn selected_path(self) -> Option<Seq<char>> {
        match self.selected {
            Some(i) => Some(self.entries[i].absolute_path),
            None => None,
        }
    }

    /// The column with the cursor on `index`; unchanged where `index` is
    /// no position of it.
    pub open spec fn with_index(self, index: int) -> PaneView {
        if 0 <= index < self.entries.len() {
            PaneView { selected: Some(index), ..self }
        } else {
            self
        }
    }

    /// The column with the cursor on the first entry that `wanted` holds of;
    /// unchanged where it holds of none.
    pub open spec fn with_match(self, wanted: spec_fn(EntryView) -> bool) -> PaneView {
        match first_match(self.entries, wanted) {
            Some(i) => PaneView { selected: Some(i), ..self },
            None => self,
        }
    }

    /// The column with the cursor moved by `delta` and held inside the
    /// column. Without a cursor the move starts from the first entry; an
    /// empty column stays as it is.
    pub open spec fn moved(self, delta: int) -> PaneView {
        if self.entries.len() == 0 {
            self
        } else {
            let from = match self.selected {
                Some(i) => i,
                None => 0,
            };
            let to = from + delta;
            let held = if to < 0 {
                0
            } else if to >= self.entries.len() {
                self.entries.len() - 1
            } else {
                to
            };
            PaneView { selected: Some(held), ..self }
        }
    }
}

/// One of the three columns.
pub struct Pane {
    entries: Vec<Entry>,
    selected_index: Option<usize>,
}

impl View for Pane {
    type V = PaneView;

    closed spec fn view(&self) -> PaneView {
        PaneView {
            entries: entry_views(self.entries@),
            selected: match self.selected_index {
                Some(i) => Some(i as int),
                None => None,
            },
        }
    }
}

impl Pane {
    /// The cursor of a column always stands on one of its entries.
    #[verifier::type_invariant]
    pub closed spec fn valid(&self) -> bool {
        self@.well_formed()
    }

    /// The entries of the column as they are held.
    pub closed spec fn items(&self) -> Seq<Entry> {
        self.entries@
    }

    /// A column without entries.
    pub fn new() -> (pane: Pane)
        ensures
            pane@ == PaneView::empty(),
    {
        let pane = Pane { entries: Vec::new(), selected_index: None };
        assert(pane@.entries =~= Seq::<EntryView>::empty());
        pane
    }

    /// A column that shows `entries`, with nothing selected.
    pub fn showing(entries: Vec<Entry>) -> (pane: Pane)
        ensures
            pane@ == PaneView::showing(entry_views(entries@)),
            pane.items() == entries@,
    {
        Pane { entries, selected_index: None }
    }

    /// The entries in the order shown.
    pub fn entries(&self) -> (entries: &Vec<Entry>)
        ensures
            entries@ == self.items(),
            entry_views(entries@) == self@.entries,
    {
        &self.entries
    }

    /// The number of entries.
    pub fn len(&self) -> (n: usize)
        ensures
            n == self@.entries.len(),
    {
        self.entries.len()
    }

    /// Whether the column shows nothing.
    pub fn is_empty(&self) -> (r: bool)
        ensures
            r == (self@.entries.len() == 0),
    {
        self.entries.len() == 0
    }

    /// The position of the cursor.
    pub fn selected_index(&self) -> (index: Option<usize>)
        ensures
            self@.well_formed(),
            match index {
                Some(i) => self@.selected == Some(i as int),
                None => self@.selected is None,
            },
    {
        proof {
            use_type_invariant(self);
        }
        self.selected_index
    }

    /// The entry under the cursor.
    pub fn selected_entry(&self) -> (entry: Option<&Entry>)
        ensures
            self@.well_formed(),
            match entry {
                Some(e) => {
                    &&& self@.selected_entry() == Some(e@)
                    &&& self@.selected matches Some(i)
                    &&& self.items()[i] == *e
                },
                None => self@.selected is None,
            },
    {
        proof {
            use_type_invariant(self);
        }
        match self.selected_index {
            Some(i) => Some(&self.entries[i]),
            None => None,
        }
    }

    /// Shows nothing.
    pub fn clear(&mut self)
        ensures
            final(self)@ == PaneView::empty(),
    {
        self.selected_index = None;
        self.entries = Vec::new();
        assert(self@.entries =~= Seq::<EntryView>::empty());
    }

    /// Replaces the entries and takes the cursor away.
    pub fn set_entries(&mut self, new_entries: Vec<Entry>)
        ensures
            final(self)@ == PaneView::showing(entry_views(new_entries@)),
            final(self).items() == new_entries@,
    {
        self.selected_index = None;
        self.entries = new_entries;
    }

    /// Puts the cursor on `index`; does nothing where the column has no
    /// such position.
    pub fn select_index(&mut self, index: usize)
        ensures
            final(self)@ == old(self)@.with_index(index as int),
            final(self).items() == old(self).items(),
        no_unwind
    {
        if index < self.entries.len() {
            self.selected_index = Some(index);
        }
    }

    /// Puts the cursor on the first entry for which `predicate` returns
    /// true, and says whether there was one. Where there is none the cursor
    /// stays.
    pub fn select_matching<F: Fn(&Entry) -> bool>(&mut self, predicate: F) -> (found: bool)
        requires
            forall|i: int|
                0 <= i < old(self).items().len() ==> predicate.requires((&old(self).items()[i],)),
        ensures
            final(self).items() == old(self).items(),
            final(self)@.entries == old(self)@.entries,
            found ==> ({
                &&& final(self)@.selected matches Some(i)
                &&& 0 <= i < old(self).items().len()
                &&& predicate.ensures((&old(self).items()[i],), true)
                &&& forall|j: int|
                    0 <= j < i ==> predicate.ensures((&old(self).items()[j],), false)
            }),
            !found ==> ({
                &&& final(self)@ == old(self)@
                &&& forall|j: int|
                    0 <= j < old(self).items().len() ==> predicate.ensures(
                        (&old(self).items()[j],),
                        false,
                    )
            }),
    {
        let mut i: usize = 0;
        while i < self.entries.len()
            invariant
                i <= self.entries.len(),
                *self == *old(self),
                self.items() == self.entries@,
                forall|k: int|
                    0 <= k < self.items().len() ==> predicate.requires((&self.items()[k],)),
                forall|j: int| 0 <= j < i ==> predicate.ensures((&self.items()[j],), false),
            decreases self.entries.len() - i,
        {
            if predicate(&self.entries[i]) {
                self.selected_index = Some(i);
                return true;
            }
            i = i + 1;
        }
        false
    }

    /// Puts the cursor on the first entry with the path `path`, and says
    /// whether there was one. Where there is none the cursor stays.
    pub fn select_path(&mut self, path: &str) -> (found: bool)
        ensures
            final(self)@ == old(self)@.with_match(has_path(path@)),
            final(self).items() == old(self).items(),
            found == (first_match(old(self)@.entries, has_path(path@)) is Some),
    {
        let mut i: usize = 0;
        while i < self.entries.len()
            invariant
                i <= self.entries.len(),
                *self == *old(self),
                forall|j: int| 0 <= j < i ==> !has_path(path@)(self@.entries[j]),
            decreases self.entries.len() - i,
        {
            if same_text(self.entries[i].absolute_path.as_str(), path) {
                proof {
                    assert(is_first_match(self@.entries, has_path(path@), i as int));
                    lemma_first_match_is(self@.entries, has_path(path@), i as int);
                }
                self.selected_index = Some(i);
                return true;
            }
            i = i + 1;
        }
        proof {
            lemma_first_match_none(self@.entries, has_path(path@));
        }
        false
    }

    /// Moves the cursor by `delta` entries, down for a positive number, and
    /// holds it inside the column.
    pub fn move_selection(&mut self, delta: i64)
        ensures
            final(self)@ == old(self)@.moved(delta as int),
            final(self).items() == old(self).items(),
        no_unwind
    {
        proof {
            use_type_invariant(&*self);
        }
        let count = self.entries.len();
        if count == 0 {
            return ;
        }
        let from: usize = match self.selected_index {
            Some(i) => i,
            None => 0,
        };
        let to: usize = if delta >= 0 {
            let room = count - 1 - from;
            if (delta as u64) as u128 >= room as u128 {
                count - 1
            } else {
                from + (delta as usize)
            }
        } else {
            let back: u64 = if delta == i64::MIN {
                0x8000_0000_0000_0000u64
            } else {
                (-delta) as u64
            };
            if back as u128 >= from as u128 {
                0
            } else {
                from - (back as usize)
            }
        };
        self.selected_index = Some(to);
    }

    /// Puts the cursor on the first entry, if there is one.
    pub fn select_first(&mut self)
        ensures
            final(self)@ == old(self)@.with_index(0),
            final(self).items() == old(self).items(),
        no_unwind
    {
        self.select_index(0);
    }

    /// Puts the cursor on the last entry, if there is one.
    pub fn select_last(&mut self)
        ensures
            final(self)@ == old(self)@.with_index(old(self)@.entries.len() - 1),
            final(self).items() == old(self).items(),
        no_unwind
    {
        let count = self.entries.len();
        if count > 0 {
            self.select_index(count - 1);
        }
    }
}

} // verus!
