//! Finding an entry of a column by typing part of its name.

use crate::entry::EntryView;
use crate::pane::{
    first_match, is_first_match, lemma_first_match_is, lemma_first_match_none, Pane, PaneView,
};
use crate::text::{
    begins_ignoring_case, equals_ignoring_case, same_ignoring_case, starts_with_ignoring_case,
};
use vstd::prelude::*;

verus! {

/// The predicate that holds of the entries named `query`, the case of ASCII
/// letters aside.
pub open spec fn named(query: Seq<char>) -> spec_fn(EntryView) -> bool {
    |e: EntryView| same_ignoring_case(e.name, query)
}

/// The predicate that holds of the entries whose name begins with `query`,
/// the case of ASCII letters aside.
pub open spec fn named_from(query: Seq<char>) -> spec_fn(EntryView) -> bool {
    |e: EntryView| begins_ignoring_case(e.name, query)
}

/// The entry that a search for `query` finds: the first whose name is the
/// query, or else the first whose name begins with it.
pub open spec fn search_hit(entries: Seq<EntryView>, query: Seq<char>) -> Option<int> {
    match first_match(entries, named(query)) {
        Some(i) => Some(i),
        None => first_match(entries, named_from(query)),
    }
}

/// The column after a search for `query`: the cursor on the hit, or where
/// it was if nothing matches. No entry leaves the column.
pub open spec fn searched(pane: PaneView, query: Seq<char>) -> PaneView {
    match search_hit(pane.entries, query) {
        Some(i) => PaneView { selected: Some(i), ..pane },
        None => pane,
    }
}

/// Where a search for `query` in `pane` puts the cursor, if anywhere.
pub fn find(pane: &Pane, query: &str) -> (hit: Option<usize>)
    ensures
        match hit {
            Some(i) => search_hit(pane@.entries, query@) == Some(i as int),
            None => search_hit(pane@.entries, query@) is None,
        },
{
    let entries = pane.entries();
    let ghost views = pane@.entries;
    let mut begins: Option<usize> = None;
    let mut i: usize = 0;
    while i < entries.len()
        invariant
            i <= entries.len(),
            views == pane@.entries,
            entries@.len() == views.len(),
            forall|k: int| 0 <= k < entries@.len() ==> (#[trigger] entries@[k])@ == views[k],
            forall|j: int| 0 <= j < i ==> !named(query@)(views[j]),
            match begins {
                Some(b) => b < i && is_first_match(views, named_from(query@), b as int),
                None => forall|j: int| 0 <= j < i ==> !named_from(query@)(views[j]),
            },
        decreases entries.len() - i,
    {
        let name = entries[i].name.as_str();
        assert(entries@[i as int]@ == views[i as int]);
        if equals_ignoring_case(name, query) {
            proof {
                assert(is_first_match(views, named(query@), i as int));
                lemma_first_match_is(views, named(query@), i as int);
            }
            return Some(i);
        }
        if begins.is_none() && starts_with_ignoring_case(name, query) {
            begins = Some(i);
        }
        i = i + 1;
    }
    proof {
        lemma_first_match_none(views, named(query@));
        match begins {
            Some(b) => {
                lemma_first_match_is(views, named_from(query@), b as int);
            },
            None => {
                lemma_first_match_none(views, named_from(query@));
            },
        }
    }
    begins
}

/// Moves the cursor of `pane` to the entry that `query` finds, and says
/// whether it found one.
pub fn search(pane: &mut Pane, query: &str) -> (found: bool)
    ensures
        final(pane)@ == searched(old(pane)@, query@),
        final(pane).items() == old(pane).items(),
        found == (search_hit(old(pane)@.entries, query@) is Some),
{
    match find(pane, query) {
        Some(i) => {
            pane.select_index(i);
            true
        },
        None => false,
    }
}

} // verus!
