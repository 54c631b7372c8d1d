//! What holds of journeys through the tree: there and back again, and
//! hidden entries switched on and off again.

use crate::browser::{column, reselected, BrowserView, ReadView};
use crate::entry::EntryView;
use crate::lister::{
    is_plain_read, is_shown_entry, lemma_filter_subset, lemma_hidden_entries_left_out,
    lemma_listing_distinct_paths, lemma_listing_shown, listing, not_hidden, without_hidden,
};
use crate::pane::{has_path, lemma_first_match, PaneView};
use crate::path::{lemma_joined_injective, lemma_parent_of_joined, parent};
use crate::text::is_hidden_name;
use vstd::prelude::*;

verus! {

/// How the cursor of a column stands after hidden entries were switched
/// twice, `before` being the column at the outset and `show_hidden` the
/// setting then. A cursor on an entry that was hidden in between is gone.
/// Any other cursor stands where it stood.
pub open spec fn cursor_after_two_switches(
    before: PaneView,
    after: PaneView,
    show_hidden: bool,
) -> bool {
    match before.selected_entry() {
        None => after.selected is None,
        Some(entry) => if show_hidden && is_hidden_name(entry.name) {
            after.selected is None
        } else {
            after.selected == before.selected
        },
    }
}

/// Entering the selected directory and going back to the parent restores
/// the working directory, and puts the cursor back on the entry that was
/// entered, provided that the directory that was left still lists that
/// entry. Where it reads as it did before, the whole second column is as
/// it was.
pub proof fn lemma_enter_then_parent(
    s: BrowserView,
    child_read: ReadView,
    parent_read: ReadView,
    current_read: ReadView,
    previous_read: ReadView,
)
    requires
        s.well_formed(),
        s.can_enter(child_read),
        is_plain_read(current_read),
        listing(s.working_directory, current_read, s.show_hidden).contains(
            s.current.selected_entry()->0,
        ),
    ensures
        ({
            let back = s.entered(child_read, parent_read).ascended(current_read, previous_read);
            &&& back.working_directory == s.working_directory
            &&& back.show_hidden == s.show_hidden
            &&& back.mode == s.mode
            &&& back.current.entries == listing(s.working_directory, current_read, s.show_hidden)
            &&& back.current.selected_entry() == s.current.selected_entry()
            &&& back.current.entries == s.current.entries ==> back.current == s.current
        }),
{
    let left = s.current.selected_entry()->0;
    let shown = listing(s.working_directory, current_read, s.show_hidden);
    lemma_listing_distinct_paths(s.working_directory, current_read, s.show_hidden);
    assert(is_shown_entry(s.working_directory, left, s.show_hidden));
    lemma_parent_of_joined(s.working_directory, left.name);
    let at = choose|m: int| 0 <= m < shown.len() && shown[m] == left;
    assert(has_path(left.absolute_path)(shown[at]));
    lemma_first_match(shown, has_path(left.absolute_path));
}

/// One column through two switches of the hidden entries.
proof fn lemma_column_switched_twice(
    dir: Seq<char>,
    read: ReadView,
    show_hidden: bool,
    before: PaneView,
)
    requires
        before.well_formed(),
        is_plain_read(read),
        before.entries == listing(dir, read, show_hidden),
    ensures
        ({
            let between = reselected(column(dir, read, !show_hidden), before);
            let after = reselected(column(dir, read, show_hidden), between);
            &&& after.entries == before.entries
            &&& cursor_after_two_switches(before, after, show_hidden)
        }),
{
    let shown = listing(dir, read, show_hidden);
    let other = listing(dir, read, !show_hidden);
    let between = reselected(column(dir, read, !show_hidden), before);
    let after = reselected(column(dir, read, show_hidden), between);
    lemma_hidden_entries_left_out(dir, read);
    lemma_listing_distinct_paths(dir, read, show_hidden);
    lemma_listing_shown(dir, read, show_hidden);
    lemma_listing_shown(dir, read, !show_hidden);
    if let Some(k) = before.selected {
        let entry = shown[k];
        let wanted = has_path(entry.absolute_path);
        lemma_first_match(other, wanted);
        lemma_first_match(shown, wanted);
        assert(wanted(shown[k]));
        if show_hidden && is_hidden_name(entry.name) {
            assert forall|j: int| 0 <= j < other.len() implies !wanted(other[j]) by {
                if wanted(other[j]) {
                    assert(is_shown_entry(dir, other[j], false));
                    assert(is_shown_entry(dir, shown[k], true));
                    lemma_joined_injective(dir, other[j].name, entry.name);
                }
            }
        } else {
            if show_hidden {
                assert(not_hidden()(shown[k]));
                shown.lemma_filter_contains(not_hidden(), k);
                assert(other == without_hidden(shown));
            } else {
                lemma_filter_subset(other, not_hidden());
                assert(shown == without_hidden(other));
            }
            assert(other.contains(entry));
            let m = choose|m: int| 0 <= m < other.len() && other[m] == entry;
            assert(wanted(other[m]));
        }
    }
}

/// Switching hidden entries twice, with the three directories reading as
/// they did when the columns were filled, brings back the entries of all
/// three columns; the cursors of the first two stand as
/// `cursor_after_two_switches` says.
pub proof fn lemma_toggle_twice(
    s: BrowserView,
    previous_read: ReadView,
    current_read: ReadView,
    next_read: ReadView,
)
    requires
        s.well_formed(),
        is_plain_read(previous_read),
        is_plain_read(current_read),
        s.current.entries == listing(s.working_directory, current_read, s.show_hidden),
        parent(s.working_directory) matches Some(up) ==> s.previous.entries == listing(
            up,
            previous_read,
            s.show_hidden,
        ),
        s.next_directory matches Some(dir) ==> s.next.entries == listing(
            dir,
            next_read,
            s.show_hidden,
        ),
    ensures
        ({
            let once = s.toggled(previous_read, current_read, next_read);
            let twice = once.toggled(previous_read, current_read, next_read);
            &&& once.show_hidden != s.show_hidden
            &&& twice.show_hidden == s.show_hidden
            &&& twice.working_directory == s.working_directory
            &&& twice.mode == s.mode
            &&& twice.next_directory == s.next_directory
            &&& twice.previous.entries == s.previous.entries
            &&& twice.current.entries == s.current.entries
            &&& twice.next == s.next
            &&& cursor_after_two_switches(s.previous, twice.previous, s.show_hidden)
            &&& cursor_after_two_switches(s.current, twice.current, s.show_hidden)
        }),
{
    lemma_column_switched_twice(s.working_directory, current_read, s.show_hidden, s.current);
    if let Some(up) = parent(s.working_directory) {
        lemma_column_switched_twice(up, previous_read, s.show_hidden, s.previous);
    }
    if s.next_directory is None {
        assert(s.next.entries =~= Seq::<EntryView>::empty());
    }
}

} // verus!
