//! One child of a directory, as a listing shows it, and the order of a listing.

use crate::text::{lemma_name_le_total, lemma_name_le_transitive, name_le, name_precedes};
use vstd::prelude::*;

verus! {

/// What an entry is, as found when its directory was read.
#[derive(Clone, Copy, Debug, PartialEq, Eq, Structural)]
pub enum EntryKind {
    Directory,
    File,
    /// A symbolic link, or a child whose metadata could not be read.
    Unreadable,
}

/// One filesystem child. An entry is never changed after it was made: a
/// directory that is read again gives new entries.
#[derive(Debug, PartialEq, Eq)]
pub struct Entry {
    /// The last segment of the path.
    pub name: String,
    /// The absolute path, by which an entry is found again after a refresh.
    pub absolute_path: String,
    pub kind: EntryKind,
}

/// An entry as plain values.
pub struct EntryView {
    pub name: Seq<char>,
    pub absolute_path: Seq<char>,
    pub kind: EntryKind,
}

impl View for Entry {
    type V = EntryView;

    open spec fn view(&self) -> EntryView {
        EntryView { name: self.name@, absolute_path: self.absolute_path@, kind: self.kind }
    }
}

impl Clone for Entry {
    fn clone(&self) -> (copy: Self)
        ensures
            copy == *self,
    {
        Entry {
            name: self.name.clone(),
            absolute_path: self.absolute_path.clone(),
            kind: self.kind,
        }
    }
}

/// The views of a run of entries, in the same order.
pub open spec fn entry_views(entries: Seq<Entry>) -> Seq<EntryView> {
    entries.map_values(|e: Entry| e@)
}

/// Directories come first, files second.
pub open spec fn kind_rank(kind: EntryKind) -> int {
    match kind {
        EntryKind::Directory => 0,
        EntryKind::File => 1,
        EntryKind::Unreadable => 2,
    }
}

/// The order of a listing: by kind, and within one kind by name.
pub open spec fn entry_le(a: EntryView, b: EntryView) -> bool {
    kind_rank(a.kind) < kind_rank(b.kind) || (a.kind == b.kind && name_le(a.name, b.name))
}

/// Of two entries, one comes no later than the other.
pub proof fn lemma_entry_le_total(a: EntryView, b: EntryView)
    ensures
        entry_le(a, b) || entry_le(b, a),
{
    lemma_name_le_total(a.name, b.name);
}

/// The order of a listing is transitive.
pub proof fn lemma_entry_le_transitive(a: EntryView, b: EntryView, c: EntryView)
    requires
        entry_le(a, b),
        entry_le(b, c),
    ensures
        entry_le(a, c),
{
    if a.kind == b.kind && b.kind == c.kind {
        lemma_name_le_transitive(a.name, b.name, c.name);
    }
}

impl Entry {
    /// An entry from its three parts.
    pub fn new(name: &str, absolute_path: &str, kind: EntryKind) -> (entry: Entry)
        ensures
            entry@ == (EntryView { name: name@, absolute_path: absolute_path@, kind }),
    {
        Entry { name: name.to_owned(), absolute_path: absolute_path.to_owned(), kind }
    }

    /// Whether the entry is a directory.
    pub fn is_directory(&self) -> (r: bool)
        ensures
            r == (self.kind == EntryKind::Directory),
    {
        match self.kind {
            EntryKind::Directory => true,
            _ => false,
        }
    }

    /// Whether this entry comes no later than `other` in a listing.
    pub fn precedes(&self, other: &Entry) -> (r: bool)
        ensures
            r == entry_le(self@, other@),
    {
        let mine = rank_of(self.kind);
        let theirs = rank_of(other.kind);
        if mine != theirs {
            mine < theirs
        } else {
            name_precedes(self.name.as_str(), other.name.as_str())
        }
    }
}

/// The rank of a kind as a machine integer.
fn rank_of(kind: EntryKind) -> (rank: u8)
    ensures
        rank == kind_rank(kind),
{
    match kind {
        EntryKind::Directory => 0,
        EntryKind::File => 1,
        EntryKind::Unreadable => 2,
    }
}

} // verus!
