//! The working directory and the three columns, and how they move together.

use crate::entry::{EntryKind, EntryView};
use crate::lister::{
    is_shown_entry, lemma_listing_shown, list, listing, ChildView, DirectoryRead,
};
use crate::mode::{command_for, next_mode, transition, Command, Key, ModeState};
use crate::pane::{has_path, lemma_first_match, Pane, PaneView};
use crate::path::{
    is_absolute, is_absolute_path, is_root, lemma_parent_is_absolute, lemma_parent_of_joined,
    parent, parent_path,
};
use crate::preview::{preview_for, preview_request, PreviewRequest, PreviewRequestView};
use crate::search::{find, searched};
use vstd::prelude::*;

verus! {

/// Why a browser could not be set up.
#[derive(Clone, Copy, Debug, PartialEq, Eq, Structural)]
pub enum NavigationError {
    /// The start directory is no well-formed absolute path.
    InvalidWorkingDirectory,
}

/// What a directory read reported, as plain values.
pub type ReadView = Option<Seq<ChildView>>;

/// Every entry is a child of `dir` that a listing shows.
pub open spec fn shows_directory(
    entries: Seq<EntryView>,
    dir: Seq<char>,
    show_hidden: bool,
) -> bool {
    forall|i: int| 0 <= i < entries.len() ==> is_shown_entry(dir, #[trigger] entries[i], show_hidden)
}

/// The column that lists `dir` after `read`, with nothing selected.
pub open spec fn column(dir: Seq<char>, read: ReadView, show_hidden: bool) -> PaneView {
    PaneView::showing(listing(dir, read, show_hidden))
}

/// The first column for the working directory `dir`: the listing of its
/// parent after `read`, with the cursor on `dir` where it is listed. The
/// root has no parent, and its first column is empty.
pub open spec fn parent_column(dir: Seq<char>, read: ReadView, show_hidden: bool) -> PaneView {
    match parent(dir) {
        Some(up) => column(up, read, show_hidden).with_match(has_path(dir)),
        None => PaneView::empty(),
    }
}

/// `fresh` with the cursor on the path that was selected in `before`, and
/// without a cursor where that path is not listed any more.
pub open spec fn reselected(fresh: PaneView, before: PaneView) -> PaneView {
    match before.selected_path() {
        Some(path) => fresh.with_match(has_path(path)),
        None => fresh,
    }
}

/// What is shown for `selected` once its directory was read: a directory
/// that could not be read shows nothing.
pub open spec fn preview_after(selected: Option<EntryView>, read: ReadView) -> PreviewRequestView {
    match preview_for(selected) {
        PreviewRequestView::ListDirectory(path) => if read is Some {
            PreviewRequestView::ListDirectory(path)
        } else {
            PreviewRequestView::Nothing
        },
        other => other,
    }
}

/// A position of a column as a mathematical integer.
pub open spec fn index_view(index: Option<usize>) -> Option<int> {
    match index {
        Some(i) => Some(i as int),
        None => None,
    }
}

/// The browser as plain values.
pub struct BrowserView {
    pub working_directory: Seq<char>,
    /// The listing of the parent of the working directory.
    pub previous: PaneView,
    /// The listing of the working directory.
    pub current: PaneView,
    /// The listing of `next_directory`.
    pub next: PaneView,
    /// The directory that the third column lists, if it lists one.
    pub next_directory: Option<Seq<char>>,
    pub show_hidden: bool,
    pub mode: ModeState,
}

impl BrowserView {
    /// The working directory is a well-formed absolute path, each cursor
    /// stands on an entry, and each column holds children of its directory.
    pub open spec fn well_formed(self) -> bool {
        &&& is_absolute(self.working_directory)
        &&& self.previous.well_formed()
        &&& self.current.well_formed()
        &&& self.next.well_formed()
        &&& shows_directory(self.current.entries, self.working_directory, self.show_hidden)
        &&& match parent(self.working_directory) {
            Some(up) => shows_directory(self.previous.entries, up, self.show_hidden),
            None => self.previous == PaneView::empty(),
        }
        &&& match self.next_directory {
            Some(dir) => shows_directory(self.next.entries, dir, self.show_hidden),
            None => self.next.entries.len() == 0,
        }
        &&& self.next.selected is None
    }

    /// The browser at its start in `dir`: hidden entries left out, normal
    /// mode, the cursor on the first entry, the third column still empty.
    pub open spec fn started(dir: Seq<char>, current_read: ReadView, previous_read: ReadView)
        -> BrowserView {
        BrowserView {
            working_directory: dir,
            previous: parent_column(dir, previous_read, false),
            current: column(dir, current_read, false).with_index(0),
            next: PaneView::empty(),
            next_directory: None,
            show_hidden: false,
            mode: ModeState::Normal,
        }
    }

    /// The browser with `current` as its second column. Where the cursor is
    /// not where it was, the third column is emptied until the preview of
    /// the new selection is supplied.
    pub open spec fn with_current(self, current: PaneView) -> BrowserView {
        if current.selected == self.current.selected {
            BrowserView { current, ..self }
        } else {
            BrowserView { current, next: PaneView::empty(), next_directory: None, ..self }
        }
    }

    /// Whether the selected entry can be entered: it is a directory, and
    /// reading it succeeded.
    pub open spec fn can_enter(self, child_read: ReadView) -> bool {
        &&& self.current.selected_entry() matches Some(entry)
        &&& entry.kind == EntryKind::Directory
        &&& child_read is Some
    }

    /// The browser after entering the selected directory, `child_read`
    /// being what reading that directory reported and `parent_read` what
    /// reading the directory that is left reported. Unchanged where the
    /// selected entry cannot be entered.
    pub open spec fn entered(self, child_read: ReadView, parent_read: ReadView) -> BrowserView {
        if self.can_enter(child_read) {
            let target = self.current.selected_entry()->0.absolute_path;
            BrowserView {
                working_directory: target,
                previous: parent_column(target, parent_read, self.show_hidden),
                current: column(target, child_read, self.show_hidden).with_index(0),
                next: PaneView::empty(),
                next_directory: None,
                ..self
            }
        } else {
            self
        }
    }

    /// The browser after going to the parent directory, `current_read`
    /// being what reading the parent reported and `previous_read` what
    /// reading the parent's parent reported. The cursor lands on the
    /// directory that was left, or nowhere if that is not listed.
    /// Unchanged at the root.
    pub open spec fn ascended(self, current_read: ReadView, previous_read: ReadView)
        -> BrowserView {
        match parent(self.working_directory) {
            Some(up) => BrowserView {
                working_directory: up,
                previous: parent_column(up, previous_read, self.show_hidden),
                current: column(up, current_read, self.show_hidden).with_match(
                    has_path(self.working_directory),
                ),
                next: PaneView::empty(),
                next_directory: None,
                ..self
            },
            None => self,
        }
    }

    /// The browser after hidden entries were switched on or off: every
    /// column lists its directory again from what reading it reported now,
    /// and the first two columns keep their cursor on the path it stood on,
    /// or lose it where that path is not listed any more.
    pub open spec fn toggled(
        self,
        previous_read: ReadView,
        current_read: ReadView,
        next_read: ReadView,
    ) -> BrowserView {
        let show_hidden = !self.show_hidden;
        BrowserView {
            previous: match parent(self.working_directory) {
                Some(up) => reselected(column(up, previous_read, show_hidden), self.previous),
                None => PaneView::empty(),
            },
            current: reselected(
                column(self.working_directory, current_read, show_hidden),
                self.current,
            ),
            next: match self.next_directory {
                Some(dir) => column(dir, next_read, show_hidden),
                None => PaneView::empty(),
            },
            show_hidden,
            ..self
        }
    }

    /// The browser with the third column filled for the selected entry:
    /// with its listing where it is a directory that could be read, and
    /// with nothing otherwise.
    pub open spec fn previewed(self, read: ReadView) -> BrowserView {
        match preview_after(self.current.selected_entry(), read) {
            PreviewRequestView::ListDirectory(path) => BrowserView {
                next: column(path, read, self.show_hidden),
                next_directory: Some(path),
                ..self
            },
            _ => BrowserView { next: PaneView::empty(), next_directory: None, ..self },
        }
    }

    /// The browser after `key`: the mode follows the key, and a key that
    /// moves the cursor moves it in the second column.
    pub open spec fn pressed(self, key: Key) -> BrowserView {
        let turned = BrowserView { mode: next_mode(self.mode, key), ..self };
        match command_for(self.mode, key) {
            Command::MoveDown => turned.with_current(self.current.moved(1)),
            Command::MoveUp => turned.with_current(self.current.moved(-1)),
            Command::SelectFirst => turned.with_current(self.current.with_index(0)),
            Command::SelectLast => turned.with_current(
                self.current.with_index(self.current.entries.len() - 1),
            ),
            _ => turned,
        }
    }

    /// The directory that the browser hands to its caller at the end: the
    /// selected entry if it is a directory, else the working directory.
    pub open spec fn chosen_directory(self) -> Seq<char> {
        match self.current.selected_entry() {
            Some(entry) => if entry.kind == EntryKind::Directory {
                entry.absolute_path
            } else {
                self.working_directory
            },
            None => self.working_directory,
        }
    }
}

/// A column that lists a directory holds children of it, and nothing is
/// selected in it.
pub proof fn lemma_column(dir: Seq<char>, read: ReadView, show_hidden: bool)
    ensures
        column(dir, read, show_hidden).well_formed(),
        shows_directory(column(dir, read, show_hidden).entries, dir, show_hidden),
{
    lemma_listing_shown(dir, read, show_hidden);
}

/// Moving the cursor to a match keeps the entries and leaves the cursor on
/// one of them.
pub proof fn lemma_with_match(pane: PaneView, wanted: spec_fn(EntryView) -> bool)
    requires
        pane.well_formed(),
    ensures
        pane.with_match(wanted).well_formed(),
        pane.with_match(wanted).entries == pane.entries,
{
    lemma_first_match(pane.entries, wanted);
}

/// The first column of a well-formed directory is well-formed.
pub proof fn lemma_parent_column(dir: Seq<char>, read: ReadView, show_hidden: bool)
    ensures
        parent_column(dir, read, show_hidden).well_formed(),
        match parent(dir) {
            Some(up) => shows_directory(parent_column(dir, read, show_hidden).entries, up, show_hidden),
            None => parent_column(dir, read, show_hidden) == PaneView::empty(),
        },
{
    if let Some(up) = parent(dir) {
        lemma_column(up, read, show_hidden);
        lemma_with_match(column(up, read, show_hidden), has_path(dir));
    }
}

/// A browser starts well-formed in every well-formed directory.
pub proof fn lemma_started_well_formed(
    dir: Seq<char>,
    current_read: ReadView,
    previous_read: ReadView,
)
    requires
        is_absolute(dir),
    ensures
        BrowserView::started(dir, current_read, previous_read).well_formed(),
{
    lemma_column(dir, current_read, false);
    lemma_parent_column(dir, previous_read, false);
}

/// Entering a directory keeps the browser well-formed.
pub proof fn lemma_entered_well_formed(s: BrowserView, child_read: ReadView, parent_read: ReadView)
    requires
        s.well_formed(),
    ensures
        s.entered(child_read, parent_read).well_formed(),
{
    if s.can_enter(child_read) {
        let entry = s.current.selected_entry()->0;
        assert(is_shown_entry(s.working_directory, entry, s.show_hidden));
        lemma_parent_of_joined(s.working_directory, entry.name);
        lemma_column(entry.absolute_path, child_read, s.show_hidden);
        lemma_parent_column(entry.absolute_path, parent_read, s.show_hidden);
    }
}

/// Going to the parent keeps the browser well-formed.
pub proof fn lemma_ascended_well_formed(
    s: BrowserView,
    current_read: ReadView,
    previous_read: ReadView,
)
    requires
        s.well_formed(),
    ensures
        s.ascended(current_read, previous_read).well_formed(),
{
    lemma_parent_is_absolute(s.working_directory);
    if let Some(up) = parent(s.working_directory) {
        lemma_column(up, current_read, s.show_hidden);
        lemma_with_match(column(up, current_read, s.show_hidden), has_path(s.working_directory));
        lemma_parent_column(up, previous_read, s.show_hidden);
    }
}

/// Switching hidden entries keeps the browser well-formed.
pub proof fn lemma_toggled_well_formed(
    s: BrowserView,
    previous_read: ReadView,
    current_read: ReadView,
    next_read: ReadView,
)
    requires
        s.well_formed(),
    ensures
        s.toggled(previous_read, current_read, next_read).well_formed(),
{
    let show_hidden = !s.show_hidden;
    lemma_column(s.working_directory, current_read, show_hidden);
    if let Some(path) = s.current.selected_path() {
        lemma_with_match(column(s.working_directory, current_read, show_hidden), has_path(path));
    }
    if let Some(up) = parent(s.working_directory) {
        lemma_column(up, previous_read, show_hidden);
        if let Some(path) = s.previous.selected_path() {
            lemma_with_match(column(up, previous_read, show_hidden), has_path(path));
        }
    }
    if let Some(dir) = s.next_directory {
        lemma_column(dir, next_read, show_hidden);
    }
}

/// Filling the third column keeps the browser well-formed.
pub proof fn lemma_previewed_well_formed(s: BrowserView, read: ReadView)
    requires
        s.well_formed(),
    ensures
        s.previewed(read).well_formed(),
{
    if let PreviewRequestView::ListDirectory(path) = preview_after(
        s.current.selected_entry(),
        read,
    ) {
        lemma_column(path, read, s.show_hidden);
    }
}

/// A key keeps the browser well-formed.
pub proof fn lemma_pressed_well_formed(s: BrowserView, key: Key)
    requires
        s.well_formed(),
    ensures
        s.pressed(key).well_formed(),
{
}

/// The browser: the working directory, the three columns, whether hidden
/// entries are shown, and the mode.
pub struct BrowserState {
    working_directory: String,
    previous: Pane,
    current: Pane,
    next: Pane,
    next_directory: Option<String>,
    show_hidden: bool,
    mode: ModeState,
}

impl View for BrowserState {
    type V = BrowserView;

    closed spec fn view(&self) -> BrowserView {
        BrowserView {
            working_directory: self.working_directory@,
            previous: self.previous@,
            current: self.current@,
            next: self.next@,
            next_directory: match self.next_directory {
                Some(dir) => Some(dir@),
                None => None,
            },
            show_hidden: self.show_hidden,
            mode: self.mode,
        }
    }
}

/// The column that lists `dir` after `read`.
fn column_of(dir: &str, read: &DirectoryRead, show_hidden: bool) -> (pane: Pane)
    ensures
        pane@ == column(dir@, read@, show_hidden),
{
    Pane::showing(list(dir, read, show_hidden))
}

/// The first column for the working directory `dir`.
fn parent_column_of(dir: &str, read: &DirectoryRead, show_hidden: bool) -> (pane: Pane)
    ensures
        pane@ == parent_column(dir@, read@, show_hidden),
{
    match parent_path(dir) {
        Some(up) => {
            let mut pane = column_of(up.as_str(), read, show_hidden);
            pane.select_path(dir);
            pane
        },
        None => Pane::new(),
    }
}

/// `fresh` with the cursor on the path that is selected in `before`.
fn reselect(fresh: Pane, before: &Pane) -> (pane: Pane)
    ensures
        pane@ == reselected(fresh@, before@),
{
    let mut pane = fresh;
    match before.selected_entry() {
        Some(entry) => {
            pane.select_path(entry.absolute_path.as_str());
        },
        None => {},
    }
    pane
}

impl BrowserState {
    /// A browser is well-formed at all times.
    #[verifier::type_invariant]
    pub closed spec fn valid(&self) -> bool {
        self@.well_formed()
    }

    /// A browser that starts in `start_directory`, from what reading that
    /// directory and its parent reported. The start directory has to be a
    /// well-formed absolute path.
    pub fn new(
        start_directory: &str,
        current_read: &DirectoryRead,
        previous_read: &DirectoryRead,
    ) -> (made: Result<BrowserState, NavigationError>)
        ensures
            match made {
                Ok(state) => is_absolute(start_directory@) && state@ == BrowserView::started(
                    start_directory@,
                    current_read@,
                    previous_read@,
                ) && state@.well_formed(),
                Err(error) => !is_absolute(start_directory@) && error
                    == NavigationError::InvalidWorkingDirectory,
            },
    {
        if !is_absolute_path(start_directory) {
            return Err(NavigationError::InvalidWorkingDirectory);
        }
        let mut current = column_of(start_directory, current_read, false);
        current.select_index(0);
        let previous = parent_column_of(start_directory, previous_read, false);
        proof {
            lemma_started_well_formed(start_directory@, current_read@, previous_read@);
        }
        Ok(
            BrowserState {
                working_directory: start_directory.to_owned(),
                previous,
                current,
                next: Pane::new(),
                next_directory: None,
                show_hidden: false,
                mode: ModeState::Normal,
            },
        )
    }

    /// The working directory.
    pub fn working_directory(&self) -> (dir: &str)
        ensures
            dir@ == self@.working_directory,
            self@.well_formed(),
    {
        proof {
            use_type_invariant(self);
        }
        self.working_directory.as_str()
    }

    /// The column of the parent directory.
    pub fn previous(&self) -> (pane: &Pane)
        ensures
            pane@ == self@.previous,
    {
        &self.previous
    }

    /// The column of the working directory.
    pub fn current(&self) -> (pane: &Pane)
        ensures
            pane@ == self@.current,
    {
        &self.current
    }

    /// The column that previews the selected entry.
    pub fn next(&self) -> (pane: &Pane)
        ensures
            pane@ == self@.next,
    {
        &self.next
    }

    /// The directory that the third column lists, if it lists one.
    pub fn next_directory(&self) -> (dir: Option<&str>)
        ensures
            match dir {
                Some(path) => self@.next_directory == Some(path@),
                None => self@.next_directory is None,
            },
    {
        match &self.next_directory {
            Some(path) => Some(path.as_str()),
            None => None,
        }
    }

    /// Whether hidden entries are shown.
    pub fn show_hidden(&self) -> (shown: bool)
        ensures
            shown == self@.show_hidden,
    {
        self.show_hidden
    }

    /// The mode.
    pub fn mode(&self) -> (mode: ModeState)
        ensures
            mode == self@.mode,
    {
        self.mode
    }

    /// The parent of the working directory, which `go_to_parent` lists.
    pub fn parent_directory(&self) -> (up: Option<String>)
        ensures
            match up {
                Some(path) => parent(self@.working_directory) == Some(path@),
                None => parent(self@.working_directory) is None,
            },
    {
        parent_path(self.working_directory.as_str())
    }

    /// The directory that `enter_child` would enter: the selected entry, if
    /// it is a directory.
    pub fn enter_target(&self) -> (target: Option<&str>)
        ensures
            match target {
                Some(path) => self@.current.selected_entry() matches Some(entry) && entry.kind
                    == EntryKind::Directory && entry.absolute_path == path@,
                None => !(self@.current.selected_entry() matches Some(entry) && entry.kind
                    == EntryKind::Directory),
            },
    {
        match self.current.selected_entry() {
            Some(entry) => if entry.is_directory() {
                Some(entry.absolute_path.as_str())
            } else {
                None
            },
            None => None,
        }
    }

    /// What the third column needs for the selected entry.
    pub fn preview_request(&self) -> (request: PreviewRequest)
        ensures
            request@ == preview_for(self@.current.selected_entry()),
    {
        preview_request(self.current.selected_entry())
    }

    /// The directory to hand to the caller when the browser is left: the
    /// selected entry if it is a directory, else the working directory.
    pub fn exit_path(&self) -> (path: String)
        ensures
            path@ == self@.chosen_directory(),
    {
        match self.current.selected_entry() {
            Some(entry) => if entry.is_directory() {
                entry.absolute_path.clone()
            } else {
                self.working_directory.clone()
            },
            None => self.working_directory.clone(),
        }
    }

    /// Empties the third column if the cursor of the second column is not
    /// at `before` any more, and says whether it is not.
    fn after_cursor_change(&mut self, before: Option<usize>) -> (changed: bool)
        ensures
            changed == (old(self)@.current.selected != index_view(before)),
            final(self)@ == if changed {
                BrowserView { next: PaneView::empty(), next_directory: None, ..old(self)@ }
            } else {
                old(self)@
            },
    {
        proof {
            use_type_invariant(&*self);
        }
        let now = self.current.selected_index();
        let same = match (now, before) {
            (Some(a), Some(b)) => a == b,
            (None, None) => true,
            _ => false,
        };
        if !same {
            self.next = Pane::new();
            self.next_directory = None;
        }
        !same
    }

    /// Moves the cursor of the second column by `delta` entries and holds
    /// it inside the column. Says whether the cursor is on another entry
    /// than before; the third column is then empty until
    /// `refresh_on_selection_change` fills it.
    pub fn move_selection(&mut self, delta: i64) -> (changed: bool)
        ensures
            final(self)@ == old(self)@.with_current(old(self)@.current.moved(delta as int)),
            changed == (final(self)@.current.selected != old(self)@.current.selected),
    {
        proof {
            use_type_invariant(&*self);
        }
        let before = self.current.selected_index();
        self.current.move_selection(delta);
        self.after_cursor_change(before)
    }

    /// Searches the second column for `query`: the cursor jumps to the
    /// first entry with that name, or else to the first whose name begins
    /// with it, the case of ASCII letters aside. Where nothing matches the
    /// cursor stays. Says whether the cursor is on another entry than
    /// before.
    pub fn search(&mut self, query: &str) -> (changed: bool)
        ensures
            final(self)@ == old(self)@.with_current(searched(old(self)@.current, query@)),
            changed == (final(self)@.current.selected != old(self)@.current.selected),
    {
        proof {
            use_type_invariant(&*self);
        }
        let before = self.current.selected_index();
        match find(&self.current, query) {
            Some(hit) => {
                self.current.select_index(hit);
            },
            None => {},
        }
        self.after_cursor_change(before)
    }

    /// Takes `key`: the mode changes as `transition` says, and a key that
    /// moves the cursor moves it. The command that is returned tells what
    /// is left to the caller: to read directories for `enter_child`,
    /// `go_to_parent` or `toggle_hidden`, to pass the text of the search
    /// field to `search`, or to leave.
    pub fn handle_key(&mut self, key: Key) -> (command: Command)
        ensures
            final(self)@ == old(self)@.pressed(key),
            command == command_for(old(self)@.mode, key),
    {
        proof {
            use_type_invariant(&*self);
        }
        let before = self.current.selected_index();
        let (mode, command) = transition(self.mode, key);
        self.mode = mode;
        match command {
            Command::MoveDown => {
                self.current.move_selection(1);
            },
            Command::MoveUp => {
                self.current.move_selection(-1);
            },
            Command::SelectFirst => {
                self.current.select_first();
            },
            Command::SelectLast => {
                self.current.select_last();
            },
            _ => {},
        }
        self.after_cursor_change(before);
        command
    }

    /// Enters the selected directory. `child_read` is what reading that
    /// directory reported, `parent_read` what reading the working directory
    /// reported. Does nothing, and says so, where nothing is selected, where
    /// the selected entry is no directory, and where `child_read` failed.
    pub fn enter_child(&mut self, child_read: &DirectoryRead, parent_read: &DirectoryRead) -> (moved:
        bool)
        ensures
            final(self)@ == old(self)@.entered(child_read@, parent_read@),
            moved == old(self)@.can_enter(child_read@),
            old(self)@.current.selected is None ==> !moved && final(self)@ == old(self)@,
    {
        proof {
            use_type_invariant(&*self);
            lemma_entered_well_formed(self@, child_read@, parent_read@);
        }
        let target = match self.current.selected_entry() {
            Some(entry) => {
                if !entry.is_directory() || !child_read.is_listable() {
                    return false;
                }
                entry.absolute_path.clone()
            },
            None => {
                return false;
            },
        };
        let mut current = column_of(target.as_str(), child_read, self.show_hidden);
        current.select_index(0);
        let previous = parent_column_of(target.as_str(), parent_read, self.show_hidden);
        *self = BrowserState {
            working_directory: target,
            previous,
            current,
            next: Pane::new(),
            next_directory: None,
            show_hidden: self.show_hidden,
            mode: self.mode,
        };
        true
    }

    /// Goes to the parent of the working directory. `current_read` is what
    /// reading the parent reported, `previous_read` what reading the
    /// parent's parent reported. Does nothing, and says so, at the root.
    pub fn go_to_parent(&mut self, current_read: &DirectoryRead, previous_read: &DirectoryRead)
        -> (moved: bool)
        ensures
            final(self)@ == old(self)@.ascended(current_read@, previous_read@),
            moved == (parent(old(self)@.working_directory) is Some),
            is_root(old(self)@.working_directory) ==> !moved && final(self)@ == old(self)@,
    {
        proof {
            use_type_invariant(&*self);
            lemma_ascended_well_formed(self@, current_read@, previous_read@);
        }
        let up = match parent_path(self.working_directory.as_str()) {
            Some(up) => up,
            None => {
                return false;
            },
        };
        let mut current = column_of(up.as_str(), current_read, self.show_hidden);
        current.select_path(self.working_directory.as_str());
        let previous = parent_column_of(up.as_str(), previous_read, self.show_hidden);
        *self = BrowserState {
            working_directory: up,
            previous,
            current,
            next: Pane::new(),
            next_directory: None,
            show_hidden: self.show_hidden,
            mode: self.mode,
        };
        true
    }

    /// Switches hidden entries on or off and lists all three columns
    /// again, each from what reading its directory reported.
    pub fn toggle_hidden(
        &mut self,
        previous_read: &DirectoryRead,
        current_read: &DirectoryRead,
        next_read: &DirectoryRead,
    )
        ensures
            final(self)@ == old(self)@.toggled(previous_read@, current_read@, next_read@),
    {
        proof {
            use_type_invariant(&*self);
            lemma_toggled_well_formed(self@, previous_read@, current_read@, next_read@);
        }
        let show_hidden = !self.show_hidden;
        let previous = match parent_path(self.working_directory.as_str()) {
            Some(up) => reselect(column_of(up.as_str(), previous_read, show_hidden), &self.previous),
            None => Pane::new(),
        };
        let current = reselect(
            column_of(self.working_directory.as_str(), current_read, show_hidden),
            &self.current,
        );
        let next = match &self.next_directory {
            Some(dir) => column_of(dir.as_str(), next_read, show_hidden),
            None => Pane::new(),
        };
        *self = BrowserState {
            working_directory: self.working_directory.clone(),
            previous,
            current,
            next,
            next_directory: self.next_directory.clone(),
            show_hidden,
            mode: self.mode,
        };
    }

    /// Fills the third column for the selected entry. `read` is what
    /// reading the selected entry reported, if it is a directory. The
    /// request that is returned says what the column shows now: the listing
    /// of a directory, a file for the renderer, or nothing.
    pub fn refresh_on_selection_change(&mut self, read: &DirectoryRead) -> (shown: PreviewRequest)
        ensures
            final(self)@ == old(self)@.previewed(read@),
            shown@ == preview_after(old(self)@.current.selected_entry(), read@),
    {
        proof {
            use_type_invariant(&*self);
            lemma_previewed_well_formed(self@, read@);
        }
        let request = self.preview_request();
        match request {
            PreviewRequest::ListDirectory(path) => {
                if read.is_listable() {
                    let next = column_of(path.as_str(), read, self.show_hidden);
                    self.next = Pane::new();
                    self.next_directory = Some(path.clone());
                    self.next = next;
                    PreviewRequest::ListDirectory(path)
                } else {
                    self.next = Pane::new();
                    self.next_directory = None;
                    PreviewRequest::Nothing
                }
            },
            other => {
                self.next = Pane::new();
                self.next_directory = None;
                other
            },
        }
    }
}

} // verus!
