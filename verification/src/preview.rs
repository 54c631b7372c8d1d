//! What the third column is to show for the entry under the cursor.

use crate::entry::{Entry, EntryKind, EntryView};
use crate::text::{equals_ignoring_case, find_last, last_position, lemma_last_position, same_ignoring_case};
use vstd::prelude::*;
use vstd::string::*;

verus! {

/// How the content of a file is to be rendered.
#[derive(Clone, Copy, Debug, PartialEq, Eq, Structural)]
pub enum PreviewKind {
    Pdf,
    Image,
    /// Anything else is shown as text.
    Text,
}

/// What is to be done for the third column.
#[derive(Debug, PartialEq, Eq)]
pub enum PreviewRequest {
    /// Nothing is selected, or nothing that can be shown.
    Nothing,
    /// Read the directory with this path and show its listing.
    ListDirectory(String),
    /// Hand the file with this path to the renderer.
    RenderFile(String, PreviewKind),
}

/// A preview request as plain values.
pub enum PreviewRequestView {
    Nothing,
    ListDirectory(Seq<char>),
    RenderFile(Seq<char>, PreviewKind),
}

impl View for PreviewRequest {
    type V = PreviewRequestView;

    open spec fn view(&self) -> PreviewRequestView {
        match self {
            PreviewRequest::Nothing => PreviewRequestView::Nothing,
            PreviewRequest::ListDirectory(path) => PreviewRequestView::ListDirectory(path@),
            PreviewRequest::RenderFile(path, kind) => PreviewRequestView::RenderFile(path@, *kind),
        }
    }
}

/// What follows the last dot of `name`. A name without a dot has an empty
/// extension, and so has one whose only dot is its first character.
pub open spec fn extension(name: Seq<char>) -> Seq<char> {
    let dot = last_position(name, '.');
    if dot <= 0 {
        Seq::empty()
    } else {
        name.skip(dot + 1)
    }
}

/// Whether `ext` is the extension of an image format, in any case.
pub open spec fn is_image_extension(ext: Seq<char>) -> bool {
    ||| same_ignoring_case(ext, "png"@)
    ||| same_ignoring_case(ext, "jpg"@)
    ||| same_ignoring_case(ext, "jpeg"@)
    ||| same_ignoring_case(ext, "gif"@)
    ||| same_ignoring_case(ext, "bmp"@)
}

/// How a file called `name` is rendered, going by its extension.
pub open spec fn preview_kind(name: Seq<char>) -> PreviewKind {
    let ext = extension(name);
    if same_ignoring_case(ext, "pdf"@) {
        PreviewKind::Pdf
    } else if is_image_extension(ext) {
        PreviewKind::Image
    } else {
        PreviewKind::Text
    }
}

/// What the third column needs for the selected entry: the listing of a
/// directory, the rendering of a file, and nothing without a selection.
pub open spec fn preview_for(selected: Option<EntryView>) -> PreviewRequestView {
    match selected {
        None => PreviewRequestView::Nothing,
        Some(entry) => match entry.kind {
            EntryKind::Directory => PreviewRequestView::ListDirectory(entry.absolute_path),
            EntryKind::File => PreviewRequestView::RenderFile(
                entry.absolute_path,
                preview_kind(entry.name),
            ),
            EntryKind::Unreadable => PreviewRequestView::Nothing,
        },
    }
}

/// How a file called `name` is rendered.
pub fn preview_kind_of(name: &str) -> (kind: PreviewKind)
    ensures
        kind == preview_kind(name@),
{
    let (dot, length) = find_last(name, '.');
    proof {
        lemma_last_position(name@, '.');
        reveal_strlit("");
    }
    let ext: &str = match dot {
        Some(at) => if at > 0 {
            name.substring_char(at + 1, length)
        } else {
            ""
        },
        None => "",
    };
    assert(ext@ =~= extension(name@));
    if equals_ignoring_case(ext, "pdf") {
        PreviewKind::Pdf
    } else if equals_ignoring_case(ext, "png") || equals_ignoring_case(ext, "jpg")
        || equals_ignoring_case(ext, "jpeg") || equals_ignoring_case(ext, "gif")
        || equals_ignoring_case(ext, "bmp") {
        PreviewKind::Image
    } else {
        PreviewKind::Text
    }
}

/// What the third column needs for `selected`.
pub fn preview_request(selected: Option<&Entry>) -> (request: PreviewRequest)
    ensures
        request@ == preview_for(
            match selected {
                Some(entry) => Some(entry@),
                None => None,
            },
        ),
{
    match selected {
        None => PreviewRequest::Nothing,
        Some(entry) => match entry.kind {
            EntryKind::Directory => PreviewRequest::ListDirectory(entry.absolute_path.clone()),
            EntryKind::File => PreviewRequest::RenderFile(
                entry.absolute_path.clone(),
                preview_kind_of(entry.name.as_str()),
            ),
            EntryKind::Unreadable => PreviewRequest::Nothing,
        },
    }
}

} // verus!
