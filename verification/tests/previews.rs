use seldir::entry::{Entry, EntryKind};
use seldir::preview::{preview_kind_of, preview_request, PreviewKind, PreviewRequest};

#[test]
fn kinds_go_by_extension() {
    assert_eq!(preview_kind_of("paper.pdf"), PreviewKind::Pdf);
    assert_eq!(preview_kind_of("PAPER.PDF"), PreviewKind::Pdf);
    assert_eq!(preview_kind_of("photo.png"), PreviewKind::Image);
    assert_eq!(preview_kind_of("photo.JPG"), PreviewKind::Image);
    assert_eq!(preview_kind_of("photo.jpeg"), PreviewKind::Image);
    assert_eq!(preview_kind_of("anim.gif"), PreviewKind::Image);
    assert_eq!(preview_kind_of("old.bmp"), PreviewKind::Image);
    assert_eq!(preview_kind_of("notes.txt"), PreviewKind::Text);
    assert_eq!(preview_kind_of("archive.tar.pdf"), PreviewKind::Pdf);
    assert_eq!(preview_kind_of("archive.pdf.gz"), PreviewKind::Text);
}

#[test]
fn names_without_extension_are_text() {
    assert_eq!(preview_kind_of("Makefile"), PreviewKind::Text);
    assert_eq!(preview_kind_of(".pdf"), PreviewKind::Text);
    assert_eq!(preview_kind_of("pdf"), PreviewKind::Text);
    assert_eq!(preview_kind_of("trailing."), PreviewKind::Text);
    assert_eq!(preview_kind_of(""), PreviewKind::Text);
    assert_eq!(preview_kind_of("a.pdf."), PreviewKind::Text);
    assert_eq!(preview_kind_of("ünï.png"), PreviewKind::Image);
}

#[test]
fn request_for_each_kind_of_entry() {
    let dir = Entry::new("b", "/tmp/a/b", EntryKind::Directory);
    let file = Entry::new("z.pdf", "/tmp/a/z.pdf", EntryKind::File);
    let link = Entry::new("l", "/tmp/a/l", EntryKind::Unreadable);
    assert_eq!(preview_request(Some(&dir)), PreviewRequest::ListDirectory("/tmp/a/b".to_string()));
    assert_eq!(preview_request(Some(&file)), PreviewRequest::RenderFile("/tmp/a/z.pdf".to_string(), PreviewKind::Pdf));
    assert_eq!(preview_request(Some(&link)), PreviewRequest::Nothing);
    assert_eq!(preview_request(None), PreviewRequest::Nothing);
}
