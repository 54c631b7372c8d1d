use seldir::entry::{Entry, EntryKind};
use seldir::lister::{list, ChildRecord, DirectoryRead};

fn names(entries: &[Entry]) -> Vec<String> {
    entries.iter().map(|e| e.name.clone()).collect()
}

fn sample() -> DirectoryRead {
    DirectoryRead::Children(vec![
        ChildRecord::new("z.txt", EntryKind::File),
        ChildRecord::new("c", EntryKind::Directory),
        ChildRecord::new(".git", EntryKind::Directory),
        ChildRecord::new("link", EntryKind::Unreadable),
        ChildRecord::new("b", EntryKind::Directory),
        ChildRecord::new(".profile", EntryKind::File),
        ChildRecord::new("A.txt", EntryKind::File),
    ])
}

#[test]
fn listing_orders_directories_before_files() {
    let entries = list("/tmp/a", &sample(), false);
    assert_eq!(names(&entries), vec!["b", "c", "A.txt", "z.txt"]);
    assert_eq!(entries[0].absolute_path, "/tmp/a/b");
    assert_eq!(entries[0].kind, EntryKind::Directory);
    assert_eq!(entries[3].absolute_path, "/tmp/a/z.txt");
    assert_eq!(entries[3].kind, EntryKind::File);
}

#[test]
fn listing_with_hidden_is_a_superset_in_the_same_order() {
    let shown = list("/tmp/a", &sample(), true);
    assert_eq!(names(&shown), vec![".git", "b", "c", ".profile", "A.txt", "z.txt"]);
    let visible: Vec<String> = names(&shown).into_iter().filter(|n| !n.starts_with('.')).collect();
    assert_eq!(visible, names(&list("/tmp/a", &sample(), false)));
}

#[test]
fn failed_read_lists_nothing() {
    assert!(list("/root", &DirectoryRead::Failed, true).is_empty());
}

#[test]
fn children_of_the_root_have_one_separator() {
    let read = DirectoryRead::Children(vec![ChildRecord::new("etc", EntryKind::Directory)]);
    let entries = list("/", &read, false);
    assert_eq!(entries[0].absolute_path, "/etc");
}

#[test]
fn names_that_are_no_segment_are_left_out() {
    let read = DirectoryRead::Children(vec![
        ChildRecord::new("", EntryKind::File),
        ChildRecord::new("a/b", EntryKind::File),
        ChildRecord::new(".", EntryKind::Directory),
        ChildRecord::new("..", EntryKind::Directory),
        ChildRecord::new("ok", EntryKind::File),
    ]);
    assert_eq!(names(&list("/x", &read, true)), vec!["ok"]);
}

#[test]
fn names_order_by_code_point() {
    let read = DirectoryRead::Children(vec![
        ChildRecord::new("b", EntryKind::File),
        ChildRecord::new("ab", EntryKind::File),
        ChildRecord::new("a", EntryKind::File),
        ChildRecord::new("B", EntryKind::File),
        ChildRecord::new("é", EntryKind::File),
    ]);
    assert_eq!(names(&list("/x", &read, true)), vec!["B", "a", "ab", "b", "é"]);
}
