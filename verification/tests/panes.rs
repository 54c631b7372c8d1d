use seldir::entry::{Entry, EntryKind};
use seldir::pane::Pane;

fn three() -> Pane {
    Pane::showing(vec![
        Entry::new("b", "/tmp/a/b", EntryKind::Directory),
        Entry::new("c", "/tmp/a/c", EntryKind::Directory),
        Entry::new("z.txt", "/tmp/a/z.txt", EntryKind::File),
    ])
}

#[test]
fn new_pane_is_empty_without_cursor() {
    let pane = Pane::new();
    assert!(pane.is_empty());
    assert_eq!(pane.len(), 0);
    assert_eq!(pane.selected_index(), None);
    assert!(pane.selected_entry().is_none());
}

#[test]
fn set_entries_clears_the_cursor() {
    let mut pane = three();
    pane.select_index(2);
    assert_eq!(pane.selected_index(), Some(2));
    pane.set_entries(vec![Entry::new("x", "/x", EntryKind::File)]);
    assert_eq!(pane.len(), 1);
    assert_eq!(pane.selected_index(), None);
}

#[test]
fn select_index_out_of_range_is_ignored() {
    let mut pane = three();
    pane.select_index(1);
    pane.select_index(3);
    assert_eq!(pane.selected_index(), Some(1));
    let mut empty = Pane::new();
    empty.select_index(0);
    assert_eq!(empty.selected_index(), None);
}

#[test]
fn select_matching_takes_the_first_match() {
    let mut pane = three();
    assert!(pane.select_matching(|e| e.kind == EntryKind::Directory));
    assert_eq!(pane.selected_index(), Some(0));
    assert!(pane.select_matching(|e| e.name.ends_with(".txt")));
    assert_eq!(pane.selected_index(), Some(2));
    assert_eq!(pane.selected_entry().map(|e| e.name.as_str()), Some("z.txt"));
}

#[test]
fn select_matching_without_match_keeps_the_cursor() {
    let mut pane = three();
    pane.select_index(1);
    assert!(!pane.select_matching(|e| e.name == "nowhere"));
    assert_eq!(pane.selected_index(), Some(1));
}

#[test]
fn select_path_finds_the_entry() {
    let mut pane = three();
    assert!(pane.select_path("/tmp/a/c"));
    assert_eq!(pane.selected_index(), Some(1));
    assert!(!pane.select_path("/tmp/a/C"));
    assert_eq!(pane.selected_index(), Some(1));
}

#[test]
fn move_selection_is_clamped() {
    let mut pane = three();
    pane.select_index(0);
    pane.move_selection(1);
    assert_eq!(pane.selected_index(), Some(1));
    pane.move_selection(5);
    assert_eq!(pane.selected_index(), Some(2));
    pane.move_selection(-1);
    assert_eq!(pane.selected_index(), Some(1));
    pane.move_selection(-7);
    assert_eq!(pane.selected_index(), Some(0));
    pane.move_selection(i64::MAX);
    assert_eq!(pane.selected_index(), Some(2));
    pane.move_selection(i64::MIN);
    assert_eq!(pane.selected_index(), Some(0));
}

#[test]
fn move_selection_on_empty_pane_does_nothing() {
    let mut pane = Pane::new();
    pane.move_selection(1);
    assert_eq!(pane.selected_index(), None);
    pane.move_selection(-1);
    assert_eq!(pane.selected_index(), None);
}

#[test]
fn move_selection_without_cursor_starts_at_the_top() {
    let mut pane = three();
    pane.move_selection(0);
    assert_eq!(pane.selected_index(), Some(0));
    let mut other = three();
    other.move_selection(2);
    assert_eq!(other.selected_index(), Some(2));
}

#[test]
fn first_and_last() {
    let mut pane = three();
    pane.select_last();
    assert_eq!(pane.selected_index(), Some(2));
    pane.select_first();
    assert_eq!(pane.selected_index(), Some(0));
    let mut empty = Pane::new();
    empty.select_last();
    assert_eq!(empty.selected_index(), None);
    empty.select_first();
    assert_eq!(empty.selected_index(), None);
}

#[test]
fn clear_empties_the_pane() {
    let mut pane = three();
    pane.select_index(1);
    pane.clear();
    assert!(pane.is_empty());
    assert_eq!(pane.selected_index(), None);
}

#[test]
fn entries_come_back_in_order() {
    let pane = three();
    let names: Vec<&str> = pane.entries().iter().map(|e| e.name.as_str()).collect();
    assert_eq!(names, vec!["b", "c", "z.txt"]);
}
