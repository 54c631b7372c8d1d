use seldir::entry::{Entry, EntryKind};
use seldir::pane::Pane;
use seldir::search::{find, search};
use seldir::text::{equals_ignoring_case, is_hidden, name_precedes, same_text, starts_with_ignoring_case, to_ascii_lower};

fn three() -> Pane {
    Pane::showing(vec![
        Entry::new("b", "/tmp/a/b", EntryKind::Directory),
        Entry::new("c", "/tmp/a/c", EntryKind::Directory),
        Entry::new("z.txt", "/tmp/a/z.txt", EntryKind::File),
    ])
}

#[test]
fn search_by_prefix_selects_z_txt() {
    let mut pane = three();
    assert!(search(&mut pane, "z"));
    assert_eq!(pane.selected_index(), Some(2));
    assert_eq!(pane.selected_entry().map(|e| e.name.as_str()), Some("z.txt"));
    assert_eq!(pane.len(), 3);
}

#[test]
fn search_by_exact_name_in_other_case_selects_z_txt() {
    let mut pane = three();
    assert!(search(&mut pane, "Z.TXT"));
    assert_eq!(pane.selected_index(), Some(2));
}

#[test]
fn search_without_match_keeps_the_cursor() {
    let mut pane = three();
    pane.select_index(1);
    assert!(!search(&mut pane, "q"));
    assert_eq!(pane.selected_index(), Some(1));
    assert_eq!(find(&pane, "q"), None);
}

#[test]
fn exact_match_wins_over_an_earlier_prefix_match() {
    let mut pane = Pane::showing(vec![
        Entry::new("abc", "/d/abc", EntryKind::File),
        Entry::new("ab", "/d/ab", EntryKind::File),
        Entry::new("AB", "/d/AB", EntryKind::File),
    ]);
    assert!(search(&mut pane, "aB"));
    assert_eq!(pane.selected_index(), Some(1));
    assert!(search(&mut pane, "a"));
    assert_eq!(pane.selected_index(), Some(0));
}

#[test]
fn empty_query_finds_the_first_entry() {
    let mut pane = three();
    pane.select_index(2);
    assert!(search(&mut pane, ""));
    assert_eq!(pane.selected_index(), Some(0));
    let mut empty = Pane::new();
    assert!(!search(&mut empty, ""));
}

#[test]
fn case_folding_is_ascii_only() {
    assert!(equals_ignoring_case("ReadMe.MD", "readme.md"));
    assert!(!equals_ignoring_case("Ärger", "ärger"));
    assert!(equals_ignoring_case("", ""));
    assert!(!equals_ignoring_case("a", "ab"));
    assert!(starts_with_ignoring_case("Makefile", "mAkE"));
    assert!(starts_with_ignoring_case("x", ""));
    assert!(!starts_with_ignoring_case("ma", "make"));
    assert_eq!(to_ascii_lower('Q'), 'q');
    assert_eq!(to_ascii_lower('A'), 'a');
    assert_eq!(to_ascii_lower('Z'), 'z');
    assert_eq!(to_ascii_lower('['), '[');
    assert_eq!(to_ascii_lower('@'), '@');
    assert_eq!(to_ascii_lower('é'), 'é');
}

#[test]
fn text_helpers() {
    assert!(same_text("abc", "abc"));
    assert!(!same_text("abc", "abd"));
    assert!(!same_text("abc", "ab"));
    assert!(is_hidden(".git"));
    assert!(!is_hidden("git."));
    assert!(!is_hidden(""));
    assert!(name_precedes("a", "a"));
    assert!(name_precedes("", "a"));
    assert!(!name_precedes("a", ""));
    assert!(name_precedes("Z", "a"));
    assert!(name_precedes("ab", "abc"));
    assert!(!name_precedes("b", "abc"));
}
