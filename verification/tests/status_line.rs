use seldir::status::get_symbolic_permissions;

#[test]
fn test_permission_to_str() {
    assert_eq!("-rw-r--r--", get_symbolic_permissions(0o644));
    assert_eq!("----------", get_symbolic_permissions(0o000)); // no permissions
    assert_eq!("-rwx------", get_symbolic_permissions(0o700)); // read, write, & execute only for owner
    assert_eq!("-rwxrwx---", get_symbolic_permissions(0o770)); // read, write, & execute for owner and group
    assert_eq!("-rwxrwxrwx", get_symbolic_permissions(0o777)); // read, write, & execute for owner, group and others
    assert_eq!("---x--x--x", get_symbolic_permissions(0o111)); // execute
    assert_eq!("--w--w--w-", get_symbolic_permissions(0o222)); // write
    assert_eq!("--wx-wx-wx", get_symbolic_permissions(0o333)); // write & execute
    assert_eq!("-r--r--r--", get_symbolic_permissions(0o444)); // read
    assert_eq!("-r-xr-xr-x", get_symbolic_permissions(0o555)); // read & execute
    assert_eq!("-rw-rw-rw-", get_symbolic_permissions(0o666)); // read & write
    assert_eq!("-rwxr-----", get_symbolic_permissions(0o740)); // owner can read, write, & execute; group can only read; others have no permissions
}

#[test]
fn directory_flag_is_bit_fourteen() {
    assert_eq!("drwxr-xr-x", get_symbolic_permissions(0o040755));
    assert_eq!("d---------", get_symbolic_permissions(1 << 14));
    assert_eq!("----------", get_symbolic_permissions(1 << 15));
}

#[test]
fn last_modified_is_written_in_utc() {
    assert_eq!(seldir::status::last_modified_text(0), " 01-01-1970 00:00");
    assert_eq!(seldir::status::last_modified_text(1431648000), " 15-05-2015 00:00");
    assert_eq!(seldir::status::last_modified_text(1491137432), " 02-04-2017 12:50");
    assert_eq!(seldir::status::last_modified_text(-1), " 31-12-1969 23:59");
}

#[test]
fn last_modified_out_of_range_is_empty() {
    assert_eq!(seldir::status::last_modified_text(i64::MAX), "");
    assert_eq!(seldir::status::last_modified_text(i64::MIN), "");
}

#[test]
fn label_for_a_written_time() {
    assert_eq!(seldir::status::label_modified(Some("x".to_string())), " x");
    assert_eq!(seldir::status::label_modified(None), "");
}

#[test]
fn decimal_digits() {
    assert_eq!(seldir::status::decimal_text(0), "0");
    assert_eq!(seldir::status::decimal_text(7), "7");
    assert_eq!(seldir::status::decimal_text(10), "10");
    assert_eq!(seldir::status::decimal_text(1234567890), "1234567890");
    assert_eq!(seldir::status::decimal_text(usize::MAX), usize::MAX.to_string());
}

#[test]
fn position_counts_from_one() {
    let mut pane = seldir::pane::Pane::showing(vec![
        seldir::entry::Entry::new("a", "/a", seldir::entry::EntryKind::File),
        seldir::entry::Entry::new("b", "/b", seldir::entry::EntryKind::File),
        seldir::entry::Entry::new("c", "/c", seldir::entry::EntryKind::File),
    ]);
    assert_eq!(seldir::status::position_text(&pane), None);
    pane.select_index(2);
    assert_eq!(seldir::status::position_text(&pane), Some("3/3".to_string()));
    pane.select_index(0);
    assert_eq!(seldir::status::position_text(&pane), Some("1/3".to_string()));
}

#[test]
fn path_text_joins_directory_and_name() {
    assert_eq!(seldir::status::path_text("/", "etc"), "/etc");
    assert_eq!(seldir::status::path_text("/home/me", "notes"), "/home/me/notes");
}
