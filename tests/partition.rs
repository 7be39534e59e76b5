use rs_lb::partition::{flagged_positions, migrate};
use rs_lb::text::{lex_le_exec, starts_with, trimmed_slashes};

#[test]
fn migrate_takes_flagged_by_descending_position() {
    let mut from = vec![1, 2, 3, 4, 5];
    let mut to = vec![9];
    migrate(&mut from, &mut to, &vec![true, false, true, false, true]);
    assert_eq!(from, vec![2, 4]);
    assert_eq!(to, vec![9, 5, 3, 1]);
}

#[test]
fn migrate_with_no_flags_changes_nothing() {
    let mut from = vec!["a", "b"];
    let mut to: Vec<&str> = vec![];
    migrate(&mut from, &mut to, &vec![false, false]);
    assert_eq!(from, vec!["a", "b"]);
    assert!(to.is_empty());
}

#[test]
fn flagged_positions_highest_first() {
    assert_eq!(flagged_positions(&vec![true, false, true, true]), vec![3, 2, 0]);
    assert!(flagged_positions(&vec![]).is_empty());
}

#[test]
fn text_helpers() {
    assert_eq!(trimmed_slashes("//a/b//"), "a/b");
    assert_eq!(trimmed_slashes("////"), "");
    assert!(starts_with("/a/b", "/a/"));
    assert!(!starts_with("/a", "/a/"));
    assert!(lex_le_exec("/a/", "/a/b/"));
    assert!(!lex_le_exec("/b/", "/a/b/"));
    assert!(lex_le_exec("", ""));
}

