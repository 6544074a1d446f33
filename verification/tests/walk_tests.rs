use grog::walk::{
    is_dot_name, is_ignored_extension, should_recurse, should_skip_file, Traversal,
};

fn bytes(s: &str) -> Vec<u8> {
    s.as_bytes().to_vec()
}

#[test]
fn dot_names_are_recognised() {
    assert!(is_dot_name(&bytes(".git")));
    assert!(is_dot_name(&bytes(".")));
    assert!(!is_dot_name(&bytes("src")));
    assert!(!is_dot_name(&bytes("")));
}

#[test]
fn builtin_extensions_are_ignored() {
    for ext in ["bin", "exe", "obj", "o", "dll"] {
        assert!(is_ignored_extension(&bytes(ext)), "{} should be ignored", ext);
    }
    for ext in ["txt", "rs", "oo", "exes", ""] {
        assert!(!is_ignored_extension(&bytes(ext)), "{} should not be ignored", ext);
    }
}

#[test]
fn recursion_needs_a_plain_directory_and_the_flag() {
    assert!(should_recurse(true, &bytes("sub"), true));
    assert!(!should_recurse(true, &bytes(".git"), true));
    assert!(!should_recurse(true, &bytes("sub"), false));
    assert!(!should_recurse(false, &bytes("file"), true));
}

#[test]
fn files_skip_only_listed_extensions() {
    assert!(should_skip_file(&Some(bytes("bin"))));
    assert!(!should_skip_file(&Some(bytes("txt"))));
    assert!(!should_skip_file(&None));
}

#[test]
fn traversal_hands_directories_out_in_order() {
    let mut t = Traversal::new(bytes("./"));
    assert!(t.has_pending());
    assert_eq!(t.take_next(), bytes("./"));
    t.enqueue(vec![bytes("./a"), bytes("./b")]);
    t.enqueue(vec![bytes("./c")]);
    assert_eq!(t.take_next(), bytes("./a"));
    assert_eq!(t.take_next(), bytes("./b"));
    assert_eq!(t.take_next(), bytes("./c"));
    assert!(!t.has_pending());
}

#[test]
fn a_run_with_one_read_directory_succeeds() {
    // Even with no match found, a readable directory means success.
    let mut t = Traversal::new(bytes("./"));
    let _dir = t.take_next();
    t.record_read();
    assert!(t.run_succeeded());
    assert_eq!(t.read_dirs, 1);
}

#[test]
fn a_run_with_no_readable_directory_fails() {
    // The sole directory could not be read: nothing is recorded and the
    // run as a whole fails.
    let mut t = Traversal::new(bytes("./locked"));
    let _dir = t.take_next();
    assert!(!t.has_pending());
    assert!(!t.run_succeeded());
}

#[test]
fn reads_are_counted() {
    let mut t = Traversal::new(bytes("./"));
    t.record_read();
    t.record_read();
    t.record_read();
    assert_eq!(t.read_dirs, 3);
}
