use cli_test::analysis::{descends_into, is_source_extension};
use cli_test::paths::{file_name_or_empty, same_path};
use cli_test::text::{same_text, starts_with_char, text_contains, text_less, to_lowercase};

#[test]
fn contains_finds_substrings() {
    assert!(text_contains("usermanager", "manager"));
    assert!(text_contains("abc", ""));
    assert!(!text_contains("ab", "abc"));
    assert!(!text_contains("handle", "handler"));
    assert!(text_contains("ñandú", "dú"));
}

#[test]
fn order_is_that_of_string() {
    let cases = ["", "a", "A", "ab", "b", "z.py", "a.py", "é", "e"];
    for x in cases {
        for y in cases {
            assert_eq!(text_less(x, y), x < y, "{} {}", x, y);
        }
    }
}

#[test]
fn starts_with_and_equality() {
    assert!(starts_with_char("_x", '_'));
    assert!(!starts_with_char("", '_'));
    assert!(!starts_with_char("x_", '_'));
    assert!(same_text("main", "main"));
    assert!(!same_text("main", "Main"));
}

#[test]
fn lowercase_and_paths() {
    assert_eq!(to_lowercase("DataManager"), "datamanager");
    assert_eq!(file_name_or_empty("proj/sub/x.py"), "x.py");
    assert_eq!(file_name_or_empty("proj/.."), "");
    assert!(same_path("a//b", "a/b"));
    assert!(!same_path("a/b", "a/c"));
}

#[test]
fn walk_rules() {
    for ext in ["py", "ts", "tsx", "js", "jsx"] {
        assert!(is_source_extension(ext));
    }
    assert!(!is_source_extension("rs"));
    assert!(!is_source_extension("PY"));
    assert!(!is_source_extension(""));
    assert!(descends_into("src"));
    assert!(!descends_into(".git"));
    assert!(!descends_into("node_modules"));
    assert!(!descends_into("target"));
    assert!(descends_into("targets"));
}
