use cpx::backup::{decimal_of, parse_u32_of};
use cpx::exclude::starts_with_of;
use cpx::plan::is_below_of;
use cpx::paths::{file_name_of, join_path, parent_of, truncate_filename, with_parents};

#[test]
fn test_with_parents_relative_path() {
    let result = with_parents("/dest", "a/b/file.txt");
    assert_eq!(result, "/dest/a/b/file.txt".to_string());
}

#[test]
fn test_with_parents_absolute_path_unix() {
    let result = with_parents("/dest", "/home/user/file.txt");
    assert_eq!(result, "/dest/home/user/file.txt".to_string());
}

#[test]
fn test_with_parents_single_file() {
    let result = with_parents("/dest", "file.txt");
    assert_eq!(result, "/dest/file.txt".to_string());
}

#[test]
fn test_with_parents_nested_path() {
    let result = with_parents("/backup", "projects/rust/cpx/src/main.rs");
    assert_eq!(result, "/backup/projects/rust/cpx/src/main.rs".to_string());
}

#[test]
fn test_with_parents_dest_with_trailing_slash() {
    let result = with_parents("/dest/", "a/b/file.txt");
    assert_eq!(result, "/dest/a/b/file.txt".to_string());
}

#[test]
fn test_with_parents_root_in_source() {
    let result = with_parents("/backup", "/etc/config/app.conf");
    assert_eq!(result, "/backup/etc/config/app.conf".to_string());
}

#[test]
fn test_with_parents_current_dir() {
    let result = with_parents("/dest", "./file.txt");
    assert!(result.ends_with("file.txt"));
}

#[test]
fn test_with_parents_empty_dest() {
    let result = with_parents("", "a/b/file.txt");
    assert_eq!(result, "a/b/file.txt".to_string());
}

#[test]
fn file_name_skips_trailing_separators_and_dots() {
    assert_eq!(file_name_of("/a/b/"), Some("b".to_string()));
    assert_eq!(file_name_of("/a/b/."), Some("b".to_string()));
    assert_eq!(file_name_of("/a/.."), None);
    assert_eq!(file_name_of("/"), None);
    assert_eq!(file_name_of(""), None);
}

#[test]
fn parent_drops_the_last_part() {
    assert_eq!(parent_of("/a/b/c.txt"), Some("/a/b".to_string()));
    assert_eq!(parent_of("c.txt"), Some("".to_string()));
    assert_eq!(parent_of("/"), None);
}

#[test]
fn join_adds_one_separator() {
    assert_eq!(join_path("/d", "x"), "/d/x".to_string());
    assert_eq!(join_path("/d/", "x"), "/d/x".to_string());
    assert_eq!(join_path("/d", "/abs"), "/abs".to_string());
    assert_eq!(join_path("", "x"), "x".to_string());
}

#[test]
fn truncate_filename_marks_the_cut() {
    assert_eq!(truncate_filename("short.txt", 20), "short.txt".to_string());
    assert_eq!(truncate_filename("a_rather_long_name.txt", 10), "a_rathe...".to_string());
    assert_eq!(truncate_filename("abcdef", 2), "...".to_string());
}

#[test]
fn path_relations() {
    assert!(starts_with_of("/a/b/c", "/a/b"));
    assert!(starts_with_of("/a/b", "/a/b/"));
    assert!(!starts_with_of("/a/bc", "/a/b"));
    assert!(!starts_with_of("a/b", "/a"));
    assert!(is_below_of("/a/b/c", "/a/b"));
    assert!(!is_below_of("/a/b", "/a/b"));
}

#[test]
fn decimal_text_round_trip() {
    let d: String = decimal_of(4294967295).into_iter().collect();
    assert_eq!(d, "4294967295");
    assert_eq!(parse_u32_of(&"4294967295".chars().collect()), Some(4294967295));
    assert_eq!(parse_u32_of(&"4294967296".chars().collect()), None);
    assert_eq!(parse_u32_of(&"+7".chars().collect()), Some(7));
    assert_eq!(parse_u32_of(&"+".chars().collect()), None);
    assert_eq!(parse_u32_of(&"".chars().collect()), None);
    assert_eq!(parse_u32_of(&"1a".chars().collect()), None);
}
