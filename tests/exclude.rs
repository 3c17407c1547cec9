use cpx::exclude::{build_exclude_rules, parse_exclude_pattern_list, should_exclude, ExcludeError, ExcludePattern};

const ROOT: &str = "/tmp/cpx_exclude";

#[test]
fn test_exclude_absolute_path() {
    let file_path = format!("{}/file.txt", ROOT);
    let rules = build_exclude_rules(vec![ExcludePattern::AbsolutePath(file_path.clone())]).unwrap().unwrap();

    assert!(should_exclude(&file_path, ROOT, &rules, &file_path, false));
}

#[test]
fn test_exclude_basename() {
    let dir = format!("{}/node_modules", ROOT);
    let file_path = format!("{}/node_modules/file.js", ROOT);
    let rules = build_exclude_rules(vec![ExcludePattern::BaseName("node_modules".to_string())]).unwrap().unwrap();
    let rules_ref = &rules;

    assert!(should_exclude(&dir, ROOT, rules_ref, &dir, true));

    assert!(should_exclude(&file_path, ROOT, rules_ref, &file_path, false));
}

#[test]
fn test_exclude_glob_pattern_file() {
    let file_path = format!("{}/temp123.tmp", ROOT);
    let rules = build_exclude_rules(vec![ExcludePattern::GlobPattern("*.tmp".to_string())]).unwrap().unwrap();

    assert!(should_exclude(&file_path, ROOT, &rules, &file_path, false));
}

#[test]
fn test_exclude_glob_pattern_dir() {
    let dir_path = format!("{}/build", ROOT);
    let rules = build_exclude_rules(vec![ExcludePattern::GlobPattern("build/".to_string())]).unwrap().unwrap();

    assert!(should_exclude(&dir_path, ROOT, &rules, &dir_path, true));
}

#[test]
fn test_exclude_mixed_patterns() {
    let abs_file = format!("{}/exclude_me.txt", ROOT);
    let base_dir = format!("{}/node_modules", ROOT);
    let glob_file = format!("{}/temp.tmp", ROOT);

    let rules = build_exclude_rules(vec![
        ExcludePattern::AbsolutePath(abs_file.clone()),
        ExcludePattern::BaseName("node_modules".to_string()),
        ExcludePattern::GlobPattern("*.tmp".to_string()),
    ])
    .unwrap()
    .unwrap();
    let rules_ref = &rules;
    assert!(should_exclude(&abs_file, ROOT, rules_ref, &abs_file, false));
    assert!(should_exclude(&base_dir, ROOT, rules_ref, &base_dir, true));
    assert!(should_exclude(&glob_file, ROOT, rules_ref, &glob_file, false));
}

#[test]
fn test_exclude_relative_paths() {
    let file_path = format!("{}/dir/file.txt", ROOT);
    let rules = build_exclude_rules(vec![ExcludePattern::GlobPattern("dir/file.txt".to_string())]).unwrap().unwrap();

    assert!(should_exclude(&file_path, ROOT, &rules, &file_path, false));
}

#[test]
fn test_exclude_not_matching() {
    let file_path = format!("{}/keep.txt", ROOT);
    let rules = build_exclude_rules(vec![
        ExcludePattern::GlobPattern("*.tmp".to_string()),
        ExcludePattern::BaseName("node_modules".to_string()),
    ])
    .unwrap()
    .unwrap();

    assert!(!should_exclude(&file_path, ROOT, &rules, &file_path, false));
}

#[test]
fn test_exclude_directory_with_slash_glob() {
    let dir_path = format!("{}/build", ROOT);
    let rules = build_exclude_rules(vec![ExcludePattern::GlobPattern("build/".to_string())]).unwrap().unwrap();

    assert!(should_exclude(&dir_path, ROOT, &rules, &dir_path, true));
}

#[test]
fn slash_glob_does_not_match_a_file_of_that_name() {
    let path = format!("{}/build", ROOT);
    let rules = build_exclude_rules(vec![ExcludePattern::GlobPattern("build/".to_string())]).unwrap().unwrap();
    assert!(!should_exclude(&path, ROOT, &rules, &path, false));
}

#[test]
fn absolute_rule_covers_descendants_but_not_siblings() {
    let rules = build_exclude_rules(vec![ExcludePattern::AbsolutePath("/data/cache".to_string())]).unwrap().unwrap();
    assert!(should_exclude("/data/cache/x/y.bin", "/data", &rules, "/data/cache/x/y.bin", false));
    assert!(!should_exclude("/data/cached.txt", "/data", &rules, "/data/cached.txt", false));
}

#[test]
fn basename_rule_reaches_deep_descendants() {
    let rules = build_exclude_rules(vec![ExcludePattern::BaseName("target".to_string())]).unwrap().unwrap();
    assert!(should_exclude("/w/proj/target/debug/deps/a.o", "/w/proj", &rules, "/w/proj/target/debug/deps/a.o", false));
    assert!(!should_exclude("/w/proj/src/target.rs", "/w/proj", &rules, "/w/proj/src/target.rs", false));
}

#[test]
fn patterns_are_classified_after_trimming() {
    assert!(matches!(ExcludePattern::from_string("  /abs/path "), ExcludePattern::AbsolutePath(p) if p == "/abs/path"));
    assert!(matches!(ExcludePattern::from_string("*.log"), ExcludePattern::GlobPattern(p) if p == "*.log"));
    assert!(matches!(ExcludePattern::from_string("a/b"), ExcludePattern::GlobPattern(p) if p == "a/b"));
    assert!(matches!(ExcludePattern::from_string(" node_modules\t"), ExcludePattern::BaseName(p) if p == "node_modules"));
}

#[test]
fn pattern_list_skips_empty_entries() {
    let v = parse_exclude_pattern_list("  *.log , node_modules ,, /tmp/x ").unwrap();
    assert_eq!(v.len(), 3);
    assert!(matches!(&v[0], ExcludePattern::GlobPattern(p) if p == "*.log"));
    assert!(matches!(&v[1], ExcludePattern::BaseName(p) if p == "node_modules"));
    assert!(matches!(&v[2], ExcludePattern::AbsolutePath(p) if p == "/tmp/x"));
}

#[test]
fn pattern_list_refuses_parent_references() {
    let r = parse_exclude_pattern_list("ok, ../secret/*");
    assert!(matches!(r, Err(ExcludeError::InvalidPattern(p)) if p == "../secret/*"));
}

#[test]
fn invalid_glob_is_reported() {
    let r = build_exclude_rules(vec![
        ExcludePattern::BaseName("a".to_string()),
        ExcludePattern::GlobPattern("[unclosed".to_string()),
    ]);
    assert!(matches!(r, Err(ExcludeError::InvalidGlob(p)) if p == "[unclosed"));
}

#[test]
fn no_patterns_give_no_rules() {
    assert!(matches!(build_exclude_rules(Vec::new()), Ok(None)));
}
