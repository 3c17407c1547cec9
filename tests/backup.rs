use cpx::backup::{add_suffix, find_max_backup_number, format_numbered_backup, generate_backup_path, BackupError, BackupMode};

fn names(v: &[&str]) -> Vec<String> {
    v.iter().map(|s| s.to_string()).collect()
}

#[test]
fn test_add_suffix() {
    let result = add_suffix("/tmp/file.txt");
    assert_eq!(result, "/tmp/file.txt~".to_string());
}

#[test]
fn test_format_numbered_backup() {
    let result = format_numbered_backup("/tmp/file.txt", 1);
    assert_eq!(result, "/tmp/file.txt.~1~".to_string());
}

#[test]
fn test_find_max_backup_number_no_backups() {
    let max = find_max_backup_number("test.txt", &names(&["test.txt"]));
    assert_eq!(max, 0);
}

#[test]
fn test_find_max_backup_number_with_backups() {
    let siblings = names(&["test.txt", "test.txt.~1~", "test.txt.~3~", "test.txt.~2~"]);
    let max = find_max_backup_number("test.txt", &siblings);
    assert_eq!(max, 3);
}

#[test]
fn test_generate_backup_path_simple() {
    let file = "/tmp/cpx_backup/test.txt";
    let backup = generate_backup_path(file, BackupMode::Simple, &names(&[])).unwrap();
    assert_eq!(backup, add_suffix(file));
}

#[test]
fn test_generate_backup_path_numbered() {
    let file = "/tmp/cpx_backup/test.txt";
    let mut siblings = names(&[]);
    let backup1 = generate_backup_path(file, BackupMode::Numbered, &siblings).unwrap();
    assert!(backup1.contains(".~1~"));

    siblings.push("test.txt.~1~".to_string());

    let backup2 = generate_backup_path(file, BackupMode::Numbered, &siblings).unwrap();
    assert!(backup2.contains(".~2~"));
}

#[test]
fn test_generate_backup_path_existing_no_numbered() {
    let file = "/tmp/cpx_backup/test.txt";
    let backup = generate_backup_path(file, BackupMode::Existing, &names(&["test.txt"])).unwrap();
    assert_eq!(backup, add_suffix(file));
}

#[test]
fn test_generate_backup_path_existing_with_numbered() {
    let file = "/tmp/cpx_backup/test.txt";
    let backup = generate_backup_path(file, BackupMode::Existing, &names(&["test.txt", "test.txt.~1~"])).unwrap();
    assert!(backup.contains(".~2~"));
}

#[test]
fn numbered_backups_count_up_from_one() {
    let file = "/srv/data/report.csv";
    let mut siblings = names(&["report.csv"]);
    for expected in 1..=4u32 {
        let path = generate_backup_path(file, BackupMode::Numbered, &siblings).unwrap();
        assert_eq!(path, format!("/srv/data/report.csv.~{}~", expected));
        siblings.push(format!("report.csv.~{}~", expected));
    }
}

#[test]
fn backup_scan_ignores_foreign_and_malformed_names() {
    let siblings = names(&[
        "report.csv.~7~",
        "other.csv.~9~",
        "report.csv.~x~",
        "report.csv.~~",
        "report.csv.~+12~",
        "report.csv.~99999999999~",
        "report.csv.~",
    ]);
    assert_eq!(find_max_backup_number("report.csv", &siblings), 12);
}

#[test]
fn backup_mode_off_keeps_the_path() {
    let p = generate_backup_path("/a/b", BackupMode::Off, &names(&[])).unwrap();
    assert_eq!(p, "/a/b".to_string());
}

#[test]
fn numbered_backup_of_a_nameless_path_is_refused() {
    assert_eq!(generate_backup_path("/", BackupMode::Numbered, &names(&[])), Err(BackupError::InvalidFileName));
    assert_eq!(generate_backup_path("/a/..", BackupMode::Existing, &names(&[])), Err(BackupError::InvalidFileName));
}

#[test]
fn numbered_backup_after_the_largest_u32() {
    let siblings = names(&["f.~4294967295~"]);
    assert_eq!(generate_backup_path("f", BackupMode::Numbered, &siblings).unwrap(), "f.~4294967296~".to_string());
}
