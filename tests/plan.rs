use cpx::backup::BackupMode;
use cpx::exclude::{build_exclude_rules, parse_exclude_pattern_list, ExcludeRules};
use cpx::options::{CopyOptions, ReflinkMode, SymlinkMode};
use cpx::plan::{
    entry_destination_of, multi_file_destination, HardlinkTask, SymlinkTask,
    directory_destination, file_destination, plan_copy, preprocess_directory, preprocess_file, preprocess_multiple,
    CopyPlan, DestStatus, EntryKind, PlanError, SourceEntry, SourceInput, SymlinkKind,
};
use cpx::preserve::PreserveAttr;

fn options() -> CopyOptions {
    CopyOptions {
        recursive: true,
        concurrency: 4,
        resume: false,
        force: false,
        interactive: false,
        parents: false,
        preserve: PreserveAttr::default(),
        attributes_only: false,
        remove_destination: false,
        symlink: SymlinkMode::Off,
        hard_link: false,
        backup: BackupMode::Off,
        reflink: ReflinkMode::Never,
    }
}

fn entry(path: &str, kind: EntryKind, size: u64) -> SourceEntry {
    SourceEntry {
        path: path.to_string(),
        canonical: path.to_string(),
        kind,
        size,
        inode: 0,
        links: 1,
        link_target: String::new(),
        up_to_date: false,
    }
}

fn file(path: &str, size: u64) -> SourceEntry {
    entry(path, EntryKind::File, size)
}

fn dir(path: &str) -> SourceEntry {
    entry(path, EntryKind::Directory, 4096)
}

fn no_rules() -> Option<ExcludeRules> {
    None
}

#[test]
fn test_copy_plan_sort_by_size() {
    let mut plan = CopyPlan::new();

    plan.add_file("small.txt".to_string(), "dest1".to_string(), 100);
    plan.add_file("large.txt".to_string(), "dest2".to_string(), 1000);
    plan.add_file("medium.txt".to_string(), "dest3".to_string(), 500);

    plan.sort_by_size_desc();

    assert_eq!(plan.files[0].size, 1000);
    assert_eq!(plan.files[1].size, 500);
    assert_eq!(plan.files[2].size, 100);
}

#[test]
fn test_preprocess_file_single() {
    let source = file("/tmp/t/source.txt", 4);
    let plan = preprocess_file(&source, "/tmp/t/dest.txt", DestStatus::Missing, &options()).unwrap();

    assert_eq!(plan.total_files, 1);
    assert_eq!(plan.files.len(), 1);
    assert_eq!(plan.files[0].source, "/tmp/t/source.txt".to_string());
    assert_eq!(plan.files[0].destination, "/tmp/t/dest.txt".to_string());
}

#[test]
fn test_preprocess_file_with_resume_skip() {
    let mut source = file("/tmp/t/source.txt", 12);
    source.up_to_date = true;
    let mut o = options();
    o.resume = true;
    let plan = preprocess_file(&source, "/tmp/t/dest.txt", DestStatus::File, &o).unwrap();

    assert_eq!(plan.total_files, 0);
    assert_eq!(plan.skipped_files, 1);
    assert_eq!(plan.files.len(), 0);
}

#[test]
fn test_preprocess_directory() {
    let entries = vec![
        file("/tmp/t/source/file1.txt", 8),
        file("/tmp/t/source/file2.txt", 8),
        dir("/tmp/t/source/subdir"),
        file("/tmp/t/source/subdir/file3.txt", 8),
    ];
    let plan = preprocess_directory("/tmp/t/source", "/tmp/t/dest", &entries, &options(), &no_rules()).unwrap();

    assert_eq!(plan.total_files, 3);
    assert!(plan.directories.len() >= 2);
}

#[test]
fn test_preprocess_multiple_files() {
    let sources = vec![
        SourceInput { root: file("/tmp/t/file1.txt", 8), entries: vec![] },
        SourceInput { root: file("/tmp/t/file2.txt", 8), entries: vec![] },
    ];
    let plan = preprocess_multiple(&sources, "/tmp/t/dest", DestStatus::Directory, &options(), &no_rules()).unwrap();

    assert_eq!(plan.total_files, 2);
    assert_eq!(plan.files.len(), 2);
}

#[test]
fn test_preprocess_multiple_with_directory() {
    let sources = vec![
        SourceInput { root: file("/tmp/t/file1.txt", 8), entries: vec![] },
        SourceInput { root: dir("/tmp/t/source"), entries: vec![file("/tmp/t/source/file2.txt", 8)] },
    ];
    let plan = preprocess_multiple(&sources, "/tmp/t/dest", DestStatus::Directory, &options(), &no_rules()).unwrap();

    assert_eq!(plan.total_files, 2);
}

#[test]
fn test_preprocess_file_with_parents() {
    let mut o = options();
    o.parents = true;
    let source = file("/tmp/t/subdir/file.txt", 7);
    let plan = preprocess_file(&source, "/tmp/t/dest", DestStatus::Directory, &o).unwrap();

    assert_eq!(plan.total_files, 1);
    assert!(plan.files[0].destination.contains("subdir"));
    assert_eq!(plan.files[0].destination, "/tmp/t/dest/tmp/t/subdir/file.txt".to_string());
    assert_eq!(plan.directories, vec!["/tmp/t/dest/tmp/t/subdir".to_string()]);
}

#[test]
fn plan_totals_match_the_files() {
    let entries = vec![
        file("/s/a", 10),
        dir("/s/d"),
        file("/s/d/b", 32),
        file("/s/d/c", 0),
        file("/s/e", 7),
    ];
    let plan = preprocess_directory("/s", "/out", &entries, &options(), &no_rules()).unwrap();
    let sum: u64 = plan.files.iter().map(|f| f.size).sum();
    assert_eq!(plan.total_size, sum);
    assert_eq!(plan.total_size, 49);
    assert_eq!(plan.total_files, plan.files.len());
    let sizes: Vec<u64> = plan.files.iter().map(|f| f.size).collect();
    assert_eq!(sizes, vec![32, 10, 7, 0]);
    assert_eq!(plan.directories, vec!["/out/s".to_string(), "/out/s/d".to_string()]);
}

#[test]
fn single_zero_byte_file_is_planned() {
    let plan = preprocess_file(&file("/in/empty.bin", 0), "/out/empty.bin", DestStatus::Missing, &options()).unwrap();
    assert_eq!(plan.files.len(), 1);
    assert_eq!(plan.files[0].size, 0);
    assert_eq!(plan.total_size, 0);
    assert_eq!(plan.files[0].destination, "/out/empty.bin".to_string());
}

#[test]
fn recursive_copy_with_log_exclusion() {
    let rules = build_exclude_rules(parse_exclude_pattern_list("*.log").unwrap()).unwrap();
    let entries = vec![
        file("/src/proj/app.txt", 3),
        file("/src/proj/app.log", 3),
        dir("/src/proj/sub"),
        file("/src/proj/sub/debug.log", 5),
        file("/src/proj/sub/notes.md", 5),
    ];
    let plan = preprocess_directory("/src/proj", "/dst", &entries, &options(), &rules).unwrap();
    let dests: Vec<String> = plan.files.iter().map(|f| f.destination.clone()).collect();
    assert_eq!(plan.total_files, 2);
    assert!(dests.iter().all(|d| !d.ends_with(".log")));
    assert!(dests.contains(&"/dst/proj/app.txt".to_string()));
    assert!(dests.contains(&"/dst/proj/sub/notes.md".to_string()));
}

#[test]
fn excluded_directory_prunes_descendants_in_any_order() {
    let rules = build_exclude_rules(parse_exclude_pattern_list("cache").unwrap()).unwrap();
    let entries = vec![
        file("/r/cache/deep/x.bin", 9),
        file("/r/keep.txt", 1),
        dir("/r/cache"),
        dir("/r/cache/deep"),
    ];
    let plan = preprocess_directory("/r", "/o", &entries, &options(), &rules).unwrap();
    assert_eq!(plan.files.len(), 1);
    assert_eq!(plan.files[0].source, "/r/keep.txt".to_string());
    assert_eq!(plan.directories, vec!["/o/r".to_string()]);
}

#[test]
fn glob_excluded_directory_prunes_descendants() {
    let rules = build_exclude_rules(parse_exclude_pattern_list("build/").unwrap()).unwrap();
    let entries = vec![dir("/p/build"), file("/p/build/out.o", 2), file("/p/main.c", 2)];
    let plan = preprocess_directory("/p", "/o", &entries, &options(), &rules).unwrap();
    assert_eq!(plan.files.len(), 1);
    assert_eq!(plan.files[0].source, "/p/main.c".to_string());
}

#[test]
fn resume_rerun_transfers_nothing() {
    let mut o = options();
    o.resume = true;
    let mut entries = vec![file("/s/a", 10), dir("/s/d"), file("/s/d/b", 32)];
    for e in entries.iter_mut() {
        e.up_to_date = true;
    }
    let plan = preprocess_directory("/s", "/out", &entries, &o, &no_rules()).unwrap();
    assert_eq!(plan.files.len(), 0);
    assert_eq!(plan.total_size, 0);
    assert_eq!(plan.skipped_files, 2);
    assert_eq!(plan.skipped_size, 42);
}

#[test]
fn identical_older_sources_against_existing_destination_are_skipped() {
    let mut o = options();
    o.resume = true;
    let mut a = file("/one/data.txt", 5);
    let mut b = file("/two/data.txt", 5);
    a.up_to_date = true;
    b.up_to_date = true;
    let sources = vec![SourceInput { root: a, entries: vec![] }, SourceInput { root: b, entries: vec![] }];
    let plan = preprocess_multiple(&sources, "/dst", DestStatus::Directory, &o, &no_rules()).unwrap();
    assert_eq!(plan.skipped_files, 2);
    assert_eq!(plan.files.len(), 0);
}

#[test]
fn ten_equal_files_get_ten_destinations() {
    let sources: Vec<SourceInput> = (0..10)
        .map(|i| SourceInput { root: file(&format!("/in/f{}.dat", i), 100), entries: vec![] })
        .collect();
    let plan = preprocess_multiple(&sources, "/out", DestStatus::Directory, &options(), &no_rules()).unwrap();
    assert_eq!(plan.total_files, 10);
    assert_eq!(plan.total_size, 1000);
    let mut dests: Vec<String> = plan.files.iter().map(|f| f.destination.clone()).collect();
    dests.sort();
    dests.dedup();
    assert_eq!(dests.len(), 10);
    assert!(dests.contains(&"/out/f7.dat".to_string()));
}

#[test]
fn link_modes_turn_files_into_link_tasks() {
    let mut o = options();
    o.symlink = SymlinkMode::Relative;
    let plan = preprocess_file(&file("/a/x", 1), "/b/y", DestStatus::Missing, &o).unwrap();
    assert_eq!(plan.files.len(), 0);
    assert_eq!(plan.symlinks.len(), 1);
    assert_eq!(plan.symlinks[0].kind, SymlinkKind::RelativeToSource);
    assert_eq!(plan.symlinks[0].target, "/a/x".to_string());

    let mut o = options();
    o.hard_link = true;
    let plan = preprocess_file(&file("/a/x", 1), "/b/y", DestStatus::Missing, &o).unwrap();
    assert_eq!(plan.hardlinks.len(), 1);
    assert_eq!(plan.hardlinks[0].destination, "/b/y".to_string());
}

#[test]
fn unfollowed_symlinks_keep_their_text() {
    let mut link = entry("/s/l", EntryKind::Symlink, 0);
    link.link_target = "../elsewhere".to_string();
    let plan = preprocess_directory("/s", "/o", &vec![link], &options(), &no_rules()).unwrap();
    assert_eq!(plan.symlinks.len(), 1);
    assert_eq!(plan.symlinks[0].kind, SymlinkKind::PreserveExact);
    assert_eq!(plan.symlinks[0].target, "../elsewhere".to_string());
    assert_eq!(plan.symlinks[0].destination, "/o/s/l".to_string());
}

#[test]
fn hard_linked_sources_get_an_inode_group_under_preserve_links() {
    let mut o = options();
    o.preserve = PreserveAttr::all();
    let mut a = file("/s/a", 3);
    a.links = 2;
    a.inode = 77;
    let b = file("/s/b", 3);
    let plan = preprocess_directory("/s", "/o", &vec![a, b], &o, &no_rules()).unwrap();
    let groups: Vec<Option<u64>> = plan.files.iter().map(|f| f.inode_group).collect();
    assert!(groups.contains(&Some(77)));
    assert!(groups.contains(&None));
}

#[test]
fn planning_errors() {
    let o = options();
    assert_eq!(preprocess_file(&dir("/d"), "/o", DestStatus::Missing, &o).err(), Some(PlanError::IsDirectory));
    let mut p = options();
    p.parents = true;
    assert_eq!(file_destination("/a/b", "/o", DestStatus::Missing, true), Err(PlanError::DestinationMissing));
    assert_eq!(preprocess_file(&file("/a/b", 1), "/o", DestStatus::File, &p).err(), Some(PlanError::DestinationNotDirectory));
    assert_eq!(directory_destination("/", "/o", false), Err(PlanError::InvalidSource));
    assert_eq!(
        preprocess_multiple(&vec![], "/o", DestStatus::File, &o, &no_rules()).err(),
        Some(PlanError::DestinationNotDirectory)
    );
    let mut nr = options();
    nr.recursive = false;
    let src = SourceInput { root: dir("/d"), entries: vec![] };
    assert_eq!(plan_copy(&src, "/o", DestStatus::Missing, &nr, &no_rules()).err(), Some(PlanError::DirectoryNotRecursive));
    assert_eq!(plan_copy(&src, "/o", DestStatus::File, &o, &no_rules()).err(), Some(PlanError::DestinationIsFile));
}

#[test]
fn file_into_existing_directory_keeps_its_name() {
    assert_eq!(file_destination("/a/b.txt", "/o", DestStatus::Directory, false), Ok("/o/b.txt".to_string()));
    assert_eq!(file_destination("/a/b.txt", "/o/c.txt", DestStatus::File, false), Ok("/o/c.txt".to_string()));
}

#[test]
fn destinations_of_entries_and_sources() {
    assert_eq!(entry_destination_of("/src/p", "/dst/p", "/src/p/a/b.txt"), "/dst/p/a/b.txt".to_string());
    assert_eq!(multi_file_destination("/x/y.txt", "/d", false), Ok("/d/y.txt".to_string()));
    assert_eq!(multi_file_destination("/x/y.txt", "/d", true), Ok("/d/x/y.txt".to_string()));
    assert_eq!(multi_file_destination("/", "/d", false), Err(PlanError::InvalidSource));
    assert_eq!(directory_destination("/x/src", "/d", false), Ok("/d/src".to_string()));
    assert_eq!(directory_destination("/x/src", "/d", true), Ok("/d/x/src".to_string()));
}

#[test]
fn plan_counters_follow_each_addition() {
    let mut plan = CopyPlan::new();
    plan.add_grouped_file("/a".to_string(), "/b".to_string(), 5, Some(3));
    plan.mark_skipped(7);
    plan.add_directory("/d".to_string());
    plan.add_symlink(SymlinkTask {
        source: "/s".to_string(),
        target: "t".to_string(),
        destination: "/l".to_string(),
        kind: SymlinkKind::PreserveExact,
    });
    plan.add_hardlink(HardlinkTask { source: "/h".to_string(), destination: "/k".to_string() });
    assert_eq!(plan.total_size, 5);
    assert_eq!(plan.total_files, 1);
    assert_eq!(plan.skipped_files, 1);
    assert_eq!(plan.skipped_size, 7);
    assert_eq!(plan.files[0].inode_group, Some(3));
    assert_eq!(plan.directories.len(), 1);
    assert_eq!(plan.symlinks.len(), 1);
    assert_eq!(plan.hardlinks.len(), 1);
}
