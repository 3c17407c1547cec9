use cpx::backup::BackupMode;
use cpx::executor::{
    creation_order, exit_code, file_concurrency, hardlink_action, link_leaders, show_overall_progress, shown_errors,
    summarize, symlink_target, LinkAction, LinkError, TaskOutcome,
};
use cpx::options::{CopyOptions, ReflinkMode, SymlinkMode};
use cpx::plan::{FileTask, SymlinkKind, SymlinkTask};
use cpx::preserve::PreserveAttr;

fn options(concurrency: usize, interactive: bool) -> CopyOptions {
    CopyOptions {
        recursive: false,
        concurrency,
        resume: false,
        force: false,
        interactive,
        parents: false,
        preserve: PreserveAttr::default(),
        attributes_only: false,
        remove_destination: false,
        symlink: SymlinkMode::Off,
        hard_link: false,
        backup: BackupMode::Off,
        reflink: ReflinkMode::Never,
    }
}

fn task(src: &str, group: Option<u64>) -> FileTask {
    FileTask { source: src.to_string(), destination: format!("/o{}", src), size: 1, inode_group: group }
}

fn link(target: &str, destination: &str, kind: SymlinkKind) -> SymlinkTask {
    SymlinkTask { source: target.to_string(), target: target.to_string(), destination: destination.to_string(), kind }
}

#[test]
fn concurrency_degree() {
    assert_eq!(file_concurrency(&options(3, false)), 3);
    assert_eq!(file_concurrency(&options(3, true)), 1);
    assert_eq!(file_concurrency(&options(0, false)), 1);
    assert!(show_overall_progress(10, false));
    assert!(!show_overall_progress(0, false));
    assert!(!show_overall_progress(10, true));
}

#[test]
fn directories_shallowest_first_without_duplicates() {
    let dirs: Vec<String> = vec!["/d/a/b", "/d", "/d/a", "/d", "/d/c"].into_iter().map(String::from).collect();
    let order = creation_order(&dirs);
    assert_eq!(order.len(), 4);
    assert_eq!(order[0], "/d".to_string());
    assert_eq!(order[3], "/d/a/b".to_string());
    assert!(order.contains(&"/d/c".to_string()));
}

#[test]
fn inode_groups_share_one_leader() {
    let files = vec![task("/a", None), task("/b", Some(5)), task("/c", Some(9)), task("/d", Some(5)), task("/e", Some(5))];
    let leaders = link_leaders(&files);
    assert_eq!(leaders, vec![None, None, None, Some(1), Some(1)]);
}

#[test]
fn hardlink_decisions() {
    assert_eq!(hardlink_action(false, true, false, false, false), LinkAction::Link);
    assert_eq!(hardlink_action(true, true, false, true, false), LinkAction::Skip);
    assert_eq!(hardlink_action(true, false, false, true, false), LinkAction::RemoveThenLink);
    assert_eq!(hardlink_action(true, false, false, false, true), LinkAction::RemoveThenLink);
    assert_eq!(hardlink_action(true, false, false, false, false), LinkAction::AlreadyExists);
}

#[test]
fn relative_symlink_targets() {
    let t = link("/tmp/t/source.txt", "/tmp/t/links/link.txt", SymlinkKind::RelativeToSource);
    assert_eq!(symlink_target(&t, "").unwrap(), "../source.txt".to_string());
    let t = link("/tmp/t/a/b/c/source.txt", "/tmp/t/x/y/z/link.txt", SymlinkKind::RelativeToSource);
    assert_eq!(symlink_target(&t, "").unwrap(), "../../../a/b/c/source.txt".to_string());
    let t = link("rel/source.txt", "/abs/link.txt", SymlinkKind::RelativeToSource);
    assert_eq!(symlink_target(&t, ""), Err(LinkError::NoRelativePath));
    let t = link("/x", "/", SymlinkKind::RelativeToSource);
    assert_eq!(symlink_target(&t, ""), Err(LinkError::InvalidDestination));
}

#[test]
fn exact_and_absolute_symlink_targets() {
    let t = link("../verbatim", "/o/l", SymlinkKind::PreserveExact);
    assert_eq!(symlink_target(&t, "/ignored").unwrap(), "../verbatim".to_string());
    let t = link("src.txt", "/o/l", SymlinkKind::AbsoluteToSource);
    assert_eq!(symlink_target(&t, "/home/u/src.txt").unwrap(), "/home/u/src.txt".to_string());
}

#[test]
fn run_summary_and_exit_codes() {
    let results = vec![
        TaskOutcome::Completed,
        TaskOutcome::Failed("disk full".to_string()),
        TaskOutcome::Skipped,
        TaskOutcome::Completed,
        TaskOutcome::Failed("denied".to_string()),
    ];
    let report = summarize(&results);
    assert!(!report.interrupted);
    assert_eq!(report.completed, 2);
    assert_eq!(report.errors, vec!["File 1: disk full".to_string(), "File 4: denied".to_string()]);
    assert_eq!(exit_code(&report), 1);
    let (shown, more) = shown_errors(&report.errors, 1);
    assert_eq!(shown, vec!["File 1: disk full".to_string()]);
    assert_eq!(more, 1);
}

#[test]
fn interruption_takes_priority() {
    let results = vec![TaskOutcome::Failed("x".to_string()), TaskOutcome::Interrupted, TaskOutcome::Completed];
    let report = summarize(&results);
    assert!(report.interrupted);
    assert_eq!(exit_code(&report), 130);
    let ok = summarize(&vec![TaskOutcome::Completed]);
    assert_eq!(exit_code(&ok), 0);
}
