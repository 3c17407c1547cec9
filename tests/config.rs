use cpx::backup::BackupMode;
use cpx::config::{backup_mode_named, reflink_mode_named, symlink_mode_named, Config};
use cpx::options::{ReflinkMode, SymlinkMode};
use cpx::preserve::PreserveAttr;
use cpx::progress::{overall_template, ProgressBarStyle};

#[test]
fn config_defaults() {
    let c = Config::default();
    assert!(c.exclude.patterns.is_empty());
    assert_eq!(c.copy.parallel, 4);
    assert!(!c.copy.recursive);
    assert_eq!(c.preserve.mode, "default");
    assert_eq!(c.backup.mode, "none");
    assert_eq!(c.reflink.mode, "");
    assert_eq!(c.symlink.follow, "");
    assert_eq!(c.progress.style, "default");
    assert_eq!(c.progress.bar.filled, "█");
    assert_eq!(c.progress.bar.empty, "░");
    assert_eq!(c.progress.color.message, "white");
}

#[test]
fn mode_names() {
    assert_eq!(backup_mode_named("numbered"), Some(BackupMode::Numbered));
    assert_eq!(backup_mode_named("none"), Some(BackupMode::Off));
    assert_eq!(backup_mode_named("t"), None);
    assert_eq!(reflink_mode_named(""), Some(ReflinkMode::Never));
    assert_eq!(reflink_mode_named("always"), Some(ReflinkMode::Always));
    assert_eq!(symlink_mode_named("relative"), Some(SymlinkMode::Relative));
    assert_eq!(symlink_mode_named("sideways"), None);
}

#[test]
fn preserve_attribute_lists() {
    assert_eq!(PreserveAttr::from_string("").unwrap(), PreserveAttr::default());
    assert_eq!(PreserveAttr::from_string("all").unwrap(), PreserveAttr::all());
    let a = PreserveAttr::from_string("mode, timestamps").unwrap();
    assert!(a.mode && a.timestamps && !a.ownership && !a.links && !a.xattr && !a.context);
    assert_eq!(PreserveAttr::from_string("links,all").unwrap(), PreserveAttr::all());
    assert_eq!(PreserveAttr::from_string("mode,,xattr").unwrap().xattr, true);
    assert_eq!(PreserveAttr::from_string("mode,bogus").unwrap_err(), "Unknown attribute: bogus".to_string());
    assert_eq!(PreserveAttr::none().any_requested(), false);
}

#[test]
fn progress_styles() {
    assert_eq!(ProgressBarStyle::named("minimal"), ProgressBarStyle::Minimal);
    assert_eq!(ProgressBarStyle::named("detailed"), ProgressBarStyle::Detailed);
    assert_eq!(ProgressBarStyle::named("fancy"), ProgressBarStyle::Default);
    assert_eq!(ProgressBarStyle::default(), ProgressBarStyle::Default);
    assert_eq!(ProgressBarStyle::Minimal.template(), "{percent}%\n[{wide_bar}]");
    assert_eq!(ProgressBarStyle::Detailed.progress_chars(), "=>- ");
    assert!(overall_template().starts_with("{msg}"));
}
