//! The configuration file's records, with their defaults, and the mode
//! names they hold.
use vstd::prelude::*;
use crate::text::{chars_of, string_of, same_chars};
use crate::backup::BackupMode;
use crate::options::{ReflinkMode, SymlinkMode};

verus! {

/// The text of a literal, as an owned string.
fn owned(s: &str) -> (r: String)
    ensures
        r@ == s@,
{
    string_of(&chars_of(s))
}

/// Whether `s` spells `w`.
fn is_name(s: &str, w: &str) -> (r: bool)
    ensures
        r == (s@ == w@),
{
    same_chars(&chars_of(s), &chars_of(w))
}

#[derive(Debug, Clone)]
pub struct ExcludeConfig {
    pub patterns: Vec<String>,
}

#[derive(Debug, Clone)]
pub struct CopyConfig {
    pub parallel: usize,
    pub recursive: bool,
    pub parents: bool,
    pub force: bool,
    pub interactive: bool,
    pub resume: bool,
    pub attributes_only: bool,
    pub remove_destination: bool,
}

#[derive(Debug, Clone)]
pub struct PreserveConfig {
    pub mode: String,
}

#[derive(Debug, Clone)]
pub struct SymlinkConfig {
    /// `auto`, `absolute` or `relative`; empty for none.
    pub mode: String,
    /// `never`, `always` or `command-line`; empty for the default.
    pub follow: String,
}

#[derive(Debug, Clone)]
pub struct BackupConfig {
    /// `none`, `simple`, `numbered` or `existing`.
    pub mode: String,
}

#[derive(Debug, Clone)]
pub struct ReflinkConfig {
    /// `auto`, `always` or `never`; empty for none.
    pub mode: String,
}

#[derive(Debug, Clone)]
pub struct ProgressConfig {
    pub style: String,
    pub bar: ProgressBarConfig,
    pub color: ProgressColorConfig,
}

#[derive(Debug, Clone)]
pub struct ProgressBarConfig {
    pub filled: String,
    pub empty: String,
    pub head: String,
}

#[derive(Debug, Clone)]
pub struct ProgressColorConfig {
    pub bar: String,
    pub message: String,
}

#[derive(Debug, Clone)]
pub struct Config {
    pub exclude: ExcludeConfig,
    pub copy: CopyConfig,
    pub preserve: PreserveConfig,
    pub symlink: SymlinkConfig,
    pub backup: BackupConfig,
    pub reflink: ReflinkConfig,
    pub progress: ProgressConfig,
}

impl Default for ExcludeConfig {
    fn default() -> (r: ExcludeConfig)
        ensures
            r.patterns@.len() == 0,
    {
        ExcludeConfig { patterns: Vec::new() }
    }
}

impl Default for CopyConfig {
    fn default() -> (r: CopyConfig)
        ensures
            r.parallel == 4,
            !r.recursive && !r.parents && !r.force && !r.interactive,
            !r.resume && !r.attributes_only && !r.remove_destination,
    {
        CopyConfig {
            parallel: 4,
            recursive: false,
            parents: false,
            force: false,
            interactive: false,
            resume: false,
            attributes_only: false,
            remove_destination: false,
        }
    }
}

impl Default for PreserveConfig {
    fn default() -> (r: PreserveConfig)
        ensures
            r.mode@ == "default"@,
    {
        PreserveConfig { mode: owned("default") }
    }
}

impl Default for SymlinkConfig {
    fn default() -> (r: SymlinkConfig)
        ensures
            r.mode@ == ""@,
            r.follow@ == ""@,
    {
        SymlinkConfig { mode: owned(""), follow: owned("") }
    }
}

impl Default for BackupConfig {
    fn default() -> (r: BackupConfig)
        ensures
            r.mode@ == "none"@,
    {
        BackupConfig { mode: owned("none") }
    }
}

impl Default for ReflinkConfig {
    fn default() -> (r: ReflinkConfig)
        ensures
            r.mode@ == ""@,
    {
        ReflinkConfig { mode: owned("") }
    }
}

impl Default for ProgressBarConfig {
    fn default() -> (r: ProgressBarConfig)
        ensures
            r.filled@ == "█"@,
            r.empty@ == "░"@,
            r.head@ == "░"@,
    {
        ProgressBarConfig { filled: owned("█"), empty: owned("░"), head: owned("░") }
    }
}

impl Default for ProgressColorConfig {
    fn default() -> (r: ProgressColorConfig)
        ensures
            r.bar@ == "white"@,
            r.message@ == "white"@,
    {
        ProgressColorConfig { bar: owned("white"), message: owned("white") }
    }
}

impl Default for ProgressConfig {
    fn default() -> (r: ProgressConfig)
        ensures
            r.style@ == "default"@,
            r.bar.filled@ == "█"@,
            r.bar.empty@ == "░"@,
            r.bar.head@ == "░"@,
            r.color.bar@ == "white"@,
            r.color.message@ == "white"@,
    {
        ProgressConfig {
            style: owned("default"),
            bar: ProgressBarConfig::default(),
            color: ProgressColorConfig::default(),
        }
    }
}

impl Default for Config {
    fn default() -> (r: Config)
        ensures
            r.exclude.patterns@.len() == 0,
            r.copy.parallel == 4,
            !r.copy.recursive && !r.copy.parents && !r.copy.force && !r.copy.interactive,
            !r.copy.resume && !r.copy.attributes_only && !r.copy.remove_destination,
            r.preserve.mode@ == "default"@,
            r.symlink.mode@ == ""@ && r.symlink.follow@ == ""@,
            r.backup.mode@ == "none"@,
            r.reflink.mode@ == ""@,
            r.progress.style@ == "default"@,
            r.progress.bar.filled@ == "█"@ && r.progress.bar.empty@ == "░"@ && r.progress.bar.head@ == "░"@,
            r.progress.color.bar@ == "white"@ && r.progress.color.message@ == "white"@,
    {
        Config {
            exclude: ExcludeConfig::default(),
            copy: CopyConfig::default(),
            preserve: PreserveConfig::default(),
            symlink: SymlinkConfig::default(),
            backup: BackupConfig::default(),
            reflink: ReflinkConfig::default(),
            progress: ProgressConfig::default(),
        }
    }
}

/// The backup mode a configuration name stands for.
pub fn backup_mode_named(name: &str) -> (r: Option<BackupMode>)
    ensures
        r == (if name@ == "none"@ {
            Some(BackupMode::Off)
        } else if name@ == "simple"@ {
            Some(BackupMode::Simple)
        } else if name@ == "numbered"@ {
            Some(BackupMode::Numbered)
        } else if name@ == "existing"@ {
            Some(BackupMode::Existing)
        } else {
            None::<BackupMode>
        }),
{
    if is_name(name, "none") {
        Some(BackupMode::Off)
    } else if is_name(name, "simple") {
        Some(BackupMode::Simple)
    } else if is_name(name, "numbered") {
        Some(BackupMode::Numbered)
    } else if is_name(name, "existing") {
        Some(BackupMode::Existing)
    } else {
        None
    }
}

/// The reflink mode a configuration name stands for; empty means never.
pub fn reflink_mode_named(name: &str) -> (r: Option<ReflinkMode>)
    ensures
        r == (if name@ == ""@ || name@ == "never"@ {
            Some(ReflinkMode::Never)
        } else if name@ == "auto"@ {
            Some(ReflinkMode::Auto)
        } else if name@ == "always"@ {
            Some(ReflinkMode::Always)
        } else {
            None::<ReflinkMode>
        }),
{
    if is_name(name, "") || is_name(name, "never") {
        Some(ReflinkMode::Never)
    } else if is_name(name, "auto") {
        Some(ReflinkMode::Auto)
    } else if is_name(name, "always") {
        Some(ReflinkMode::Always)
    } else {
        None
    }
}

/// The symbolic-link mode a configuration name stands for; empty means off.
pub fn symlink_mode_named(name: &str) -> (r: Option<SymlinkMode>)
    ensures
        r == (if name@ == ""@ {
            Some(SymlinkMode::Off)
        } else if name@ == "auto"@ {
            Some(SymlinkMode::Auto)
        } else if name@ == "absolute"@ {
            Some(SymlinkMode::Absolute)
        } else if name@ == "relative"@ {
            Some(SymlinkMode::Relative)
        } else {
            None::<SymlinkMode>
        }),
{
    if is_name(name, "") {
        Some(SymlinkMode::Off)
    } else if is_name(name, "auto") {
        Some(SymlinkMode::Auto)
    } else if is_name(name, "absolute") {
        Some(SymlinkMode::Absolute)
    } else if is_name(name, "relative") {
        Some(SymlinkMode::Relative)
    } else {
        None
    }
}

} // verus!
