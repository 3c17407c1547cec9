//! The resolved, read-only options of one copy run.
use vstd::prelude::*;
use crate::backup::BackupMode;
use crate::preserve::PreserveAttr;

verus! {

/// How files are materialised as symbolic links instead of being copied.
#[derive(Debug, Clone, Copy, PartialEq, Eq, Structural)]
pub enum SymlinkMode {
    /// Files are copied.
    Off,
    /// Links hold the source path as given.
    Auto,
    /// Links hold the canonical source path.
    Absolute,
    /// Links hold the source path relative to the link's directory.
    Relative,
}

/// Whether copy-on-write cloning is attempted, and how its failure counts.
#[derive(Debug, Clone, Copy, PartialEq, Eq, Structural)]
pub enum ReflinkMode {
    Never,
    Auto,
    Always,
}

#[derive(Debug, Clone, Copy)]
pub struct CopyOptions {
    pub recursive: bool,
    pub concurrency: usize,
    pub resume: bool,
    pub force: bool,
    pub interactive: bool,
    pub parents: bool,
    pub preserve: PreserveAttr,
    pub attributes_only: bool,
    pub remove_destination: bool,
    pub symlink: SymlinkMode,
    pub hard_link: bool,
    pub backup: BackupMode,
    pub reflink: ReflinkMode,
}

} // verus!
