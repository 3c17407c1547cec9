//! A resumable, attribute-preserving copy engine: it turns sources, a
//! destination and options into a plan of filesystem operations before
//! anything is written, and decides how each planned file is transferred.
//! The filesystem work itself is left to the caller.

pub mod text;
pub mod trusted;
pub mod paths;
pub mod backup;
pub mod exclude;
pub mod preserve;
pub mod options;
pub mod plan;
pub mod resume;
pub mod transfer;
pub mod executor;
pub mod config;
pub mod progress;
pub mod cli;
