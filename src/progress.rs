//! Progress bar styles: the layout template and bar characters of each.
use vstd::prelude::*;
use crate::text::{chars_of, same_chars};

verus! {

#[derive(Debug, Clone, Copy, PartialEq, Eq, Structural)]
pub enum ProgressBarStyle {
    Default,
    Minimal,
    Detailed,
}

impl Default for ProgressBarStyle {
    fn default() -> (r: ProgressBarStyle)
        ensures
            r == ProgressBarStyle::Default,
    {
        ProgressBarStyle::Default
    }
}

impl ProgressBarStyle {
    /// The style a name selects: `minimal`, `detailed`, anything else the default.
    pub fn named(name: &str) -> (r: ProgressBarStyle)
        ensures
            r == (if name@ == "minimal"@ {
                ProgressBarStyle::Minimal
            } else if name@ == "detailed"@ {
                ProgressBarStyle::Detailed
            } else {
                ProgressBarStyle::Default
            }),
    {
        let v = chars_of(name);
        if same_chars(&v, &chars_of("minimal")) {
            ProgressBarStyle::Minimal
        } else if same_chars(&v, &chars_of("detailed")) {
            ProgressBarStyle::Detailed
        } else {
            ProgressBarStyle::Default
        }
    }

    /// The layout template of a per-file bar.
    pub fn template(&self) -> (r: &'static str)
        ensures
            *self == ProgressBarStyle::Default ==> r@ == "{spinner} {binary_bytes}/{binary_total_bytes} • ETA: {eta}\n[{wide_bar}]"@,
            *self == ProgressBarStyle::Minimal ==> r@ == "{percent}%\n[{wide_bar}]"@,
            *self == ProgressBarStyle::Detailed ==> r@ == "{spinner} {binary_bytes}/{binary_total_bytes} • {binary_bytes_per_sec} • Elapsed: {elapsed_precise} • ETA: {eta_precise}\n[{wide_bar}]"@,
    {
        match self {
            ProgressBarStyle::Default => "{spinner} {binary_bytes}/{binary_total_bytes} • ETA: {eta}\n[{wide_bar}]",
            ProgressBarStyle::Minimal => "{percent}%\n[{wide_bar}]",
            ProgressBarStyle::Detailed => "{spinner} {binary_bytes}/{binary_total_bytes} • {binary_bytes_per_sec} • Elapsed: {elapsed_precise} • ETA: {eta_precise}\n[{wide_bar}]",
        }
    }

    /// The characters the bar is drawn with, full to empty.
    pub fn progress_chars(&self) -> (r: &'static str)
        ensures
            *self == ProgressBarStyle::Default ==> r@ == "━━╾─"@,
            *self == ProgressBarStyle::Minimal ==> r@ == "█▓▒░ "@,
            *self == ProgressBarStyle::Detailed ==> r@ == "=>- "@,
    {
        match self {
            ProgressBarStyle::Default => "━━╾─",
            ProgressBarStyle::Minimal => "█▓▒░ ",
            ProgressBarStyle::Detailed => "=>- ",
        }
    }
}

/// The layout template of the overall bar.
pub fn overall_template() -> (r: &'static str)
    ensures
        r@ == "{msg} • {binary_bytes:>5}/{binary_total_bytes:<5} • ETA {eta_precise} \n"@,
{
    "{msg} • {binary_bytes:>5}/{binary_total_bytes:<5} • ETA {eta_precise} \n"
}

} // verus!
