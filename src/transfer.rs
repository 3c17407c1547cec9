//! Per-file transfer decisions: which strategies run and in what order,
//! how each one's outcome moves the cascade on, the zero-copy chunking and
//! the buffered copy's progress accounting. The I/O itself is the caller's.
use vstd::prelude::*;
use crate::backup::BackupMode;
use crate::options::{CopyOptions, ReflinkMode};
use crate::preserve::PreserveAttr;
use crate::text::chars_of;
use crate::trusted::{trim_whitespace, trim_text};

verus! {

pub const KIB: u64 = 1024;

pub const MIB: u64 = 1024 * 1024;

/// The number of progress updates a file's transfer aims at.
pub const TARGET_UPDATES: u64 = 128;

/// The smallest zero-copy chunk, to bound the number of system calls.
pub const MIN_CHUNK: u64 = 4 * 1024 * 1024;

/// One step of a file task, in the order they run.
#[derive(Debug, Clone, Copy, PartialEq, Eq, Structural)]
pub enum Step {
    /// Ask before overwriting the existing destination.
    Prompt,
    /// Rename the existing destination to its backup path.
    Backup,
    /// Unlink the destination before creating it.
    RemoveDestination,
    /// Hard-link to the destination of the first file of the inode group.
    LinkToLeader,
    /// Copy-on-write clone.
    Reflink,
    /// Kernel zero-copy transfer.
    ZeroCopy,
    /// Read/write copy through a buffer; always available.
    Buffered,
    /// Count the file as completed.
    CountCompleted,
    /// Apply the requested attributes to the destination.
    ApplyAttributes,
}

/// Why a file task failed in the cascade.
#[derive(Debug, Clone, Copy, PartialEq, Eq, Structural)]
pub enum TransferError {
    /// A copy-on-write clone was required and could not be made.
    ReflinkFailed,
    /// Cancellation was seen; the partial destination is removed.
    Interrupted,
}

/// What a data strategy reports.
#[derive(Debug, Clone, Copy, PartialEq, Eq, Structural)]
pub enum Attempt {
    /// The data is in place; later data strategies are skipped.
    Done,
    /// This strategy does not apply; the next one is tried.
    NotApplicable,
    /// The task fails.
    HardFail(TransferError),
}

pub open spec fn preserve_any(p: PreserveAttr) -> bool {
    p.mode || p.ownership || p.timestamps || p.context || p.xattr
}

pub open spec fn when(b: bool, s: Step) -> Seq<Step> {
    if b {
        seq![s]
    } else {
        Seq::<Step>::empty()
    }
}

/// The data strategies, best first.
pub open spec fn data_steps(o: CopyOptions, has_leader: bool, zero_copy: bool) -> Seq<Step> {
    if has_leader {
        seq![Step::LinkToLeader]
    } else {
        when(o.reflink != ReflinkMode::Never, Step::Reflink) + when(zero_copy, Step::ZeroCopy) + seq![
            Step::Buffered,
        ]
    }
}

/// The steps of one file task. `dest_exists`: the destination exists when
/// the task starts; `has_leader`: another file of its inode group was
/// transferred first; `zero_copy`: the platform offers zero-copy transfer.
pub open spec fn steps_for(o: CopyOptions, dest_exists: bool, has_leader: bool, zero_copy: bool) -> Seq<Step> {
    if o.attributes_only {
        when(dest_exists && preserve_any(o.preserve), Step::ApplyAttributes)
    } else {
        when(o.interactive && dest_exists, Step::Prompt) + when(
            o.backup != BackupMode::Off && dest_exists,
            Step::Backup,
        ) + when(o.remove_destination, Step::RemoveDestination) + data_steps(o, has_leader, zero_copy)
            + seq![Step::CountCompleted] + when(preserve_any(o.preserve), Step::ApplyAttributes)
    }
}

fn push_when(v: &mut Vec<Step>, b: bool, s: Step)
    ensures
        final(v)@ == old(v)@ + when(b, s),
{
    if b {
        v.push(s);
        proof {
            assert(final(v)@ =~= old(v)@ + when(b, s));
        }
    } else {
        proof {
            assert(old(v)@ + when(b, s) =~= old(v)@);
        }
    }
}

/// The steps of one file task (see `steps_for`).
#[verifier::rlimit(40)]
pub fn transfer_steps(o: &CopyOptions, dest_exists: bool, has_leader: bool, zero_copy: bool) -> (r: Vec<Step>)
    ensures
        r@ == steps_for(*o, dest_exists, has_leader, zero_copy),
{
    let mut v: Vec<Step> = Vec::new();
    let any = o.preserve.any_requested();
    if o.attributes_only {
        push_when(&mut v, dest_exists && any, Step::ApplyAttributes);
        proof {
            assert(v@ =~= steps_for(*o, dest_exists, has_leader, zero_copy));
        }
        return v;
    }
    push_when(&mut v, o.interactive && dest_exists, Step::Prompt);
    push_when(&mut v, o.backup != BackupMode::Off && dest_exists, Step::Backup);
    push_when(&mut v, o.remove_destination, Step::RemoveDestination);
    let ghost before_data = v@;
    proof {
        assert(before_data =~= when(o.interactive && dest_exists, Step::Prompt) + when(
            o.backup != BackupMode::Off && dest_exists,
            Step::Backup,
        ) + when(o.remove_destination, Step::RemoveDestination));
    }
    if has_leader {
        v.push(Step::LinkToLeader);
    } else {
        push_when(&mut v, o.reflink != ReflinkMode::Never, Step::Reflink);
        push_when(&mut v, zero_copy, Step::ZeroCopy);
        v.push(Step::Buffered);
    }
    let ghost with_data = v@;
    proof {
        assert(with_data =~= before_data + data_steps(*o, has_leader, zero_copy));
    }
    v.push(Step::CountCompleted);
    let ghost counted = v@;
    proof {
        assert(counted =~= with_data + seq![Step::CountCompleted]);
    }
    push_when(&mut v, any, Step::ApplyAttributes);
    proof {
        assert(v@ =~= counted + when(preserve_any(o.preserve), Step::ApplyAttributes));
    }
    v
}

/// Whether a file's data phase may start: not once cancellation is seen,
/// so a cancelled task never creates its destination.
pub fn may_start_data(cancelled: bool) -> (r: bool)
    ensures
        r == !cancelled,
{
    !cancelled
}

/// A clone never overwrites: an existing destination fails the task. A
/// failed clone is fatal only under `Always`.
pub open spec fn reflink_result(mode: ReflinkMode, dest_exists: bool, cloned: bool) -> Attempt {
    if dest_exists {
        Attempt::HardFail(TransferError::ReflinkFailed)
    } else if cloned {
        Attempt::Done
    } else if mode == ReflinkMode::Always {
        Attempt::HardFail(TransferError::ReflinkFailed)
    } else {
        Attempt::NotApplicable
    }
}

/// What the reflink step reports (see `reflink_result`); `cloned` is
/// whether the clone succeeded, and is not looked at when the destination exists.
pub fn reflink_outcome(mode: ReflinkMode, dest_exists: bool, cloned: bool) -> (r: Attempt)
    ensures
        r == reflink_result(mode, dest_exists, cloned),
{
    if dest_exists {
        Attempt::HardFail(TransferError::ReflinkFailed)
    } else if cloned {
        Attempt::Done
    } else if mode == ReflinkMode::Always {
        Attempt::HardFail(TransferError::ReflinkFailed)
    } else {
        Attempt::NotApplicable
    }
}

/// What to do when the destination cannot be created.
#[derive(Debug, Clone, Copy, PartialEq, Eq, Structural)]
pub enum CreateFlow {
    RemoveAndRetry,
    Fail,
}

/// With `force`, a failed create removes the destination and tries once more.
pub fn on_create_failure(force: bool, retried: bool) -> (r: CreateFlow)
    ensures
        r == (if force && !retried { CreateFlow::RemoveAndRetry } else { CreateFlow::Fail }),
{
    if force && !retried {
        CreateFlow::RemoveAndRetry
    } else {
        CreateFlow::Fail
    }
}

/// Whether an answer to an overwrite prompt is a yes: `y` or `Y`, with
/// surrounding whitespace ignored.
pub fn is_affirmative(answer: &str) -> (r: bool)
    ensures
        r == (trim_whitespace(answer@) == seq!['y'] || trim_whitespace(answer@) == seq!['Y']),
{
    let t = chars_of(trim_text(answer));
    let r = t.len() == 1 && (t[0] == 'y' || t[0] == 'Y');
    proof {
        if t@ == seq!['y'] || t@ == seq!['Y'] {
            assert(t@[0] == 'y' || t@[0] == 'Y');
        }
        if r {
            assert(t@ =~= seq![t@[0]]);
        }
    }
    r
}

pub open spec fn fast_chunk(file_size: u64) -> u64 {
    if file_size / TARGET_UPDATES > MIN_CHUNK {
        (file_size / TARGET_UPDATES) as u64
    } else {
        MIN_CHUNK
    }
}

/// The next move of the zero-copy loop.
#[derive(Debug, Clone, Copy, PartialEq, Eq, Structural)]
pub enum FastStep {
    /// Cancellation was seen: delete the partial destination, report `Interrupted`.
    Abort,
    /// Transfer up to this many bytes.
    Copy(u64),
    /// All bytes are in place.
    Finished,
}

/// How the zero-copy loop goes on after one chunk.
#[derive(Debug, Clone, Copy, PartialEq, Eq, Structural)]
pub enum FastFlow {
    Continue,
    Finished,
    /// The strategy is abandoned; the next one starts afresh.
    FallBack,
}

/// The state of a zero-copy transfer: chunks sized for about
/// `TARGET_UPDATES` progress updates, never under `MIN_CHUNK`.
pub struct FastCopy {
    pub file_size: u64,
    pub chunk: u64,
    pub copied: u64,
}

impl FastCopy {
    pub open spec fn wf(&self) -> bool {
        self.copied <= self.file_size && self.chunk == fast_chunk(self.file_size)
    }

    pub fn new(file_size: u64) -> (r: FastCopy)
        ensures
            r.wf(),
            r.file_size == file_size,
            r.copied == 0,
    {
        let per = file_size / TARGET_UPDATES;
        let chunk = if per > MIN_CHUNK {
            per
        } else {
            MIN_CHUNK
        };
        FastCopy { file_size, chunk, copied: 0 }
    }

    /// Cancellation is polled before every chunk.
    pub fn next_step(&self, cancelled: bool) -> (r: FastStep)
        requires
            self.wf(),
        ensures
            cancelled ==> r == FastStep::Abort,
            !cancelled && self.copied == self.file_size ==> r == FastStep::Finished,
            !cancelled && self.copied < self.file_size ==> r == FastStep::Copy(
                if self.chunk < self.file_size - self.copied {
                    self.chunk
                } else {
                    (self.file_size - self.copied) as u64
                },
            ),
    {
        if cancelled {
            return FastStep::Abort;
        }
        let left = self.file_size - self.copied;
        if left == 0 {
            FastStep::Finished
        } else if self.chunk < left {
            FastStep::Copy(self.chunk)
        } else {
            FastStep::Copy(left)
        }
    }

    /// Takes the result of one chunk: the bytes moved, or `None` on a failed
    /// call. Nothing moved means the source ended; a failure, or more bytes
    /// than were left, abandons the strategy.
    pub fn record(&mut self, moved: Option<u64>) -> (r: FastFlow)
        requires
            old(self).wf(),
        ensures
            final(self).wf(),
            final(self).file_size == old(self).file_size,
            match moved {
                None => r == FastFlow::FallBack && final(self).copied == old(self).copied,
                Some(n) => if n == 0 {
                    r == FastFlow::Finished && final(self).copied == old(self).copied
                } else if n <= old(self).file_size - old(self).copied {
                    r == FastFlow::Continue && final(self).copied == old(self).copied + n
                } else {
                    r == FastFlow::FallBack && final(self).copied == old(self).copied
                },
            },
    {
        match moved {
            None => FastFlow::FallBack,
            Some(n) => {
                if n == 0 {
                    FastFlow::Finished
                } else if n <= self.file_size - self.copied {
                    self.copied = self.copied + n;
                    FastFlow::Continue
                } else {
                    FastFlow::FallBack
                }
            },
        }
    }
}

/// The buffer size for a file of this size: larger files get larger buffers.
pub open spec fn buffer_size_for(file_size: u64) -> u64 {
    if file_size < MIB {
        (64 * KIB) as u64
    } else if file_size < 64 * MIB {
        (256 * KIB) as u64
    } else if file_size <= 512 * MIB {
        MIB
    } else {
        (2 * MIB) as u64
    }
}

/// Progress is reported in steps of at least this many bytes.
pub open spec fn threshold_for(file_size: u64) -> u64 {
    if file_size / TARGET_UPDATES > buffer_size_for(file_size) {
        (file_size / TARGET_UPDATES) as u64
    } else {
        buffer_size_for(file_size)
    }
}

/// The buffer size for a file of this size (see `buffer_size_for`).
pub fn buffer_size(file_size: u64) -> (r: u64)
    ensures
        r == buffer_size_for(file_size),
{
    if file_size < MIB {
        64 * KIB
    } else if file_size < 64 * MIB {
        256 * KIB
    } else if file_size <= 512 * MIB {
        MIB
    } else {
        2 * MIB
    }
}

/// The next move of the buffered loop.
#[derive(Debug, Clone, Copy, PartialEq, Eq, Structural)]
pub enum BufferedStep {
    /// Cancellation was seen: flush, delete the partial destination, report `Interrupted`.
    Abort,
    /// Read the next buffer.
    Read,
}

/// Progress accounting of a buffered copy: bytes are reported in steps of
/// at least the threshold, so a file gives a bounded number of updates.
pub struct BufferedCopy {
    pub file_size: u64,
    pub threshold: u64,
    /// Written but not yet reported.
    pub pending: u64,
    pub written: u64,
    pub reported: u64,
    /// How many progress updates were handed out.
    pub updates: u64,
}

impl BufferedCopy {
    pub open spec fn wf(&self) -> bool {
        &&& self.threshold == threshold_for(self.file_size)
        &&& self.threshold > 0
        &&& self.reported + self.pending == self.written
        &&& self.pending < self.threshold
        &&& self.updates * self.threshold <= self.reported + self.threshold
        &&& self.updates <= self.reported
    }

    pub fn new(file_size: u64) -> (r: BufferedCopy)
        ensures
            r.wf(),
            r.file_size == file_size,
            r.written == 0,
            r.updates == 0,
    {
        let buf = buffer_size(file_size);
        let per = file_size / TARGET_UPDATES;
        let threshold = if per > buf {
            per
        } else {
            buf
        };
        BufferedCopy { file_size, threshold, pending: 0, written: 0, reported: 0, updates: 0 }
    }

    /// Cancellation is polled before every read.
    pub fn poll(&self, cancelled: bool) -> (r: BufferedStep)
        ensures
            r == (if cancelled { BufferedStep::Abort } else { BufferedStep::Read }),
    {
        if cancelled {
            BufferedStep::Abort
        } else {
            BufferedStep::Read
        }
    }

    /// Takes `n` more written bytes; returns the progress increment to
    /// report, if the threshold is reached.
    pub fn on_written(&mut self, n: u64) -> (r: Option<u64>)
        requires
            old(self).wf(),
            old(self).written + n <= u64::MAX,
        ensures
            final(self).wf(),
            final(self).file_size == old(self).file_size,
            final(self).written == old(self).written + n,
            old(self).pending + n >= old(self).threshold ==> r == Some((old(self).pending + n) as u64)
                && final(self).pending == 0 && final(self).updates == old(self).updates + 1,
            old(self).pending + n < old(self).threshold ==> r is None && final(self).pending == old(self).pending
                + n && final(self).updates == old(self).updates,
    {
        self.written = self.written + n;
        let acc = self.pending + n;
        if acc >= self.threshold {
            proof {
                assert((self.updates + 1) * self.threshold == self.updates * self.threshold + self.threshold)
                    by (nonlinear_arith);
            }
            self.pending = 0;
            self.reported = self.reported + acc;
            self.updates = self.updates + 1;
            Some(acc)
        } else {
            self.pending = acc;
            None
        }
    }

    /// At end of file: the remaining unreported bytes, if any.
    pub fn on_end(&mut self) -> (r: Option<u64>)
        requires
            old(self).wf(),
        ensures
            final(self).wf(),
            final(self).written == old(self).written,
            final(self).pending == 0,
            final(self).reported == old(self).written,
            old(self).pending > 0 ==> r == Some(old(self).pending),
            old(self).pending == 0 ==> r is None,
    {
        if self.pending > 0 {
            let p = self.pending;
            self.reported = self.reported + p;
            self.pending = 0;
            proof {
                assert(self.updates * self.threshold <= self.reported + self.threshold);
            }
            Some(p)
        } else {
            None
        }
    }
}

/// Progress updates stay bounded whatever the file size: a buffered copy
/// that has reported no more than the file's size has handed out at most
/// 129 threshold updates, plus the one for the remainder at the end.
pub proof fn lemma_progress_updates_bounded(b: BufferedCopy)
    requires
        b.wf(),
        b.reported <= b.file_size,
    ensures
        b.updates <= 129,
{
    let t = b.threshold as int;
    let s = b.file_size as int;
    let u = b.updates as int;
    let q = s / 128;
    assert(t >= q);
    assert(t >= 65536);
    assert(s < 128 * q + 128) by (nonlinear_arith)
        requires
            q == s / 128,
            s >= 0,
    ;
    assert(s < 128 * t + 128) by (nonlinear_arith)
        requires
            s < 128 * q + 128,
            t >= q,
    ;
    assert(u * t <= s + t);
    assert(u * t < 130 * t) by (nonlinear_arith)
        requires
            u * t <= s + t,
            s < 128 * t + 128,
            t >= 65536,
    ;
    assert(u < 130) by (nonlinear_arith)
        requires
            u * t < 130 * t,
            t > 0,
    ;
}

} // verus!
