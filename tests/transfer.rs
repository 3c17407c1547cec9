use cpx::backup::BackupMode;
use cpx::options::{CopyOptions, ReflinkMode, SymlinkMode};
use cpx::preserve::PreserveAttr;
use cpx::transfer::{
    buffer_size, is_affirmative, may_start_data, on_create_failure, reflink_outcome, transfer_steps, Attempt,
    BufferedCopy, BufferedStep, CreateFlow, FastCopy, FastFlow, FastStep, Step, TransferError, MIB,
};

fn options() -> CopyOptions {
    CopyOptions {
        recursive: false,
        concurrency: 4,
        resume: false,
        force: false,
        interactive: false,
        parents: false,
        preserve: PreserveAttr::none(),
        attributes_only: false,
        remove_destination: false,
        symlink: SymlinkMode::Off,
        hard_link: false,
        backup: BackupMode::Off,
        reflink: ReflinkMode::Never,
    }
}

#[test]
fn plain_copy_steps() {
    let steps = transfer_steps(&options(), false, false, true);
    assert_eq!(steps, vec![Step::ZeroCopy, Step::Buffered, Step::CountCompleted]);
}

#[test]
fn full_cascade_order() {
    let mut o = options();
    o.interactive = true;
    o.backup = BackupMode::Numbered;
    o.remove_destination = true;
    o.reflink = ReflinkMode::Auto;
    o.preserve = PreserveAttr::default();
    let steps = transfer_steps(&o, true, false, true);
    assert_eq!(
        steps,
        vec![
            Step::Prompt,
            Step::Backup,
            Step::RemoveDestination,
            Step::Reflink,
            Step::ZeroCopy,
            Step::Buffered,
            Step::CountCompleted,
            Step::ApplyAttributes,
        ]
    );
}

#[test]
fn group_member_links_instead_of_copying() {
    let steps = transfer_steps(&options(), false, true, true);
    assert_eq!(steps, vec![Step::LinkToLeader, Step::CountCompleted]);
}

#[test]
fn attributes_only_touches_existing_destinations_only() {
    let mut o = options();
    o.attributes_only = true;
    o.preserve = PreserveAttr::all();
    assert_eq!(transfer_steps(&o, true, false, true), vec![Step::ApplyAttributes]);
    assert_eq!(transfer_steps(&o, false, false, true), Vec::<Step>::new());
}

#[test]
fn reflink_always_without_cow_fails() {
    assert_eq!(reflink_outcome(ReflinkMode::Always, false, false), Attempt::HardFail(TransferError::ReflinkFailed));
    assert_eq!(reflink_outcome(ReflinkMode::Auto, false, false), Attempt::NotApplicable);
    assert_eq!(reflink_outcome(ReflinkMode::Auto, false, true), Attempt::Done);
    assert_eq!(reflink_outcome(ReflinkMode::Auto, true, true), Attempt::HardFail(TransferError::ReflinkFailed));
}

#[test]
fn cancellation_before_data_phase() {
    assert!(!may_start_data(true));
    assert!(may_start_data(false));
    let f = FastCopy::new(10 * MIB);
    assert_eq!(f.next_step(true), FastStep::Abort);
    let b = BufferedCopy::new(10 * MIB);
    assert_eq!(b.poll(true), BufferedStep::Abort);
    assert_eq!(b.poll(false), BufferedStep::Read);
}

#[test]
fn zero_copy_chunks() {
    let small = FastCopy::new(100);
    assert_eq!(small.chunk, 4 * MIB);
    assert_eq!(small.next_step(false), FastStep::Copy(100));
    let big = FastCopy::new(1024 * MIB);
    assert_eq!(big.chunk, 8 * MIB);
    assert_eq!(big.next_step(false), FastStep::Copy(8 * MIB));
    let mut f = FastCopy::new(10);
    assert_eq!(f.record(Some(6)), FastFlow::Continue);
    assert_eq!(f.next_step(false), FastStep::Copy(4));
    assert_eq!(f.record(Some(4)), FastFlow::Continue);
    assert_eq!(f.next_step(false), FastStep::Finished);
    let mut g = FastCopy::new(10);
    assert_eq!(g.record(None), FastFlow::FallBack);
    assert_eq!(g.record(Some(0)), FastFlow::Finished);
    assert_eq!(g.record(Some(11)), FastFlow::FallBack);
}

#[test]
fn zero_byte_file_copies_with_no_progress() {
    let f = FastCopy::new(0);
    assert_eq!(f.next_step(false), FastStep::Finished);
    let mut b = BufferedCopy::new(0);
    assert_eq!(b.on_end(), None);
    assert_eq!(b.written, 0);
}

#[test]
fn buffer_sizes_by_tier() {
    assert_eq!(buffer_size(0), 64 * 1024);
    assert_eq!(buffer_size(MIB), 256 * 1024);
    assert_eq!(buffer_size(100 * MIB), MIB);
    assert_eq!(buffer_size(600 * MIB), 2 * MIB);
}

#[test]
fn buffered_progress_is_batched() {
    let mut b = BufferedCopy::new(1000);
    assert_eq!(b.threshold, 64 * 1024);
    assert_eq!(b.on_written(1000), None);
    assert_eq!(b.on_end(), Some(1000));
    assert_eq!(b.reported, 1000);

    let size = 1024 * MIB;
    let mut c = BufferedCopy::new(size);
    assert_eq!(c.threshold, 8 * MIB);
    let mut reports = 0u64;
    let mut total = 0u64;
    let chunk = 2 * MIB;
    while c.written < size {
        if let Some(n) = c.on_written(chunk) {
            reports += 1;
            total += n;
        }
    }
    if let Some(n) = c.on_end() {
        reports += 1;
        total += n;
    }
    assert_eq!(total, size);
    assert!(reports <= 129);
}

#[test]
fn create_failure_retries_once_with_force() {
    assert_eq!(on_create_failure(true, false), CreateFlow::RemoveAndRetry);
    assert_eq!(on_create_failure(true, true), CreateFlow::Fail);
    assert_eq!(on_create_failure(false, false), CreateFlow::Fail);
}

#[test]
fn prompt_answers() {
    assert!(is_affirmative("y\n"));
    assert!(is_affirmative("  Y "));
    assert!(!is_affirmative("yes"));
    assert!(!is_affirmative("n"));
    assert!(!is_affirmative(""));
}
