//! Execution decisions: how many file tasks run at once, the order in which
//! directories are created, which file of an inode group carries the data,
//! how links are made, and what a finished run reports.
use vstd::prelude::*;
use crate::text::{chars_of, string_of, concat_chars, names_of};
use crate::paths::{parts, parts_of, parent, parent_of};
use crate::plan::{FileTask, FileModel, file_models, SymlinkTask, SymlinkKind};
use crate::options::CopyOptions;
use crate::backup::{decimal, decimal_of};
use crate::trusted::{diff_paths, path_difference};

verus! {

/// The number of file tasks that may run at once: one under interactive
/// mode, so prompts stay coherent; never fewer than one.
pub fn file_concurrency(o: &CopyOptions) -> (r: usize)
    ensures
        r == (if o.interactive || o.concurrency == 0 { 1 } else { o.concurrency }),
        r >= 1,
{
    if o.interactive || o.concurrency == 0 {
        1
    } else {
        o.concurrency
    }
}

/// Whether the run shows an overall progress bar: not for an empty plan,
/// and not while prompting.
pub fn show_overall_progress(total_files: usize, interactive: bool) -> (r: bool)
    ensures
        r == (total_files >= 1 && !interactive),
{
    total_files >= 1 && !interactive
}

/// The number of parts of a path: its depth.
pub open spec fn depth(p: Seq<char>) -> nat {
    parts(p).len()
}

fn depth_of(p: &str) -> (r: usize)
    ensures
        r == depth(p@),
{
    parts_of(&chars_of(p)).len()
}

/// Directories in an order in which each can be created after its parents:
/// every planned directory once, shallowest first.
pub fn creation_order(dirs: &Vec<String>) -> (r: Vec<String>)
    ensures
        forall|i: int| 0 <= i < r@.len() ==> names_of(dirs@).contains(#[trigger] names_of(r@)[i]),
        forall|j: int| 0 <= j < dirs@.len() ==> names_of(r@).contains(#[trigger] names_of(dirs@)[j]),
        forall|a: int, b: int| 0 <= a < b < r@.len() ==> names_of(r@)[a] != names_of(r@)[b],
        forall|a: int, b: int| 0 <= a < b < r@.len() ==> depth(r@[a]@) <= depth(r@[b]@),
{
    let ghost d = names_of(dirs@);
    let mut rest: Vec<String> = Vec::new();
    let mut depths: Vec<usize> = Vec::new();
    let mut i: usize = 0;
    while i < dirs.len()
        invariant
            i <= dirs.len(),
            d == names_of(dirs@),
            rest@.len() == i,
            depths@.len() == i,
            forall|k: int| 0 <= k < i ==> rest@[k]@ == d[k],
            forall|k: int| 0 <= k < i ==> #[trigger] depths@[k] == depth(rest@[k]@),
        decreases dirs.len() - i,
    {
        let c = string_of(&chars_of(dirs[i].as_str()));
        let dp = depth_of(c.as_str());
        rest.push(c);
        depths.push(dp);
        i = i + 1;
    }
    let mut out: Vec<String> = Vec::new();
    proof {
        assert forall|k: int| 0 <= k < rest@.len() implies d.contains(#[trigger] names_of(rest@)[k]) by {
            assert(d[k] == names_of(rest@)[k]);
        }
        assert forall|j: int| 0 <= j < dirs@.len() implies names_of(out@).contains(d[j]) || names_of(
            rest@,
        ).contains(d[j]) by {
            assert(names_of(rest@)[j] == d[j]);
        }
    }
    while rest.len() > 0
        invariant
            d == names_of(dirs@),
            rest@.len() == depths@.len(),
            forall|k: int| 0 <= k < rest@.len() ==> #[trigger] depths@[k] == depth(rest@[k]@),
            forall|k: int| 0 <= k < out@.len() ==> d.contains(#[trigger] names_of(out@)[k]),
            forall|k: int| 0 <= k < rest@.len() ==> d.contains(#[trigger] names_of(rest@)[k]),
            forall|j: int| 0 <= j < d.len() ==> names_of(out@).contains(#[trigger] d[j]) || names_of(rest@).contains(d[j]),
            forall|a: int, b: int| 0 <= a < b < out@.len() ==> names_of(out@)[a] != names_of(out@)[b],
            forall|a: int, b: int| 0 <= a < b < out@.len() ==> depth(out@[a]@) <= depth(out@[b]@),
            forall|a: int, k: int| 0 <= a < out@.len() && 0 <= k < rest@.len() ==> depth(out@[a]@) <= depth(rest@[k]@),
        decreases rest.len(),
    {
        let mut m: usize = 0;
        let mut k: usize = 1;
        while k < rest.len()
            invariant
                rest@.len() == depths@.len(),
                0 <= m < rest.len(),
                1 <= k <= rest.len(),
                m < k,
                forall|b: int| 0 <= b < k ==> depths@[m as int] <= depths@[b],
            decreases rest.len() - k,
        {
            if depths[k] < depths[m] {
                m = k;
            }
            k = k + 1;
        }
        let ghost rest_before = rest@;
        let ghost out_before = out@;
        proof {
            assert forall|b: int| 0 <= b < rest_before.len() implies depth(rest_before[m as int]@) <= depth(
                rest_before[b]@,
            ) by {
                assert(depths@[b] == depth(rest@[b]@));
                assert(depths@[m as int] == depth(rest@[m as int]@));
            }
        }
        let t = rest.remove(m);
        depths.remove(m);
        let tv = chars_of(t.as_str());
        let dup = crate::text::contains_name(&out, &tv);
        proof {
            assert(names_of(rest_before)[m as int] == t@);
            assert forall|q: int| 0 <= q < rest@.len() implies #[trigger] names_of(rest@)[q] == (if q < m {
                names_of(rest_before)[q]
            } else {
                names_of(rest_before)[q + 1]
            }) by {}
        }
        if !dup {
            out.push(t);
        }
        proof {
            assert forall|q: int| 0 <= q < rest@.len() implies depths@[q] == depth(rest@[q]@) by {
                if q < m {
                    assert(rest@[q] == rest_before[q]);
                } else {
                    assert(rest@[q] == rest_before[q + 1]);
                }
            }
            assert forall|k2: int| 0 <= k2 < out@.len() implies d.contains(#[trigger] names_of(out@)[k2]) by {
                if k2 < out_before.len() {
                    assert(names_of(out@)[k2] == names_of(out_before)[k2]);
                } else {
                    assert(names_of(out@)[k2] == names_of(rest_before)[m as int]);
                }
            }
            assert forall|k2: int| 0 <= k2 < rest@.len() implies d.contains(#[trigger] names_of(rest@)[k2]) by {
                if k2 < m {
                    assert(names_of(rest@)[k2] == names_of(rest_before)[k2]);
                } else {
                    assert(names_of(rest@)[k2] == names_of(rest_before)[k2 + 1]);
                }
            }
            assert forall|j: int| 0 <= j < d.len() implies names_of(out@).contains(#[trigger] d[j]) || names_of(
                rest@,
            ).contains(d[j]) by {
                if names_of(out_before).contains(d[j]) {
                    let x = choose|x: int| 0 <= x < names_of(out_before).len() && names_of(out_before)[x] == d[j];
                    assert(names_of(out@)[x] == d[j]);
                } else {
                    let x = choose|x: int| 0 <= x < names_of(rest_before).len() && names_of(rest_before)[x] == d[j];
                    if x < m {
                        assert(names_of(rest@)[x] == d[j]);
                    } else if x > m {
                        assert(names_of(rest@)[x - 1] == d[j]);
                    } else if dup {
                        let y = choose|y: int| 0 <= y < names_of(out_before).len() && names_of(out_before)[y] == t@;
                        assert(names_of(out@)[y] == d[j]);
                    } else {
                        assert(names_of(out@)[out_before.len() as int] == d[j]);
                    }
                }
            }
            assert forall|a: int, b: int| 0 <= a < b < out@.len() implies names_of(out@)[a] != names_of(out@)[b] by {
                if b == out_before.len() && !dup {
                    assert(names_of(out@)[a] == names_of(out_before)[a]);
                    assert(names_of(out@)[b] == t@);
                } else {
                    assert(names_of(out@)[a] == names_of(out_before)[a]);
                    assert(names_of(out@)[b] == names_of(out_before)[b]);
                }
            }
            assert forall|a: int, b: int| 0 <= a < b < out@.len() implies depth(out@[a]@) <= depth(out@[b]@) by {
                if b == out_before.len() && !dup {
                    assert(out@[a] == out_before[a]);
                    assert(out@[b] == rest_before[m as int]);
                } else {
                    assert(out@[a] == out_before[a]);
                    assert(out@[b] == out_before[b]);
                }
            }
            assert forall|a: int, k2: int| 0 <= a < out@.len() && 0 <= k2 < rest@.len() implies depth(out@[a]@)
                <= depth(rest@[k2]@) by {
                let kk = if k2 < m { k2 } else { k2 + 1 };
                assert(rest@[k2] == rest_before[kk]);
                if a < out_before.len() {
                    assert(out@[a] == out_before[a]);
                } else {
                    assert(out@[a] == rest_before[m as int]);
                }
            }
        }
    }
    proof {
        assert forall|j: int| 0 <= j < dirs@.len() implies names_of(out@).contains(#[trigger] names_of(dirs@)[j]) by {
            assert(names_of(dirs@)[j] == d[j]);
            if names_of(rest@).contains(d[j]) {
                let x = choose|x: int| 0 <= x < names_of(rest@).len() && names_of(rest@)[x] == d[j];
            }
        }
    }
    out
}

/// The file of `fs` whose data the `i`-th file's hard link points at: the
/// first earlier file of the same inode group.
pub open spec fn leader_ok(fs: Seq<FileModel>, i: int, r: Option<usize>) -> bool {
    match r {
        None => fs[i].inode_group is None || forall|j: int| 0 <= j < i ==> fs[j].inode_group != fs[i].inode_group,
        Some(j) => fs[i].inode_group is Some && j < i && fs[j as int].inode_group == fs[i].inode_group && forall|
            k: int,
        |
            0 <= k < j ==> fs[k].inode_group != fs[i].inode_group,
    }
}

/// The index a file's data comes from: its leader, or itself.
pub open spec fn data_root(leaders: Seq<Option<usize>>, i: int) -> int {
    match leaders[i] {
        Some(j) => j as int,
        None => i,
    }
}

/// Two indices that are each the first of the same inode group coincide.
proof fn lemma_first_of_group_unique(fs: Seq<FileModel>, a: int, b: int, g: u64)
    requires
        0 <= a < fs.len(),
        0 <= b < fs.len(),
        fs[a].inode_group == Some(g),
        fs[b].inode_group == Some(g),
        forall|k: int| 0 <= k < a ==> fs[k].inode_group != Some(g),
        forall|k: int| 0 <= k < b ==> fs[k].inode_group != Some(g),
    ensures
        a == b,
{
    if a < b {
        assert(fs[a].inode_group != Some(g));
    } else if b < a {
        assert(fs[b].inode_group != Some(g));
    }
}

/// For each planned file, the earlier file of its inode group that carries
/// the data (`None`: the file carries its own). Decided once, in plan
/// order, so concurrent tasks need no shared map; the files of one group
/// all end up sharing one inode.
#[verifier::rlimit(60)]
pub fn link_leaders(files: &Vec<FileTask>) -> (r: Vec<Option<usize>>)
    ensures
        r@.len() == files@.len(),
        forall|i: int| 0 <= i < r@.len() ==> leader_ok(file_models(files@), i, #[trigger] r@[i]),
        forall|i: int, j: int|
            0 <= i < r@.len() && 0 <= j < r@.len() && files@[i].inode_group is Some && files@[i].inode_group
                == files@[j].inode_group ==> data_root(r@, i) == data_root(r@, j),
{
    let ghost fs = file_models(files@);
    let mut r: Vec<Option<usize>> = Vec::new();
    let mut i: usize = 0;
    while i < files.len()
        invariant
            i <= files.len(),
            fs == file_models(files@),
            r@.len() == i,
            forall|x: int| 0 <= x < i ==> leader_ok(fs, x, #[trigger] r@[x]),
        decreases files.len() - i,
    {
        let mut found: Option<usize> = None;
        if files[i].inode_group.is_some() {
            let mut j: usize = 0;
            while j < i && found.is_none()
                invariant
                    j <= i < files.len(),
                    fs == file_models(files@),
                    fs[i as int].inode_group is Some,
                    found is None ==> forall|k: int| 0 <= k < j ==> fs[k].inode_group != fs[i as int].inode_group,
                    found matches Some(x) ==> x < i && fs[x as int].inode_group == fs[i as int].inode_group && forall|
                        k: int,
                    |
                        0 <= k < x ==> fs[k].inode_group != fs[i as int].inode_group,
                decreases i - j,
            {
                if files[j].inode_group == files[i].inode_group {
                    found = Some(j);
                }
                j = j + 1;
            }
        }
        proof {
            assert(fs[i as int] == files@[i as int].model());
        }
        r.push(found);
        i = i + 1;
    }
    proof {
        assert forall|a: int, b: int|
            0 <= a < r@.len() && 0 <= b < r@.len() && files@[a].inode_group is Some && files@[a].inode_group
                == files@[b].inode_group implies data_root(r@, a) == data_root(r@, b) by {
            let g = files@[a].inode_group->0;
            assert(fs[a].inode_group == files@[a].inode_group);
            assert(fs[b].inode_group == files@[b].inode_group);
            assert(leader_ok(fs, a, r@[a]));
            assert(leader_ok(fs, b, r@[b]));
            let ra = data_root(r@, a);
            let rb = data_root(r@, b);
            assert(fs[ra].inode_group == Some(g));
            assert(fs[rb].inode_group == Some(g));
            lemma_first_of_group_unique(fs, ra, rb, g);
        }
    }
    r
}

/// How a planned hard link is made.
#[derive(Debug, Clone, Copy, PartialEq, Eq, Structural)]
pub enum LinkAction {
    Link,
    RemoveThenLink,
    /// The user declined to overwrite.
    Skip,
    /// The destination exists and nothing allows replacing it.
    AlreadyExists,
}

/// An existing destination is replaced only with `force` or
/// `remove_destination`, and under interactive mode only when confirmed.
pub fn hardlink_action(
    dest_exists: bool,
    interactive: bool,
    confirmed: bool,
    force: bool,
    remove_destination: bool,
) -> (r: LinkAction)
    ensures
        r == (if !dest_exists {
            LinkAction::Link
        } else if interactive && !confirmed {
            LinkAction::Skip
        } else if force || remove_destination {
            LinkAction::RemoveThenLink
        } else {
            LinkAction::AlreadyExists
        }),
{
    if !dest_exists {
        LinkAction::Link
    } else if interactive && !confirmed {
        LinkAction::Skip
    } else if force || remove_destination {
        LinkAction::RemoveThenLink
    } else {
        LinkAction::AlreadyExists
    }
}

#[derive(Debug, Clone, Copy, PartialEq, Eq, Structural)]
pub enum LinkError {
    /// The link's destination has no parent directory.
    InvalidDestination,
    /// No relative path leads from the link's directory to the target.
    NoRelativePath,
}

/// The text a symbolic link holds: the target verbatim, its canonical
/// form (`canonical`, worked out by the caller), or the target relative to
/// the link's directory.
pub fn symlink_target(task: &SymlinkTask, canonical: &str) -> (r: Result<String, LinkError>)
    ensures
        task.kind == SymlinkKind::PreserveExact ==> (r matches Ok(t) && t@ == task.target@),
        task.kind == SymlinkKind::AbsoluteToSource ==> (r matches Ok(t) && t@ == canonical@),
        task.kind == SymlinkKind::RelativeToSource ==> match parent(task.destination@) {
            None => r matches Err(e) && e == LinkError::InvalidDestination,
            Some(dir) => match path_difference(task.target@, dir) {
                Some(rel) => r matches Ok(t) && t@ == rel,
                None => r matches Err(e) && e == LinkError::NoRelativePath,
            },
        },
{
    match task.kind {
        SymlinkKind::PreserveExact => Ok(string_of(&chars_of(task.target.as_str()))),
        SymlinkKind::AbsoluteToSource => Ok(string_of(&chars_of(canonical))),
        SymlinkKind::RelativeToSource => {
            match parent_of(task.destination.as_str()) {
                None => Err(LinkError::InvalidDestination),
                Some(dir) => match diff_paths(task.target.as_str(), dir.as_str()) {
                    Some(rel) => Ok(rel),
                    None => Err(LinkError::NoRelativePath),
                },
            }
        },
    }
}

/// How one file task ended.
#[derive(Debug, Clone)]
pub enum TaskOutcome {
    Completed,
    /// Declined at the prompt.
    Skipped,
    Failed(String),
    Interrupted,
}

/// What a finished run reports.
#[derive(Debug, Clone)]
pub struct RunReport {
    /// Cancellation was seen by some task.
    pub interrupted: bool,
    pub completed: usize,
    /// `File <index>: <reason>` for each failed task, in task order.
    pub errors: Vec<String>,
}

/// The message for the failure of task `i`.
pub open spec fn failure_message(i: nat, reason: Seq<char>) -> Seq<char> {
    "File "@ + decimal(i) + ": "@ + reason
}

pub open spec fn failures(rs: Seq<TaskOutcome>) -> Seq<Seq<char>>
    decreases rs.len(),
{
    if rs.len() == 0 {
        Seq::<Seq<char>>::empty()
    } else {
        let pre = failures(rs.drop_last());
        match rs.last() {
            TaskOutcome::Failed(m) => pre.push(failure_message((rs.len() - 1) as nat, m@)),
            _ => pre,
        }
    }
}

pub open spec fn completed_count(rs: Seq<TaskOutcome>) -> nat
    decreases rs.len(),
{
    if rs.len() == 0 {
        0
    } else {
        completed_count(rs.drop_last()) + if rs.last() is Completed {
            1nat
        } else {
            0nat
        }
    }
}

pub open spec fn any_interrupted(rs: Seq<TaskOutcome>) -> bool {
    exists|i: int| 0 <= i < rs.len() && #[trigger] rs[i] is Interrupted
}

/// Gathers the outcomes of all file tasks: failures are collected, not
/// fatal one by one; cancellation is flagged.
pub fn summarize(results: &Vec<TaskOutcome>) -> (r: RunReport)
    ensures
        r.interrupted == any_interrupted(results@),
        r.completed == completed_count(results@),
        names_of(r.errors@) == failures(results@),
{
    let mut interrupted = false;
    let mut completed: usize = 0;
    let mut errors: Vec<String> = Vec::new();
    let mut i: usize = 0;
    proof {
        assert(results@.subrange(0, 0) =~= Seq::<TaskOutcome>::empty());
        assert(names_of(errors@) =~= Seq::<Seq<char>>::empty());
    }
    while i < results.len()
        invariant
            i <= results.len(),
            interrupted == any_interrupted(results@.subrange(0, i as int)),
            completed == completed_count(results@.subrange(0, i as int)),
            completed <= i,
            names_of(errors@) == failures(results@.subrange(0, i as int)),
        decreases results.len() - i,
    {
        let ghost pre = results@.subrange(0, i as int);
        let ghost next = results@.subrange(0, i + 1);
        proof {
            assert(next.drop_last() =~= pre);
            assert(next.last() == results@[i as int]);
        }
        match &results[i] {
            TaskOutcome::Completed => {
                completed = completed + 1;
            },
            TaskOutcome::Skipped => {},
            TaskOutcome::Failed(m) => {
                let mut msg = chars_of("File ");
                msg = concat_chars(&msg, &decimal_of(i as u64));
                msg = concat_chars(&msg, &chars_of(": "));
                msg = concat_chars(&msg, &chars_of(m.as_str()));
                let ghost before = errors@;
                errors.push(string_of(&msg));
                proof {
                    assert(names_of(errors@) =~= names_of(before).push(failure_message(i as nat, m@)));
                }
            },
            TaskOutcome::Interrupted => {
                interrupted = true;
            },
        }
        proof {
            if any_interrupted(next) && !(results@[i as int] is Interrupted) {
                let w = choose|w: int| 0 <= w < next.len() && #[trigger] next[w] is Interrupted;
                assert(pre[w] is Interrupted);
            }
            if any_interrupted(pre) {
                let w = choose|w: int| 0 <= w < pre.len() && #[trigger] pre[w] is Interrupted;
                assert(next[w] is Interrupted);
            }
            if results@[i as int] is Interrupted {
                assert(next[i as int] is Interrupted);
            }
        }
        i = i + 1;
    }
    proof {
        assert(results@.subrange(0, results@.len() as int) =~= results@);
    }
    RunReport { interrupted, completed, errors }
}

/// The process exit code of a run: the conventional SIGINT code when
/// cancelled (ahead of any error), 1 on errors, 0 on success.
pub fn exit_code(report: &RunReport) -> (r: i32)
    ensures
        r == (if report.interrupted { 130i32 } else if report.errors@.len() > 0 { 1i32 } else { 0i32 }),
{
    if report.interrupted {
        130
    } else if report.errors.len() > 0 {
        1
    } else {
        0
    }
}

/// The first `limit` error messages, and how many more there are.
pub fn shown_errors(errors: &Vec<String>, limit: usize) -> (r: (Vec<String>, usize))
    ensures
        names_of(r.0@) == names_of(errors@).subrange(0, if limit < errors@.len() { limit as int } else { errors@.len() as int }),
        r.1 == (if limit < errors@.len() { errors@.len() - limit } else { 0 }),
{
    let n: usize = if limit < errors.len() { limit } else { errors.len() };
    let mut shown: Vec<String> = Vec::new();
    let mut i: usize = 0;
    while i < n
        invariant
            i <= n <= errors.len(),
            names_of(shown@) == names_of(errors@).subrange(0, i as int),
        decreases n - i,
    {
        let ghost before = shown@;
        let ghost i0 = i as int;
        shown.push(string_of(&chars_of(errors[i].as_str())));
        i = i + 1;
        proof {
            assert(names_of(shown@) =~= names_of(before).push(errors@[i0]@));
            assert(names_of(errors@).subrange(0, i as int) =~= names_of(errors@).subrange(0, i0).push(errors@[i0]@));
        }
    }
    (shown, errors.len() - n)
}

} // verus!
