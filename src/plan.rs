//! The copy plan: the files, directories and links a run will create,
//! built from what the source walk found, before anything is written.
use vstd::prelude::*;
use vstd::multiset::Multiset;
use crate::text::{chars_of, string_of};
use crate::paths::{
    join, joined, file_name, parent, relative_parts, is_below, with_parents_spec, with_parents,
    join_path, file_name_of, parent_of, parts_of,
};
use crate::exclude::{ExcludeRules, RulesModel, excluded, should_exclude, starts_with_of};
use crate::options::{CopyOptions, SymlinkMode};

verus! {

/// How a symbolic link's target is chosen.
#[derive(Debug, Clone, Copy, PartialEq, Eq, Structural)]
pub enum SymlinkKind {
    /// The target text is used verbatim.
    PreserveExact,
    /// The target is the source relative to the link's directory.
    RelativeToSource,
    /// The target is the canonical source path.
    AbsoluteToSource,
}

#[derive(Debug, Clone)]
pub struct FileTask {
    pub source: String,
    pub destination: String,
    pub size: u64,
    /// The source inode, when the source has other hard links whose topology
    /// is to be kept.
    pub inode_group: Option<u64>,
}

/// A link to create: `target` is the verbatim link text for `PreserveExact`,
/// the path to resolve otherwise; `source` is the walked entry it stands for.
#[derive(Debug, Clone)]
pub struct SymlinkTask {
    pub source: String,
    pub target: String,
    pub destination: String,
    pub kind: SymlinkKind,
}

#[derive(Debug, Clone)]
pub struct HardlinkTask {
    pub source: String,
    pub destination: String,
}

#[derive(Debug)]
pub struct CopyPlan {
    pub files: Vec<FileTask>,
    pub directories: Vec<String>,
    pub symlinks: Vec<SymlinkTask>,
    pub hardlinks: Vec<HardlinkTask>,
    pub total_size: u64,
    pub total_files: usize,
    pub skipped_files: usize,
    pub skipped_size: u64,
}

pub struct FileModel {
    pub source: Seq<char>,
    pub destination: Seq<char>,
    pub size: nat,
    pub inode_group: Option<u64>,
}

pub struct LinkModel {
    pub source: Seq<char>,
    pub target: Seq<char>,
    pub destination: Seq<char>,
    pub kind: SymlinkKind,
}

pub struct HardlinkModel {
    pub source: Seq<char>,
    pub destination: Seq<char>,
}

pub struct PlanModel {
    pub files: Seq<FileModel>,
    pub directories: Seq<Seq<char>>,
    pub symlinks: Seq<LinkModel>,
    pub hardlinks: Seq<HardlinkModel>,
    pub total_size: nat,
    pub total_files: nat,
    pub skipped_files: nat,
    pub skipped_size: nat,
}

impl FileTask {
    pub open spec fn model(&self) -> FileModel {
        FileModel {
            source: self.source@,
            destination: self.destination@,
            size: self.size as nat,
            inode_group: self.inode_group,
        }
    }
}

pub open spec fn file_models(v: Seq<FileTask>) -> Seq<FileModel> {
    Seq::new(v.len(), |i: int| v[i].model())
}

pub open spec fn link_models(v: Seq<SymlinkTask>) -> Seq<LinkModel> {
    Seq::new(
        v.len(),
        |i: int|
            LinkModel {
                source: v[i].source@,
                target: v[i].target@,
                destination: v[i].destination@,
                kind: v[i].kind,
            },
    )
}

pub open spec fn hardlink_models(v: Seq<HardlinkTask>) -> Seq<HardlinkModel> {
    Seq::new(v.len(), |i: int| HardlinkModel { source: v[i].source@, destination: v[i].destination@ })
}

pub open spec fn dir_models(v: Seq<String>) -> Seq<Seq<char>> {
    Seq::new(v.len(), |i: int| v[i]@)
}

impl View for CopyPlan {
    type V = PlanModel;

    open spec fn view(&self) -> PlanModel {
        PlanModel {
            files: file_models(self.files@),
            directories: dir_models(self.directories@),
            symlinks: link_models(self.symlinks@),
            hardlinks: hardlink_models(self.hardlinks@),
            total_size: self.total_size as nat,
            total_files: self.total_files as nat,
            skipped_files: self.skipped_files as nat,
            skipped_size: self.skipped_size as nat,
        }
    }
}

/// The total size of a sequence of planned files.
pub open spec fn sum_sizes(fs: Seq<FileModel>) -> nat
    decreases fs.len(),
{
    if fs.len() == 0 {
        0
    } else {
        sum_sizes(fs.drop_last()) + fs.last().size
    }
}

/// The plan's counters agree with its file list.
pub open spec fn consistent(m: PlanModel) -> bool {
    m.total_size == sum_sizes(m.files) && m.total_files == m.files.len()
}

pub open spec fn empty_plan() -> PlanModel {
    PlanModel {
        files: Seq::empty(),
        directories: Seq::empty(),
        symlinks: Seq::empty(),
        hardlinks: Seq::empty(),
        total_size: 0,
        total_files: 0,
        skipped_files: 0,
        skipped_size: 0,
    }
}

pub open spec fn with_file(m: PlanModel, f: FileModel) -> PlanModel {
    PlanModel {
        files: m.files.push(f),
        total_size: m.total_size + f.size,
        total_files: m.total_files + 1,
        ..m
    }
}

pub open spec fn with_directory(m: PlanModel, d: Seq<char>) -> PlanModel {
    PlanModel { directories: m.directories.push(d), ..m }
}

pub open spec fn with_skipped(m: PlanModel, size: nat) -> PlanModel {
    PlanModel { skipped_files: m.skipped_files + 1, skipped_size: m.skipped_size + size, ..m }
}

pub open spec fn with_symlink(m: PlanModel, l: LinkModel) -> PlanModel {
    PlanModel { symlinks: m.symlinks.push(l), ..m }
}

pub open spec fn with_hardlink(m: PlanModel, h: HardlinkModel) -> PlanModel {
    PlanModel { hardlinks: m.hardlinks.push(h), ..m }
}

/// Sizes in non-increasing order.
pub open spec fn sorted_by_size_desc(fs: Seq<FileModel>) -> bool {
    forall|a: int, b: int| 0 <= a < b < fs.len() ==> fs[a].size >= fs[b].size
}

/// `a` and `b` hold the same entries, in any order, and every other field agrees.
pub open spec fn same_but_file_order(a: PlanModel, b: PlanModel) -> bool {
    &&& a.files.to_multiset() == b.files.to_multiset()
    &&& a.directories == b.directories
    &&& a.symlinks == b.symlinks
    &&& a.hardlinks == b.hardlinks
    &&& a.total_size == b.total_size
    &&& a.total_files == b.total_files
    &&& a.skipped_files == b.skipped_files
    &&& a.skipped_size == b.skipped_size
}

pub proof fn lemma_sum_remove(fs: Seq<FileModel>, k: int)
    requires
        0 <= k < fs.len(),
    ensures
        sum_sizes(fs.remove(k)) + fs[k].size == sum_sizes(fs),
    decreases fs.len(),
{
    if k == fs.len() - 1 {
        assert(fs.remove(k) =~= fs.drop_last());
    } else {
        assert(fs.remove(k).drop_last() =~= fs.drop_last().remove(k));
        assert(fs.remove(k).last() == fs.last());
        lemma_sum_remove(fs.drop_last(), k);
    }
}

impl CopyPlan {
    /// The counters agree with the file list.
    pub open spec fn wf(&self) -> bool {
        consistent(self@)
    }

    pub fn new() -> (r: CopyPlan)
        ensures
            r@ == empty_plan(),
            r.wf(),
    {
        let r = CopyPlan {
            files: Vec::new(),
            directories: Vec::new(),
            symlinks: Vec::new(),
            hardlinks: Vec::new(),
            total_size: 0,
            total_files: 0,
            skipped_files: 0,
            skipped_size: 0,
        };
        proof {
            assert(r@.files =~= Seq::<FileModel>::empty());
            assert(r@.directories =~= Seq::<Seq<char>>::empty());
            assert(r@.symlinks =~= Seq::<LinkModel>::empty());
            assert(r@.hardlinks =~= Seq::<HardlinkModel>::empty());
        }
        r
    }

    /// Adds a file in an inode group (or none), keeping the counters in step.
    pub fn add_grouped_file(&mut self, source: String, destination: String, size: u64, inode_group: Option<u64>)
        requires
            old(self).wf(),
            old(self).total_size + size <= u64::MAX,
            old(self).total_files < usize::MAX,
        ensures
            final(self).wf(),
            final(self)@ == with_file(
                old(self)@,
                FileModel { source: source@, destination: destination@, size: size as nat, inode_group },
            ),
    {
        let ghost before = self.files@;
        self.files.push(FileTask { source, destination, size, inode_group });
        self.total_size = self.total_size + size;
        self.total_files = self.total_files + 1;
        proof {
            assert(file_models(self.files@) =~= file_models(before).push(self.files@.last().model()));
            assert(file_models(self.files@).drop_last() =~= file_models(before));
        }
    }

    /// Adds a file outside any inode group.
    pub fn add_file(&mut self, source: String, destination: String, size: u64)
        requires
            old(self).wf(),
            old(self).total_size + size <= u64::MAX,
            old(self).total_files < usize::MAX,
        ensures
            final(self).wf(),
            final(self)@ == with_file(
                old(self)@,
                FileModel { source: source@, destination: destination@, size: size as nat, inode_group: None },
            ),
    {
        self.add_grouped_file(source, destination, size, None);
    }

    pub fn add_directory(&mut self, path: String)
        requires
            old(self).wf(),
        ensures
            final(self).wf(),
            final(self)@ == with_directory(old(self)@, path@),
    {
        let ghost before = self.directories@;
        self.directories.push(path);
        proof {
            assert(dir_models(self.directories@) =~= dir_models(before).push(self.directories@.last()@));
        }
    }

    pub fn add_symlink(&mut self, task: SymlinkTask)
        requires
            old(self).wf(),
        ensures
            final(self).wf(),
            final(self)@ == with_symlink(
                old(self)@,
                LinkModel {
                    source: task.source@,
                    target: task.target@,
                    destination: task.destination@,
                    kind: task.kind,
                },
            ),
    {
        let ghost before = self.symlinks@;
        let ghost t = task;
        self.symlinks.push(task);
        proof {
            assert(link_models(self.symlinks@) =~= link_models(before).push(
                LinkModel { source: t.source@, target: t.target@, destination: t.destination@, kind: t.kind },
            ));
        }
    }

    pub fn add_hardlink(&mut self, task: HardlinkTask)
        requires
            old(self).wf(),
        ensures
            final(self).wf(),
            final(self)@ == with_hardlink(
                old(self)@,
                HardlinkModel { source: task.source@, destination: task.destination@ },
            ),
    {
        let ghost before = self.hardlinks@;
        let ghost t = task;
        self.hardlinks.push(task);
        proof {
            assert(hardlink_models(self.hardlinks@) =~= hardlink_models(before).push(
                HardlinkModel { source: t.source@, destination: t.destination@ },
            ));
        }
    }

    /// Counts a file the destination already holds.
    pub fn mark_skipped(&mut self, size: u64)
        requires
            old(self).wf(),
            old(self).skipped_size + size <= u64::MAX,
            old(self).skipped_files < usize::MAX,
        ensures
            final(self).wf(),
            final(self)@ == with_skipped(old(self)@, size as nat),
    {
        self.skipped_files = self.skipped_files + 1;
        self.skipped_size = self.skipped_size + size;
    }

    /// Orders the files largest first; nothing else changes.
    pub fn sort_by_size_desc(&mut self)
        requires
            old(self).wf(),
        ensures
            final(self).wf(),
            same_but_file_order(final(self)@, old(self)@),
            sorted_by_size_desc(final(self)@.files),
    {
        let ghost orig = file_models(self.files@);
        let mut rest: Vec<FileTask> = Vec::new();
        std::mem::swap(&mut rest, &mut self.files);
        let mut out: Vec<FileTask> = Vec::new();
        proof {
            broadcast use vstd::seq_lib::group_to_multiset_ensures, vstd::multiset::group_multiset_properties;
            assert(file_models(rest@) =~= orig);
            assert(file_models(out@) =~= Seq::<FileModel>::empty());
            assert(file_models(out@).to_multiset() =~= Multiset::empty());
            assert(Multiset::<FileModel>::empty().add(orig.to_multiset()) =~= orig.to_multiset());
        }
        while rest.len() > 0
            invariant
                file_models(out@).to_multiset().add(file_models(rest@).to_multiset()) == orig.to_multiset(),
                sum_sizes(file_models(out@)) + sum_sizes(file_models(rest@)) == sum_sizes(orig),
                sorted_by_size_desc(file_models(out@)),
                forall|a: int, b: int|
                    0 <= a < out@.len() && 0 <= b < rest@.len() ==> out@[a].size >= rest@[b].size,
            decreases rest.len(),
        {
            let mut m: usize = 0;
            let mut k: usize = 1;
            while k < rest.len()
                invariant
                    0 <= m < rest.len(),
                    1 <= k <= rest.len(),
                    m < k,
                    forall|b: int| 0 <= b < k ==> rest@[m as int].size >= rest@[b].size,
                decreases rest.len() - k,
            {
                if rest[k].size > rest[m].size {
                    m = k;
                }
                k = k + 1;
            }
            let ghost rest_before = rest@;
            let ghost out_before = out@;
            let t = rest.remove(m);
            proof {
                assert(file_models(rest@) =~= file_models(rest_before).remove(m as int));
                lemma_sum_remove(file_models(rest_before), m as int);
                vstd::seq_lib::to_multiset_remove(file_models(rest_before), m as int);
                assert(file_models(rest_before).to_multiset().count(t.model()) > 0) by {
                    vstd::seq_lib::to_multiset_contains(file_models(rest_before), t.model());
                    assert(file_models(rest_before)[m as int] == t.model());
                }
            }
            out.push(t);
            proof {
                assert(file_models(out@) =~= file_models(out_before).push(t.model()));
                assert(file_models(out@).drop_last() =~= file_models(out_before));
                vstd::seq_lib::to_multiset_build(file_models(out_before), t.model());
                assert(file_models(out@).to_multiset().add(file_models(rest@).to_multiset()) =~= orig.to_multiset());
                assert forall|b: int| 0 <= b < rest@.len() implies out@.last().size >= rest@[b].size by {
                    if b < m {
                        assert(rest@[b] == rest_before[b]);
                    } else {
                        assert(rest@[b] == rest_before[b + 1]);
                    }
                }
                assert forall|a: int, b: int| 0 <= a < out@.len() && 0 <= b < rest@.len() implies out@[a].size
                    >= rest@[b].size by {
                    if b < m {
                        assert(rest@[b] == rest_before[b]);
                    } else {
                        assert(rest@[b] == rest_before[b + 1]);
                    }
                }
            }
        }
        proof {
            broadcast use vstd::seq_lib::group_to_multiset_ensures, vstd::multiset::group_multiset_properties;
            assert(file_models(rest@) =~= Seq::<FileModel>::empty());
            assert(file_models(rest@).to_multiset() =~= Multiset::empty());
            assert(file_models(out@).to_multiset().add(Multiset::empty()) =~= file_models(out@).to_multiset());
            assert(sum_sizes(file_models(rest@)) == 0);
            assert(file_models(out@).to_multiset().len() == file_models(out@).len());
            assert(orig.to_multiset().len() == orig.len());
        }
        self.files = out;
    }
}

/// What the walk found at one path.
#[derive(Debug, Clone, Copy, PartialEq, Eq, Structural)]
pub enum EntryKind {
    File,
    Directory,
    /// A symbolic link that is not followed.
    Symlink,
}

/// What lies at the destination path.
#[derive(Debug, Clone, Copy, PartialEq, Eq, Structural)]
pub enum DestStatus {
    Missing,
    File,
    Directory,
}

/// One path found under a source, with what planning reads of it.
#[derive(Debug, Clone)]
pub struct SourceEntry {
    pub path: String,
    /// The canonical form of `path` (or `path` itself when it has none).
    pub canonical: String,
    pub kind: EntryKind,
    pub size: u64,
    pub inode: u64,
    /// The number of hard links to the entry's inode.
    pub links: u64,
    /// The text of the link, for an unfollowed symbolic link.
    pub link_target: String,
    /// Whether the destination already holds this entry (resume oracle).
    pub up_to_date: bool,
}

/// One command-line source: the path itself and, for a directory, all
/// the entries beneath it.
#[derive(Debug, Clone)]
pub struct SourceInput {
    pub root: SourceEntry,
    pub entries: Vec<SourceEntry>,
}

#[derive(Debug, Clone, Copy, PartialEq, Eq, Structural)]
pub enum PlanError {
    /// A directory was given where a file was expected.
    IsDirectory,
    /// A directory source without recursion.
    DirectoryNotRecursive,
    /// A directory source with a destination that is a file.
    DestinationIsFile,
    /// The source path has no file name.
    InvalidSource,
    /// The destination must exist as a directory here and does not exist.
    DestinationMissing,
    /// The destination must be a directory here and is not.
    DestinationNotDirectory,
}

pub open spec fn link_kind(mode: SymlinkMode) -> SymlinkKind {
    match mode {
        SymlinkMode::Relative => SymlinkKind::RelativeToSource,
        SymlinkMode::Absolute => SymlinkKind::AbsoluteToSource,
        _ => SymlinkKind::PreserveExact,
    }
}

/// The inode group of a planned file: only under preserve-links, and only
/// for sources with other hard links.
pub open spec fn group_of(e: SourceEntry, o: CopyOptions) -> Option<u64> {
    if o.preserve.links && e.links > 1 {
        Some(e.inode)
    } else {
        None
    }
}

/// Under preserve-links, two walked files that are hard links of one inode
/// are planned in one inode group, which the executor turns into one
/// transfer and links to it.
pub proof fn lemma_hard_link_pair_grouped(a: SourceEntry, b: SourceEntry, o: CopyOptions)
    requires
        o.preserve.links,
        a.links > 1,
        b.links > 1,
        a.inode == b.inode,
    ensures
        group_of(a, o) is Some,
        group_of(a, o) == group_of(b, o),
{
}

/// The plan with one non-directory entry added for `dest`.
pub open spec fn place(m: PlanModel, e: SourceEntry, dest: Seq<char>, o: CopyOptions) -> PlanModel {
    if e.kind == EntryKind::Symlink {
        with_symlink(
            m,
            LinkModel {
                source: e.path@,
                target: e.link_target@,
                destination: dest,
                kind: SymlinkKind::PreserveExact,
            },
        )
    } else if o.symlink != SymlinkMode::Off {
        with_symlink(
            m,
            LinkModel { source: e.path@, target: e.path@, destination: dest, kind: link_kind(o.symlink) },
        )
    } else if o.hard_link {
        with_hardlink(m, HardlinkModel { source: e.path@, destination: dest })
    } else if o.resume && e.up_to_date {
        with_skipped(m, e.size as nat)
    } else {
        with_file(
            m,
            FileModel { source: e.path@, destination: dest, size: e.size as nat, inode_group: group_of(e, o) },
        )
    }
}

pub open spec fn rules_model(r: Option<ExcludeRules>) -> Option<RulesModel> {
    match r {
        Some(x) => Some(x@),
        None => None,
    }
}

pub open spec fn entry_excluded(e: SourceEntry, root: Seq<char>, rules: Option<RulesModel>) -> bool {
    rules matches Some(r) && excluded(e.path@, root, r, e.canonical@, e.kind == EntryKind::Directory)
}

/// An excluded directory.
pub open spec fn excluded_dir(e: SourceEntry, root: Seq<char>, rules: Option<RulesModel>) -> bool {
    e.kind == EntryKind::Directory && entry_excluded(e, root, rules)
}

/// Entry `i` lies below an excluded directory among the entries.
pub open spec fn pruned(entries: Seq<SourceEntry>, i: int, root: Seq<char>, rules: Option<RulesModel>) -> bool {
    exists|j: int|
        0 <= j < entries.len() && excluded_dir(entries[j], root, rules) && #[trigger] is_below(
            entries[i].path@,
            entries[j].path@,
        )
}

pub open spec fn included(entries: Seq<SourceEntry>, i: int, root: Seq<char>, rules: Option<RulesModel>) -> bool {
    !entry_excluded(entries[i], root, rules) && !pruned(entries, i, root, rules)
}

/// Where an entry under `root` lands under `root_dest`.
pub open spec fn entry_destination(root: Seq<char>, root_dest: Seq<char>, path: Seq<char>) -> Seq<char> {
    join(root_dest, joined(relative_parts(path, root)))
}

/// The plan `m` with the first `k` entries of a walk of `root` added.
pub open spec fn walk(
    m: PlanModel,
    entries: Seq<SourceEntry>,
    k: int,
    root: Seq<char>,
    root_dest: Seq<char>,
    rules: Option<RulesModel>,
    o: CopyOptions,
) -> PlanModel
    decreases k,
{
    if k <= 0 {
        m
    } else {
        let prev = walk(m, entries, k - 1, root, root_dest, rules, o);
        let e = entries[k - 1];
        if !included(entries, k - 1, root, rules) {
            prev
        } else if e.kind == EntryKind::Directory {
            with_directory(prev, entry_destination(root, root_dest, e.path@))
        } else {
            place(prev, e, entry_destination(root, root_dest, e.path@), o)
        }
    }
}

/// The total size of the entries.
pub open spec fn sizes_sum(es: Seq<SourceEntry>) -> nat
    decreases es.len(),
{
    if es.len() == 0 {
        0
    } else {
        sizes_sum(es.drop_last()) + es.last().size as nat
    }
}

pub proof fn lemma_sizes_prefix(es: Seq<SourceEntry>, k: int)
    requires
        0 <= k <= es.len(),
    ensures
        sizes_sum(es.subrange(0, k)) <= sizes_sum(es),
    decreases es.len() - k,
{
    if k < es.len() {
        assert(es.subrange(0, k + 1).drop_last() =~= es.subrange(0, k));
        lemma_sizes_prefix(es, k + 1);
    } else {
        assert(es.subrange(0, k) =~= es);
    }
}

/// Where the entries of a directory source land: under the destination,
/// by the directory's name, or by its full path with `parents`.
pub open spec fn directory_dest(source: Seq<char>, destination: Seq<char>, parents: bool) -> Result<
    Seq<char>,
    PlanError,
> {
    if parents {
        Ok(with_parents_spec(destination, source))
    } else {
        match file_name(source) {
            Some(n) => Ok(join(destination, n)),
            None => Err(PlanError::InvalidSource),
        }
    }
}

/// Where a single file source lands.
pub open spec fn file_dest(source: Seq<char>, destination: Seq<char>, dest: DestStatus, parents: bool) -> Result<
    Seq<char>,
    PlanError,
> {
    if parents {
        match dest {
            DestStatus::Missing => Err(PlanError::DestinationMissing),
            DestStatus::File => Err(PlanError::DestinationNotDirectory),
            DestStatus::Directory => Ok(with_parents_spec(destination, source)),
        }
    } else if dest == DestStatus::Directory {
        match file_name(source) {
            Some(n) => Ok(join(destination, n)),
            None => Err(PlanError::InvalidSource),
        }
    } else {
        Ok(destination)
    }
}

/// The directory to create for a file placed with `parents`.
pub open spec fn with_parent_dir(m: PlanModel, dest_path: Seq<char>, parents: bool) -> PlanModel {
    if parents && parent(dest_path) is Some {
        with_directory(m, parent(dest_path)->0)
    } else {
        m
    }
}

/// The plan for one file source.
pub open spec fn file_plan(
    source: SourceEntry,
    destination: Seq<char>,
    dest: DestStatus,
    o: CopyOptions,
) -> Result<PlanModel, PlanError> {
    if source.kind == EntryKind::Directory {
        Err(PlanError::IsDirectory)
    } else {
        match file_dest(source.path@, destination, dest, o.parents) {
            Err(e) => Err(e),
            Ok(d) => Ok(place(with_parent_dir(empty_plan(), d, o.parents), source, d, o)),
        }
    }
}

/// The plan for one directory source, before its files are ordered.
pub open spec fn directory_plan(
    source: Seq<char>,
    destination: Seq<char>,
    entries: Seq<SourceEntry>,
    o: CopyOptions,
    rules: Option<RulesModel>,
) -> Result<PlanModel, PlanError> {
    match directory_dest(source, destination, o.parents) {
        Err(e) => Err(e),
        Ok(rd) => Ok(walk(with_directory(empty_plan(), rd), entries, entries.len() as int, source, rd, rules, o)),
    }
}

/// Where the `i`-th file entry of several sources lands.
pub open spec fn multi_file_dest(source: Seq<char>, destination: Seq<char>, parents: bool) -> Result<
    Seq<char>,
    PlanError,
> {
    match file_name(source) {
        None => Err(PlanError::InvalidSource),
        Some(n) => if parents {
            Ok(with_parents_spec(destination, source))
        } else {
            Ok(join(destination, n))
        },
    }
}

/// The plan `m` with one more source of several added.
pub open spec fn add_source(
    m: PlanModel,
    s: SourceInput,
    destination: Seq<char>,
    o: CopyOptions,
    rules: Option<RulesModel>,
) -> Result<PlanModel, PlanError> {
    if s.root.kind == EntryKind::Directory {
        match directory_dest(s.root.path@, destination, o.parents) {
            Err(e) => Err(e),
            Ok(rd) => Ok(
                walk(with_directory(m, rd), s.entries@, s.entries@.len() as int, s.root.path@, rd, rules, o),
            ),
        }
    } else {
        match multi_file_dest(s.root.path@, destination, o.parents) {
            Err(e) => Err(e),
            Ok(d) => Ok(place(with_parent_dir(m, d, o.parents), s.root, d, o)),
        }
    }
}

/// The plan for the first `k` of several sources.
pub open spec fn sources_plan(
    sources: Seq<SourceInput>,
    k: int,
    destination: Seq<char>,
    o: CopyOptions,
    rules: Option<RulesModel>,
) -> Result<PlanModel, PlanError>
    decreases k,
{
    if k <= 0 {
        Ok(empty_plan())
    } else {
        match sources_plan(sources, k - 1, destination, o, rules) {
            Err(e) => Err(e),
            Ok(m) => add_source(m, sources[k - 1], destination, o, rules),
        }
    }
}

/// The plan for several sources into one destination directory.
pub open spec fn multiple_plan(
    sources: Seq<SourceInput>,
    destination: Seq<char>,
    dest: DestStatus,
    o: CopyOptions,
    rules: Option<RulesModel>,
) -> Result<PlanModel, PlanError> {
    match dest {
        DestStatus::Missing => Err(PlanError::DestinationMissing),
        DestStatus::File => Err(PlanError::DestinationNotDirectory),
        DestStatus::Directory => sources_plan(sources, sources.len() as int, destination, o, rules),
    }
}

/// What a source adds to the plan's size and counts.
pub open spec fn input_size(s: SourceInput) -> nat {
    if s.root.kind == EntryKind::Directory {
        sizes_sum(s.entries@)
    } else {
        s.root.size as nat
    }
}

pub open spec fn input_count(s: SourceInput) -> nat {
    if s.root.kind == EntryKind::Directory {
        s.entries@.len()
    } else {
        1
    }
}

pub open spec fn inputs_size(ss: Seq<SourceInput>) -> nat
    decreases ss.len(),
{
    if ss.len() == 0 {
        0
    } else {
        inputs_size(ss.drop_last()) + input_size(ss.last())
    }
}

pub open spec fn inputs_count(ss: Seq<SourceInput>) -> nat
    decreases ss.len(),
{
    if ss.len() == 0 {
        0
    } else {
        inputs_count(ss.drop_last()) + input_count(ss.last())
    }
}

/// The plan `r` agrees with `m` up to the order of its files, which are
/// largest first.
pub open spec fn ordered_from(r: PlanModel, m: PlanModel) -> bool {
    same_but_file_order(r, m) && sorted_by_size_desc(r.files)
}

/// Where the entries of a directory source land.
pub fn directory_destination(source: &str, destination: &str, parents: bool) -> (r: Result<String, PlanError>)
    ensures
        r matches Ok(d) ==> directory_dest(source@, destination@, parents) == Ok::<Seq<char>, PlanError>(d@),
        r matches Err(e) ==> directory_dest(source@, destination@, parents) == Err::<Seq<char>, PlanError>(e),
{
    if parents {
        Ok(with_parents(destination, source))
    } else {
        match file_name_of(source) {
            Some(n) => Ok(join_path(destination, n.as_str())),
            None => Err(PlanError::InvalidSource),
        }
    }
}

/// Where a single file source lands: with `parents`, its full path under a
/// destination directory; into a destination directory by its name; else
/// the destination itself.
pub fn file_destination(source: &str, destination: &str, dest: DestStatus, parents: bool) -> (r: Result<
    String,
    PlanError,
>)
    ensures
        r matches Ok(d) ==> file_dest(source@, destination@, dest, parents) == Ok::<Seq<char>, PlanError>(d@),
        r matches Err(e) ==> file_dest(source@, destination@, dest, parents) == Err::<Seq<char>, PlanError>(e),
{
    if parents {
        match dest {
            DestStatus::Missing => Err(PlanError::DestinationMissing),
            DestStatus::File => Err(PlanError::DestinationNotDirectory),
            DestStatus::Directory => Ok(with_parents(destination, source)),
        }
    } else if dest == DestStatus::Directory {
        match file_name_of(source) {
            Some(n) => Ok(join_path(destination, n.as_str())),
            None => Err(PlanError::InvalidSource),
        }
    } else {
        Ok(string_of(&chars_of(destination)))
    }
}

/// Where a file among several sources lands: by its name in the
/// destination directory, or by its full path with `parents`.
pub fn multi_file_destination(source: &str, destination: &str, parents: bool) -> (r: Result<String, PlanError>)
    ensures
        r matches Ok(d) ==> multi_file_dest(source@, destination@, parents) == Ok::<Seq<char>, PlanError>(d@),
        r matches Err(e) ==> multi_file_dest(source@, destination@, parents) == Err::<Seq<char>, PlanError>(e),
{
    match file_name_of(source) {
        None => Err(PlanError::InvalidSource),
        Some(n) => if parents {
            Ok(with_parents(destination, source))
        } else {
            Ok(join_path(destination, n.as_str()))
        },
    }
}

/// Where an entry found under `root` lands under `root_dest`.
pub fn entry_destination_of(root: &str, root_dest: &str, path: &str) -> (r: String)
    ensures
        r@ == entry_destination(root@, root_dest@, path@),
{
    let pv = chars_of(path);
    let p_parts = parts_of(&pv);
    let under = starts_with_of(path, root);
    let start: usize = if under {
        let rv = chars_of(root);
        parts_of(&rv).len()
    } else {
        0
    };
    let mut rest: Vec<Vec<char>> = Vec::new();
    let mut q: usize = start;
    proof {
        assert(relative_parts(path@, root@) =~= crate::text::char_seqs(p_parts@).subrange(
            start as int,
            p_parts@.len() as int,
        ));
    }
    while q < p_parts.len()
        invariant
            start <= q <= p_parts.len(),
            crate::text::char_seqs(rest@) == crate::text::char_seqs(p_parts@).subrange(start as int, q as int),
        decreases p_parts.len() - q,
    {
        let ghost before = rest@;
        let ghost q0 = q as int;
        rest.push(p_parts[q].clone());
        q = q + 1;
        proof {
            assert(crate::text::char_seqs(rest@) =~= crate::text::char_seqs(before).push(p_parts@[q0]@));
            assert(crate::text::char_seqs(p_parts@).subrange(start as int, q as int)
                =~= crate::text::char_seqs(p_parts@).subrange(start as int, q0).push(p_parts@[q0]@));
        }
    }
    let rel = crate::paths::joined_of(&rest);
    let rd = chars_of(root_dest);
    string_of(&crate::paths::join_of(&rd, &rel))
}

/// Whether `path` lies strictly below `dir`.
pub fn is_below_of(path: &str, dir: &str) -> (r: bool)
    ensures
        r == is_below(path@, dir@),
{
    let pv = chars_of(path);
    let dv = chars_of(dir);
    starts_with_of(path, dir) && parts_of(&dv).len() < parts_of(&pv).len()
}

/// Adds one non-directory entry to the plan (see `place`).
fn place_entry(plan: &mut CopyPlan, e: &SourceEntry, dest: String, o: &CopyOptions)
    requires
        old(plan).wf(),
        old(plan).total_size + old(plan).skipped_size + e.size <= u64::MAX,
        old(plan).total_files + old(plan).skipped_files < usize::MAX,
    ensures
        final(plan).wf(),
        final(plan)@ == place(old(plan)@, *e, dest@, *o),
{
    if e.kind == EntryKind::Symlink {
        plan.add_symlink(
            SymlinkTask {
                source: string_of(&chars_of(e.path.as_str())),
                target: string_of(&chars_of(e.link_target.as_str())),
                destination: dest,
                kind: SymlinkKind::PreserveExact,
            },
        );
    } else if o.symlink != SymlinkMode::Off {
        let kind = match o.symlink {
            SymlinkMode::Relative => SymlinkKind::RelativeToSource,
            SymlinkMode::Absolute => SymlinkKind::AbsoluteToSource,
            _ => SymlinkKind::PreserveExact,
        };
        plan.add_symlink(
            SymlinkTask {
                source: string_of(&chars_of(e.path.as_str())),
                target: string_of(&chars_of(e.path.as_str())),
                destination: dest,
                kind,
            },
        );
    } else if o.hard_link {
        plan.add_hardlink(HardlinkTask { source: string_of(&chars_of(e.path.as_str())), destination: dest });
    } else if o.resume && e.up_to_date {
        plan.mark_skipped(e.size);
    } else {
        let group = if o.preserve.links && e.links > 1 {
            Some(e.inode)
        } else {
            None
        };
        plan.add_grouped_file(string_of(&chars_of(e.path.as_str())), dest, e.size, group);
    }
}

/// The exclusion verdict of every entry.
fn exclusion_verdicts(entries: &Vec<SourceEntry>, root: &str, rules: &Option<ExcludeRules>) -> (r: Vec<bool>)
    ensures
        r@.len() == entries@.len(),
        forall|i: int| 0 <= i < r@.len() ==> r@[i] == entry_excluded(entries@[i], root@, rules_model(*rules)),
{
    let mut r: Vec<bool> = Vec::new();
    let mut i: usize = 0;
    while i < entries.len()
        invariant
            i <= entries.len(),
            r@.len() == i,
            forall|k: int| 0 <= k < i ==> r@[k] == entry_excluded(entries@[k], root@, rules_model(*rules)),
        decreases entries.len() - i,
    {
        let e = &entries[i];
        let v = match rules {
            Some(rs) => should_exclude(
                e.path.as_str(),
                root,
                rs,
                e.canonical.as_str(),
                e.kind == EntryKind::Directory,
            ),
            None => false,
        };
        r.push(v);
        i = i + 1;
    }
    r
}

/// Adds the entries of a walk of `root` to the plan, their destinations
/// under `root_dest`. Excluded entries, and everything below an excluded
/// directory, are left out whatever order the walk gave.
pub fn walk_into(
    plan: &mut CopyPlan,
    entries: &Vec<SourceEntry>,
    root: &str,
    root_dest: &str,
    rules: &Option<ExcludeRules>,
    o: &CopyOptions,
)
    requires
        old(plan).wf(),
        old(plan).total_size + old(plan).skipped_size + sizes_sum(entries@) <= u64::MAX,
        old(plan).total_files + old(plan).skipped_files + entries@.len() <= usize::MAX,
    ensures
        final(plan).wf(),
        final(plan)@ == walk(old(plan)@, entries@, entries@.len() as int, root@, root_dest@, rules_model(*rules), *o),
        final(plan).total_size + final(plan).skipped_size <= old(plan).total_size + old(plan).skipped_size
            + sizes_sum(entries@),
        final(plan).total_files + final(plan).skipped_files <= old(plan).total_files + old(plan).skipped_files
            + entries@.len(),
{
    let ghost rm = rules_model(*rules);
    let ex = exclusion_verdicts(entries, root, rules);
    let mut dirs: Vec<usize> = Vec::new();
    let mut i: usize = 0;
    while i < entries.len()
        invariant
            i <= entries.len(),
            rm == rules_model(*rules),
            ex@.len() == entries@.len(),
            forall|k: int| 0 <= k < ex@.len() ==> ex@[k] == entry_excluded(entries@[k], root@, rm),
            forall|k: int| 0 <= k < dirs@.len() ==> #[trigger] dirs@[k] < entries@.len() && excluded_dir(
                entries@[dirs@[k] as int],
                root@,
                rm,
            ),
            forall|j: int| 0 <= j < i && excluded_dir(entries@[j], root@, rm) ==> exists|k: int|
                0 <= k < dirs@.len() && dirs@[k] == j,
        decreases entries.len() - i,
    {
        let ghost before = dirs@;
        if ex[i] && entries[i].kind == EntryKind::Directory {
            dirs.push(i);
            proof {
                assert(dirs@[dirs@.len() - 1] == i);
            }
        }
        proof {
            assert forall|k: int| 0 <= k < dirs@.len() implies #[trigger] dirs@[k] < entries@.len() && excluded_dir(
                entries@[dirs@[k] as int],
                root@,
                rm,
            ) by {
                if k < before.len() {
                    assert(dirs@[k] == before[k]);
                } else {
                    assert(dirs@[k] == i);
                    assert(ex@[i as int] == entry_excluded(entries@[i as int], root@, rm));
                }
            }
            assert forall|j: int| 0 <= j <= i && excluded_dir(entries@[j], root@, rm) implies exists|k: int|
                0 <= k < dirs@.len() && dirs@[k] == j by {
                if j < i {
                    let k = choose|k: int| 0 <= k < before.len() && before[k] == j;
                    assert(dirs@[k] == before[k]);
                } else {
                    assert(dirs@[dirs@.len() - 1] == i);
                }
            }
        }
        i = i + 1;
    }
    let ghost start = plan@;
    let ghost base_s = plan.total_size + plan.skipped_size;
    let ghost base_c = plan.total_files + plan.skipped_files;
    let mut i: usize = 0;
    proof {
        assert(entries@.subrange(0, 0) =~= Seq::<SourceEntry>::empty());
    }
    while i < entries.len()
        invariant
            i <= entries.len(),
            ex@.len() == entries@.len(),
            forall|k: int| 0 <= k < ex@.len() ==> ex@[k] == entry_excluded(entries@[k], root@, rm),
            forall|k: int| 0 <= k < dirs@.len() ==> #[trigger] dirs@[k] < entries@.len() && excluded_dir(
                entries@[dirs@[k] as int],
                root@,
                rm,
            ),
            forall|j: int| 0 <= j < entries@.len() && excluded_dir(entries@[j], root@, rm) ==> exists|k: int|
                0 <= k < dirs@.len() && dirs@[k] == j,
            rm == rules_model(*rules),
            plan.wf(),
            plan@ == walk(start, entries@, i as int, root@, root_dest@, rm, *o),
            plan.total_size + plan.skipped_size <= base_s + sizes_sum(entries@.subrange(0, i as int)),
            plan.total_files + plan.skipped_files <= base_c + i,
            base_s + sizes_sum(entries@) <= u64::MAX,
            base_c + entries@.len() <= usize::MAX,
        decreases entries.len() - i,
    {
        let e = &entries[i];
        let mut below = false;
        let mut k: usize = 0;
        while k < dirs.len()
            invariant
                k <= dirs.len(),
                i < entries.len(),
                e == entries@[i as int],
                forall|q: int| 0 <= q < dirs@.len() ==> dirs@[q] < entries@.len(),
                below == exists|q: int| 0 <= q < k && is_below(e.path@, #[trigger] entries@[dirs@[q] as int].path@),
            decreases dirs.len() - k,
        {
            if is_below_of(e.path.as_str(), entries[dirs[k]].path.as_str()) {
                below = true;
            }
            k = k + 1;
        }
        proof {
            if below {
                let q = choose|q: int| 0 <= q < dirs@.len() && is_below(e.path@, #[trigger] entries@[dirs@[q] as int].path@);
                let j = dirs@[q] as int;
                assert(excluded_dir(entries@[j], root@, rm) && is_below(entries@[i as int].path@, entries@[j].path@));
                assert(pruned(entries@, i as int, root@, rm));
            }
            if pruned(entries@, i as int, root@, rm) {
                let j = choose|j: int| 0 <= j < entries@.len() && excluded_dir(entries@[j], root@, rm) && #[trigger] is_below(
                    entries@[i as int].path@,
                    entries@[j].path@,
                );
                let q = choose|q: int| 0 <= q < dirs@.len() && dirs@[q] == j;
                assert(is_below(e.path@, entries@[dirs@[q] as int].path@));
            }
            assert(below == pruned(entries@, i as int, root@, rm));
            assert(entries@.subrange(0, i + 1).drop_last() =~= entries@.subrange(0, i as int));
            lemma_sizes_prefix(entries@, i + 1);
        }
        if !ex[i] && !below {
            let dest = entry_destination_of(root, root_dest, e.path.as_str());
            if e.kind == EntryKind::Directory {
                plan.add_directory(dest);
            } else {
                place_entry(plan, e, dest, o);
            }
        }
        i = i + 1;
    }
    proof {
        assert(entries@.subrange(0, entries@.len() as int) =~= entries@);
    }
}

/// Plans one file source: refuses a directory, places the file at its
/// destination and, with `parents`, records the directory to create.
pub fn preprocess_file(source: &SourceEntry, destination: &str, dest: DestStatus, options: &CopyOptions) -> (r: Result<
    CopyPlan,
    PlanError,
>)
    ensures
        match file_plan(*source, destination@, dest, *options) {
            Ok(m) => r matches Ok(p) && p@ == m && p.wf(),
            Err(e) => r matches Err(x) && x == e,
        },
{
    if source.kind == EntryKind::Directory {
        return Err(PlanError::IsDirectory);
    }
    let dest_path = match file_destination(source.path.as_str(), destination, dest, options.parents) {
        Ok(d) => d,
        Err(e) => {
            return Err(e);
        },
    };
    let mut plan = CopyPlan::new();
    if options.parents {
        match parent_of(dest_path.as_str()) {
            Some(p) => plan.add_directory(p),
            None => {},
        }
    }
    place_entry(&mut plan, source, dest_path, options);
    Ok(plan)
}

/// Plans one directory source: its destination root, then every entry of
/// its walk, files largest first.
pub fn preprocess_directory(
    source: &str,
    destination: &str,
    entries: &Vec<SourceEntry>,
    options: &CopyOptions,
    rules: &Option<ExcludeRules>,
) -> (r: Result<CopyPlan, PlanError>)
    requires
        sizes_sum(entries@) <= u64::MAX,
    ensures
        match directory_plan(source@, destination@, entries@, *options, rules_model(*rules)) {
            Ok(m) => r matches Ok(p) && ordered_from(p@, m) && p.wf(),
            Err(e) => r matches Err(x) && x == e,
        },
{
    let root_dest = match directory_destination(source, destination, options.parents) {
        Ok(d) => d,
        Err(e) => {
            return Err(e);
        },
    };
    let _count = entries.len();
    let mut plan = CopyPlan::new();
    plan.add_directory(string_of(&chars_of(root_dest.as_str())));
    walk_into(&mut plan, entries, source, root_dest.as_str(), rules, options);
    plan.sort_by_size_desc();
    Ok(plan)
}

pub proof fn lemma_inputs_prefix(ss: Seq<SourceInput>, k: int)
    requires
        0 <= k <= ss.len(),
    ensures
        inputs_size(ss.subrange(0, k)) <= inputs_size(ss),
        inputs_count(ss.subrange(0, k)) <= inputs_count(ss),
    decreases ss.len() - k,
{
    if k < ss.len() {
        assert(ss.subrange(0, k + 1).drop_last() =~= ss.subrange(0, k));
        lemma_inputs_prefix(ss, k + 1);
    } else {
        assert(ss.subrange(0, k) =~= ss);
    }
}

/// Once planning several sources has failed, it stays failed.
pub proof fn lemma_sources_plan_err(
    ss: Seq<SourceInput>,
    k: int,
    destination: Seq<char>,
    o: CopyOptions,
    rules: Option<RulesModel>,
)
    requires
        0 <= k <= ss.len(),
        sources_plan(ss, k, destination, o, rules) is Err,
    ensures
        sources_plan(ss, ss.len() as int, destination, o, rules) == sources_plan(ss, k, destination, o, rules),
    decreases ss.len() - k,
{
    if k < ss.len() {
        lemma_sources_plan_err(ss, k + 1, destination, o, rules);
    }
}

/// Plans several sources into one destination, which must be a directory:
/// directories are walked, files placed by name (or full path with
/// `parents`); all files end up largest first.
pub fn preprocess_multiple(
    sources: &Vec<SourceInput>,
    destination: &str,
    dest: DestStatus,
    options: &CopyOptions,
    rules: &Option<ExcludeRules>,
) -> (r: Result<CopyPlan, PlanError>)
    requires
        inputs_size(sources@) <= u64::MAX,
        inputs_count(sources@) <= usize::MAX,
    ensures
        match multiple_plan(sources@, destination@, dest, *options, rules_model(*rules)) {
            Ok(m) => r matches Ok(p) && ordered_from(p@, m) && p.wf(),
            Err(e) => r matches Err(x) && x == e,
        },
{
    match dest {
        DestStatus::Missing => {
            return Err(PlanError::DestinationMissing);
        },
        DestStatus::File => {
            return Err(PlanError::DestinationNotDirectory);
        },
        DestStatus::Directory => {},
    }
    let ghost rm = rules_model(*rules);
    let mut plan = CopyPlan::new();
    let mut i: usize = 0;
    proof {
        assert(sources@.subrange(0, 0) =~= Seq::<SourceInput>::empty());
    }
    while i < sources.len()
        invariant
            i <= sources.len(),
            rm == rules_model(*rules),
            dest == DestStatus::Directory,
            plan.wf(),
            sources_plan(sources@, i as int, destination@, *options, rm) == Ok::<PlanModel, PlanError>(plan@),
            plan.total_size + plan.skipped_size <= inputs_size(sources@.subrange(0, i as int)),
            plan.total_files + plan.skipped_files <= inputs_count(sources@.subrange(0, i as int)),
            inputs_size(sources@) <= u64::MAX,
            inputs_count(sources@) <= usize::MAX,
        decreases sources.len() - i,
    {
        let s = &sources[i];
        proof {
            assert(sources@.subrange(0, i + 1).drop_last() =~= sources@.subrange(0, i as int));
            lemma_inputs_prefix(sources@, i + 1);
        }
        if s.root.kind == EntryKind::Directory {
            let root_dest = match directory_destination(s.root.path.as_str(), destination, options.parents) {
                Ok(d) => d,
                Err(e) => {
                    proof {
                        lemma_sources_plan_err(sources@, i + 1, destination@, *options, rm);
                    }
                    return Err(e);
                },
            };
            plan.add_directory(string_of(&chars_of(root_dest.as_str())));
            walk_into(&mut plan, &s.entries, s.root.path.as_str(), root_dest.as_str(), rules, options);
        } else {
            let dest_path = match multi_file_destination(s.root.path.as_str(), destination, options.parents) {
                Ok(d) => d,
                Err(e) => {
                    proof {
                        lemma_sources_plan_err(sources@, i + 1, destination@, *options, rm);
                    }
                    return Err(e);
                },
            };
            if options.parents {
                match parent_of(dest_path.as_str()) {
                    Some(p) => plan.add_directory(p),
                    None => {},
                }
            }
            place_entry(&mut plan, &s.root, dest_path, options);
        }
        i = i + 1;
    }
    plan.sort_by_size_desc();
    Ok(plan)
}

/// What copying one source asks for before anything is written.
pub open spec fn copy_plan(
    source: SourceInput,
    destination: Seq<char>,
    dest: DestStatus,
    o: CopyOptions,
    rules: Option<RulesModel>,
) -> Result<PlanModel, PlanError> {
    if source.root.kind == EntryKind::Directory {
        if !o.recursive {
            Err(PlanError::DirectoryNotRecursive)
        } else if dest == DestStatus::File {
            Err(PlanError::DestinationIsFile)
        } else {
            directory_plan(source.root.path@, destination, source.entries@, o, rules)
        }
    } else {
        file_plan(source.root, destination, dest, o)
    }
}

/// Plans a single-source copy: a directory needs recursion and a destination
/// that is not a file; a file is planned on its own.
pub fn plan_copy(
    source: &SourceInput,
    destination: &str,
    dest: DestStatus,
    options: &CopyOptions,
    rules: &Option<ExcludeRules>,
) -> (r: Result<CopyPlan, PlanError>)
    requires
        input_size(*source) <= u64::MAX,
    ensures
        match copy_plan(*source, destination@, dest, *options, rules_model(*rules)) {
            Ok(m) => r matches Ok(p) && p.wf() && (if source.root.kind == EntryKind::Directory {
                ordered_from(p@, m)
            } else {
                p@ == m
            }),
            Err(e) => r matches Err(x) && x == e,
        },
{
    if source.root.kind == EntryKind::Directory {
        if !options.recursive {
            return Err(PlanError::DirectoryNotRecursive);
        }
        if dest == DestStatus::File {
            return Err(PlanError::DestinationIsFile);
        }
        preprocess_directory(source.root.path.as_str(), destination, &source.entries, options, rules)
    } else {
        preprocess_file(&source.root, destination, dest, options)
    }
}

/// Some included entry among the first `k` sits at `src`.
pub open spec fn from_included(
    entries: Seq<SourceEntry>,
    k: int,
    root: Seq<char>,
    rules: Option<RulesModel>,
    src: Seq<char>,
) -> bool {
    exists|i: int| 0 <= i < k && included(entries, i, root, rules) && #[trigger] entries[i].path@ == src
}

/// A walk only appends to the plan, and every task it appends stands for an
/// included entry.
pub proof fn lemma_walk_origins(
    m: PlanModel,
    entries: Seq<SourceEntry>,
    k: int,
    root: Seq<char>,
    root_dest: Seq<char>,
    rules: Option<RulesModel>,
    o: CopyOptions,
)
    requires
        0 <= k <= entries.len(),
    ensures
        ({
            let w = walk(m, entries, k, root, root_dest, rules, o);
            &&& w.files.len() >= m.files.len()
            &&& w.files.subrange(0, m.files.len() as int) == m.files
            &&& forall|x: int|
                m.files.len() <= x < w.files.len() ==> from_included(entries, k, root, rules, #[trigger] w.files[x].source)
            &&& w.symlinks.len() >= m.symlinks.len()
            &&& w.symlinks.subrange(0, m.symlinks.len() as int) == m.symlinks
            &&& forall|x: int|
                m.symlinks.len() <= x < w.symlinks.len() ==> from_included(entries, k, root, rules, #[trigger] w.symlinks[x].source)
            &&& w.hardlinks.len() >= m.hardlinks.len()
            &&& w.hardlinks.subrange(0, m.hardlinks.len() as int) == m.hardlinks
            &&& forall|x: int|
                m.hardlinks.len() <= x < w.hardlinks.len() ==> from_included(entries, k, root, rules, #[trigger] w.hardlinks[x].source)
        }),
    decreases k,
{
    let w = walk(m, entries, k, root, root_dest, rules, o);
    if k == 0 {
        assert(m.files.subrange(0, m.files.len() as int) =~= m.files);
        assert(m.symlinks.subrange(0, m.symlinks.len() as int) =~= m.symlinks);
        assert(m.hardlinks.subrange(0, m.hardlinks.len() as int) =~= m.hardlinks);
    } else {
        lemma_walk_origins(m, entries, k - 1, root, root_dest, rules, o);
        let prev = walk(m, entries, k - 1, root, root_dest, rules, o);
        assert(w.files.subrange(0, m.files.len() as int) =~= prev.files.subrange(0, m.files.len() as int));
        assert(w.symlinks.subrange(0, m.symlinks.len() as int) =~= prev.symlinks.subrange(0, m.symlinks.len() as int));
        assert(w.hardlinks.subrange(0, m.hardlinks.len() as int) =~= prev.hardlinks.subrange(
            0,
            m.hardlinks.len() as int,
        ));
        assert forall|x: int| m.files.len() <= x < w.files.len() implies from_included(
            entries,
            k,
            root,
            rules,
            #[trigger] w.files[x].source,
        ) by {
            if x < prev.files.len() {
                assert(w.files[x] == prev.files[x]);
                let i = choose|i: int| 0 <= i < k - 1 && included(entries, i, root, rules) && #[trigger] entries[i].path@
                    == prev.files[x].source;
                assert(entries[i].path@ == w.files[x].source);
            } else {
                assert(entries[k - 1].path@ == w.files[x].source);
            }
        }
        assert forall|x: int| m.symlinks.len() <= x < w.symlinks.len() implies from_included(
            entries,
            k,
            root,
            rules,
            #[trigger] w.symlinks[x].source,
        ) by {
            if x < prev.symlinks.len() {
                assert(w.symlinks[x] == prev.symlinks[x]);
                let i = choose|i: int| 0 <= i < k - 1 && included(entries, i, root, rules) && #[trigger] entries[i].path@
                    == prev.symlinks[x].source;
                assert(entries[i].path@ == w.symlinks[x].source);
            } else {
                assert(entries[k - 1].path@ == w.symlinks[x].source);
            }
        }
        assert forall|x: int| m.hardlinks.len() <= x < w.hardlinks.len() implies from_included(
            entries,
            k,
            root,
            rules,
            #[trigger] w.hardlinks[x].source,
        ) by {
            if x < prev.hardlinks.len() {
                assert(w.hardlinks[x] == prev.hardlinks[x]);
                let i = choose|i: int| 0 <= i < k - 1 && included(entries, i, root, rules) && #[trigger] entries[i].path@
                    == prev.hardlinks[x].source;
                assert(entries[i].path@ == w.hardlinks[x].source);
            } else {
                assert(entries[k - 1].path@ == w.hardlinks[x].source);
            }
        }
    }
}

/// Exclusion reaches every descendant: when a walked directory matches an
/// exclusion rule, no file, symbolic-link or hard-link task of the plan
/// stands for a path below it, whatever order the walk listed them in.
pub proof fn lemma_excluded_directory_prunes(
    source: Seq<char>,
    destination: Seq<char>,
    entries: Seq<SourceEntry>,
    o: CopyOptions,
    rules: Option<RulesModel>,
    j: int,
)
    requires
        0 <= j < entries.len(),
        excluded_dir(entries[j], source, rules),
        directory_plan(source, destination, entries, o, rules) is Ok,
    ensures
        ({
            let p = directory_plan(source, destination, entries, o, rules)->Ok_0;
            &&& forall|x: int| 0 <= x < p.files.len() ==> !is_below(#[trigger] p.files[x].source, entries[j].path@)
            &&& forall|x: int| 0 <= x < p.symlinks.len() ==> !is_below(#[trigger] p.symlinks[x].source, entries[j].path@)
            &&& forall|x: int| 0 <= x < p.hardlinks.len() ==> !is_below(#[trigger] p.hardlinks[x].source, entries[j].path@)
        }),
{
    let rd = directory_dest(source, destination, o.parents)->Ok_0;
    let m = with_directory(empty_plan(), rd);
    lemma_walk_origins(m, entries, entries.len() as int, source, rd, rules, o);
    let p = directory_plan(source, destination, entries, o, rules)->Ok_0;
    assert forall|x: int| 0 <= x < p.files.len() implies !is_below(#[trigger] p.files[x].source, entries[j].path@) by {
        let i = choose|i: int| 0 <= i < entries.len() && included(entries, i, source, rules) && #[trigger] entries[i].path@
            == p.files[x].source;
        if is_below(p.files[x].source, entries[j].path@) {
            assert(is_below(entries[i].path@, entries[j].path@));
        }
    }
    assert forall|x: int| 0 <= x < p.symlinks.len() implies !is_below(#[trigger] p.symlinks[x].source, entries[j].path@) by {
        let i = choose|i: int| 0 <= i < entries.len() && included(entries, i, source, rules) && #[trigger] entries[i].path@
            == p.symlinks[x].source;
        if is_below(p.symlinks[x].source, entries[j].path@) {
            assert(is_below(entries[i].path@, entries[j].path@));
        }
    }
    assert forall|x: int| 0 <= x < p.hardlinks.len() implies !is_below(#[trigger] p.hardlinks[x].source, entries[j].path@) by {
        let i = choose|i: int| 0 <= i < entries.len() && included(entries, i, source, rules) && #[trigger] entries[i].path@
            == p.hardlinks[x].source;
        if is_below(p.hardlinks[x].source, entries[j].path@) {
            assert(is_below(entries[i].path@, entries[j].path@));
        }
    }
}

/// The number of included regular files among the first `k` entries.
pub open spec fn included_files(entries: Seq<SourceEntry>, k: int, root: Seq<char>, rules: Option<RulesModel>) -> nat
    decreases k,
{
    if k <= 0 {
        0
    } else {
        included_files(entries, k - 1, root, rules) + if included(entries, k - 1, root, rules)
            && entries[k - 1].kind == EntryKind::File {
            1nat
        } else {
            0nat
        }
    }
}

/// With resume on, a walk whose files the destination already holds adds
/// nothing to transfer: no file task, no bytes, and one skip per file.
pub proof fn lemma_walk_resume_complete(
    m: PlanModel,
    entries: Seq<SourceEntry>,
    k: int,
    root: Seq<char>,
    root_dest: Seq<char>,
    rules: Option<RulesModel>,
    o: CopyOptions,
)
    requires
        0 <= k <= entries.len(),
        o.resume,
        o.symlink == SymlinkMode::Off,
        !o.hard_link,
        forall|i: int| 0 <= i < entries.len() ==> #[trigger] entries[i].kind != EntryKind::Symlink,
        forall|i: int| 0 <= i < entries.len() && #[trigger] entries[i].kind == EntryKind::File ==> entries[i].up_to_date,
    ensures
        walk(m, entries, k, root, root_dest, rules, o).files == m.files,
        walk(m, entries, k, root, root_dest, rules, o).total_size == m.total_size,
        walk(m, entries, k, root, root_dest, rules, o).total_files == m.total_files,
        walk(m, entries, k, root, root_dest, rules, o).skipped_files == m.skipped_files + included_files(
            entries,
            k,
            root,
            rules,
        ),
    decreases k,
{
    if k > 0 {
        lemma_walk_resume_complete(m, entries, k - 1, root, root_dest, rules, o);
        assert(entries[k - 1].kind != EntryKind::Symlink);
    }
}

/// Resume idempotence: re-planning a directory whose every file is already
/// at its destination transfers zero bytes, and counts every included
/// source file as skipped.
pub proof fn lemma_resume_rerun_transfers_nothing(
    source: Seq<char>,
    destination: Seq<char>,
    entries: Seq<SourceEntry>,
    o: CopyOptions,
    rules: Option<RulesModel>,
)
    requires
        o.resume,
        o.symlink == SymlinkMode::Off,
        !o.hard_link,
        forall|i: int| 0 <= i < entries.len() ==> #[trigger] entries[i].kind != EntryKind::Symlink,
        forall|i: int| 0 <= i < entries.len() && #[trigger] entries[i].kind == EntryKind::File ==> entries[i].up_to_date,
        directory_plan(source, destination, entries, o, rules) is Ok,
    ensures
        directory_plan(source, destination, entries, o, rules)->Ok_0.files.len() == 0,
        directory_plan(source, destination, entries, o, rules)->Ok_0.total_size == 0,
        directory_plan(source, destination, entries, o, rules)->Ok_0.skipped_files == included_files(
            entries,
            entries.len() as int,
            source,
            rules,
        ),
{
    let rd = directory_dest(source, destination, o.parents)->Ok_0;
    lemma_walk_resume_complete(with_directory(empty_plan(), rd), entries, entries.len() as int, source, rd, rules, o);
}

} // verus!
