//! The resume oracle: whether an existing destination already holds a
//! source file, by size, then modification time, then content hash.
use vstd::prelude::*;
use xxhash_rust::xxh3::Xxh3;
use crate::trusted::{hashed_input, xxh3_of, xxh3_new, xxh3_update, xxh3_digest};

verus! {

/// What resume reads of a file.
#[derive(Debug, Clone, Copy, PartialEq, Eq, Structural)]
pub struct FileFacts {
    pub size: u64,
    /// Modification time in nanoseconds since the epoch, when readable.
    pub modified: Option<u64>,
}

#[derive(Debug, Clone, Copy, PartialEq, Eq, Structural)]
pub enum ResumeStep {
    /// The destination cannot be taken as done: copy.
    Transfer,
    /// The destination is taken as done.
    Skip,
    /// Sizes agree but times do not settle it: compare content hashes.
    CompareContent,
}

/// The cheap part of the resume decision. A source that is not newer than
/// its same-sized destination counts as transferred.
pub open spec fn resume_step(source: FileFacts, dest: Option<FileFacts>) -> ResumeStep {
    match dest {
        None => ResumeStep::Transfer,
        Some(d) => if d.size != source.size {
            ResumeStep::Transfer
        } else if source.modified is Some && d.modified is Some && source.modified->0 <= d.modified->0 {
            ResumeStep::Skip
        } else {
            ResumeStep::CompareContent
        },
    }
}

/// Whether the destination can be skipped, given the facts of both files
/// (`None` for a missing destination).
pub fn resume_check(source: &FileFacts, dest: &Option<FileFacts>) -> (r: ResumeStep)
    ensures
        r == resume_step(*source, *dest),
{
    match dest {
        None => ResumeStep::Transfer,
        Some(d) => {
            if d.size != source.size {
                ResumeStep::Transfer
            } else {
                match (source.modified, d.modified) {
                    (Some(s), Some(t)) => if s <= t {
                        ResumeStep::Skip
                    } else {
                        ResumeStep::CompareContent
                    },
                    _ => ResumeStep::CompareContent,
                }
            }
        },
    }
}

/// After a content comparison: skip exactly when the hashes agree.
pub fn skip_by_content(source_hash: u64, dest_hash: u64) -> (r: bool)
    ensures
        r == (source_hash == dest_hash),
{
    source_hash == dest_hash
}

/// A streaming content hash (64-bit XXH3) of a file read in chunks.
pub struct ContentHash {
    hasher: Xxh3,
}

impl ContentHash {
    /// The bytes fed so far.
    pub closed spec fn input(&self) -> Seq<u8> {
        hashed_input(self.hasher)
    }

    pub fn new() -> (r: ContentHash)
        ensures
            r.input() == Seq::<u8>::empty(),
    {
        ContentHash { hasher: xxh3_new() }
    }

    pub fn update(&mut self, chunk: &[u8])
        ensures
            final(self).input() == old(self).input() + chunk@,
    {
        xxh3_update(&mut self.hasher, chunk);
    }

    pub fn digest(&self) -> (r: u64)
        ensures
            r == xxh3_of(self.input()),
    {
        xxh3_digest(&self.hasher)
    }
}

/// An unchanged copy is never sent again on size and time alone: a
/// destination of the source's size is either skipped by time or left to
/// the content comparison.
pub proof fn lemma_same_size_not_transferred(source: FileFacts, dest: FileFacts)
    requires
        dest.size == source.size,
    ensures
        resume_step(source, Some(dest)) != ResumeStep::Transfer,
{
}

} // verus!
