//! The contracts this library assumes of code it calls but does not verify:
//! std functions that vstd leaves unspecified, and the outside crates.
use vstd::prelude::*;
use globset::{Glob, GlobSet, GlobSetBuilder};
use xxhash_rust::xxh3::Xxh3;

verus! {

/// Relies on `String::push`: appends one character to the end of the string.
pub assume_specification[ String::push ](s: &mut String, ch: char)
    ensures
        final(s)@ == old(s)@.push(ch),
;

/// What `str::trim` leaves of a text: it depends on the text alone.
pub uninterp spec fn trim_whitespace(s: Seq<char>) -> Seq<char>;

/// Relies on `str::trim`: the text without leading and trailing whitespace.
#[verifier::external_body]
pub(crate) fn trim_text(s: &str) -> (r: &str)
    ensures
        r@ == trim_whitespace(s@),
{
    s.trim()
}

#[verifier::external_type_specification]
#[verifier::external_body]
pub struct ExGlob(Glob);

#[verifier::external_type_specification]
#[verifier::external_body]
pub struct ExGlobSetBuilder(GlobSetBuilder);

#[verifier::external_type_specification]
#[verifier::external_body]
pub struct ExGlobSet(GlobSet);

#[verifier::external_type_specification]
#[verifier::external_body]
pub struct ExGlobError(globset::Error);

/// Whether globset's parser accepts a pattern (default options).
pub uninterp spec fn glob_accepts(p: Seq<char>) -> bool;

/// The pattern text a parsed glob was built from (`Glob::glob`).
pub uninterp spec fn glob_text(g: Glob) -> Seq<char>;

/// The pattern texts held by a glob set builder, in the order added.
pub uninterp spec fn builder_patterns(b: GlobSetBuilder) -> Seq<Seq<char>>;

/// The pattern texts a built glob set was made from.
pub uninterp spec fn set_patterns(s: GlobSet) -> Seq<Seq<char>>;

/// Whether any of the glob patterns matches the path text.
pub uninterp spec fn globs_match(patterns: Seq<Seq<char>>, path: Seq<char>) -> bool;

/// Relies on `globset::Glob::new`: parses a pattern with default options and
/// keeps its text (returned by `Glob::glob`).
#[verifier::external_body]
pub(crate) fn glob_new(p: &str) -> (r: Result<Glob, globset::Error>)
    ensures
        r is Ok <==> glob_accepts(p@),
        r matches Ok(g) ==> glob_text(g) == p@,
{
    Glob::new(p)
}

/// Relies on `globset::GlobSetBuilder::new`: a builder with no pattern.
#[verifier::external_body]
pub(crate) fn glob_set_builder() -> (r: GlobSetBuilder)
    ensures
        builder_patterns(r) == Seq::<Seq<char>>::empty(),
{
    GlobSetBuilder::new()
}

/// Relies on `globset::GlobSetBuilder::add`: pushes the glob onto the builder's list.
#[verifier::external_body]
pub(crate) fn glob_set_add(b: &mut GlobSetBuilder, g: Glob)
    ensures
        builder_patterns(*final(b)) == builder_patterns(*old(b)).push(glob_text(g)),
{
    b.add(g);
}

/// Relies on `globset::GlobSetBuilder::build`: a set made of the builder's globs.
#[verifier::external_body]
pub(crate) fn glob_set_build(b: &GlobSetBuilder) -> (r: Result<GlobSet, globset::Error>)
    ensures
        r matches Ok(s) ==> set_patterns(s) == builder_patterns(*b),
{
    b.build()
}

/// Relies on `globset::GlobSet::is_match`: whether any glob of the set matches.
#[verifier::external_body]
pub(crate) fn glob_set_is_match(s: &GlobSet, path: &str) -> (r: bool)
    ensures
        r == globs_match(set_patterns(*s), path@),
{
    s.is_match(path)
}

#[verifier::external_type_specification]
#[verifier::external_body]
pub struct ExXxh3(Xxh3);

/// The bytes a streaming XXH3 hasher has been fed, in order.
pub uninterp spec fn hashed_input(h: Xxh3) -> Seq<u8>;

/// The 64-bit XXH3 hash (default seed and secret) of a byte sequence.
pub uninterp spec fn xxh3_of(data: Seq<u8>) -> u64;

/// Relies on `xxhash_rust::xxh3::Xxh3::new`: a hasher with default settings
/// that has been fed nothing.
#[verifier::external_body]
pub(crate) fn xxh3_new() -> (r: Xxh3)
    ensures
        hashed_input(r) == Seq::<u8>::empty(),
{
    Xxh3::new()
}

/// Relies on `xxhash_rust::xxh3::Xxh3::update`: feeds one more chunk.
#[verifier::external_body]
pub(crate) fn xxh3_update(h: &mut Xxh3, chunk: &[u8])
    ensures
        hashed_input(*final(h)) == hashed_input(*old(h)) + chunk@,
{
    h.update(chunk);
}

/// Relies on `xxhash_rust::xxh3::Xxh3::digest`: the hash of everything fed so
/// far, as the one-shot hash of the same bytes would give it.
#[verifier::external_body]
pub(crate) fn xxh3_digest(h: &Xxh3) -> (r: u64)
    ensures
        r == xxh3_of(hashed_input(*h)),
{
    h.digest()
}

/// What `pathdiff::diff_paths` gives for a path and a base directory.
pub uninterp spec fn path_difference(path: Seq<char>, base: Seq<char>) -> Option<Seq<char>>;

/// Relies on `pathdiff::diff_paths`: the path from `base` to `path`, worked
/// out on the text alone; `None` when there is none.
#[verifier::external_body]
pub(crate) fn diff_paths(path: &str, base: &str) -> (r: Option<String>)
    ensures
        r matches Some(d) ==> path_difference(path@, base@) == Some(d@),
        r is None ==> path_difference(path@, base@) is None,
{
    pathdiff::diff_paths(path, base).map(|p| p.to_string_lossy().into_owned())
}

} // verus!
