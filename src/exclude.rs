//! Exclusion rules: absolute paths, basenames and glob patterns, and the
//! test of a path against them.
use vstd::prelude::*;
use globset::GlobSet;
use crate::text::{chars_of, string_of, same_chars, has_char, char_seqs, names_of, contains_name, split_of, pieces};
use crate::paths::{parts, parts_of, is_absolute, is_absolute_of, joined, joined_of, file_name, file_name_of, is_prefix, starts_with, relative_parts};
use crate::trusted::{trim_whitespace, trim_text, glob_accepts, glob_new, glob_set_builder, glob_set_add, glob_set_build, glob_set_is_match, globs_match, set_patterns};

verus! {

/// One exclude pattern, classified.
#[derive(Debug, Clone)]
pub enum ExcludePattern {
    AbsolutePath(String),
    BaseName(String),
    GlobPattern(String),
}

/// What an exclude pattern is, as text.
pub enum PatternModel {
    Absolute(Seq<char>),
    Base(Seq<char>),
    Glob(Seq<char>),
}

impl View for ExcludePattern {
    type V = PatternModel;

    open spec fn view(&self) -> PatternModel {
        match self {
            ExcludePattern::AbsolutePath(p) => PatternModel::Absolute(p@),
            ExcludePattern::BaseName(p) => PatternModel::Base(p@),
            ExcludePattern::GlobPattern(p) => PatternModel::Glob(p@),
        }
    }
}

#[derive(Debug, Clone)]
pub enum ExcludeError {
    /// The pattern refers to a parent directory (`..`).
    InvalidPattern(String),
    /// The glob syntax of the pattern is not valid.
    InvalidGlob(String),
    /// The valid globs could not be compiled together.
    InvalidGlobSet,
}

pub open spec fn is_glob_char(c: char) -> bool {
    c == '*' || c == '?' || c == '[' || c == ']'
}

pub open spec fn has_glob_syntax(t: Seq<char>) -> bool {
    exists|i: int| 0 <= i < t.len() && (is_glob_char(#[trigger] t[i]) || t[i] == '/' || t[i] == '\\')
}

/// How a trimmed pattern text is classified.
pub open spec fn classify(t: Seq<char>) -> PatternModel {
    if is_absolute(t) {
        PatternModel::Absolute(t)
    } else if has_glob_syntax(t) {
        PatternModel::Glob(t)
    } else {
        PatternModel::Base(t)
    }
}

pub open spec fn has_parent_ref(t: Seq<char>) -> bool {
    parts(t).contains(seq!['.', '.'])
}

/// The patterns of a comma-separated list, or the first piece that refers
/// to a parent directory.
pub open spec fn parse_pieces(ps: Seq<Seq<char>>) -> Result<Seq<PatternModel>, Seq<char>>
    decreases ps.len(),
{
    if ps.len() == 0 {
        Ok(Seq::<PatternModel>::empty())
    } else {
        match parse_pieces(ps.drop_last()) {
            Err(e) => Err(e),
            Ok(done) => {
                let t = trim_whitespace(ps.last());
                if t.len() == 0 {
                    Ok(done)
                } else if has_parent_ref(t) {
                    Err(t)
                } else {
                    Ok(done.push(classify(t)))
                }
            },
        }
    }
}

pub open spec fn pattern_list(input: Seq<char>) -> Result<Seq<PatternModel>, Seq<char>> {
    parse_pieces(pieces(input, ','))
}

/// The rule sets, as texts.
pub struct RulesModel {
    pub absolute: Seq<Seq<char>>,
    pub basenames: Seq<Seq<char>>,
    pub globs: Option<Seq<Seq<char>>>,
}

/// Compiled exclusion rules: canonical absolute paths, basenames, and a glob set.
pub struct ExcludeRules {
    pub absolute_paths: Vec<String>,
    pub basenames: Vec<String>,
    pub glob_set: Option<GlobSet>,
}

impl View for ExcludeRules {
    type V = RulesModel;

    open spec fn view(&self) -> RulesModel {
        RulesModel {
            absolute: names_of(self.absolute_paths@),
            basenames: names_of(self.basenames@),
            globs: match self.glob_set {
                Some(s) => Some(set_patterns(s)),
                None => None,
            },
        }
    }
}

/// The rules that a list of patterns compiles to.
pub open spec fn rules_of(ps: Seq<PatternModel>) -> RulesModel
    decreases ps.len(),
{
    if ps.len() == 0 {
        RulesModel {
            absolute: Seq::<Seq<char>>::empty(),
            basenames: Seq::<Seq<char>>::empty(),
            globs: None,
        }
    } else {
        let r = rules_of(ps.drop_last());
        match ps.last() {
            PatternModel::Absolute(p) => RulesModel { absolute: r.absolute.push(p), ..r },
            PatternModel::Base(p) => RulesModel { basenames: r.basenames.push(p), ..r },
            PatternModel::Glob(p) => RulesModel {
                globs: Some(
                    match r.globs {
                        Some(g) => g.push(p),
                        None => seq![p],
                    },
                ),
                ..r
            },
        }
    }
}

/// The first glob pattern that globset refuses, if any.
pub open spec fn first_bad_glob(ps: Seq<PatternModel>) -> Option<Seq<char>>
    decreases ps.len(),
{
    if ps.len() == 0 {
        None
    } else {
        match first_bad_glob(ps.drop_last()) {
            Some(p) => Some(p),
            None => match ps.last() {
                PatternModel::Glob(p) => if glob_accepts(p) { None } else { Some(p) },
                _ => None,
            },
        }
    }
}

/// `\` turned into `/`.
pub open spec fn forward_slashes(t: Seq<char>) -> Seq<char> {
    Seq::new(t.len(), |i: int| if t[i] == '\\' { '/' } else { t[i] })
}

/// The text that globs are matched against: the path relative to the
/// source root when it lies under it, the path itself otherwise.
pub open spec fn glob_subject(path: Seq<char>, root: Seq<char>) -> Seq<char> {
    forward_slashes(
        if starts_with(path, root) {
            joined(relative_parts(path, root))
        } else {
            path
        },
    )
}

/// Whether a path is excluded by the rules. `canonical` is the path's
/// canonical form and `is_dir` whether it names a directory.
pub open spec fn excluded(
    path: Seq<char>,
    root: Seq<char>,
    rules: RulesModel,
    canonical: Seq<char>,
    is_dir: bool,
) -> bool {
    ||| (file_name(path) matches Some(n) && rules.basenames.contains(n))
    ||| (exists|i: int|
        0 <= i < relative_parts(path, root).len() && #[trigger] relative_parts(path, root)[i] != seq![
            '.',
            '.',
        ] && rules.basenames.contains(relative_parts(path, root)[i]))
    ||| (exists|i: int| 0 <= i < rules.absolute.len() && starts_with(canonical, #[trigger] rules.absolute[i]))
    ||| (rules.globs matches Some(g) && (globs_match(g, glob_subject(path, root)) || (is_dir
        && globs_match(g, glob_subject(path, root).push('/')))))
}

/// How a trimmed pattern text is classified.
fn classify_of(t: &str) -> (r: ExcludePattern)
    ensures
        r@ == classify(t@),
{
    let v = chars_of(t);
    if is_absolute_of(&v) {
        return ExcludePattern::AbsolutePath(string_of(&v));
    }
    let globby = has_char(&v, '*') || has_char(&v, '?') || has_char(&v, '[') || has_char(&v, ']')
        || has_char(&v, '/') || has_char(&v, '\\');
    proof {
        if has_glob_syntax(t@) {
            let i = choose|i: int| 0 <= i < t@.len() && (is_glob_char(#[trigger] t@[i]) || t@[i] == '/' || t@[i] == '\\');
            assert(v@.contains(v@[i]));
        }
        if globby {
            assert(has_glob_syntax(t@));
        }
    }
    if globby {
        ExcludePattern::GlobPattern(string_of(&v))
    } else {
        ExcludePattern::BaseName(string_of(&v))
    }
}

impl ExcludePattern {
    /// Classifies a pattern after trimming it: rooted paths are absolute,
    /// texts with glob characters or separators are globs, the rest basenames.
    pub fn from_string(pattern: &str) -> (r: ExcludePattern)
        ensures
            r@ == classify(trim_whitespace(pattern@)),
    {
        classify_of(trim_text(pattern))
    }
}

/// Whether a path text has a `..` part.
fn has_parent_ref_of(t: &Vec<char>) -> (r: bool)
    ensures
        r == has_parent_ref(t@),
{
    let ps = parts_of(t);
    let dots: Vec<char> = vec!['.', '.'];
    proof {
        assert(dots@ =~= seq!['.', '.']);
    }
    let mut i: usize = 0;
    while i < ps.len()
        invariant
            i <= ps.len(),
            char_seqs(ps@) == parts(t@),
            dots@ == seq!['.', '.'],
            forall|j: int| 0 <= j < i ==> parts(t@)[j] != seq!['.', '.'],
        decreases ps.len() - i,
    {
        if same_chars(&ps[i], &dots) {
            assert(parts(t@)[i as int] == seq!['.', '.']);
            return true;
        }
        i = i + 1;
    }
    false
}

/// Splits a comma-separated list into classified patterns, skipping empty
/// entries; a pattern with a `..` part is refused.
pub fn parse_exclude_pattern_list(input: &str) -> (r: Result<Vec<ExcludePattern>, ExcludeError>)
    ensures
        r matches Ok(v) ==> pattern_list(input@) == Ok::<Seq<PatternModel>, Seq<char>>(
            v@.map_values(|p: ExcludePattern| p@),
        ),
        r matches Err(e) ==> (e matches ExcludeError::InvalidPattern(t) && pattern_list(input@)
            == Err::<Seq<PatternModel>, Seq<char>>(t@)),
{
    let v = chars_of(input);
    let ps = split_of(&v, ',');
    let mut out: Vec<ExcludePattern> = Vec::new();
    let mut i: usize = 0;
    proof {
        assert(pieces(input@, ',').subrange(0, 0) =~= Seq::<Seq<char>>::empty());
        assert(out@.map_values(|p: ExcludePattern| p@) =~= Seq::<PatternModel>::empty());
    }
    while i < ps.len()
        invariant
            i <= ps.len(),
            char_seqs(ps@) == pieces(input@, ','),
            parse_pieces(pieces(input@, ',').subrange(0, i as int)) == Ok::<Seq<PatternModel>, Seq<char>>(
                out@.map_values(|p: ExcludePattern| p@),
            ),
        decreases ps.len() - i,
    {
        let ghost pre = pieces(input@, ',').subrange(0, i as int);
        proof {
            assert(pieces(input@, ',').subrange(0, i + 1).drop_last() =~= pre);
            assert(pieces(input@, ',').subrange(0, i + 1).last() == ps@[i as int]@);
        }
        let piece = string_of(&ps[i]);
        let t = trim_text(piece.as_str());
        let tv = chars_of(t);
        if tv.len() == 0 {
        } else if has_parent_ref_of(&tv) {
            proof {
                lemma_parse_pieces_extends(pieces(input@, ','), i as int + 1);
            }
            return Err(ExcludeError::InvalidPattern(string_of(&tv)));
        } else {
            let ghost before = out@;
            out.push(classify_of(t));
            proof {
                assert(out@.map_values(|p: ExcludePattern| p@) =~= before.map_values(
                    |p: ExcludePattern| p@,
                ).push(classify(t@)));
            }
        }
        i = i + 1;
    }
    proof {
        assert(pieces(input@, ',').subrange(0, ps@.len() as int) =~= pieces(input@, ','));
    }
    Ok(out)
}

/// Compiles patterns into rules. No pattern gives no rules; a glob that
/// globset refuses is reported. Absolute paths are taken as given: callers
/// pass them canonicalized.
pub fn build_exclude_rules(patterns: Vec<ExcludePattern>) -> (r: Result<Option<ExcludeRules>, ExcludeError>)
    ensures
        patterns@.len() == 0 ==> r is Ok && r->Ok_0 is None,
        patterns@.len() > 0 ==> match r {
            Ok(Some(rules)) => first_bad_glob(patterns@.map_values(|p: ExcludePattern| p@)) is None
                && rules@ == rules_of(patterns@.map_values(|p: ExcludePattern| p@)),
            Ok(None) => false,
            Err(ExcludeError::InvalidGlob(p)) => first_bad_glob(
                patterns@.map_values(|p: ExcludePattern| p@),
            ) == Some(p@),
            Err(ExcludeError::InvalidGlobSet) => first_bad_glob(
                patterns@.map_values(|p: ExcludePattern| p@),
            ) is None && rules_of(patterns@.map_values(|p: ExcludePattern| p@)).globs is Some,
            Err(ExcludeError::InvalidPattern(_)) => false,
        },
{
    if patterns.len() == 0 {
        return Ok(None);
    }
    let ghost model = patterns@.map_values(|p: ExcludePattern| p@);
    let mut absolute_paths: Vec<String> = Vec::new();
    let mut basenames: Vec<String> = Vec::new();
    let mut builder = glob_set_builder();
    let mut has_globs = false;
    let mut i: usize = 0;
    proof {
        assert(model.subrange(0, 0) =~= Seq::<PatternModel>::empty());
        assert(names_of(absolute_paths@) =~= Seq::<Seq<char>>::empty());
        assert(names_of(basenames@) =~= Seq::<Seq<char>>::empty());
    }
    while i < patterns.len()
        invariant
            i <= patterns.len(),
            model == patterns@.map_values(|p: ExcludePattern| p@),
            first_bad_glob(model.subrange(0, i as int)) is None,
            names_of(absolute_paths@) == rules_of(model.subrange(0, i as int)).absolute,
            names_of(basenames@) == rules_of(model.subrange(0, i as int)).basenames,
            crate::trusted::builder_patterns(builder) == match rules_of(model.subrange(0, i as int)).globs {
                Some(g) => g,
                None => Seq::<Seq<char>>::empty(),
            },
            has_globs == rules_of(model.subrange(0, i as int)).globs is Some,
        decreases patterns.len() - i,
    {
        let ghost pre = model.subrange(0, i as int);
        proof {
            assert(model.subrange(0, i + 1).drop_last() =~= pre);
            assert(model.subrange(0, i + 1).last() == patterns@[i as int]@);
        }
        match &patterns[i] {
            ExcludePattern::AbsolutePath(p) => {
                let ghost before = absolute_paths@;
                absolute_paths.push(p.clone());
                proof {
                    assert(names_of(absolute_paths@) =~= names_of(before).push(p@));
                }
            },
            ExcludePattern::BaseName(p) => {
                let ghost before = basenames@;
                basenames.push(p.clone());
                proof {
                    assert(names_of(basenames@) =~= names_of(before).push(p@));
                }
            },
            ExcludePattern::GlobPattern(p) => {
                match glob_new(p.as_str()) {
                    Ok(g) => {
                        glob_set_add(&mut builder, g);
                        has_globs = true;
                        proof {
                            assert(Seq::<Seq<char>>::empty().push(p@) =~= seq![p@]);
                        }
                    },
                    Err(_) => {
                        proof {
                            assert(first_bad_glob(model.subrange(0, i + 1)) == Some(p@));
                            lemma_first_bad_glob_extends(model, i as int + 1);
                        }
                        return Err(ExcludeError::InvalidGlob(p.clone()));
                    },
                }
            },
        }
        i = i + 1;
    }
    proof {
        assert(model.subrange(0, patterns@.len() as int) =~= model);
    }
    let glob_set = if has_globs {
        match glob_set_build(&builder) {
            Ok(s) => Some(s),
            Err(_) => {
                return Err(ExcludeError::InvalidGlobSet);
            },
        }
    } else {
        None
    };
    Ok(Some(ExcludeRules { absolute_paths, basenames, glob_set }))
}

/// Once a prefix of the pieces is refused, the whole list is refused the same way.
pub proof fn lemma_parse_pieces_extends(ps: Seq<Seq<char>>, k: int)
    requires
        0 <= k <= ps.len(),
        parse_pieces(ps.subrange(0, k)) is Err,
    ensures
        parse_pieces(ps) == parse_pieces(ps.subrange(0, k)),
    decreases ps.len() - k,
{
    if k < ps.len() {
        assert(ps.subrange(0, k + 1).drop_last() =~= ps.subrange(0, k));
        lemma_parse_pieces_extends(ps, k + 1);
    } else {
        assert(ps.subrange(0, k) =~= ps);
    }
}

/// Once a prefix of the patterns holds a refused glob, the first refused
/// glob of the whole list is that one.
pub proof fn lemma_first_bad_glob_extends(ps: Seq<PatternModel>, k: int)
    requires
        0 <= k <= ps.len(),
        first_bad_glob(ps.subrange(0, k)) is Some,
    ensures
        first_bad_glob(ps) == first_bad_glob(ps.subrange(0, k)),
    decreases ps.len() - k,
{
    if k < ps.len() {
        assert(ps.subrange(0, k + 1).drop_last() =~= ps.subrange(0, k));
        lemma_first_bad_glob_extends(ps, k + 1);
    } else {
        assert(ps.subrange(0, k) =~= ps);
    }
}

/// Whether the parts `a` begin the parts `b`.
fn parts_prefix(a: &Vec<Vec<char>>, b: &Vec<Vec<char>>) -> (r: bool)
    ensures
        r == is_prefix(char_seqs(a@), char_seqs(b@)),
{
    if a.len() > b.len() {
        return false;
    }
    let mut i: usize = 0;
    while i < a.len()
        invariant
            i <= a.len() <= b.len(),
            forall|j: int| 0 <= j < i ==> char_seqs(b@)[j] == char_seqs(a@)[j],
        decreases a.len() - i,
    {
        if !same_chars(&a[i], &b[i]) {
            proof {
                assert(char_seqs(b@).subrange(0, a@.len() as int)[i as int] != char_seqs(a@)[i as int]);
            }
            return false;
        }
        i = i + 1;
    }
    proof {
        assert(char_seqs(b@).subrange(0, a@.len() as int) =~= char_seqs(a@));
    }
    true
}

/// Whether the path `p` lies under `root` (see `starts_with`).
pub fn starts_with_of(p: &str, root: &str) -> (r: bool)
    ensures
        r == starts_with(p@, root@),
{
    let pv = chars_of(p);
    let rv = chars_of(root);
    is_absolute_of(&pv) == is_absolute_of(&rv) && parts_prefix(&parts_of(&rv), &parts_of(&pv))
}

/// `\` turned into `/`.
fn forward_slashes_of(t: &Vec<char>) -> (r: Vec<char>)
    ensures
        r@ == forward_slashes(t@),
{
    let mut r: Vec<char> = Vec::new();
    let mut i: usize = 0;
    while i < t.len()
        invariant
            i <= t.len(),
            r@.len() == i,
            forall|j: int| 0 <= j < i ==> r@[j] == (if t@[j] == '\\' { '/' } else { t@[j] }),
        decreases t.len() - i,
    {
        if t[i] == '\\' {
            r.push('/');
        } else {
            r.push(t[i]);
        }
        i = i + 1;
    }
    proof {
        assert(r@ =~= forward_slashes(t@));
    }
    r
}

/// Whether `path` (a descendant of `source_root`, or any path) is excluded
/// by `rules`. `canonical` is the path's canonical form, `is_dir` whether it
/// names a directory.
pub fn should_exclude(path: &str, source_root: &str, rules: &ExcludeRules, canonical: &str, is_dir: bool) -> (r: bool)
    ensures
        r == excluded(path@, source_root@, rules@, canonical@, is_dir),
{
    let ghost m = rules@;
    // the basename of the path itself
    let leaf = match file_name_of(path) {
        Some(n) => contains_name(&rules.basenames, &chars_of(n.as_str())),
        None => false,
    };
    // any part between the root and the path
    let pv = chars_of(path);
    let rv = chars_of(source_root);
    let p_parts = parts_of(&pv);
    let r_parts = parts_of(&rv);
    let under = is_absolute_of(&pv) == is_absolute_of(&rv) && parts_prefix(&r_parts, &p_parts);
    let start: usize = if under { r_parts.len() } else { 0 };
    let ghost rel = relative_parts(path@, source_root@);
    proof {
        assert(rel =~= char_seqs(p_parts@).subrange(start as int, p_parts@.len() as int));
    }
    let dots: Vec<char> = vec!['.', '.'];
    proof {
        assert(dots@ =~= seq!['.', '.']);
    }
    let mut inner = false;
    let mut k: usize = start;
    while k < p_parts.len()
        invariant
            start <= k <= p_parts.len(),
            rel == char_seqs(p_parts@).subrange(start as int, p_parts@.len() as int),
            dots@ == seq!['.', '.'],
            m == rules@,
            inner == (exists|i: int|
                0 <= i < k - start && #[trigger] rel[i] != seq!['.', '.'] && m.basenames.contains(rel[i])),
        decreases p_parts.len() - k,
    {
        let ghost j = k - start;
        assert(rel[j] == p_parts@[k as int]@);
        if !same_chars(&p_parts[k], &dots) && contains_name(&rules.basenames, &p_parts[k]) {
            inner = true;
        }
        k = k + 1;
        proof {
            if inner {
                let w = if rel[j] != seq!['.', '.'] && m.basenames.contains(rel[j]) {
                    j
                } else {
                    choose|i: int| 0 <= i < j && #[trigger] rel[i] != seq!['.', '.'] && m.basenames.contains(rel[i])
                };
                assert(0 <= w < k - start && rel[w] != seq!['.', '.'] && m.basenames.contains(rel[w]));
            }
        }
    }
    // canonical path equal to, or below, an excluded absolute path
    let mut abs = false;
    let mut a: usize = 0;
    while a < rules.absolute_paths.len()
        invariant
            a <= rules.absolute_paths.len(),
            m == rules@,
            abs == (exists|i: int| 0 <= i < a && starts_with(canonical@, #[trigger] m.absolute[i])),
        decreases rules.absolute_paths.len() - a,
    {
        let hit = starts_with_of(canonical, rules.absolute_paths[a].as_str());
        proof {
            assert(m.absolute[a as int] == rules.absolute_paths@[a as int]@);
        }
        if hit {
            abs = true;
        }
        a = a + 1;
    }
    // globs against the root-relative text
    let globbed = match &rules.glob_set {
        Some(set) => {
            let base: Vec<char> = if under {
                let mut rest: Vec<Vec<char>> = Vec::new();
                let mut q: usize = start;
                while q < p_parts.len()
                    invariant
                        start <= q <= p_parts.len(),
                        char_seqs(rest@) == char_seqs(p_parts@).subrange(start as int, q as int),
                    decreases p_parts.len() - q,
                {
                    let ghost before = rest@;
                    let ghost q0 = q as int;
                    rest.push(p_parts[q].clone());
                    q = q + 1;
                    proof {
                        assert(char_seqs(rest@) =~= char_seqs(before).push(p_parts@[q0]@));
                        assert(char_seqs(p_parts@).subrange(start as int, q as int) =~= char_seqs(p_parts@).subrange(start as int, q0).push(p_parts@[q0]@));
                    }
                }
                joined_of(&rest)
            } else {
                pv.clone()
            };
            let subject = forward_slashes_of(&base);
            proof {
                assert(subject@ == glob_subject(path@, source_root@));
            }
            let plain = glob_set_is_match(set, string_of(&subject).as_str());
            if plain {
                true
            } else if is_dir {
                let mut slashed = subject;
                slashed.push('/');
                glob_set_is_match(set, string_of(&slashed).as_str())
            } else {
                false
            }
        },
        None => false,
    };
    leaf || inner || abs || globbed
}

} // verus!
