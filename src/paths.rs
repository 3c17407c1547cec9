//! A lexical model of Unix paths: a path is text whose `/`-separated
//! segments, minus empty and `.` segments, are its parts.
use vstd::prelude::*;
use crate::text::{chars_of, string_of, same_chars, concat_chars, pieces, char_seqs, split_of};

verus! {

pub open spec fn sep() -> char {
    '/'
}

/// The `/`-separated pieces of `p`, empty ones included.
pub open spec fn segments(p: Seq<char>) -> Seq<Seq<char>> {
    pieces(p, sep())
}

/// A segment that names something: not empty and not `.`.
pub open spec fn is_part(s: Seq<char>) -> bool {
    s.len() > 0 && s != seq!['.']
}

pub open spec fn keep_parts(segs: Seq<Seq<char>>) -> Seq<Seq<char>>
    decreases segs.len(),
{
    if segs.len() == 0 {
        Seq::<Seq<char>>::empty()
    } else {
        let pre = keep_parts(segs.drop_last());
        if is_part(segs.last()) {
            pre.push(segs.last())
        } else {
            pre
        }
    }
}

/// The parts (components other than the root) of a path.
pub open spec fn parts(p: Seq<char>) -> Seq<Seq<char>> {
    keep_parts(segments(p))
}

pub open spec fn is_absolute(p: Seq<char>) -> bool {
    p.len() > 0 && p[0] == sep()
}

/// Parts joined with `/`.
pub open spec fn joined(ps: Seq<Seq<char>>) -> Seq<char>
    decreases ps.len(),
{
    if ps.len() == 0 {
        Seq::<char>::empty()
    } else if ps.len() == 1 {
        ps[0]
    } else {
        joined(ps.drop_last()).push(sep()) + ps.last()
    }
}

/// `rel` appended to `base`: an absolute `rel` replaces `base`; a separator is
/// put between them unless `base` is empty or already ends with one.
pub open spec fn join(base: Seq<char>, rel: Seq<char>) -> Seq<char> {
    if is_absolute(rel) || base.len() == 0 {
        rel
    } else if base.last() == sep() {
        base + rel
    } else {
        base.push(sep()) + rel
    }
}

/// The text of a path rebuilt from its root flag and parts.
pub open spec fn rebuilt(absolute: bool, ps: Seq<Seq<char>>) -> Seq<char> {
    if absolute {
        seq![sep()] + joined(ps)
    } else {
        joined(ps)
    }
}

/// The last part of a path, unless there is none or it is `..`.
pub open spec fn file_name(p: Seq<char>) -> Option<Seq<char>> {
    let ps = parts(p);
    if ps.len() == 0 || ps.last() == seq!['.', '.'] {
        None
    } else {
        Some(ps.last())
    }
}

/// The path without its last part, unless it has no part.
pub open spec fn parent(p: Seq<char>) -> Option<Seq<char>> {
    let ps = parts(p);
    if ps.len() == 0 {
        None
    } else {
        Some(rebuilt(is_absolute(p), ps.drop_last()))
    }
}

/// `a` is a prefix of `b`, element by element.
pub open spec fn is_prefix<T>(a: Seq<T>, b: Seq<T>) -> bool {
    a.len() <= b.len() && b.subrange(0, a.len() as int) == a
}

/// `p` lies under `root` (or is `root`): same anchoring, and the parts of
/// `root` begin the parts of `p`.
pub open spec fn starts_with(p: Seq<char>, root: Seq<char>) -> bool {
    is_absolute(p) == is_absolute(root) && is_prefix(parts(root), parts(p))
}

/// `p` lies strictly below `root`.
pub open spec fn is_below(p: Seq<char>, root: Seq<char>) -> bool {
    starts_with(p, root) && parts(root).len() < parts(p).len()
}

/// The parts of `p` after those of `root`, or all of them when `p` does not
/// lie under `root`.
pub open spec fn relative_parts(p: Seq<char>, root: Seq<char>) -> Seq<Seq<char>> {
    if starts_with(p, root) {
        parts(p).subrange(parts(root).len() as int, parts(p).len() as int)
    } else {
        parts(p)
    }
}

/// The destination of `source` recreated with its full path under `dest`.
pub open spec fn with_parents_spec(dest: Seq<char>, source: Seq<char>) -> Seq<char> {
    join(dest, joined(parts(source)))
}

/// The parts of `p`.
pub fn parts_of(p: &Vec<char>) -> (r: Vec<Vec<char>>)
    ensures
        char_seqs(r@) == parts(p@),
{
    let segs = split_of(p, '/');
    let mut r: Vec<Vec<char>> = Vec::new();
    let mut i: usize = 0;
    let dot: Vec<char> = vec!['.'];
    proof {
        assert(segments(p@).subrange(0, 0) =~= Seq::<Seq<char>>::empty());
    }
    while i < segs.len()
        invariant
            i <= segs.len(),
            char_seqs(segs@) == segments(p@),
            dot@ == seq!['.'],
            char_seqs(r@) == keep_parts(segments(p@).subrange(0, i as int)),
        decreases segs.len() - i,
    {
        proof {
            assert(segments(p@).subrange(0, i + 1).drop_last() =~= segments(p@).subrange(0, i as int));
            assert(segs@[i as int]@ == segments(p@)[i as int]);
        }
        let keep = segs[i].len() > 0 && !same_chars(&segs[i], &dot);
        if keep {
            let ghost old_r = r@;
            r.push(segs[i].clone());
            proof {
                assert(char_seqs(r@) =~= char_seqs(old_r).push(segs@[i as int]@));
            }
        }
        i = i + 1;
    }
    proof {
        assert(segments(p@).subrange(0, segs@.len() as int) =~= segments(p@));
    }
    r
}

/// Parts joined with `/`.
pub fn joined_of(ps: &Vec<Vec<char>>) -> (r: Vec<char>)
    ensures
        r@ == joined(char_seqs(ps@)),
{
    let mut r: Vec<char> = Vec::new();
    let mut i: usize = 0;
    while i < ps.len()
        invariant
            i <= ps.len(),
            r@ == joined(char_seqs(ps@).subrange(0, i as int)),
        decreases ps.len() - i,
    {
        let ghost pre = char_seqs(ps@).subrange(0, i as int);
        proof {
            assert(char_seqs(ps@).subrange(0, i + 1).drop_last() =~= pre);
            assert(char_seqs(ps@).subrange(0, i + 1).last() == ps@[i as int]@);
        }
        if i == 0 {
            r = ps[i].clone();
            proof {
                assert(char_seqs(ps@).subrange(0, 1) =~= seq![ps@[0]@]);
            }
        } else {
            r.push('/');
            r = concat_chars(&r, &ps[i]);
        }
        i = i + 1;
    }
    proof {
        assert(char_seqs(ps@).subrange(0, ps@.len() as int) =~= char_seqs(ps@));
    }
    r
}

pub fn is_absolute_of(p: &Vec<char>) -> (r: bool)
    ensures
        r == is_absolute(p@),
{
    p.len() > 0 && p[0] == '/'
}

/// `rel` appended to `base` (see `join`).
pub fn join_of(base: &Vec<char>, rel: &Vec<char>) -> (r: Vec<char>)
    ensures
        r@ == join(base@, rel@),
{
    if is_absolute_of(rel) || base.len() == 0 {
        rel.clone()
    } else if base[base.len() - 1] == '/' {
        concat_chars(base, rel)
    } else {
        let mut b = base.clone();
        b.push('/');
        concat_chars(&b, rel)
    }
}

/// A path rebuilt from its root flag and parts.
pub fn rebuilt_of(absolute: bool, ps: &Vec<Vec<char>>) -> (r: Vec<char>)
    ensures
        r@ == rebuilt(absolute, char_seqs(ps@)),
{
    let j = joined_of(ps);
    if absolute {
        let root: Vec<char> = vec!['/'];
        concat_chars(&root, &j)
    } else {
        j
    }
}

/// Joins `rel` onto `base` (see `join`).
pub fn join_path(base: &str, rel: &str) -> (r: String)
    ensures
        r@ == join(base@, rel@),
{
    let b = chars_of(base);
    let c = chars_of(rel);
    string_of(&join_of(&b, &c))
}

/// The last part of `path`, unless it has none or it is `..`.
pub fn file_name_of(path: &str) -> (r: Option<String>)
    ensures
        r matches Some(n) ==> file_name(path@) == Some(n@),
        r is None ==> file_name(path@) is None,
{
    let p = chars_of(path);
    let ps = parts_of(&p);
    if ps.len() == 0 {
        return None;
    }
    let last = &ps[ps.len() - 1];
    proof {
        assert(last@ == parts(path@).last());
    }
    let dots: Vec<char> = vec!['.', '.'];
    if same_chars(last, &dots) {
        proof {
            assert(dots@ =~= seq!['.', '.']);
        }
        None
    } else {
        proof {
            assert(dots@ =~= seq!['.', '.']);
        }
        Some(string_of(last))
    }
}

/// `path` without its last part, unless it has no part.
pub fn parent_of(path: &str) -> (r: Option<String>)
    ensures
        r matches Some(n) ==> parent(path@) == Some(n@),
        r is None ==> parent(path@) is None,
{
    let p = chars_of(path);
    let mut ps = parts_of(&p);
    if ps.len() == 0 {
        return None;
    }
    let ghost all = ps@;
    ps.pop();
    proof {
        assert(char_seqs(ps@) =~= char_seqs(all).drop_last());
    }
    Some(string_of(&rebuilt_of(is_absolute_of(&p), &ps)))
}

/// The destination of `source` when its full path is recreated under `dest`.
pub fn with_parents(dest: &str, source: &str) -> (r: String)
    ensures
        r@ == with_parents_spec(dest@, source@),
{
    let d = chars_of(dest);
    let s = chars_of(source);
    let rel = joined_of(&parts_of(&s));
    string_of(&join_of(&d, &rel))
}

/// At most `max_len` characters of `filename`: longer names are cut to leave
/// room for a `...` marker.
pub fn truncate_filename(filename: &str, max_len: usize) -> (r: String)
    ensures
        filename@.len() <= max_len ==> r@ == filename@,
        filename@.len() > max_len ==> r@ == filename@.subrange(
            0,
            if max_len >= 3 { max_len - 3 } else { 0 },
        ) + seq!['.', '.', '.'],
{
    let v = chars_of(filename);
    if v.len() <= max_len {
        string_of(&v)
    } else {
        let cut: usize = if max_len >= 3 { max_len - 3 } else { 0 };
        let mut r: Vec<char> = Vec::new();
        let mut i: usize = 0;
        while i < cut
            invariant
                i <= cut,
                cut < v.len(),
                r@ == v@.subrange(0, i as int),
            decreases cut - i,
        {
            r.push(v[i]);
            i = i + 1;
            proof {
                assert(v@.subrange(0, i as int) =~= v@.subrange(0, i - 1).push(v@[i - 1]));
            }
        }
        r.push('.');
        r.push('.');
        r.push('.');
        proof {
            assert(r@ =~= v@.subrange(0, cut as int) + seq!['.', '.', '.']);
        }
        string_of(&r)
    }
}

} // verus!
