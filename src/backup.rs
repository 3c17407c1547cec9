//! Backup naming: `<dest>~` for simple backups, `<dest>.~N~` for numbered
//! ones, with N one past the largest numbered backup among the siblings.
use vstd::prelude::*;
use crate::text::{chars_of, string_of, concat_chars, names_of};
use crate::paths::{file_name, file_name_of, is_prefix};

verus! {

/// How an existing destination is kept before it is overwritten.
#[derive(Debug, Clone, Copy, PartialEq, Eq, Structural)]
pub enum BackupMode {
    Off,
    Simple,
    Numbered,
    Existing,
}

#[derive(Debug, Clone, Copy, PartialEq, Eq, Structural)]
pub enum BackupError {
    /// The destination has no file name to number backups after.
    InvalidFileName,
}

pub open spec fn digit_char(d: nat) -> char {
    if d == 0 { '0' }
    else if d == 1 { '1' }
    else if d == 2 { '2' }
    else if d == 3 { '3' }
    else if d == 4 { '4' }
    else if d == 5 { '5' }
    else if d == 6 { '6' }
    else if d == 7 { '7' }
    else if d == 8 { '8' }
    else { '9' }
}

pub open spec fn is_digit(c: char) -> bool {
    '0' <= c && c <= '9'
}

pub open spec fn digit_value(c: char) -> nat {
    (c as u32 - '0' as u32) as nat
}

/// The decimal digits of `n`, most significant first, without leading zeros.
pub open spec fn decimal(n: nat) -> Seq<char>
    decreases n,
{
    if n < 10 {
        seq![digit_char(n)]
    } else {
        decimal(n / 10).push(digit_char(n % 10))
    }
}

pub open spec fn all_digits(s: Seq<char>) -> bool {
    forall|i: int| 0 <= i < s.len() ==> is_digit(#[trigger] s[i])
}

/// The number that a run of decimal digits denotes.
pub open spec fn digits_value(s: Seq<char>) -> nat
    decreases s.len(),
{
    if s.len() == 0 {
        0
    } else {
        digits_value(s.drop_last()) * 10 + digit_value(s.last())
    }
}

/// What reading `s` as an unsigned 32-bit decimal gives: an optional `+`,
/// then at least one digit, with a value that fits.
pub open spec fn parse_u32(s: Seq<char>) -> Option<nat> {
    let d = if s.len() > 0 && s[0] == '+' { s.drop_first() } else { s };
    if d.len() > 0 && all_digits(d) && digits_value(d) <= u32::MAX {
        Some(digits_value(d))
    } else {
        None
    }
}

/// The sibling name that marks backup number `n` of `name`.
pub open spec fn numbered_name(name: Seq<char>, n: nat) -> Seq<char> {
    name + seq!['.', '~'] + decimal(n) + seq!['~']
}

/// The number of the backup of `name` that `entry` names, if it names one.
pub open spec fn backup_number(name: Seq<char>, entry: Seq<char>) -> Option<nat> {
    let prefix = name + seq!['.', '~'];
    if is_prefix(prefix, entry) && entry.len() > prefix.len() && entry.last() == '~' {
        parse_u32(entry.subrange(prefix.len() as int, entry.len() - 1))
    } else {
        None
    }
}

/// The largest backup number of `name` among `entries`, or 0.
pub open spec fn max_backup_number(name: Seq<char>, entries: Seq<Seq<char>>) -> nat
    decreases entries.len(),
{
    if entries.len() == 0 {
        0
    } else {
        let rest = max_backup_number(name, entries.drop_last());
        match backup_number(name, entries.last()) {
            Some(n) => if n > rest { n } else { rest },
            None => rest,
        }
    }
}

/// The number that the next numbered backup of `name` takes.
pub open spec fn next_backup_number(name: Seq<char>, entries: Seq<Seq<char>>) -> nat {
    max_backup_number(name, entries) + 1
}

pub open spec fn simple_backup(dest: Seq<char>) -> Seq<char> {
    dest + seq!['~']
}

pub open spec fn numbered_backup(dest: Seq<char>, n: nat) -> Seq<char> {
    dest + seq!['.', '~'] + decimal(n) + seq!['~']
}

/// The backup path for `dest` under `mode`, given the names of the entries
/// that sit beside it.
pub open spec fn backup_path(dest: Seq<char>, mode: BackupMode, siblings: Seq<Seq<char>>) -> Result<
    Seq<char>,
    BackupError,
> {
    match mode {
        BackupMode::Off => Ok(dest),
        BackupMode::Simple => Ok(simple_backup(dest)),
        BackupMode::Numbered => match file_name(dest) {
            Some(name) => Ok(numbered_backup(dest, next_backup_number(name, siblings))),
            None => Err(BackupError::InvalidFileName),
        },
        BackupMode::Existing => match file_name(dest) {
            Some(name) => if max_backup_number(name, siblings) > 0 {
                Ok(numbered_backup(dest, next_backup_number(name, siblings)))
            } else {
                Ok(simple_backup(dest))
            },
            None => Err(BackupError::InvalidFileName),
        },
    }
}

pub proof fn lemma_digit_roundtrip(d: nat)
    requires
        d < 10,
    ensures
        is_digit(digit_char(d)),
        digit_value(digit_char(d)) == d,
{
    assert('0' as u32 == 48);
    assert('1' as u32 == 49);
    assert('2' as u32 == 50);
    assert('3' as u32 == 51);
    assert('4' as u32 == 52);
    assert('5' as u32 == 53);
    assert('6' as u32 == 54);
    assert('7' as u32 == 55);
    assert('8' as u32 == 56);
    assert('9' as u32 == 57);
}

pub proof fn lemma_decimal_digits(n: nat)
    ensures
        all_digits(decimal(n)),
        decimal(n).len() > 0,
        digits_value(decimal(n)) == n,
    decreases n,
{
    lemma_digit_roundtrip(n % 10);
    if n < 10 {
        assert(decimal(n).drop_last() =~= Seq::<char>::empty());
        assert(digits_value(Seq::<char>::empty()) == 0);
    } else {
        lemma_decimal_digits(n / 10);
        let d = decimal(n);
        assert(d.drop_last() =~= decimal(n / 10));
        assert(n == (n / 10) * 10 + n % 10) by (nonlinear_arith);
        assert forall|i: int| 0 <= i < d.len() implies is_digit(#[trigger] d[i]) by {
            if i < d.len() - 1 {
                assert(d[i] == decimal(n / 10)[i]);
            }
        }
    }
}

/// The digit character of `d`.
fn digit_of(d: u64) -> (c: char)
    requires
        d < 10,
    ensures
        c == digit_char(d as nat),
{
    if d == 0 { '0' }
    else if d == 1 { '1' }
    else if d == 2 { '2' }
    else if d == 3 { '3' }
    else if d == 4 { '4' }
    else if d == 5 { '5' }
    else if d == 6 { '6' }
    else if d == 7 { '7' }
    else if d == 8 { '8' }
    else { '9' }
}

/// The decimal digits of `n`.
pub fn decimal_of(n: u64) -> (r: Vec<char>)
    ensures
        r@ == decimal(n as nat),
    decreases n,
{
    if n < 10 {
        vec![digit_of(n)]
    } else {
        let mut v = decimal_of(n / 10);
        v.push(digit_of(n % 10));
        v
    }
}

/// Reads `s` as an unsigned 32-bit decimal (see `parse_u32`).
pub fn parse_u32_of(s: &Vec<char>) -> (r: Option<u32>)
    ensures
        r matches Some(n) ==> parse_u32(s@) == Some(n as nat),
        r is None ==> parse_u32(s@) is None,
{
    let start: usize = if s.len() > 0 && s[0] == '+' { 1 } else { 0 };
    let ghost d = if s@.len() > 0 && s@[0] == '+' { s@.drop_first() } else { s@ };
    proof {
        assert(d =~= s@.subrange(start as int, s@.len() as int));
    }
    if start >= s.len() {
        return None;
    }
    let mut acc: u64 = 0;
    let mut over = false;
    let mut i: usize = start;
    proof {
        assert(s@.subrange(start as int, start as int) =~= Seq::<char>::empty());
    }
    while i < s.len()
        invariant
            start <= i <= s.len(),
            d == s@.subrange(start as int, s@.len() as int),
            d == (if s@.len() > 0 && s@[0] == '+' { s@.drop_first() } else { s@ }),
            all_digits(s@.subrange(start as int, i as int)),
            !over ==> acc as nat == digits_value(s@.subrange(start as int, i as int)) && acc <= u32::MAX,
            over ==> digits_value(s@.subrange(start as int, i as int)) > u32::MAX,
        decreases s.len() - i,
    {
        let c = s[i];
        if !('0' <= c && c <= '9') {
            proof {
                assert(d[i - start] == c);
                assert(!is_digit(d[i - start]));
                assert(!all_digits(d));
            }
            return None;
        }
        let ghost pre = s@.subrange(start as int, i as int);
        let ghost next = s@.subrange(start as int, i + 1);
        proof {
            assert(next.drop_last() =~= pre);
            assert(next.last() == c);
            assert forall|j: int| 0 <= j < next.len() implies is_digit(#[trigger] next[j]) by {
                if j < pre.len() {
                    assert(next[j] == pre[j]);
                }
            }
        }
        let dv = (c as u32 - '0' as u32) as u64;
        if !over {
            acc = acc * 10 + dv;
            if acc > 0xffff_ffff {
                over = true;
            }
        } else {
            proof {
                let v = digits_value(pre);
                assert(v * 10 + digit_value(c) >= v) by (nonlinear_arith);
            }
        }
        i = i + 1;
    }
    proof {
        assert(s@.subrange(start as int, s@.len() as int) == d);
    }
    if over {
        None
    } else {
        Some(acc as u32)
    }
}

/// The number of the backup of `name` that `entry` names, if it names one.
fn backup_number_of(name: &Vec<char>, entry: &Vec<char>) -> (r: Option<u32>)
    ensures
        r matches Some(n) ==> backup_number(name@, entry@) == Some(n as nat),
        r is None ==> backup_number(name@, entry@) is None,
{
    let mut prefix = name.clone();
    prefix.push('.');
    prefix.push('~');
    proof {
        assert(prefix@ =~= name@ + seq!['.', '~']);
    }
    if entry.len() <= prefix.len() || entry[entry.len() - 1] != '~' {
        return None;
    }
    let mut i: usize = 0;
    while i < prefix.len()
        invariant
            i <= prefix.len() < entry.len(),
            prefix@ == name@ + seq!['.', '~'],
            forall|j: int| 0 <= j < i ==> entry@[j] == prefix@[j],
        decreases prefix.len() - i,
    {
        if entry[i] != prefix[i] {
            proof {
                assert(entry@.subrange(0, prefix@.len() as int)[i as int] != prefix@[i as int]);
            }
            return None;
        }
        i = i + 1;
    }
    proof {
        assert(entry@.subrange(0, prefix@.len() as int) =~= prefix@);
    }
    let mut num: Vec<char> = Vec::new();
    let mut k: usize = prefix.len();
    let end: usize = entry.len() - 1;
    while k < end
        invariant
            prefix.len() <= k <= end,
            end == entry.len() - 1,
            num@ == entry@.subrange(prefix.len() as int, k as int),
        decreases end - k,
    {
        num.push(entry[k]);
        k = k + 1;
        proof {
            assert(num@ =~= entry@.subrange(prefix.len() as int, k as int));
        }
    }
    parse_u32_of(&num)
}

/// The largest backup number of `name` among `siblings`, or 0.
pub fn find_max_backup_number(name: &str, siblings: &Vec<String>) -> (r: u32)
    ensures
        r as nat == max_backup_number(name@, names_of(siblings@)),
{
    let n = chars_of(name);
    let mut max: u32 = 0;
    let mut i: usize = 0;
    proof {
        assert(names_of(siblings@).subrange(0, 0) =~= Seq::<Seq<char>>::empty());
    }
    while i < siblings.len()
        invariant
            i <= siblings.len(),
            n@ == name@,
            max as nat == max_backup_number(name@, names_of(siblings@).subrange(0, i as int)),
        decreases siblings.len() - i,
    {
        proof {
            assert(names_of(siblings@).subrange(0, i + 1).drop_last() =~= names_of(siblings@).subrange(0, i as int));
        }
        let e = chars_of(siblings[i].as_str());
        match backup_number_of(&n, &e) {
            Some(k) => {
                if k > max {
                    max = k;
                }
            },
            None => {},
        }
        i = i + 1;
    }
    proof {
        assert(names_of(siblings@).subrange(0, siblings@.len() as int) =~= names_of(siblings@));
    }
    max
}

/// `path` with the simple backup suffix `~`.
pub fn add_suffix(path: &str) -> (r: String)
    ensures
        r@ == simple_backup(path@),
{
    let mut v = chars_of(path);
    v.push('~');
    string_of(&v)
}

/// `path` with the numbered backup suffix `.~number~`.
pub fn format_numbered_backup(path: &str, number: u64) -> (r: String)
    ensures
        r@ == numbered_backup(path@, number as nat),
{
    let mut v = chars_of(path);
    v.push('.');
    v.push('~');
    let v = concat_chars(&v, &decimal_of(number));
    let mut v = v;
    v.push('~');
    proof {
        assert(v@ =~= numbered_backup(path@, number as nat));
    }
    string_of(&v)
}

/// The path that `destination` is renamed to before it is overwritten,
/// given the names of the entries in its directory.
pub fn generate_backup_path(destination: &str, mode: BackupMode, siblings: &Vec<String>) -> (r: Result<
    String,
    BackupError,
>)
    ensures
        r matches Ok(p) ==> backup_path(destination@, mode, names_of(siblings@)) == Ok::<Seq<char>, BackupError>(p@),
        r matches Err(e) ==> backup_path(destination@, mode, names_of(siblings@)) == Err::<Seq<char>, BackupError>(e),
{
    match mode {
        BackupMode::Off => Ok(string_of(&chars_of(destination))),
        BackupMode::Simple => Ok(add_suffix(destination)),
        BackupMode::Numbered | BackupMode::Existing => {
            let name = match file_name_of(destination) {
                Some(n) => n,
                None => {
                    return Err(BackupError::InvalidFileName);
                },
            };
            let max = find_max_backup_number(name.as_str(), siblings);
            if mode == BackupMode::Existing && max == 0 {
                Ok(add_suffix(destination))
            } else {
                Ok(format_numbered_backup(destination, max as u64 + 1))
            }
        },
    }
}

/// Numbered backups of one destination count up from 1: with no numbered
/// backup beside it the first one is numbered 1, and once a numbered backup
/// has been made the next one is numbered one higher.
pub proof fn lemma_numbered_backups_increase(name: Seq<char>, siblings: Seq<Seq<char>>)
    requires
        max_backup_number(name, siblings) < u32::MAX,
    ensures
        next_backup_number(name, Seq::<Seq<char>>::empty()) == 1,
        next_backup_number(
            name,
            siblings.push(numbered_name(name, next_backup_number(name, siblings))),
        ) == next_backup_number(name, siblings) + 1,
        next_backup_number(name, siblings) >= 1,
{
    let n = next_backup_number(name, siblings);
    let entry = numbered_name(name, n);
    let prefix = name + seq!['.', '~'];
    lemma_decimal_digits(n);
    assert(entry.subrange(0, prefix.len() as int) =~= prefix);
    assert(entry.subrange(prefix.len() as int, entry.len() - 1) =~= decimal(n));
    let d = decimal(n);
    assert(is_digit(d[0]));
    assert(d[0] != '+');
    assert(backup_number(name, entry) == Some(n));
    assert(siblings.push(entry).drop_last() =~= siblings);
}

} // verus!
