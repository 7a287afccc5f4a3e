use vstd::prelude::*;
use vstd::string::*;

use crate::model::opt_view;

verus! {

/// `i` is the position of the last `c` in `s`.
pub open spec fn is_last_at(s: Seq<char>, c: char, i: int) -> bool {
    0 <= i < s.len() && s[i] == c && forall|j: int| i < j < s.len() ==> s[j] != c
}

/// The position of the last `c` in `s`, if there is one.
pub open spec fn last_index_of(s: Seq<char>, c: char) -> Option<int> {
    if exists|i: int| is_last_at(s, c, i) {
        Some(choose|i: int| is_last_at(s, c, i))
    } else {
        None
    }
}

/// Where a path ends once trailing separators and trailing "." components
/// are dropped, as `std::path::Path` reads its components.
pub open spec fn trimmed_end(p: Seq<char>) -> int
    decreases p.len(),
{
    if p.len() == 0 {
        0
    } else if p.last() == '/' {
        trimmed_end(p.drop_last())
    } else if p.len() >= 2 && p.last() == '.' && p[p.len() - 2] == '/' {
        trimmed_end(p.drop_last())
    } else {
        p.len() as int
    }
}

/// Where the last component starts: just after the final '/' before the trimmed end.
pub open spec fn name_start(p: Seq<char>) -> int {
    match last_index_of(p.subrange(0, trimmed_end(p)), '/') {
        Some(i) => i + 1,
        None => 0,
    }
}

/// The span `[start, end)` of a path's file name; none where its last
/// component is empty, "." or "..".
pub open spec fn name_span(p: Seq<char>) -> Option<(int, int)> {
    let e = trimmed_end(p);
    let s = name_start(p);
    let n = p.subrange(s, e);
    if n.len() == 0 || n == seq!['.'] || n == seq!['.', '.'] {
        None
    } else {
        Some((s, e))
    }
}

/// The file name of a path.
pub open spec fn file_name_of(p: Seq<char>) -> Option<Seq<char>> {
    match name_span(p) {
        Some((s, e)) => Some(p.subrange(s, e)),
        None => None,
    }
}

/// How long a file name's stem is: up to its last '.', unless that dot
/// opens the name.
pub open spec fn stem_len(n: Seq<char>) -> int {
    match last_index_of(n, '.') {
        Some(i) => if i > 0 { i } else { n.len() as int },
        None => n.len() as int,
    }
}

/// A file name without its extension.
pub open spec fn stem_of(n: Seq<char>) -> Seq<char> {
    n.subrange(0, stem_len(n))
}

/// The extension of a file name: what follows its last '.', unless that dot
/// opens the name.
pub open spec fn extension_of(n: Seq<char>) -> Option<Seq<char>> {
    if stem_len(n) < n.len() {
        Some(n.subrange(stem_len(n) + 1, n.len() as int))
    } else {
        None
    }
}

/// The file name of a path without its extension.
pub open spec fn file_stem_of(p: Seq<char>) -> Option<Seq<char>> {
    match file_name_of(p) {
        Some(n) => Some(stem_of(n)),
        None => None,
    }
}

proof fn lemma_last_unique(s: Seq<char>, c: char, i: int)
    requires
        is_last_at(s, c, i),
    ensures
        last_index_of(s, c) == Some(i),
{
    let k = choose|k: int| is_last_at(s, c, k);
    assert(is_last_at(s, c, k));
    if k < i {
        assert(s[i] != c);
    } else if k > i {
        assert(s[k] != c);
    }
}

/// Finds the last `c` in `s`, counting in characters.
pub fn find_last(s: &str, c: char) -> (r: Option<usize>)
    ensures
        match r {
            Some(i) => last_index_of(s@, c) == Some(i as int) && i < s@.len(),
            None => last_index_of(s@, c) is None,
        },
{
    let len = s.unicode_len();
    let mut i: usize = len;
    while i > 0
        invariant
            len == s@.len(),
            i <= len,
            forall|j: int| i <= j < len ==> s@[j] != c,
        decreases i,
    {
        if s.get_char(i - 1) == c {
            proof {
                lemma_last_unique(s@, c, i - 1);
            }
            return Some(i - 1);
        }
        i = i - 1;
    }
    assert(!exists|k: int| is_last_at(s@, c, k));
    None
}

fn trim_end(path: &str) -> (r: usize)
    ensures
        r as int == trimmed_end(path@),
        r <= path@.len(),
{
    let len = path.unicode_len();
    let mut e: usize = len;
    assert(path@.subrange(0, len as int) =~= path@);
    while e > 0
        invariant
            len == path@.len(),
            e <= len,
            trimmed_end(path@.subrange(0, e as int)) == trimmed_end(path@),
        decreases e,
    {
        let ghost pre = path@.subrange(0, e as int);
        assert(pre.drop_last() =~= path@.subrange(0, e - 1));
        let c = path.get_char(e - 1);
        if c == '/' || (c == '.' && e >= 2 && path.get_char(e - 2) == '/') {
            e = e - 1;
        } else {
            return e;
        }
    }
    e
}

/// Finds the span of a path's file name, as `std::path::Path::file_name` reads it.
pub fn file_name_span(path: &str) -> (r: Option<(usize, usize)>)
    ensures
        match r {
            Some((s, e)) => name_span(path@) == Some((s as int, e as int)) && s <= e <= path@.len(),
            None => name_span(path@) is None,
        },
{
    let e = trim_end(path);
    let head = path.substring_char(0, e);
    let s: usize = match find_last(head, '/') {
        Some(i) => i + 1,
        None => 0,
    };
    assert(s as int == name_start(path@));
    let n = e - s;
    let name = path.substring_char(s, e);
    if n == 0 {
        return None;
    }
    if n <= 2 && name.get_char(0) == '.' && (n == 1 || name.get_char(1) == '.') {
        assert(name@ =~= seq!['.'] || name@ =~= seq!['.', '.']);
        return None;
    }
    assert(name@ != seq!['.'] && name@ != seq!['.', '.']) by {
        if n == 1 {
            assert(name@[0] != '.');
        } else if n == 2 {
            assert(name@[0] != '.' || name@[1] != '.');
        }
    }
    Some((s, e))
}

/// Where the stem of a file name ends.
pub fn stem_end(name: &str) -> (r: usize)
    ensures
        r as int == stem_len(name@),
        r <= name@.len(),
{
    match find_last(name, '.') {
        Some(i) => if i > 0 { i } else { name.unicode_len() },
        None => name.unicode_len(),
    }
}

/// The file name of `path` without its extension; `None` where the path has
/// no file name.
pub fn get_filename_without_ext(path: &str) -> (r: Option<String>)
    ensures
        opt_view(r) == file_stem_of(path@),
{
    match file_name_span(path) {
        Some((s, e)) => {
            let name = path.substring_char(s, e);
            let k = stem_end(name);
            Some(String::from_str(name.substring_char(0, k)))
        },
        None => None,
    }
}

pub open spec fn is_digit(c: char) -> bool {
    '0' <= c && c <= '9'
}

pub open spec fn digit_value(c: char) -> int {
    (c as u32) - ('0' as u32)
}

pub open spec fn all_digits(s: Seq<char>) -> bool {
    forall|i: int| 0 <= i < s.len() ==> is_digit(s[i])
}

/// The number that a string of decimal digits writes.
pub open spec fn decimal_value(s: Seq<char>) -> int
    decreases s.len(),
{
    if s.len() == 0 {
        0
    } else {
        decimal_value(s.drop_last()) * 10 + digit_value(s.last())
    }
}

/// A strictly positive id written in decimal digits alone, within `i64`.
pub open spec fn parse_positive_id(s: Seq<char>) -> Option<i64> {
    if s.len() > 0 && all_digits(s) && 0 < decimal_value(s) <= i64::MAX {
        Some(decimal_value(s) as i64)
    } else {
        None
    }
}

proof fn lemma_decimal_nonneg(s: Seq<char>)
    requires
        all_digits(s),
    ensures
        decimal_value(s) >= 0,
    decreases s.len(),
{
    if s.len() > 0 {
        lemma_decimal_nonneg(s.drop_last());
    }
}

proof fn lemma_decimal_grows(s: Seq<char>, k: int)
    requires
        all_digits(s),
        0 <= k <= s.len(),
    ensures
        decimal_value(s.subrange(0, k)) <= decimal_value(s),
    decreases s.len(),
{
    if k < s.len() {
        assert(s.drop_last().subrange(0, k) =~= s.subrange(0, k));
        lemma_decimal_grows(s.drop_last(), k);
        lemma_decimal_nonneg(s.drop_last());
    } else {
        assert(s.subrange(0, k) =~= s);
    }
}

/// Reads `s[from..to)` as a strictly positive decimal id.
pub fn parse_id(s: &str, from: usize, to: usize) -> (r: Option<i64>)
    requires
        from <= to <= s@.len(),
    ensures
        r == parse_positive_id(s@.subrange(from as int, to as int)),
{
    let ghost t = s@.subrange(from as int, to as int);
    if from == to {
        return None;
    }
    let mut acc: i64 = 0;
    let mut i: usize = from;
    while i < to
        invariant
            from <= i <= to <= s@.len(),
            t == s@.subrange(from as int, to as int),
            all_digits(t.subrange(0, i - from)),
            acc as int == decimal_value(t.subrange(0, i - from)),
            acc >= 0,
        decreases to - i,
    {
        let c = s.get_char(i);
        let ghost pre = t.subrange(0, i - from);
        let ghost next = t.subrange(0, i + 1 - from);
        assert(next.drop_last() =~= pre);
        assert(next.last() == c);
        if !('0' <= c && c <= '9') {
            assert(!all_digits(t)) by {
                assert(t[i - from] == c);
            }
            return None;
        }
        let d: i64 = ((c as u32) - ('0' as u32)) as i64;
        if acc > (i64::MAX - d) / 10 {
            proof {
                if all_digits(t) {
                    lemma_decimal_grows(t, i + 1 - from);
                }
            }
            return None;
        }
        acc = acc * 10 + d;
        i = i + 1;
    }
    assert(t.subrange(0, to - from) =~= t);
    if acc == 0 {
        None
    } else {
        Some(acc)
    }
}

pub open spec fn digit_char(d: nat) -> char {
    if d == 0 { '0' }
    else if d == 1 { '1' }
    else if d == 2 { '2' }
    else if d == 3 { '3' }
    else if d == 4 { '4' }
    else if d == 5 { '5' }
    else if d == 6 { '6' }
    else if d == 7 { '7' }
    else if d == 8 { '8' }
    else { '9' }
}

/// The decimal digits of `n`, most significant first, without leading zeros.
pub open spec fn decimal_of(n: nat) -> Seq<char>
    decreases n,
{
    if n < 10 {
        seq![digit_char(n)]
    } else {
        decimal_of(n / 10) + seq![digit_char(n % 10)]
    }
}

fn digit_str(d: u64) -> (r: &'static str)
    requires
        d < 10,
    ensures
        r@ == seq![digit_char(d as nat)],
{
    proof {
        reveal_strlit("0");
        reveal_strlit("1");
        reveal_strlit("2");
        reveal_strlit("3");
        reveal_strlit("4");
        reveal_strlit("5");
        reveal_strlit("6");
        reveal_strlit("7");
        reveal_strlit("8");
        reveal_strlit("9");
    }
    let r = if d == 0 { "0" }
    else if d == 1 { "1" }
    else if d == 2 { "2" }
    else if d == 3 { "3" }
    else if d == 4 { "4" }
    else if d == 5 { "5" }
    else if d == 6 { "6" }
    else if d == 7 { "7" }
    else if d == 8 { "8" }
    else { "9" };
    assert(r@ =~= seq![digit_char(d as nat)]);
    r
}

/// Writes `n` in decimal.
pub fn decimal_string(n: u64) -> (r: String)
    ensures
        r@ == decimal_of(n as nat),
    decreases n,
{
    if n < 10 {
        String::from_str(digit_str(n))
    } else {
        let mut s = decimal_string(n / 10);
        s.append(digit_str(n % 10));
        s
    }
}

pub open spec fn lower_char(c: char) -> char {
    if 'A' <= c && c <= 'Z' {
        ((c as u8) + 32) as char
    } else {
        c
    }
}

/// `s` with its ASCII capitals made small.
pub open spec fn ascii_lower(s: Seq<char>) -> Seq<char> {
    s.map_values(|c: char| lower_char(c))
}

/// Compares `s[from..]`, its ASCII capitals made small, with `word`.
pub fn lower_tail_equals(s: &str, from: usize, word: &str) -> (r: bool)
    requires
        from <= s@.len(),
    ensures
        r == (ascii_lower(s@.subrange(from as int, s@.len() as int)) == word@),
{
    let ghost t = s@.subrange(from as int, s@.len() as int);
    let len = s.unicode_len();
    let wlen = word.unicode_len();
    if len - from != wlen {
        assert(ascii_lower(t).len() != word@.len());
        return false;
    }
    let mut i: usize = 0;
    while i < wlen
        invariant
            len == s@.len(),
            wlen == word@.len(),
            len - from == wlen,
            t == s@.subrange(from as int, s@.len() as int),
            i <= wlen,
            forall|j: int| 0 <= j < i ==> lower_char(t[j]) == word@[j],
        decreases wlen - i,
    {
        let c = s.get_char(from + i);
        let lc = if 'A' <= c && c <= 'Z' {
            ((c as u8) + 32) as char
        } else {
            c
        };
        if lc != word.get_char(i) {
            assert(ascii_lower(t)[i as int] != word@[i as int]);
            return false;
        }
        i = i + 1;
    }
    assert(ascii_lower(t) =~= word@);
    true
}

} // verus!
