//! Searching, splitting, trimming and integer parsing on character
//! sequences, with the meaning that `str`'s methods of the same names have.
use vstd::prelude::*;
use crate::text::{is_whitespace, char_is_whitespace, is_digit, digit_value, all_digits, digits_value};

verus! {

broadcast use vstd::seq_lib::group_seq_properties;

/// Index of the first `c` in `s` at or after `i`.
pub open spec fn find_from(s: Seq<char>, c: char, i: int) -> Option<int>
    decreases s.len() - i,
{
    if i < 0 || i >= s.len() {
        None
    } else if s[i] == c {
        Some(i)
    } else {
        find_from(s, c, i + 1)
    }
}

/// Index of the first `c` in `s` (`str::find`).
pub open spec fn find_first(s: Seq<char>, c: char) -> Option<int> {
    find_from(s, c, 0)
}

/// Index of the last `c` in `s[..j]`.
pub open spec fn find_before(s: Seq<char>, c: char, j: int) -> Option<int>
    decreases j,
{
    if j <= 0 || j > s.len() {
        None
    } else if s[j - 1] == c {
        Some(j - 1)
    } else {
        find_before(s, c, j - 1)
    }
}

/// Index of the last `c` in `s` (`str::rfind`).
pub open spec fn find_last(s: Seq<char>, c: char) -> Option<int> {
    find_before(s, c, s.len() as int)
}

/// The pieces of `s` between occurrences of `c` (`str::split`): one more
/// piece than there are separators, empty pieces included.
pub open spec fn split_on(s: Seq<char>, c: char) -> Seq<Seq<char>>
    decreases s.len(),
{
    if s.len() == 0 {
        seq![Seq::empty()]
    } else {
        let parts = split_on(s.drop_last(), c);
        if s.last() == c {
            parts.push(Seq::empty())
        } else {
            parts.update(parts.len() - 1, parts.last().push(s.last()))
        }
    }
}

/// Number of leading whitespace characters of `s[i..]`.
pub open spec fn lead_from(s: Seq<char>, i: int) -> int
    decreases s.len() - i,
{
    if i < 0 || i >= s.len() || !is_whitespace(s[i]) {
        0
    } else {
        1 + lead_from(s, i + 1)
    }
}

/// Number of trailing whitespace characters of `s[..j]`.
pub open spec fn trail_before(s: Seq<char>, j: int) -> int
    decreases j,
{
    if j <= 0 || j > s.len() || !is_whitespace(s[j - 1]) {
        0
    } else {
        1 + trail_before(s, j - 1)
    }
}

/// `s` without leading and trailing whitespace (`str::trim`).
pub open spec fn trim(s: Seq<char>) -> Seq<char> {
    let a = lead_from(s, 0);
    if a >= s.len() {
        Seq::empty()
    } else {
        s.subrange(a, s.len() - trail_before(s, s.len() as int))
    }
}

/// `i64::from_str`: an optional sign, then at least one ASCII digit, and a
/// value in range.
pub open spec fn parse_i64(s: Seq<char>) -> Option<int> {
    if s.len() == 0 {
        None
    } else {
        let signed = s[0] == '-' || s[0] == '+';
        let digits = if signed { s.skip(1) } else { s };
        if digits.len() == 0 || !all_digits(digits) {
            None
        } else {
            let v: int = if s[0] == '-' { -(digits_value(digits) as int) } else { digits_value(digits) as int };
            if i64::MIN <= v && v <= i64::MAX {
                Some(v)
            } else {
                None
            }
        }
    }
}

/// `u64::from_str`: an optional '+', then at least one ASCII digit, and a
/// value in range.
pub open spec fn parse_u64(s: Seq<char>) -> Option<int> {
    if s.len() == 0 {
        None
    } else {
        let digits = if s[0] == '+' { s.skip(1) } else { s };
        if digits.len() == 0 || !all_digits(digits) || digits_value(digits) > u64::MAX {
            None
        } else {
            Some(digits_value(digits) as int)
        }
    }
}

/// The parsed value, or zero when parsing fails (`parse().unwrap_or(0)`).
pub open spec fn parse_or_zero(s: Seq<char>) -> int {
    match parse_i64(s) {
        Some(v) => v,
        None => 0,
    }
}

/// Index of the first `c` in `s`.
pub fn find_char(s: &Vec<char>, c: char) -> (r: Option<usize>)
    ensures
        r matches Some(i) ==> find_first(s@, c) == Some(i as int) && i < s@.len(),
        r is None ==> find_first(s@, c) is None,
{
    let mut i: usize = 0;
    while i < s.len()
        invariant
            i <= s@.len(),
            find_first(s@, c) == find_from(s@, c, i as int),
        decreases s.len() - i,
    {
        if s[i] == c {
            return Some(i);
        }
        i = i + 1;
    }
    None
}

/// Index of the last `c` in `s`.
pub fn rfind_char(s: &Vec<char>, c: char) -> (r: Option<usize>)
    ensures
        r matches Some(i) ==> find_last(s@, c) == Some(i as int) && i < s@.len(),
        r is None ==> find_last(s@, c) is None,
{
    let mut j: usize = s.len();
    while j > 0
        invariant
            j <= s@.len(),
            find_last(s@, c) == find_before(s@, c, j as int),
        decreases j,
    {
        if s[j - 1] == c {
            return Some(j - 1);
        }
        j = j - 1;
    }
    None
}

/// The pieces of `s` between occurrences of `c`.
pub fn split_chars(s: &Vec<char>, c: char) -> (parts: Vec<Vec<char>>)
    ensures
        parts.deep_view() =~~= split_on(s@, c),
        parts@.len() >= 1,
{
    let mut parts: Vec<Vec<char>> = Vec::new();
    parts.push(Vec::new());
    assert(s@.take(0) =~= Seq::<char>::empty());
    assert(parts.deep_view() =~~= split_on(s@.take(0), c));
    let mut i: usize = 0;
    while i < s.len()
        invariant
            i <= s@.len(),
            parts@.len() >= 1,
            parts.deep_view() =~~= split_on(s@.take(i as int), c),
        decreases s.len() - i,
    {
        let ch = s[i];
        assert(s@.take(i + 1).drop_last() =~= s@.take(i as int));
        let ghost before = parts.deep_view();
        if ch == c {
            parts.push(Vec::new());
            assert(parts.deep_view() =~~= before.push(Seq::empty()));
        } else {
            let mut last = parts.pop().unwrap();
            let ghost l0 = last@;
            last.push(ch);
            parts.push(last);
            assert(parts.deep_view() =~~= before.update(before.len() - 1, l0.push(ch)));
        }
        i = i + 1;
    }
    assert(s@.take(s@.len() as int) =~= s@);
    parts
}

/// `s` without leading and trailing whitespace.
pub fn trim_chars(s: &Vec<char>) -> (r: Vec<char>)
    ensures
        r@ == trim(s@),
{
    let n = s.len();
    let mut a: usize = 0;
    while a < n && char_is_whitespace(s[a])
        invariant
            n == s@.len(),
            a <= n,
            lead_from(s@, 0) == a + lead_from(s@, a as int),
        decreases n - a,
    {
        a = a + 1;
    }
    if a >= n {
        return Vec::new();
    }
    let mut b: usize = n;
    while b > 0 && char_is_whitespace(s[b - 1])
        invariant
            n == s@.len(),
            b <= n,
            trail_before(s@, n as int) == (n - b) + trail_before(s@, b as int),
            forall|k: int| b <= k < s@.len() ==> is_whitespace(#[trigger] s@[k]),
        decreases b,
    {
        b = b - 1;
    }
    proof {
        lemma_trim_bounds(s@, a as int, b as int);
    }
    crate::text::sub_chars(s.as_slice(), a, b)
}

/// The first non-whitespace character comes before the end of the trailing
/// whitespace.
proof fn lemma_trim_bounds(s: Seq<char>, a: int, b: int)
    requires
        0 <= a < s.len(),
        !is_whitespace(s[a]),
        0 <= b <= s.len(),
        b == 0 || !is_whitespace(s[b - 1]),
        (forall|k: int| b <= k < s.len() ==> is_whitespace(#[trigger] s[k])),
    ensures
        a < b,
{
    if b <= a {
        assert(is_whitespace(s[a]));
    }
}

/// Parses an optional sign and decimal digits as `i64::from_str` does.
pub fn parse_int(s: &Vec<char>) -> (r: Option<i64>)
    ensures
        r matches Some(v) ==> parse_i64(s@) == Some(v as int),
        r is None ==> parse_i64(s@) is None,
{
    if s.len() == 0 {
        return None;
    }
    let signed = s[0] == '-' || s[0] == '+';
    let neg = s[0] == '-';
    let start: usize = if signed { 1 } else { 0 };
    if start >= s.len() {
        return None;
    }
    let ghost digits = if signed { s@.skip(1) } else { s@ };
    assert(digits =~= s@.skip(start as int));
    let (ok, acc, over) = scan_digits(s, start, 0x8000_0000_0000_0000u128);
    if !ok || over {
        return None;
    }
    if neg {
        let v: i128 = 0i128 - acc as i128;
        Some(v as i64)
    } else if acc > 0x7FFF_FFFF_FFFF_FFFFu128 {
        None
    } else {
        Some(acc as i64)
    }
}

/// Parses an optional '+' and decimal digits as `u64::from_str` does.
pub fn parse_uint(s: &Vec<char>) -> (r: Option<u64>)
    ensures
        r matches Some(v) ==> parse_u64(s@) == Some(v as int),
        r is None ==> parse_u64(s@) is None,
{
    if s.len() == 0 {
        return None;
    }
    let start: usize = if s[0] == '+' { 1 } else { 0 };
    if start >= s.len() {
        return None;
    }
    let ghost digits = if s@[0] == '+' { s@.skip(1) } else { s@ };
    assert(digits =~= s@.skip(start as int));
    let (ok, acc, over) = scan_digits(s, start, 0xFFFF_FFFF_FFFF_FFFFu128);
    if !ok || over {
        return None;
    }
    Some(acc as u64)
}

proof fn lemma_digits_value_grows(p: Seq<char>, c: char)
    requires
        is_digit(c),
    ensures
        digits_value(p.push(c)) == digits_value(p) * 10 + digit_value(c),
        digits_value(p.push(c)) >= digits_value(p),
{
    assert(p.push(c).drop_last() =~= p);
}

/// Scans `s[start..]`: whether it is all digits, and its value, saturated:
/// `over` when the value passes `bound`.
fn scan_digits(s: &Vec<char>, start: usize, bound: u128) -> (r: (bool, u128, bool))
    requires
        start <= s@.len(),
        bound <= 0xFFFF_FFFF_FFFF_FFFF,
    ensures
        r.0 == all_digits(s@.skip(start as int)),
        r.0 ==> (r.2 <==> digits_value(s@.skip(start as int)) > bound),
        r.0 && !r.2 ==> r.1 == digits_value(s@.skip(start as int)),
{
    let ghost t = s@.skip(start as int);
    let mut acc: u128 = 0;
    let mut over = false;
    let mut i: usize = start;
    while i < s.len()
        invariant
            start <= i <= s@.len(),
            t == s@.skip(start as int),
            bound <= 0xFFFF_FFFF_FFFF_FFFF,
            all_digits(t.take(i - start)),
            over <==> digits_value(t.take(i - start)) > bound,
            !over ==> acc == digits_value(t.take(i - start)),
            acc <= bound,
        decreases s.len() - i,
    {
        let c = s[i];
        if !('0' <= c && c <= '9') {
            proof {
                assert(!is_digit(t[i - start]));
                assert(!all_digits(t));
            }
            return (false, acc, over);
        }
        proof {
            assert(t.take(i - start + 1) =~= t.take(i - start).push(c));
            lemma_digits_value_grows(t.take(i - start), c);
        }
        if !over {
            let d = ((c as u32) - 48) as u128;
            let next = acc * 10 + d;
            if next > bound {
                over = true;
            } else {
                acc = next;
            }
        }
        i = i + 1;
    }
    assert(t.take(s@.len() - start) =~= t);
    (true, acc, over)
}

} // verus!
