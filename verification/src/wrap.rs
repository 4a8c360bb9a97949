//! Word wrapping of panel text into lines of a bounded number of columns.
//!
//! Every character takes one column, as every glyph takes one cell on the
//! display. Words are the maximal runs of non-whitespace characters
//! (`str::split_whitespace`). A word longer than a line is cut into pieces of
//! exactly the line length. The UTF-8 byte measure that other modules use to
//! cut text is kept here as well.
use vstd::prelude::*;
use crate::text::{is_whitespace, char_is_whitespace, chars_of, string_from_chars};

verus! {

broadcast use vstd::seq_lib::group_seq_properties;

/// Columns that `c` takes on a line: one.
pub open spec fn col_width(c: char) -> int {
    1
}

/// Columns a character sequence takes on a line.
pub open spec fn col_len(s: Seq<char>) -> int
    decreases s.len(),
{
    if s.len() == 0 {
        0
    } else {
        col_len(s.drop_last()) + col_width(s.last())
    }
}

/// Bytes that `c` takes in UTF-8.
pub open spec fn utf8_width(c: char) -> int {
    if (c as u32) < 0x80 {
        1
    } else if (c as u32) < 0x800 {
        2
    } else if (c as u32) < 0x10000 {
        3
    } else {
        4
    }
}

/// Byte length of a character sequence in UTF-8.
pub open spec fn utf8_len(s: Seq<char>) -> int
    decreases s.len(),
{
    if s.len() == 0 {
        0
    } else {
        utf8_len(s.drop_last()) + utf8_width(s.last())
    }
}

/// Byte length of the prefix one character longer.
pub proof fn lemma_utf8_take_step(s: Seq<char>, i: int)
    requires
        0 <= i < s.len(),
    ensures
        utf8_len(s.take(i + 1)) == utf8_len(s.take(i)) + utf8_width(s[i]),
{
    assert(s.take(i + 1).drop_last() =~= s.take(i));
}

/// Scan of `s` into the words finished so far and the word in progress.
pub open spec fn word_scan(s: Seq<char>) -> (Seq<Seq<char>>, Seq<char>)
    decreases s.len(),
{
    if s.len() == 0 {
        (Seq::empty(), Seq::empty())
    } else {
        let (done, cur) = word_scan(s.drop_last());
        let c = s.last();
        if is_whitespace(c) {
            if cur.len() > 0 {
                (done.push(cur), Seq::empty())
            } else {
                (done, cur)
            }
        } else {
            (done, cur.push(c))
        }
    }
}

/// The whitespace-separated words of `s`, in order.
pub open spec fn words(s: Seq<char>) -> Seq<Seq<char>> {
    let (done, cur) = word_scan(s);
    if cur.len() > 0 {
        done.push(cur)
    } else {
        done
    }
}

/// Whether `w` has a prefix of exactly `max` columns.
pub open spec fn has_split(w: Seq<char>, max: int) -> bool {
    exists|k: int| 0 <= k <= w.len() && #[trigger] col_len(w.take(k)) == max
}

/// The number of characters in the prefix of `w` that has `max` columns.
pub open spec fn split_point(w: Seq<char>, max: int) -> int {
    choose|k: int| 0 <= k <= w.len() && #[trigger] col_len(w.take(k)) == max
}

/// A long word cut into pieces of `max` columns: the full pieces, then what
/// is left (at most `max` columns).
pub open spec fn chunk_scan(w: Seq<char>, max: int) -> (Seq<Seq<char>>, Seq<char>)
    decreases w.len(),
{
    if col_len(w) <= max || !has_split(w, max) {
        (Seq::empty(), w)
    } else {
        let k = split_point(w, max);
        if 0 < k {
            let (pieces, rest) = chunk_scan(w.skip(k), max);
            (seq![w.take(k)] + pieces, rest)
        } else {
            (Seq::empty(), w)
        }
    }
}

/// Whether `w` can be cut into `max`-column pieces, each cut at exactly
/// `max` columns ([`lemma_wrap_ok`]: always, for a positive width).
pub open spec fn chunks_ok(w: Seq<char>, max: int) -> bool
    decreases w.len(),
{
    if col_len(w) <= max {
        true
    } else if !has_split(w, max) {
        false
    } else {
        let k = split_point(w, max);
        0 < k && chunks_ok(w.skip(k), max)
    }
}

/// One word added to the (finished lines, current line) state.
pub open spec fn wrap_step(
    st: (Seq<Seq<char>>, Seq<char>),
    w: Seq<char>,
    max: int,
) -> (Seq<Seq<char>>, Seq<char>) {
    let (lines, cur) = st;
    if col_len(w) > max {
        let flushed = if cur.len() > 0 {
            lines.push(cur)
        } else {
            lines
        };
        let (pieces, rest) = chunk_scan(w, max);
        (flushed + pieces, rest)
    } else if cur.len() == 0 {
        (lines, w)
    } else if col_len(cur) + 1 + col_len(w) <= max {
        (lines, cur + seq![' '] + w)
    } else {
        (lines.push(cur), w)
    }
}

/// The state after adding the words `ws` in order.
pub open spec fn wrap_scan(ws: Seq<Seq<char>>, max: int) -> (Seq<Seq<char>>, Seq<char>)
    decreases ws.len(),
{
    if ws.len() == 0 {
        (Seq::empty(), Seq::empty())
    } else {
        wrap_step(wrap_scan(ws.drop_last(), max), ws.last(), max)
    }
}

/// The lines that `text` wraps to at `max` columns per line. No lines at all
/// for a zero width; a single empty line for text without words.
pub open spec fn wrap_lines(text: Seq<char>, max: int) -> Seq<Seq<char>> {
    if max == 0 {
        Seq::empty()
    } else if text.len() == 0 {
        seq![Seq::empty()]
    } else {
        let (lines, cur) = wrap_scan(words(text), max);
        let all = if cur.len() > 0 {
            lines.push(cur)
        } else {
            lines
        };
        if all.len() == 0 {
            seq![Seq::empty()]
        } else {
            all
        }
    }
}

/// Whether every long word of `text` can be cut into `max`-column pieces
/// ([`lemma_wrap_ok`]: always).
pub open spec fn wrap_ok(text: Seq<char>, max: int) -> bool {
    max == 0 || forall|i: int| 0 <= i < words(text).len() ==> chunks_ok(#[trigger] words(text)[i], max)
}

// ── Lemmas on column counts ──────────────────────────────────────────────────

pub proof fn lemma_col_len_append(a: Seq<char>, b: Seq<char>)
    ensures
        col_len(a + b) == col_len(a) + col_len(b),
    decreases b.len(),
{
    if b.len() == 0 {
        assert(a + b =~= a);
    } else {
        lemma_col_len_append(a, b.drop_last());
        assert((a + b).drop_last() =~= a + b.drop_last());
    }
}

/// A longer prefix takes strictly more columns.
pub proof fn lemma_take_grows(s: Seq<char>, i: int, j: int)
    requires
        0 <= i < j <= s.len(),
    ensures
        col_len(s.take(i)) < col_len(s.take(j)),
    decreases j - i,
{
    assert(s.take(j).drop_last() =~= s.take(j - 1));
    if i < j - 1 {
        lemma_take_grows(s, i, j - 1);
    }
}

/// Columns of the prefix one character longer.
pub proof fn lemma_take_step(s: Seq<char>, i: int)
    requires
        0 <= i < s.len(),
    ensures
        col_len(s.take(i + 1)) == col_len(s.take(i)) + col_width(s[i]),
{
    assert(s.take(i + 1).drop_last() =~= s.take(i));
}

/// One cut of a long word into a first piece of `max` columns and the rest.
pub proof fn lemma_chunk_step(t: Seq<char>, max: int)
    requires
        max > 0,
        col_len(t) > max,
        chunks_ok(t, max),
    ensures
        has_split(t, max),
        0 < split_point(t, max) <= t.len(),
        col_len(t.take(split_point(t, max))) == max,
        chunks_ok(t.skip(split_point(t, max)), max),
        chunk_scan(t, max) == (
            seq![t.take(split_point(t, max))] + chunk_scan(t.skip(split_point(t, max)), max).0,
            chunk_scan(t.skip(split_point(t, max)), max).1,
        ),
{
}


/// A sequence takes one column per character.
pub proof fn lemma_col_len(s: Seq<char>)
    ensures
        col_len(s) == s.len(),
    decreases s.len(),
{
    if s.len() > 0 {
        lemma_col_len(s.drop_last());
    }
}

/// Any word can be cut into pieces of `max` columns.
proof fn lemma_chunks_always(w: Seq<char>, max: int)
    requires
        max > 0,
    ensures
        chunks_ok(w, max),
    decreases w.len(),
{
    lemma_col_len(w);
    if col_len(w) > max {
        lemma_col_len(w.take(max));
        assert(has_split(w, max));
        let k = split_point(w, max);
        lemma_col_len(w.take(k));
        lemma_chunks_always(w.skip(k), max);
    }
}

/// Every word can be cut into pieces of `max` columns: every text wraps.
pub proof fn lemma_wrap_ok(text: Seq<char>, max: int)
    requires
        max >= 0,
    ensures
        wrap_ok(text, max),
{
    if max > 0 {
        assert forall|i: int| 0 <= i < words(text).len() implies chunks_ok(#[trigger] words(text)[i], max) by {
            lemma_chunks_always(words(text)[i], max);
        }
    }
}

// ── Laws of wrapping ─────────────────────────────────────────────────────────

/// The characters of a sequence of lines, one after another.
pub open spec fn flatten(ss: Seq<Seq<char>>) -> Seq<char>
    decreases ss.len(),
{
    if ss.len() == 0 {
        Seq::empty()
    } else {
        flatten(ss.drop_last()) + ss.last()
    }
}

/// The non-whitespace characters of `s`, in order.
pub open spec fn ink(s: Seq<char>) -> Seq<char>
    decreases s.len(),
{
    if s.len() == 0 {
        Seq::empty()
    } else if is_whitespace(s.last()) {
        ink(s.drop_last())
    } else {
        ink(s.drop_last()).push(s.last())
    }
}

/// Whether `s` holds no whitespace.
pub open spec fn solid(s: Seq<char>) -> bool {
    forall|i: int| 0 <= i < s.len() ==> !is_whitespace(#[trigger] s[i])
}

proof fn lemma_flatten_append(a: Seq<Seq<char>>, b: Seq<Seq<char>>)
    ensures
        flatten(a + b) == flatten(a) + flatten(b),
    decreases b.len(),
{
    if b.len() == 0 {
        assert(a + b =~= a);
        assert(flatten(a) + Seq::<char>::empty() =~= flatten(a));
    } else {
        lemma_flatten_append(a, b.drop_last());
        assert((a + b).drop_last() =~= a + b.drop_last());
        assert(flatten(a) + flatten(b.drop_last()) + b.last() =~= flatten(a) + (flatten(b.drop_last()) + b.last()));
    }
}

proof fn lemma_ink_append(a: Seq<char>, b: Seq<char>)
    ensures
        ink(a + b) == ink(a) + ink(b),
    decreases b.len(),
{
    if b.len() == 0 {
        assert(a + b =~= a);
        assert(ink(a) + Seq::<char>::empty() =~= ink(a));
    } else {
        lemma_ink_append(a, b.drop_last());
        assert((a + b).drop_last() =~= a + b.drop_last());
        if !is_whitespace(b.last()) {
            assert(ink(a) + ink(b.drop_last()).push(b.last()) =~= (ink(a) + ink(b.drop_last())).push(b.last()));
        }
    }
}

proof fn lemma_ink_solid(s: Seq<char>)
    requires
        solid(s),
    ensures
        ink(s) == s,
    decreases s.len(),
{
    if s.len() > 0 {
        assert(solid(s.drop_last()));
        lemma_ink_solid(s.drop_last());
        assert(s.drop_last().push(s.last()) =~= s);
    }
}

/// Scanning for words keeps the non-whitespace characters; every word is
/// solid and non-empty.
proof fn lemma_word_scan(s: Seq<char>)
    ensures
        flatten(word_scan(s).0) + word_scan(s).1 == ink(s),
        solid(word_scan(s).1),
        forall|i: int| 0 <= i < word_scan(s).0.len() ==> solid(#[trigger] word_scan(s).0[i]) && word_scan(s).0[i].len() > 0,
    decreases s.len(),
{
    if s.len() > 0 {
        lemma_word_scan(s.drop_last());
        let (d, c) = word_scan(s.drop_last());
        if is_whitespace(s.last()) {
            if c.len() > 0 {
                assert(d.push(c).drop_last() =~= d);
                assert(flatten(d.push(c)) + Seq::<char>::empty() =~= flatten(d) + c);
            }
        } else {
            assert(flatten(d) + c.push(s.last()) =~= (flatten(d) + c).push(s.last()));
        }
    }
}

proof fn lemma_words(s: Seq<char>)
    ensures
        flatten(words(s)) == ink(s),
        forall|i: int| 0 <= i < words(s).len() ==> solid(#[trigger] words(s)[i]) && words(s)[i].len() > 0,
{
    lemma_word_scan(s);
    let (d, c) = word_scan(s);
    if c.len() > 0 {
        assert(d.push(c).drop_last() =~= d);
    } else {
        assert(flatten(d) + c =~= flatten(d));
    }
}

/// Cutting a word loses nothing; full pieces have `max` columns and, when
/// every cut succeeds, the rest has at most `max` columns.
proof fn lemma_chunks(w: Seq<char>, max: int)
    requires
        max > 0,
    ensures
        flatten(chunk_scan(w, max).0) + chunk_scan(w, max).1 == w,
        forall|i: int| 0 <= i < chunk_scan(w, max).0.len() ==> col_len(#[trigger] chunk_scan(w, max).0[i]) == max,
        chunks_ok(w, max) ==> col_len(chunk_scan(w, max).1) <= max,
    decreases w.len(),
{
    if col_len(w) <= max || !has_split(w, max) {
        assert(flatten(Seq::<Seq<char>>::empty()) + w =~= w);
    } else {
        let k = split_point(w, max);
        if 0 < k {
            lemma_chunks(w.skip(k), max);
            let (p, r) = chunk_scan(w.skip(k), max);
            lemma_flatten_append(seq![w.take(k)], p);
            assert(seq![w.take(k)].drop_last() =~= Seq::<Seq<char>>::empty());
            assert(flatten(seq![w.take(k)]) == flatten(Seq::<Seq<char>>::empty()) + w.take(k));
            assert(Seq::<char>::empty() + w.take(k) =~= w.take(k));
            assert(w.take(k) + flatten(p) + r =~= w.take(k) + (flatten(p) + r));
            assert(w.take(k) + w.skip(k) =~= w);
            assert forall|i: int| 0 <= i < chunk_scan(w, max).0.len() implies col_len(#[trigger] chunk_scan(w, max).0[i]) == max by {
                if i > 0 {
                    assert(chunk_scan(w, max).0[i] == p[i - 1]);
                }
            }
        } else {
            assert(flatten(Seq::<Seq<char>>::empty()) + w =~= w);
        }
    }
}

/// What the wrapping state keeps and bounds, after any prefix of the words.
proof fn lemma_wrap_scan(ws: Seq<Seq<char>>, max: int)
    requires
        max > 0,
        forall|i: int| 0 <= i < ws.len() ==> solid(#[trigger] ws[i]),
    ensures
        ink(flatten(wrap_scan(ws, max).0)) + ink(wrap_scan(ws, max).1) == flatten(ws),
        (forall|i: int| 0 <= i < ws.len() ==> chunks_ok(#[trigger] ws[i], max)) ==> {
            &&& col_len(wrap_scan(ws, max).1) <= max
            &&& forall|i: int| 0 <= i < wrap_scan(ws, max).0.len() ==> col_len(#[trigger] wrap_scan(ws, max).0[i]) <= max
        },
    decreases ws.len(),
{
    if ws.len() == 0 {
        assert(ink(flatten(Seq::<Seq<char>>::empty())) + ink(Seq::<char>::empty()) =~= Seq::<char>::empty());
    } else {
        let pre = ws.drop_last();
        lemma_wrap_scan(pre, max);
        let (lines, cur) = wrap_scan(pre, max);
        let w = ws.last();
        assert(solid(ws[ws.len() - 1]));
        lemma_ink_solid(w);
        let all_ok = forall|i: int| 0 <= i < ws.len() ==> chunks_ok(#[trigger] ws[i], max);
        if all_ok {
            assert(forall|i: int| 0 <= i < pre.len() ==> chunks_ok(#[trigger] pre[i], max)) by {
                assert forall|i: int| 0 <= i < pre.len() implies chunks_ok(#[trigger] pre[i], max) by {
                    assert(pre[i] == ws[i]);
                }
            }
            assert(chunks_ok(ws[ws.len() - 1], max));
        }
        let prev = ink(flatten(lines)) + ink(cur);
        assert(prev == flatten(pre));
        assert(flatten(ws) == flatten(pre) + w);
        if col_len(w) > max {
            let flushed = if cur.len() > 0 { lines.push(cur) } else { lines };
            let (pieces, rest) = chunk_scan(w, max);
            lemma_chunks(w, max);
            lemma_flatten_append(flushed, pieces);
            if cur.len() > 0 {
                assert(lines.push(cur).drop_last() =~= lines);
                lemma_ink_append(flatten(lines), cur);
            } else {
                assert(cur =~= Seq::<char>::empty());
                assert(ink(flatten(lines)) + ink(cur) =~= ink(flatten(lines)));
            }
            assert(ink(flatten(flushed)) == ink(flatten(lines)) + ink(cur));
            lemma_ink_append(flatten(flushed), flatten(pieces));
            lemma_ink_append(flatten(pieces), rest);
            assert(ink(flatten(pieces)) + ink(rest) == ink(w));
            assert(ink(flatten(flushed)) + ink(flatten(pieces)) + ink(rest) =~= prev + w);
            if all_ok {
                assert forall|i: int| 0 <= i < (flushed + pieces).len() implies col_len(#[trigger] (flushed + pieces)[i]) <= max by {
                    if i < flushed.len() {
                        if i < lines.len() {
                            assert(flushed[i] == lines[i]);
                        }
                    } else {
                        assert((flushed + pieces)[i] == pieces[i - flushed.len()]);
                    }
                }
            }
        } else if cur.len() == 0 {
            assert(cur =~= Seq::<char>::empty());
            assert(ink(flatten(lines)) + ink(cur) =~= ink(flatten(lines)));
        } else if col_len(cur) + 1 + col_len(w) <= max {
            lemma_ink_append(cur + seq![' '], w);
            lemma_ink_append(cur, seq![' ']);
            assert(seq![' '].drop_last() =~= Seq::<char>::empty());
            assert(ink(seq![' ']) =~= Seq::<char>::empty());
            assert(ink(cur) + Seq::<char>::empty() =~= ink(cur));
            assert(ink(flatten(lines)) + (ink(cur) + w) =~= prev + w);
            if all_ok {
                lemma_col_len_append(cur + seq![' '], w);
                lemma_col_len_append(cur, seq![' ']);
                assert(col_len(seq![' ']) == 1);
            }
        } else {
            assert(lines.push(cur).drop_last() =~= lines);
            lemma_ink_append(flatten(lines), cur);
            if all_ok {
                assert forall|i: int| 0 <= i < lines.push(cur).len() implies col_len(#[trigger] lines.push(cur)[i]) <= max by {
                    if i < lines.len() {
                        assert(lines.push(cur)[i] == lines[i]);
                    }
                }
            }
        }
    }
}

/// Wrapping keeps every non-whitespace character of the text, in order:
/// the lines, read one after another, hold the text's words.
pub proof fn law_wrap_keeps_text(text: Seq<char>, max: int)
    requires
        max > 0,
    ensures
        ink(flatten(wrap_lines(text, max))) == ink(text),
{
    lemma_words(text);
    let ws = words(text);
    lemma_wrap_scan(ws, max);
    let (lines, cur) = wrap_scan(ws, max);
    if text.len() == 0 {
        assert(seq![Seq::<char>::empty()].drop_last() =~= Seq::<Seq<char>>::empty());
        assert(flatten(seq![Seq::<char>::empty()]) =~= Seq::<char>::empty());
    } else {
        let all = if cur.len() > 0 { lines.push(cur) } else { lines };
        if cur.len() > 0 {
            assert(lines.push(cur).drop_last() =~= lines);
            lemma_ink_append(flatten(lines), cur);
        } else {
            assert(cur =~= Seq::<char>::empty());
            assert(ink(flatten(lines)) + ink(cur) =~= ink(flatten(lines)));
        }
        if all.len() == 0 {
            assert(seq![Seq::<char>::empty()].drop_last() =~= Seq::<Seq<char>>::empty());
            assert(flatten(seq![Seq::<char>::empty()]) =~= Seq::<char>::empty());
            assert(flatten(all) =~= Seq::<char>::empty());
        }
    }
}

/// Every wrapped line fits the width: no line has more than `max`
/// characters.
pub proof fn law_wrap_fits(text: Seq<char>, max: int)
    requires
        max > 0,
    ensures
        forall|i: int| 0 <= i < wrap_lines(text, max).len() ==> (#[trigger] wrap_lines(text, max)[i]).len() <= max,
{
    lemma_wrap_ok(text, max);
    lemma_words(text);
    let ws = words(text);
    lemma_wrap_scan(ws, max);
    let (lines, cur) = wrap_scan(ws, max);
    if text.len() > 0 {
        let all = if cur.len() > 0 { lines.push(cur) } else { lines };
        assert forall|i: int| 0 <= i < all.len() implies col_len(#[trigger] all[i]) <= max by {
            if i < lines.len() {
                assert(all[i] == lines[i]);
            }
        }
    }
    assert(col_len(Seq::<char>::empty()) == 0);
    assert forall|i: int| 0 <= i < wrap_lines(text, max).len() implies (#[trigger] wrap_lines(text, max)[i]).len() <= max by {
        lemma_col_len(wrap_lines(text, max)[i]);
    }
}

// ── Executable parts ─────────────────────────────────────────────────────────

/// Columns that `c` takes.
fn char_cols(c: char) -> (n: u128)
    ensures
        n == col_width(c),
{
    1
}

/// Columns that `s[start..]` takes.
fn cols_from(s: &Vec<char>, start: usize) -> (n: u128)
    requires
        start <= s@.len(),
    ensures
        n == col_len(s@.skip(start as int)),
        n <= s@.len() - start,
{
    let ghost t = s@.skip(start as int);
    let mut n: u128 = 0;
    let mut i: usize = start;
    while i < s.len()
        invariant
            start <= i <= s@.len(),
            t == s@.skip(start as int),
            n == col_len(t.take(i - start)),
            n <= i - start,
        decreases s.len() - i,
    {
        proof {
            lemma_take_step(t, i - start);
        }
        n = n + char_cols(s[i]);
        i = i + 1;
    }
    assert(t.take(t.len() as int) =~= t);
    n
}

/// Bytes that `c` takes in UTF-8.
pub(crate) fn char_width(c: char) -> (n: u128)
    ensures
        n == utf8_width(c),
{
    let u = c as u32;
    if u < 0x80 {
        1
    } else if u < 0x800 {
        2
    } else if u < 0x10000 {
        3
    } else {
        4
    }
}

/// UTF-8 byte length of `s[start..]`.
pub(crate) fn bytes_from(s: &Vec<char>, start: usize) -> (n: u128)
    requires
        start <= s@.len(),
    ensures
        n == utf8_len(s@.skip(start as int)),
        n <= 4 * (s@.len() - start),
{
    let ghost t = s@.skip(start as int);
    let mut n: u128 = 0;
    let mut i: usize = start;
    while i < s.len()
        invariant
            start <= i <= s@.len(),
            t == s@.skip(start as int),
            n == utf8_len(t.take(i - start)),
            n <= 4 * (i - start),
        decreases s.len() - i,
    {
        proof {
            lemma_utf8_take_step(t, i - start);
        }
        n = n + char_width(s[i]);
        i = i + 1;
    }
    assert(t.take(t.len() as int) =~= t);
    n
}

/// The words of a text, as character vectors.
pub(crate) fn split_words(text: &Vec<char>) -> (ws: Vec<Vec<char>>)
    ensures
        ws.deep_view() == words(text@),
{
    let mut done: Vec<Vec<char>> = Vec::new();
    let mut cur: Vec<char> = Vec::new();
    let mut i: usize = 0;
    while i < text.len()
        invariant
            i <= text@.len(),
            (done.deep_view(), cur@) == word_scan(text@.take(i as int)),
        decreases text.len() - i,
    {
        let c = text[i];
        assert(text@.take(i + 1).drop_last() =~= text@.take(i as int));
        if char_is_whitespace(c) {
            if cur.len() > 0 {
                let ghost d0 = done.deep_view();
                let w = cur;
                done.push(w);
                cur = Vec::new();
                assert(done.deep_view() =~~= d0.push(w@));
            }
        } else {
            cur.push(c);
        }
        i = i + 1;
    }
    assert(text@.take(text@.len() as int) =~= text@);
    if cur.len() > 0 {
        let ghost d0 = done.deep_view();
        let w = cur;
        done.push(w);
        assert(done.deep_view() =~~= d0.push(w@));
    }
    done
}

/// The prefix of `t` that has exactly `max` columns, found by scanning; its
/// length is [`split_point`].
pub(crate) fn find_cut(w: &Vec<char>, start: usize, max: usize) -> (j: usize)
    requires
        max > 0,
        start <= w@.len(),
        has_split(w@.skip(start as int), max as int),
    ensures
        start <= j <= w@.len(),
        j - start == split_point(w@.skip(start as int), max as int),
{
    let ghost t = w@.skip(start as int);
    let ghost k = split_point(t, max as int);
    let n = w.len();
    let mut j: usize = start;
    let mut acc: u128 = 0;
    while acc < max as u128
        invariant
            n == w@.len(),
            start <= j <= w@.len(),
            t == w@.skip(start as int),
            t.len() == w@.len() - start,
            0 <= k <= t.len(),
            col_len(t.take(k)) == max,
            acc == col_len(t.take(j - start)),
            acc <= max,
            j - start <= k,
        decreases w@.len() - j,
    {
        proof {
            if j - start == k {
                assert(false);
            }
            lemma_take_step(t, j - start);
            if j - start + 1 < k {
                lemma_take_grows(t, j - start + 1, k);
            }
        }
        assert(j < n);
        acc = acc + char_cols(w[j]);
        j = j + 1;
    }
    proof {
        if j - start < k {
            lemma_take_grows(t, j - start, k);
        }
    }
    j
}

#[verifier::spinoff_prover]
#[verifier::rlimit(30)]
/// Cuts the long word `w[start..]` into `max`-column pieces, appending the full
/// pieces to `lines` and returning what is left.
fn cut_word(lines: &mut Vec<String>, w: &Vec<char>, start: usize, max: usize) -> (rest: Vec<char>)
    requires
        max > 0,
        start <= w@.len(),
        chunks_ok(w@.skip(start as int), max as int),
    ensures
        final(lines).deep_view() == old(lines).deep_view() + chunk_scan(w@.skip(start as int), max as int).0,
        rest@ == chunk_scan(w@.skip(start as int), max as int).1,
    decreases w@.len() - start,
{
    let ghost t = w@.skip(start as int);
    let remaining = cols_from(w, start);
    if remaining <= max as u128 {
        assert(lines.deep_view() =~= lines.deep_view() + Seq::<Seq<char>>::empty());
        assert(w@.subrange(start as int, w@.len() as int) =~= t);
        return crate::text::sub_chars(w.as_slice(), start, w.len());
    }
    proof {
        lemma_chunk_step(t, max as int);
    }
    let ghost k = split_point(t, max as int);
    let j = find_cut(w, start, max);
    let piece_chars = crate::text::sub_chars(w.as_slice(), start, j);
    assert(piece_chars@ =~= t.take(k));
    let piece = string_from_chars(piece_chars.as_slice());
    let ghost before = lines.deep_view();
    lines.push(piece);
    assert(lines.deep_view() =~= before.push(t.take(k)));
    assert(t.skip(k) =~= w@.skip(j as int));
    let ghost mid = lines.deep_view();
    let rest = cut_word(lines, w, j, max);
    proof {
        let (p2, r2) = chunk_scan(t.skip(k), max as int);
        assert(mid + p2 =~= before + (seq![t.take(k)] + p2));
    }
    rest
}

/// Adds one word to the finished lines and the current line; returns the new
/// current line.
fn add_word(lines: &mut Vec<String>, cur: Vec<char>, w: &Vec<char>, max: usize) -> (next: Vec<char>)
    requires
        max > 0,
        chunks_ok(w@, max as int),
    ensures
        (final(lines).deep_view(), next@) == wrap_step((old(lines).deep_view(), cur@), w@, max as int),
{
    let wb = cols_from(w, 0);
    let cb = cols_from(&cur, 0);
    assert(w@.skip(0) =~= w@);
    assert(cur@.skip(0) =~= cur@);
    let ghost l0 = lines.deep_view();
    if wb > max as u128 {
        if cur.len() > 0 {
            let c = string_from_chars(cur.as_slice());
            lines.push(c);
            assert(lines.deep_view() =~= l0.push(cur@));
        }
        let ghost l1 = lines.deep_view();
        let rest = cut_word(lines, w, 0, max);
        let ghost (p, r) = chunk_scan(w@, max as int);
        assert(lines.deep_view() == l1 + p);
        rest
    } else if cur.len() == 0 {
        let next = w.clone();
        assert(next@ =~= w@);
        next
    } else if cb + 1 + wb <= max as u128 {
        let mut next = cur;
        next.push(' ');
        crate::text::append_chars(&mut next, w.as_slice());
        next
    } else {
        let c = string_from_chars(cur.as_slice());
        lines.push(c);
        assert(lines.deep_view() =~= l0.push(cur@));
        let next = w.clone();
        assert(next@ =~= w@);
        next
    }
}

/// Word-wrap text to fit within `max_chars` columns (characters) per line.
///
/// Words are separated by whitespace and joined back with single spaces. A
/// word longer than a line is cut into pieces of exactly `max_chars`
/// characters.
pub fn wrap_text(text: &str, max_chars: usize) -> (lines: Vec<String>)
    ensures
        lines.deep_view() == wrap_lines(text@, max_chars as int),
{
    proof {
        lemma_wrap_ok(text@, max_chars as int);
    }
    if max_chars == 0 {
        let r: Vec<String> = Vec::new();
        assert(r.deep_view() =~= wrap_lines(text@, max_chars as int));
        return r;
    }
    let chars = chars_of(text);
    if chars.len() == 0 {
        let mut r: Vec<String> = Vec::new();
        r.push(String::new());
        assert(r.deep_view() =~= wrap_lines(text@, max_chars as int));
        return r;
    }
    let ws = split_words(&chars);
    let ghost wv = ws.deep_view();
    let mut lines: Vec<String> = Vec::new();
    let mut cur: Vec<char> = Vec::new();
    let mut i: usize = 0;
    assert(lines.deep_view() =~= Seq::<Seq<char>>::empty());
    assert(wv.take(0) =~= Seq::<Seq<char>>::empty());
    while i < ws.len()
        invariant
            max_chars > 0,
            wv == ws.deep_view(),
            wv == words(text@),
            wrap_ok(text@, max_chars as int),
            i <= ws@.len(),
            (lines.deep_view(), cur@) == wrap_scan(wv.take(i as int), max_chars as int),
        decreases ws.len() - i,
    {
        assert(ws[i as int]@ == wv[i as int]);
        assert(wv.take(i + 1).drop_last() =~= wv.take(i as int));
        assert(chunks_ok(wv[i as int], max_chars as int));
        cur = add_word(&mut lines, cur, &ws[i], max_chars);
        i = i + 1;
    }
    assert(wv.take(wv.len() as int) =~= wv);
    if cur.len() > 0 {
        let ghost l0 = lines.deep_view();
        let c = string_from_chars(cur.as_slice());
        lines.push(c);
        assert(lines.deep_view() =~= l0.push(cur@));
    }
    if lines.len() == 0 {
        lines.push(String::new());
        assert(lines.deep_view() =~= seq![Seq::<char>::empty()]);
    }
    lines
}

} // verus!
