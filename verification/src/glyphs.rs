//! Drawing characters and strings with the bitmap font.
use vstd::prelude::*;
use crate::render::{PixelBuffer, in_box, bit_at, lemma_within_widen};
use crate::font::{glyph, glyph_on, FontSize, CELL_WIDTH, GLYPH_HEIGHT, GLYPH_WIDTH};
use crate::draw::fill_rect_xy;
use crate::text::chars_of;

verus! {

/// Whether pixel (px, py) is ink of the glyph for `c` drawn with its top-left
/// corner at (x, y), each base pixel a `s`×`s` block. With `invert` the
/// glyph's background blocks are the ink instead.
pub open spec fn glyph_ink(c: char, x: int, y: int, s: int, invert: bool, px: int, py: int) -> bool {
    &&& in_box(px, py, x, y, 5 * s, 7 * s)
    &&& glyph_on(c, (px - x) / s, (py - y) / s) != invert
}

/// Whether pixel (px, py) is ink of the first `n` characters of `t` drawn
/// from (x, y), one glyph every `cw` pixels.
pub open spec fn text_ink(t: Seq<char>, n: int, x: int, y: int, s: int, cw: int, invert: bool, px: int, py: int) -> bool {
    &&& x <= px
    &&& (px - x) / cw < n
    &&& glyph_ink(t[(px - x) / cw], x + ((px - x) / cw) * cw, y, s, invert, px, py)
}

/// The number of characters of a `len`-character text that fit in `max_width`
/// pixels at `cw` pixels each.
pub open spec fn fitting(len: int, max_width: int, cw: int) -> int {
    if len < (max_width as int) / cw { len } else { (max_width as int) / cw }
}

/// The block (k-th of size `s` from `origin`) holding `p` is `k`.
proof fn lemma_block(p: int, origin: int, k: int, s: int)
    requires
        s > 0,
        k >= 0,
        origin + k * s <= p < origin + k * s + s,
    ensures
        (p - origin) / s == k,
{
    vstd::arithmetic::div_mod::lemma_fundamental_div_mod_converse(p - origin, s, k, p - origin - k * s);
}

/// Blocks past the first `k` lie beyond `origin + k * s`.
proof fn lemma_block_bound(p: int, origin: int, k: int, s: int)
    requires
        s > 0,
        origin <= p,
        (p - origin) / s < k,
    ensures
        p < origin + k * s,
{
    vstd::arithmetic::div_mod::lemma_fundamental_div_mod(p - origin, s);
    let q = (p - origin) / s;
    assert(q * s + s <= k * s) by (nonlinear_arith)
        requires q < k, s > 0;
    assert((p - origin) % s < s);
}

/// Draw a single glyph at (x, y) with the base font, painting its whole 5×7
/// box: ink black and background white, or the reverse with `invert`.
pub fn draw_glyph(buf: &mut PixelBuffer, x: u32, y: u32, ch: char, invert: bool)
    requires
        old(buf).wf(),
        x + GLYPH_WIDTH <= u32::MAX + 1,
        y + GLYPH_HEIGHT <= u32::MAX + 1,
    ensures
        final(buf).same_frame(old(buf)),
        forall|px: int, py: int| #[trigger] final(buf).in_bounds(px, py) ==> final(buf).black_at(px, py) == if in_box(px, py, x as int, y as int, 5, 7) {
            glyph_on(ch, px - x, py - y) != invert
        } else {
            old(buf).black_at(px, py)
        },
        final(buf).drawn_within(old(buf), x as int, y as int, 5, 7),
{
    let ghost b0 = *buf;
    let g = glyph(ch);
    let mut row: u32 = 0;
    while row < GLYPH_HEIGHT
        invariant
            row <= 7,
            x + 5 <= u32::MAX + 1,
            y + 7 <= u32::MAX + 1,
            forall|r: int| 0 <= r < 7 ==> #[trigger] g@[r] == crate::font::glyph_row(ch, r),
            buf.same_frame(&b0),
            forall|px: int, py: int| #[trigger] buf.in_bounds(px, py) ==> buf.black_at(px, py) == if in_box(px, py, x as int, y as int, 5, row as int) {
                glyph_on(ch, px - x, py - y) != invert
            } else {
                b0.black_at(px, py)
            },
        decreases 7 - row,
    {
        let bits = g[row as usize];
        let mut col: u32 = 0;
        while col < GLYPH_WIDTH
            invariant
                row < 7,
                col <= 5,
                x + 5 <= u32::MAX + 1,
                y + 7 <= u32::MAX + 1,
                bits == crate::font::glyph_row(ch, row as int),
                buf.same_frame(&b0),
                forall|px: int, py: int| #[trigger] buf.in_bounds(px, py) ==> buf.black_at(px, py) == if in_box(px, py, x as int, y as int, 5, row as int) || (py == y + row && x <= px < x + col) {
                    glyph_on(ch, px - x, py - y) != invert
                } else {
                    b0.black_at(px, py)
                },
            decreases 5 - col,
        {
            let pos: u8 = col as u8;
            let pixel_on = (bits >> (7 - pos)) & 1u8 == 1u8;
            assert(pixel_on == bit_at(bits, pos));
            let draw_black = if invert { !pixel_on } else { pixel_on };
            let ghost before = *buf;
            buf.set_pixel(x + col, y + row, draw_black);
            proof {
                assert forall|px: int, py: int| #[trigger] buf.in_bounds(px, py) implies buf.black_at(px, py) == if in_box(px, py, x as int, y as int, 5, row as int) || (py == y + row && x <= px < x + col + 1) {
                    glyph_on(ch, px - x, py - y) != invert
                } else {
                    b0.black_at(px, py)
                } by {
                    assert(before.in_bounds(px, py));
                }
            }
            col = col + 1;
        }
        row = row + 1;
    }
}

/// Draw a string with the base font, one glyph every [`CELL_WIDTH`] pixels,
/// as many characters as fit in `max_width`. Returns the number drawn.
pub fn draw_text(buf: &mut PixelBuffer, x: u32, y: u32, text: &str, max_width: u32, invert: bool) -> (drawn: usize)
    requires
        old(buf).wf(),
        x + max_width <= u32::MAX + 1,
        y + GLYPH_HEIGHT <= u32::MAX + 1,
    ensures
        drawn == fitting(text@.len() as int, max_width as int, 6),
        final(buf).same_frame(old(buf)),
        forall|px: int, py: int| #[trigger] final(buf).in_bounds(px, py) ==> final(buf).black_at(px, py) == if x <= px && (px - x) / 6 < drawn && in_box(px, py, x + ((px - x) / 6) * 6, y as int, 5, 7) {
            glyph_on(text@[(px - x) / 6], px - x - ((px - x) / 6) * 6, py - y) != invert
        } else {
            old(buf).black_at(px, py)
        },
        final(buf).drawn_within(old(buf), x as int, y as int, max_width as int, 7),
{
    let ghost b0 = *buf;
    let max_chars: usize = (max_width / CELL_WIDTH) as usize;
    let chars = chars_of(text);
    let n: usize = if chars.len() < max_chars { chars.len() } else { max_chars };
    let mut drawn: usize = 0;
    while drawn < n
        invariant
            n == fitting(text@.len() as int, max_width as int, 6),
            chars@ == text@,
            drawn <= n,
            n <= max_width / 6,
            x + max_width <= u32::MAX + 1,
            y + 7 <= u32::MAX + 1,
            buf.same_frame(&b0),
            forall|px: int, py: int| #[trigger] buf.in_bounds(px, py) ==> buf.black_at(px, py) == if x <= px && (px - x) / 6 < drawn && in_box(px, py, x + ((px - x) / 6) * 6, y as int, 5, 7) {
                glyph_on(text@[(px - x) / 6], px - x - ((px - x) / 6) * 6, py - y) != invert
            } else {
                b0.black_at(px, py)
            },
        decreases n - drawn,
    {
        assert(drawn * 6 + 6 <= max_width) by (nonlinear_arith)
            requires drawn < n, n <= max_width / 6;
        let gx: u32 = x + drawn as u32 * CELL_WIDTH;
        let ghost before = *buf;
        draw_glyph(buf, gx, y, chars[drawn], invert);
        proof {
            assert forall|px: int, py: int| #[trigger] buf.in_bounds(px, py) implies buf.black_at(px, py) == if x <= px && (px - x) / 6 < drawn + 1 && in_box(px, py, x + ((px - x) / 6) * 6, y as int, 5, 7) {
                glyph_on(text@[(px - x) / 6], px - x - ((px - x) / 6) * 6, py - y) != invert
            } else {
                b0.black_at(px, py)
            } by {
                assert(before.in_bounds(px, py));
                if in_box(px, py, gx as int, y as int, 5, 7) {
                    lemma_block(px, x as int, drawn as int, 6);
                } else if x <= px && (px - x) / 6 == drawn {
                    assert(!in_box(px, py, x + ((px - x) / 6) * 6, y as int, 5, 7));
                }
            }
        }
        drawn = drawn + 1;
    }
    proof {
        assert forall|px: int, py: int| #[trigger] buf.in_bounds(px, py) && !in_box(px, py, x as int, y as int, max_width as int, 7) implies buf.black_at(px, py) == b0.black_at(px, py) by {
            if x <= px && (px - x) / 6 < drawn && in_box(px, py, x + ((px - x) / 6) * 6, y as int, 5, 7) {
                let q = (px - x) / 6;
                assert(q * 6 + 6 <= max_width) by (nonlinear_arith)
                    requires q < n, n <= max_width / 6;
            }
        }
    }
    drawn
}

#[verifier::spinoff_prover]
/// Draw a scaled glyph at (x, y): each ink pixel of the base glyph becomes a
/// scale×scale black block. Nothing is painted white.
pub fn draw_glyph_scaled(buf: &mut PixelBuffer, x: u32, y: u32, ch: char, size: FontSize, invert: bool)
    requires
        old(buf).wf(),
        x + size.glyph_w() <= u32::MAX + 1,
        y + size.glyph_h() <= u32::MAX + 1,
    ensures
        final(buf).same_frame(old(buf)),
        forall|px: int, py: int| #[trigger] final(buf).in_bounds(px, py) ==> final(buf).black_at(px, py) == (old(buf).black_at(px, py) || glyph_ink(ch, x as int, y as int, size.scale() as int, invert, px, py)),
        final(buf).drawn_within(old(buf), x as int, y as int, size.glyph_w() as int, size.glyph_h() as int),
        final(buf).darkens(old(buf)),
{
    let ghost b0 = *buf;
    let scale = size.scale();
    let g = glyph(ch);
    let ghost s = scale as int;
    let mut row: u32 = 0;
    while row < GLYPH_HEIGHT
        invariant
            row <= 7,
            s == scale,
            2 <= scale <= 14,
            x + 5 * s <= u32::MAX + 1,
            y + 7 * s <= u32::MAX + 1,
            forall|r: int| 0 <= r < 7 ==> #[trigger] g@[r] == crate::font::glyph_row(ch, r),
            buf.same_frame(&b0),
            forall|px: int, py: int| #[trigger] buf.in_bounds(px, py) ==> buf.black_at(px, py) == (b0.black_at(px, py) || (glyph_ink(ch, x as int, y as int, s, invert, px, py) && (py - y) / s < row)),
        decreases 7 - row,
    {
        let bits = g[row as usize];
        let mut col: u32 = 0;
        while col < GLYPH_WIDTH
            invariant
                row < 7,
                col <= 5,
                s == scale,
                2 <= scale <= 14,
                x + 5 * s <= u32::MAX + 1,
                y + 7 * s <= u32::MAX + 1,
                bits == crate::font::glyph_row(ch, row as int),
                buf.same_frame(&b0),
                forall|px: int, py: int| #[trigger] buf.in_bounds(px, py) ==> buf.black_at(px, py) == (b0.black_at(px, py) || (glyph_ink(ch, x as int, y as int, s, invert, px, py) && ((py - y) / s < row || ((py - y) / s == row && (px - x) / s < col)))),
            decreases 5 - col,
        {
            let pos: u8 = col as u8;
            let pixel_on = (bits >> (7 - pos)) & 1u8 == 1u8;
            assert(pixel_on == bit_at(bits, pos));
            let draw_black = if invert { !pixel_on } else { pixel_on };
            assert(col * s + s <= 5 * s && row * s + s <= 7 * s) by (nonlinear_arith)
                requires col < 5, row < 7, s >= 0;
            assert(col * scale <= 4 * s) by (nonlinear_arith)
                requires col < 5, s == scale, s >= 0;
            let ghost before = *buf;
            if draw_black {
                let bx = x + col * scale;
                let by = y + row * scale;
                fill_rect_xy(buf, bx, by, scale, scale, true);
            }
            proof {
                assert forall|px: int, py: int| #[trigger] buf.in_bounds(px, py) implies buf.black_at(px, py) == (b0.black_at(px, py) || (glyph_ink(ch, x as int, y as int, s, invert, px, py) && ((py - y) / s < row || ((py - y) / s == row && (px - x) / s < col + 1)))) by {
                    assert(before.in_bounds(px, py));
                    lemma_glyph_block(px, py, x as int, y as int, s, col as int, row as int);
                }
            }
            col = col + 1;
        }
        proof {
            assert forall|px: int, py: int| #[trigger] buf.in_bounds(px, py) implies buf.black_at(px, py) == (b0.black_at(px, py) || (glyph_ink(ch, x as int, y as int, s, invert, px, py) && (py - y) / s < row + 1)) by {
                lemma_glyph_block(px, py, x as int, y as int, s, 0, 0);
            }
        }
        row = row + 1;
    }
    proof {
        assert forall|px: int, py: int| #[trigger] buf.in_bounds(px, py) implies buf.black_at(px, py) == (b0.black_at(px, py) || glyph_ink(ch, x as int, y as int, s, invert, px, py)) by {
            lemma_glyph_block(px, py, x as int, y as int, s, 0, 0);
        }
    }
}


/// Ink of the text lies in the box of the characters drawn.
proof fn lemma_text_ink_box(t: Seq<char>, n: int, x: int, y: int, s: int, cw: int, invert: bool, px: int, py: int)
    requires
        s > 0,
        cw > 0,
        text_ink(t, n, x, y, s, cw, invert, px, py),
    ensures
        in_box(px, py, x, y, n * cw, 7 * s),
{
    lemma_block_bound(px, x, n, cw);
}

/// Draw a string at (x, y) in the given size, clipped to the characters that
/// fit in `max_width`. Returns the pixel width consumed.
pub fn draw_text_scaled(
    buf: &mut PixelBuffer,
    x: u32,
    y: u32,
    text: &str,
    size: FontSize,
    invert: bool,
    max_width: u32,
) -> (width: u32)
    requires
        old(buf).wf(),
        x + max_width + size.glyph_w() <= u32::MAX + 1,
        y + size.glyph_h() <= u32::MAX + 1,
    ensures
        width == fitting(text@.len() as int, max_width as int, size.cell_w() as int) * size.cell_w(),
        width <= max_width,
        final(buf).same_frame(old(buf)),
        final(buf).darkens(old(buf)),
        final(buf).drawn_within(old(buf), x as int, y as int, width as int, size.glyph_h() as int),
        forall|px: int, py: int| #[trigger] final(buf).in_bounds(px, py) ==> final(buf).black_at(px, py) == (old(buf).black_at(px, py) || text_ink(text@, fitting(text@.len() as int, max_width as int, size.cell_w() as int), x as int, y as int, size.scale() as int, size.cell_w() as int, invert, px, py)),
{
    let ghost b0 = *buf;
    let cell_w = size.cell_w();
    if cell_w == 0 {
        return 0;
    }
    let ghost s = size.scale() as int;
    let ghost cw = cell_w as int;
    let max_chars: usize = (max_width / cell_w) as usize;
    let chars = chars_of(text);
    let n: usize = if chars.len() < max_chars { chars.len() } else { max_chars };
    let ghost t = text@;
    let mut i: usize = 0;
    let mut cursor: u32 = 0;
    while i < n
        invariant
            n == fitting(t.len() as int, max_width as int, cw),
            chars@ == t,
            t == text@,
            i <= n,
            n <= (max_width as int) / cw,
            cw == cell_w,
            cw == size.cell_w(),
            s == size.scale(),
            cursor == i * cw,
            cw > 0,
            x + max_width + size.glyph_w() <= u32::MAX + 1,
            y + size.glyph_h() <= u32::MAX + 1,
            buf.same_frame(&b0),
            forall|px: int, py: int| #[trigger] buf.in_bounds(px, py) ==> buf.black_at(px, py) == (b0.black_at(px, py) || text_ink(t, i as int, x as int, y as int, s, cw, invert, px, py)),
        decreases n - i,
    {
        assert(i * cw + cw <= max_width) by (nonlinear_arith)
            requires i < n, n <= (max_width as int) / cw, cw > 0;
        let ghost before = *buf;
        let gx = x + cursor;
        draw_glyph_scaled(buf, gx, y, chars[i], size, invert);
        proof {
            assert forall|px: int, py: int| #[trigger] buf.in_bounds(px, py) implies buf.black_at(px, py) == (b0.black_at(px, py) || text_ink(t, i + 1, x as int, y as int, s, cw, invert, px, py)) by {
                assert(before.in_bounds(px, py));
                if glyph_ink(chars@[i as int], gx as int, y as int, s, invert, px, py) {
                    lemma_block(px, x as int, i as int, cw);
                }
            }
        }
        assert((i + 1) * cw == i * cw + cw) by (nonlinear_arith);
        cursor = cursor + cell_w;
        i = i + 1;
    }
    proof {
        assert(n * cw <= max_width) by (nonlinear_arith)
            requires n <= (max_width as int) / cw, cw > 0;
        assert forall|px: int, py: int| #[trigger] buf.in_bounds(px, py) && !in_box(px, py, x as int, y as int, cursor as int, size.glyph_h() as int) implies buf.black_at(px, py) == b0.black_at(px, py) by {
            if text_ink(t, n as int, x as int, y as int, s, cw, invert, px, py) {
                lemma_text_ink_box(t, n as int, x as int, y as int, s, cw, invert, px, py);
            }
        }
    }
    cursor
}

/// Text that fits its width is drawn whole.
proof fn lemma_fits(len: int, width: int, cw: int)
    requires
        cw > 0,
        len >= 0,
        width >= 0,
    ensures
        len * cw <= width ==> fitting(len, width, cw) == len,
        fitting(len, width, cw) * cw <= width,
{
    vstd::arithmetic::div_mod::lemma_fundamental_div_mod(width, cw);
    vstd::arithmetic::div_mod::lemma_mod_pos_bound(width, cw);
    let q = width / cw;
    assert(q * cw == cw * q) by (nonlinear_arith);
    if len * cw <= width && len > q {
        assert(len * cw >= (q + 1) * cw) by (nonlinear_arith)
            requires len >= q + 1, cw > 0;
        assert((q + 1) * cw == cw * q + cw) by (nonlinear_arith);
    }
    if len < q {
        assert(len * cw <= q * cw) by (nonlinear_arith)
            requires len <= q, cw > 0;
    }
}

/// Where right-aligned text of `len` characters starts in the region
/// [region_x, region_x + width): flush right when it fits, else at the left.
pub open spec fn right_start(region_x: int, width: int, len: int, cw: int) -> int {
    if len * cw <= width { region_x + width - len * cw } else { region_x }
}

/// Where centred text of `len` characters starts in the region.
pub open spec fn centered_start(region_x: int, width: int, len: int, cw: int) -> int {
    if len * cw <= width { region_x + (width - len * cw) / 2 } else { region_x }
}

/// Draw a right-aligned string within the region [region_x, region_x + width).
#[verifier::spinoff_prover]
pub fn draw_text_right(
    buf: &mut PixelBuffer,
    region_x: u32,
    y: u32,
    text: &str,
    size: FontSize,
    width: u32,
    invert: bool,
)
    requires
        old(buf).wf(),
        text@.len() * size.cell_w() <= u32::MAX,
        region_x + width + width + size.glyph_w() <= u32::MAX + 1,
        y + size.glyph_h() <= u32::MAX + 1,
    ensures
        final(buf).same_frame(old(buf)),
        final(buf).darkens(old(buf)),
        final(buf).drawn_within(old(buf), region_x as int, y as int, width as int, size.glyph_h() as int),
        forall|px: int, py: int| #[trigger] final(buf).in_bounds(px, py) ==> final(buf).black_at(px, py) == (old(buf).black_at(px, py) || text_ink(text@, fitting(text@.len() as int, width as int, size.cell_w() as int), right_start(region_x as int, width as int, text@.len() as int, size.cell_w() as int), y as int, size.scale() as int, size.cell_w() as int, invert, px, py)),
{
    let cell_w = size.cell_w();
    let count: usize = text.unicode_len();
    proof {
        lemma_fits(text@.len() as int, width as int, cell_w as int);
        assert(count <= count * cell_w) by (nonlinear_arith)
            requires cell_w >= 1;
    }
    let total_px: u32 = count as u32 * cell_w;
    assert(total_px == text@.len() * cell_w);
    let start_x = if total_px <= width { region_x + width - total_px } else { region_x };
    let ghost b0 = *buf;
    let drawn = draw_text_scaled(buf, start_x, y, text, size, invert, width);
    proof {
        if total_px <= width {
            assert(drawn == total_px);
        }
        lemma_within_widen(&b0, buf, start_x as int, y as int, drawn as int, size.glyph_h() as int, region_x as int, y as int, width as int, size.glyph_h() as int);
    }
}

/// Draw a centred string within the region [region_x, region_x + width).
#[verifier::spinoff_prover]
pub fn draw_text_centered(
    buf: &mut PixelBuffer,
    region_x: u32,
    y: u32,
    text: &str,
    size: FontSize,
    width: u32,
    invert: bool,
)
    requires
        old(buf).wf(),
        text@.len() * size.cell_w() <= u32::MAX,
        region_x + width + width + size.glyph_w() <= u32::MAX + 1,
        y + size.glyph_h() <= u32::MAX + 1,
    ensures
        final(buf).same_frame(old(buf)),
        final(buf).darkens(old(buf)),
        final(buf).drawn_within(old(buf), region_x as int, y as int, width as int, size.glyph_h() as int),
        forall|px: int, py: int| #[trigger] final(buf).in_bounds(px, py) ==> final(buf).black_at(px, py) == (old(buf).black_at(px, py) || text_ink(text@, fitting(text@.len() as int, width as int, size.cell_w() as int), centered_start(region_x as int, width as int, text@.len() as int, size.cell_w() as int), y as int, size.scale() as int, size.cell_w() as int, invert, px, py)),
{
    let cell_w = size.cell_w();
    let count: usize = text.unicode_len();
    proof {
        lemma_fits(text@.len() as int, width as int, cell_w as int);
        assert(count <= count * cell_w) by (nonlinear_arith)
            requires cell_w >= 1;
    }
    let total_px: u32 = count as u32 * cell_w;
    assert(total_px == text@.len() * cell_w);
    let start_x = if total_px <= width { region_x + (width - total_px) / 2 } else { region_x };
    let ghost b0 = *buf;
    let drawn = draw_text_scaled(buf, start_x, y, text, size, invert, width);
    proof {
        if total_px <= width {
            assert(drawn == total_px);
        }
        lemma_within_widen(&b0, buf, start_x as int, y as int, drawn as int, size.glyph_h() as int, region_x as int, y as int, width as int, size.glyph_h() as int);
    }
}

/// Clear a scaled glyph at (x, y): each ink pixel of the base glyph becomes
/// a scale×scale white block, so the glyph shows white on what was there.
#[verifier::spinoff_prover]
fn clear_glyph_scaled(buf: &mut PixelBuffer, x: u32, y: u32, ch: char, size: FontSize)
    requires
        old(buf).wf(),
        x + size.glyph_w() <= u32::MAX + 1,
        y + size.glyph_h() <= u32::MAX + 1,
    ensures
        final(buf).same_frame(old(buf)),
        forall|px: int, py: int| #[trigger] final(buf).in_bounds(px, py) ==> final(buf).black_at(px, py) == (old(buf).black_at(px, py) && !glyph_ink(ch, x as int, y as int, size.scale() as int, false, px, py)),
{
    let ghost b0 = *buf;
    let scale = size.scale();
    let g = glyph(ch);
    let ghost s = scale as int;
    let mut row: u32 = 0;
    while row < GLYPH_HEIGHT
        invariant
            row <= 7,
            s == scale,
            2 <= scale <= 14,
            x + 5 * s <= u32::MAX + 1,
            y + 7 * s <= u32::MAX + 1,
            forall|r: int| 0 <= r < 7 ==> #[trigger] g@[r] == crate::font::glyph_row(ch, r),
            buf.same_frame(&b0),
            forall|px: int, py: int| #[trigger] buf.in_bounds(px, py) ==> buf.black_at(px, py) == (b0.black_at(px, py) && !(glyph_ink(ch, x as int, y as int, s, false, px, py) && (py - y) / s < row)),
        decreases 7 - row,
    {
        let bits = g[row as usize];
        let mut col: u32 = 0;
        while col < GLYPH_WIDTH
            invariant
                row < 7,
                col <= 5,
                s == scale,
                2 <= scale <= 14,
                x + 5 * s <= u32::MAX + 1,
                y + 7 * s <= u32::MAX + 1,
                bits == crate::font::glyph_row(ch, row as int),
                buf.same_frame(&b0),
                forall|px: int, py: int| #[trigger] buf.in_bounds(px, py) ==> buf.black_at(px, py) == (b0.black_at(px, py) && !(glyph_ink(ch, x as int, y as int, s, false, px, py) && ((py - y) / s < row || ((py - y) / s == row && (px - x) / s < col)))),
            decreases 5 - col,
        {
            let pos: u8 = col as u8;
            let pixel_on = (bits >> (7 - pos)) & 1u8 == 1u8;
            assert(pixel_on == bit_at(bits, pos));
            assert(col * s + s <= 5 * s && row * s + s <= 7 * s) by (nonlinear_arith)
                requires col < 5, row < 7, s >= 0;
            assert(col * scale <= 4 * s) by (nonlinear_arith)
                requires col < 5, s == scale, s >= 0;
            let ghost before = *buf;
            if pixel_on {
                let bx = x + col * scale;
                let by = y + row * scale;
                fill_rect_xy(buf, bx, by, scale, scale, false);
            }
            proof {
                assert forall|px: int, py: int| #[trigger] buf.in_bounds(px, py) implies buf.black_at(px, py) == (b0.black_at(px, py) && !(glyph_ink(ch, x as int, y as int, s, false, px, py) && ((py - y) / s < row || ((py - y) / s == row && (px - x) / s < col + 1)))) by {
                    assert(before.in_bounds(px, py));
                    lemma_glyph_block(px, py, x as int, y as int, s, col as int, row as int);
                }
            }
            col = col + 1;
        }
        proof {
            assert forall|px: int, py: int| #[trigger] buf.in_bounds(px, py) implies buf.black_at(px, py) == (b0.black_at(px, py) && !(glyph_ink(ch, x as int, y as int, s, false, px, py) && (py - y) / s < row + 1)) by {
                lemma_glyph_block(px, py, x as int, y as int, s, 0, 0);
            }
        }
        row = row + 1;
    }
    proof {
        assert forall|px: int, py: int| #[trigger] buf.in_bounds(px, py) implies buf.black_at(px, py) == (b0.black_at(px, py) && !glyph_ink(ch, x as int, y as int, s, false, px, py)) by {
            lemma_glyph_block(px, py, x as int, y as int, s, 0, 0);
        }
    }
}

/// Show a string in white, centred within [region_x, region_x + width), on
/// whatever is drawn there: the ink pixels of its glyphs are cleared, every
/// other pixel is kept. As many characters as fit in `width` are shown.
#[verifier::spinoff_prover]
pub fn clear_text_centered(buf: &mut PixelBuffer, region_x: u32, y: u32, text: &str, size: FontSize, width: u32)
    requires
        old(buf).wf(),
        text@.len() * size.cell_w() <= u32::MAX,
        region_x + width + width + size.glyph_w() <= u32::MAX + 1,
        y + size.glyph_h() <= u32::MAX + 1,
    ensures
        final(buf).same_frame(old(buf)),
        final(buf).drawn_within(old(buf), region_x as int, y as int, width as int, size.glyph_h() as int),
        forall|px: int, py: int| #[trigger] final(buf).in_bounds(px, py) ==> final(buf).black_at(px, py) == (old(buf).black_at(px, py) && !text_ink(text@, fitting(text@.len() as int, width as int, size.cell_w() as int), centered_start(region_x as int, width as int, text@.len() as int, size.cell_w() as int), y as int, size.scale() as int, size.cell_w() as int, false, px, py)),
{
    let ghost b0 = *buf;
    let cell_w = size.cell_w();
    let count: usize = text.unicode_len();
    proof {
        lemma_fits(text@.len() as int, width as int, cell_w as int);
        assert(count <= count * cell_w) by (nonlinear_arith)
            requires cell_w >= 1;
    }
    let total_px: u32 = count as u32 * cell_w;
    assert(total_px == text@.len() * cell_w);
    let x = if total_px <= width { region_x + (width - total_px) / 2 } else { region_x };
    let ghost s = size.scale() as int;
    let ghost cw = cell_w as int;
    let max_chars: usize = (width / cell_w) as usize;
    let chars = chars_of(text);
    let n: usize = if chars.len() < max_chars { chars.len() } else { max_chars };
    let ghost t = text@;
    proof {
        if total_px <= width {
            assert(x + total_px <= region_x + width);
        }
    }
    let mut i: usize = 0;
    let mut cursor: u32 = 0;
    while i < n
        invariant
            n == fitting(t.len() as int, width as int, cw),
            chars@ == t,
            t == text@,
            i <= n,
            n <= (width as int) / cw,
            cw == cell_w,
            cw == size.cell_w(),
            s == size.scale(),
            cursor == i * cw,
            cw > 0,
            x == centered_start(region_x as int, width as int, t.len() as int, cw),
            region_x <= x,
            n * cw + x <= region_x + width,
            region_x + width + width + size.glyph_w() <= u32::MAX + 1,
            y + size.glyph_h() <= u32::MAX + 1,
            buf.same_frame(&b0),
            forall|px: int, py: int| #[trigger] buf.in_bounds(px, py) ==> buf.black_at(px, py) == (b0.black_at(px, py) && !text_ink(t, i as int, x as int, y as int, s, cw, false, px, py)),
        decreases n - i,
    {
        assert(i * cw + cw <= n * cw) by (nonlinear_arith)
            requires i < n, cw > 0;
        let ghost before = *buf;
        let gx = x + cursor;
        clear_glyph_scaled(buf, gx, y, chars[i], size);
        proof {
            assert forall|px: int, py: int| #[trigger] buf.in_bounds(px, py) implies buf.black_at(px, py) == (b0.black_at(px, py) && !text_ink(t, i + 1, x as int, y as int, s, cw, false, px, py)) by {
                assert(before.in_bounds(px, py));
                if glyph_ink(chars@[i as int], gx as int, y as int, s, false, px, py) {
                    lemma_block(px, x as int, i as int, cw);
                }
            }
        }
        assert((i + 1) * cw == i * cw + cw) by (nonlinear_arith);
        cursor = cursor + cell_w;
        i = i + 1;
    }
    proof {
        assert forall|px: int, py: int| #[trigger] buf.in_bounds(px, py) && !in_box(px, py, region_x as int, y as int, width as int, size.glyph_h() as int) implies buf.black_at(px, py) == b0.black_at(px, py) by {
            if text_ink(t, n as int, x as int, y as int, s, cw, false, px, py) {
                lemma_text_ink_box(t, n as int, x as int, y as int, s, cw, false, px, py);
            }
        }
    }
}

/// A value below `k` blocks of size `s` lies in one of the first `k` blocks.
proof fn lemma_block_div_lt(v: int, s: int, k: int)
    requires
        s > 0,
        0 <= v < k * s,
    ensures
        v / s < k,
{
    vstd::arithmetic::div_mod::lemma_fundamental_div_mod(v, s);
    vstd::arithmetic::div_mod::lemma_mod_pos_bound(v, s);
    let q = v / s;
    if q >= k {
        assert(s * q >= s * k) by (nonlinear_arith)
            requires q >= k, s > 0;
        assert(k * s == s * k) by (nonlinear_arith);
    }
}

/// Where a pixel falls among the `s`×`s` blocks of a scaled glyph.
proof fn lemma_glyph_block(px: int, py: int, x: int, y: int, s: int, col: int, row: int)
    requires
        s > 0,
        0 <= col < 5,
        0 <= row < 7,
    ensures
        in_box(px, py, x + col * s, y + row * s, s, s) ==> (px - x) / s == col && (py - y) / s == row && in_box(px, py, x, y, 5 * s, 7 * s),
        in_box(px, py, x, y, 5 * s, 7 * s) && (py - y) / s == row && (px - x) / s == col ==> in_box(px, py, x + col * s, y + row * s, s, s),
        in_box(px, py, x, y, 5 * s, 7 * s) ==> 0 <= (px - x) / s < 5 && 0 <= (py - y) / s < 7,
{
    assert(col * s + s <= 5 * s && row * s + s <= 7 * s) by (nonlinear_arith)
        requires col < 5, row < 7, s >= 0;
    if in_box(px, py, x + col * s, y + row * s, s, s) {
        lemma_block(px, x, col, s);
        lemma_block(py, y, row, s);
    }
    if in_box(px, py, x, y, 5 * s, 7 * s) {
        vstd::arithmetic::div_mod::lemma_fundamental_div_mod(px - x, s);
        vstd::arithmetic::div_mod::lemma_fundamental_div_mod(py - y, s);
        vstd::arithmetic::div_mod::lemma_mod_pos_bound(px - x, s);
        vstd::arithmetic::div_mod::lemma_mod_pos_bound(py - y, s);
        lemma_block_div_lt(px - x, s, 5);
        lemma_block_div_lt(py - y, s, 7);
        vstd::arithmetic::div_mod::lemma_div_pos_is_pos(px - x, s);
        vstd::arithmetic::div_mod::lemma_div_pos_is_pos(py - y, s);
        if (py - y) / s == row && (px - x) / s == col {
            assert(s * col == col * s && s * row == row * s) by (nonlinear_arith);
        }
    }
}

} // verus!
