//! The grid layout: text panels tiled over the screen, each with a border,
//! an inverted title bar and word-wrapped rows.
use vstd::prelude::*;
use crate::render::{PixelBuffer, in_box, lemma_within_trans, lemma_within_widen};
use crate::draw::{Rect, draw_border, fill_rect, on_border, min_of};
use crate::glyphs::{draw_text, fitting};
use crate::font::glyph_on;
use crate::presentation::Panel;
use crate::wrap::{wrap_text, wrap_lines};

verus! {

/// Padding inside each panel border (pixels).
pub const PANEL_PADDING: u32 = 2;
/// Border thickness (pixels).
pub const BORDER_WIDTH: u32 = 1;
/// Height of the title bar: border, padding, glyph, padding, divider.
pub const TITLE_BAR_HEIGHT: u32 = 13;
/// Gap between panels (pixels).
pub const PANEL_GAP: u32 = 2;

/// Whether `c` is the least number whose square reaches `n`.
#[verifier::opaque]
pub open spec fn is_ceil_sqrt(c: int, n: int) -> bool {
    c >= 1 && c * c >= n && (c - 1) * (c - 1) < n
}

/// Columns of the grid for `n` panels: fixed shapes up to six panels, then
/// the ceiling of the square root.
pub open spec fn grid_cols(n: int) -> int {
    if n == 1 {
        1
    } else if n == 2 {
        2
    } else if n == 3 {
        3
    } else if n == 4 {
        2
    } else if n == 5 || n == 6 {
        3
    } else {
        choose|c: int| is_ceil_sqrt(c, n)
    }
}

/// Rows of the grid: enough for all panels.
pub open spec fn grid_rows(n: int) -> int {
    (n + grid_cols(n) - 1) / grid_cols(n)
}

/// Whether the gaps between `n` panels fit in the screen, so that cell sizes
/// can be computed.
pub open spec fn grid_fits(n: int, total_w: int, total_h: int) -> bool {
    n == 0 || {
        &&& PANEL_GAP * (grid_cols(n) - 1) <= total_w
        &&& PANEL_GAP * (grid_rows(n) - 1) <= total_h
        &&& cell_w(n, total_w) + PANEL_GAP <= u32::MAX
        &&& cell_h(n, total_h) + PANEL_GAP <= u32::MAX
    }
}

pub open spec fn cell_w(n: int, total_w: int) -> int {
    (total_w - PANEL_GAP * (grid_cols(n) - 1)) / grid_cols(n)
}

pub open spec fn cell_h(n: int, total_h: int) -> int {
    (total_h - PANEL_GAP * (grid_rows(n) - 1)) / grid_rows(n)
}

/// The cell of panel `i`: row-major, separated by the gap.
pub open spec fn grid_cell(i: int, n: int, total_w: int, total_h: int) -> Rect {
    Rect {
        x: ((i % grid_cols(n)) * (cell_w(n, total_w) + PANEL_GAP)) as u32,
        y: ((i / grid_cols(n)) * (cell_h(n, total_h) + PANEL_GAP)) as u32,
        w: cell_w(n, total_w) as u32,
        h: cell_h(n, total_h) as u32,
    }
}

proof fn lemma_sq_mono(a: int, b: int)
    requires
        0 <= a <= b,
    ensures
        a * a <= b * b,
{
    assert(a * a <= b * b) by (nonlinear_arith)
        requires 0 <= a <= b;
}

/// The ceiling square root is unique.
proof fn lemma_ceil_sqrt_unique(a: int, b: int, n: int)
    requires
        is_ceil_sqrt(a, n),
        is_ceil_sqrt(b, n),
    ensures
        a == b,
{
    reveal(is_ceil_sqrt);
    if a < b {
        lemma_sq_mono(a, b - 1);
    } else if b < a {
        lemma_sq_mono(b, a - 1);
    }
}

/// The least `c` with `c * c >= n`.
fn ceil_sqrt(n: usize) -> (c: usize)
    requires
        n >= 1,
        n <= u32::MAX,
    ensures
        is_ceil_sqrt(c as int, n as int),
        c <= n,
{
    let mut c: usize = 1;
    while (c as u64) * (c as u64) < n as u64
        invariant
            1 <= c <= n,
            n <= u32::MAX,
            (c - 1) * (c - 1) < n,
            c <= 0x1_0000,
            c * c <= 0x1_0000_0000,
        decreases n - c,
    {
        proof {
            assert(c < n) by (nonlinear_arith)
                requires c * c < n, c >= 1;
            if c >= 0x1_0000 {
                lemma_sq_mono(0x1_0000, c as int);
            }
            lemma_sq_mono(c as int + 1, 0x1_0000);
        }
        c = c + 1;
    }
    proof {
        reveal(is_ceil_sqrt);
    }
    c
}

/// Number of grid columns for `n` panels.
fn grid_columns(n: usize) -> (cols: usize)
    requires
        1 <= n <= u32::MAX,
    ensures
        cols == grid_cols(n as int),
        1 <= cols <= n,
{
    match n {
        1 => 1,
        2 => 2,
        3 => 3,
        4 => 2,
        5 | 6 => 3,
        _ => {
            let c = ceil_sqrt(n);
            proof {
                reveal(is_ceil_sqrt);
                let g = choose|c: int| is_ceil_sqrt(c, n as int);
                assert(is_ceil_sqrt(c as int, n as int));
                lemma_ceil_sqrt_unique(c as int, g, n as int);
            }
            c
        },
    }
}

/// Compute a grid layout for `n` panels within the given dimensions.
#[verifier::spinoff_prover]
pub fn compute_grid(n: usize, total_w: u32, total_h: u32) -> (rects: Vec<Rect>)
    requires
        n <= u32::MAX,
        grid_fits(n as int, total_w as int, total_h as int),
    ensures
        rects@.len() == n,
        forall|i: int| 0 <= i < n ==> #[trigger] rects@[i] == grid_cell(i, n as int, total_w as int, total_h as int),
{
    if n == 0 {
        return Vec::new();
    }
    let cols = grid_columns(n);
    let q0 = n / cols;
    proof {
        vstd::arithmetic::div_mod::lemma_fundamental_div_mod(n as int, cols as int);
        vstd::arithmetic::div_mod::lemma_mod_pos_bound(n as int, cols as int);
        if n % cols != 0 {
            assert(q0 <= q0 * cols) by (nonlinear_arith)
                requires cols >= 1, q0 >= 0;
            assert(q0 * cols == cols * q0) by (nonlinear_arith);
        }
    }
    let rows = if n % cols == 0 { q0 } else { q0 + 1 };
    proof {
        vstd::arithmetic::div_mod::lemma_fundamental_div_mod(n as int, cols as int);
        vstd::arithmetic::div_mod::lemma_fundamental_div_mod((n + cols - 1) as int, cols as int);
        vstd::arithmetic::div_mod::lemma_mod_pos_bound(n as int, cols as int);
        vstd::arithmetic::div_mod::lemma_mod_pos_bound((n + cols - 1) as int, cols as int);
        let q = n as int / cols as int;
        let r = n as int % cols as int;
        if r == 0 {
            assert(q * cols == cols * q) by (nonlinear_arith);
            vstd::arithmetic::div_mod::lemma_fundamental_div_mod_converse((n + cols - 1) as int, cols as int, q, cols - 1);
        } else {
            assert((q + 1) * cols == cols * q + cols) by (nonlinear_arith);
            vstd::arithmetic::div_mod::lemma_fundamental_div_mod_converse((n + cols - 1) as int, cols as int, q + 1, r - 1);
        }
        assert(rows == grid_rows(n as int));
        assert(1 <= rows <= n) by (nonlinear_arith)
            requires rows as int == (n + cols - 1) as int / (cols as int), 1 <= cols <= n;
    }
    let cw: u32 = (total_w - PANEL_GAP * (cols as u32 - 1)) / cols as u32;
    let ch: u32 = (total_h - PANEL_GAP * (rows as u32 - 1)) / rows as u32;
    assert(cw == cell_w(n as int, total_w as int));
    assert(ch == cell_h(n as int, total_h as int));
    proof {
        lemma_cells_fit(n as int, total_w as int, total_h as int);
    }
    let mut rects: Vec<Rect> = Vec::new();
    let mut i: usize = 0;
    while i < n
        invariant
            1 <= cols <= n,
            n <= u32::MAX,
            cols == grid_cols(n as int),
            rows == grid_rows(n as int),
            cw == cell_w(n as int, total_w as int),
            ch == cell_h(n as int, total_h as int),
            cw + PANEL_GAP <= u32::MAX,
            ch + PANEL_GAP <= u32::MAX,
            forall|k: int| 0 <= k < n ==> #[trigger] cell_on_screen(k, n as int, total_w as int, total_h as int),
            i <= n,
            rects@.len() == i,
            forall|k: int| 0 <= k < i ==> #[trigger] rects@[k] == grid_cell(k, n as int, total_w as int, total_h as int),
        decreases n - i,
    {
        let row = i / cols;
        let col = i % cols;
        assert(cell_on_screen(i as int, n as int, total_w as int, total_h as int));
        assert(col * (cw + PANEL_GAP) + cw <= total_w && row * (ch + PANEL_GAP) + ch <= total_h);
        assert(0 <= col * (cw + PANEL_GAP) && 0 <= row * (ch + PANEL_GAP)) by (nonlinear_arith)
            requires col >= 0, row >= 0, cw >= 0, ch >= 0;
        let c32 = col as u32;
        let r32 = row as u32;
        let r = Rect {
            x: c32 * (cw + PANEL_GAP),
            y: r32 * (ch + PANEL_GAP),
            w: cw,
            h: ch,
        };
        rects.push(r);
        i = i + 1;
    }
    rects
}

/// Whether the cell of panel `k` ends inside the screen.
pub open spec fn cell_on_screen(k: int, n: int, total_w: int, total_h: int) -> bool {
    &&& (k % grid_cols(n)) * (cell_w(n, total_w) + PANEL_GAP) + cell_w(n, total_w) <= total_w
    &&& (k / grid_cols(n)) * (cell_h(n, total_h) + PANEL_GAP) + cell_h(n, total_h) <= total_h
}

/// Every cell of the grid lies on the screen.
#[verifier::spinoff_prover]
proof fn lemma_cells_fit(n: int, total_w: int, total_h: int)
    requires
        1 <= n,
        grid_fits(n, total_w, total_h),
        1 <= grid_cols(n) <= n,
        0 <= total_w,
        0 <= total_h,
    ensures
        1 <= grid_rows(n),
        0 <= cell_w(n, total_w),
        0 <= cell_h(n, total_h),
        forall|k: int| 0 <= k < n ==> #[trigger] cell_on_screen(k, n, total_w, total_h),
{
    let c = grid_cols(n);
    let r = grid_rows(n);
    let cw = cell_w(n, total_w);
    let ch = cell_h(n, total_h);
    assert(1 <= r) by (nonlinear_arith)
        requires r == (n + c - 1) / c, 1 <= c <= n;
    assert(n <= r * c) by {
        vstd::arithmetic::div_mod::lemma_fundamental_div_mod(n + c - 1, c);
        vstd::arithmetic::div_mod::lemma_mod_pos_bound(n + c - 1, c);
        assert(c * r == r * c) by (nonlinear_arith);
    }
    assert(c * cw <= total_w - PANEL_GAP * (c - 1)) by {
        vstd::arithmetic::div_mod::lemma_fundamental_div_mod(total_w - PANEL_GAP * (c - 1), c);
        vstd::arithmetic::div_mod::lemma_mod_pos_bound(total_w - PANEL_GAP * (c - 1), c);
    }
    assert(r * ch <= total_h - PANEL_GAP * (r - 1)) by {
        vstd::arithmetic::div_mod::lemma_fundamental_div_mod(total_h - PANEL_GAP * (r - 1), r);
        vstd::arithmetic::div_mod::lemma_mod_pos_bound(total_h - PANEL_GAP * (r - 1), r);
    }
    assert(0 <= cw && 0 <= ch) by {
        vstd::arithmetic::div_mod::lemma_div_pos_is_pos(total_w - PANEL_GAP * (c - 1), c);
        vstd::arithmetic::div_mod::lemma_div_pos_is_pos(total_h - PANEL_GAP * (r - 1), r);
    }
    assert forall|k: int| 0 <= k < n implies #[trigger] cell_on_screen(k, n, total_w, total_h) by {
        vstd::arithmetic::div_mod::lemma_mod_pos_bound(k, c);
        vstd::arithmetic::div_mod::lemma_div_pos_is_pos(k, c);
        vstd::arithmetic::div_mod::lemma_fundamental_div_mod(k, c);
        let q = k / c;
        let m = k % c;
        assert(q < r) by {
            if q >= r {
                assert(c * q >= c * r) by (nonlinear_arith)
                    requires q >= r, c >= 1;
                assert(c * r == r * c) by (nonlinear_arith);
            }
        }
        assert(m * (cw + 2) + cw <= (c - 1) * (cw + 2) + cw) by (nonlinear_arith)
            requires 0 <= m <= c - 1, cw >= 0;
        assert((c - 1) * (cw + 2) + cw == c * cw + 2 * (c - 1)) by (nonlinear_arith);
        assert(q * (ch + 2) + ch <= (r - 1) * (ch + 2) + ch) by (nonlinear_arith)
            requires 0 <= q <= r - 1, ch >= 0;
        assert((r - 1) * (ch + 2) + ch == r * ch + 2 * (r - 1)) by (nonlinear_arith);
    }
}

/// Characters per body line of a panel drawn in `rect`.
pub open spec fn panel_line_chars(rect: Rect) -> int {
    (if rect.w >= 6 { rect.w - 6 } else { 0 }) / 6
}

/// Whether pixel (px, py) is ink of the first `n` characters of `t` in the
/// base font from (x, y), one glyph every 6 pixels.
pub open spec fn title_ink(t: Seq<char>, n: int, x: int, y: int, px: int, py: int) -> bool {
    &&& x <= px
    &&& (px - x) / 6 < n
    &&& in_box(px, py, x + ((px - x) / 6) * 6, y, 5, 7)
    &&& glyph_on(t[(px - x) / 6], px - x - ((px - x) / 6) * 6, py - y)
}

/// Whether (px, py) lies in the title bar of a panel drawn in `rect`.
pub open spec fn in_title_bar(px: int, py: int, rect: Rect) -> bool {
    in_box(px, py, rect.x + 1, rect.y + 1, rect.w - 2, 12)
}

/// The title bar of a panel shows its title in reverse: a title-bar pixel is
/// white exactly where the title's glyphs (as many as fit) have ink.
pub open spec fn title_shown(b: PixelBuffer, title: Seq<char>, rect: Rect) -> bool {
    forall|px: int, py: int| #[trigger] b.in_bounds(px, py) && in_title_bar(px, py, rect)
        ==> b.black_at(px, py) == !title_ink(title, fitting(title.len() as int, rect.w - 6, 6), rect.x + 3, rect.y + 3, px, py)
}

/// Whether (px, py) is inside the border of `rect`, off its outline.
pub open spec fn in_interior(px: int, py: int, rect: Rect) -> bool {
    in_box(px, py, rect.x + 1, rect.y + 1, rect.w - 2, rect.h - 2)
}

/// The frame of a panel: border, title bar with the title in reverse, and
/// the divider under the title bar.
#[verifier::spinoff_prover]
fn draw_panel_frame(buf: &mut PixelBuffer, title: &str, rect: Rect)
    requires
        old(buf).wf(),
        rect.x + rect.w <= u32::MAX,
        rect.y + rect.h <= u32::MAX,
        rect.w >= 8,
        rect.h >= 22,
    ensures
        final(buf).drawn_within(old(buf), rect.x as int, rect.y as int, rect.w as int, rect.h as int),
        forall|px: int, py: int| #[trigger] final(buf).in_bounds(px, py) && on_border(px, py, rect) ==> final(buf).black_at(px, py),
        title_shown(*final(buf), title@, rect),
{
    let ghost b0 = *buf;
    let ghost rx = rect.x as int;
    let ghost ry = rect.y as int;
    let ghost rw = rect.w as int;
    let ghost rh = rect.h as int;
    draw_border(buf, rect);
    let ghost b1 = *buf;
    let title_rect = Rect { x: rect.x + 1, y: rect.y + 1, w: rect.w - 2, h: TITLE_BAR_HEIGHT - 1 };
    fill_rect(buf, title_rect, true);
    let ghost b2 = *buf;
    let text_x = rect.x + 3;
    let text_y = rect.y + 3;
    let text_max_w = rect.w - 6;
    let drawn = draw_text(buf, text_x, text_y, title, text_max_w, true);
    let ghost b3 = *buf;
    proof {
        lemma_within_trans(&b1, &b2, &b3, rx + 1, ry + 1, rw - 2, 12, text_x as int, text_y as int, text_max_w as int, 7, rx + 1, ry + 1, rw - 2, rh - 2);
        assert forall|px: int, py: int| #[trigger] b3.in_bounds(px, py) && in_title_bar(px, py, rect)
            implies b3.black_at(px, py) == !title_ink(title@, fitting(title@.len() as int, rect.w - 6, 6), rect.x + 3, rect.y + 3, px, py) by {
            assert(b2.in_bounds(px, py));
        }
    }
    let divider_y = rect.y + TITLE_BAR_HEIGHT;
    let mut x: u32 = rect.x + 1;
    while x < rect.x + rect.w - 1
        invariant
            rect.x + 1 <= x <= rect.x + rect.w - 1,
            rect.x + rect.w <= u32::MAX,
            rect.y + rect.h <= u32::MAX,
            divider_y == rect.y + 13,
            rect.h >= 22,
            buf.drawn_within(&b1, rx + 1, ry + 1, rw - 2, rh - 2),
            rx == rect.x,
            ry == rect.y,
            rw == rect.w,
            rh == rect.h,
            buf.same_frame(&b3),
            forall|px: int, py: int| #[trigger] buf.in_bounds(px, py) && in_title_bar(px, py, rect) ==> buf.black_at(px, py) == b3.black_at(px, py),
        decreases rect.x + rect.w - 1 - x,
    {
        let ghost before = *buf;
        buf.set_pixel(x, divider_y, true);
        proof {
            assert forall|px: int, py: int| #[trigger] buf.in_bounds(px, py) && in_title_bar(px, py, rect) implies buf.black_at(px, py) == b3.black_at(px, py) by {
                assert(before.in_bounds(px, py));
            }
            assert forall|px: int, py: int| #[trigger] buf.in_bounds(px, py) && !in_box(px, py, rx + 1, ry + 1, rw - 2, rh - 2) implies buf.black_at(px, py) == b1.black_at(px, py) by {
                assert(before.in_bounds(px, py));
            }
        }
        x = x + 1;
    }
    proof {
        lemma_panel_border(&b0, &b1, buf, rect);
        assert forall|px: int, py: int| #[trigger] buf.in_bounds(px, py) && in_title_bar(px, py, rect)
            implies buf.black_at(px, py) == !title_ink(title@, fitting(title@.len() as int, rect.w - 6, 6), rect.x + 3, rect.y + 3, px, py) by {
            assert(b3.in_bounds(px, py));
        }
    }
}

/// The body lines of a panel: each row word-wrapped to `cpl` characters,
/// one after the other.
pub open spec fn panel_lines(rows: Seq<String>, cpl: int) -> Seq<Seq<char>>
    decreases rows.len(),
{
    if rows.len() == 0 {
        Seq::empty()
    } else {
        panel_lines(rows.drop_last(), cpl) + wrap_lines(rows.last()@, cpl)
    }
}

/// How many body lines fit in `rect`: one every 9 pixels below the title bar.
pub open spec fn panel_max_lines(rect: Rect) -> int {
    (rect.h - 17) / 9
}

/// How many body lines of `panel` are drawn in `rect`.
pub open spec fn panel_shown_lines(panel: Panel, rect: Rect) -> int {
    let n = panel_lines(panel.rows@, panel_line_chars(rect)).len() as int;
    if n < panel_max_lines(rect) { n } else { panel_max_lines(rect) }
}

/// Whether (px, py) is in the glyph cell of a drawn character of body line
/// `j` of `panel` in `rect`: lines start at `(rect.x + 3, rect.y + 16 + 9j)`,
/// one 5×7 glyph every 6 pixels, as many characters as fit in `rect.w - 6`.
pub open spec fn in_body_glyph(panel: Panel, rect: Rect, j: int, px: int, py: int) -> bool {
    let line = panel_lines(panel.rows@, panel_line_chars(rect))[j];
    let x = rect.x + 3;
    &&& x <= px
    &&& (px - x) / 6 < fitting(line.len() as int, rect.w - 6, 6)
    &&& in_box(px, py, x + ((px - x) / 6) * 6, rect.y + 16 + 9 * j, 5, 7)
}

/// The pixel of body line `j` at (px, py), as the base font draws it.
pub open spec fn body_glyph_on(panel: Panel, rect: Rect, j: int, px: int, py: int) -> bool {
    let line = panel_lines(panel.rows@, panel_line_chars(rect))[j];
    let x = rect.x + 3;
    glyph_on(line[(px - x) / 6], px - x - ((px - x) / 6) * 6, py - (rect.y + 16 + 9 * j))
}

/// Whether every glyph cell of the drawn body lines of `panel` shows its
/// glyph, black on white.
pub open spec fn body_shown(b: PixelBuffer, panel: Panel, rect: Rect) -> bool {
    forall|j: int, px: int, py: int| 0 <= j < panel_shown_lines(panel, rect) && b.in_bounds(px, py)
        && #[trigger] in_body_glyph(panel, rect, j, px, py) ==> b.black_at(px, py) == body_glyph_on(panel, rect, j, px, py)
}

/// The lines of the first `a` rows come first among those of the first `b`.
proof fn lemma_panel_lines_prefix(rows: Seq<String>, cpl: int, a: int, b: int)
    requires
        0 <= a <= b <= rows.len(),
    ensures
        panel_lines(rows.take(a), cpl).len() <= panel_lines(rows.take(b), cpl).len(),
        forall|i: int| 0 <= i < panel_lines(rows.take(a), cpl).len()
            ==> #[trigger] panel_lines(rows.take(b), cpl)[i] == panel_lines(rows.take(a), cpl)[i],
    decreases b - a,
{
    if a < b {
        lemma_panel_lines_prefix(rows, cpl, a, b - 1);
        assert(rows.take(b).drop_last() =~= rows.take(b - 1));
    }
}

/// The rows of a panel, word-wrapped, one line every [`crate::font::CELL_HEIGHT`]
/// pixels below the title bar, as many lines as fit.
#[verifier::spinoff_prover]
#[verifier::rlimit(40)]
fn draw_panel_rows(buf: &mut PixelBuffer, panel: &Panel, rect: Rect)
    requires
        old(buf).wf(),
        rect.x + rect.w <= u32::MAX,
        rect.y + rect.h <= u32::MAX,
        rect.w >= 8,
        rect.h >= 22,
    ensures
        final(buf).drawn_within(old(buf), rect.x + 1, rect.y + 16, rect.w - 2, rect.h - 17),
        body_shown(*final(buf), *panel, rect),
{
    let ghost b1 = *buf;
    let ghost rx = rect.x as int;
    let ghost ry = rect.y as int;
    let ghost rw = rect.w as int;
    let ghost rh = rect.h as int;
    let ghost rows = panel.rows@;
    let ghost cpl = panel_line_chars(rect);
    let ghost all = panel_lines(rows, cpl);
    let body_x = rect.x + 3;
    let body_y = rect.y + TITLE_BAR_HEIGHT + 3;
    let body_w = rect.w - 6;
    let body_h = rect.h - 17;
    let chars_per_line: usize = (body_w / 6) as usize;
    if chars_per_line == 0 {
        proof {
            assert(panel_lines(rows.take(0), cpl).len() == 0);
            lemma_zero_width_lines(rows, cpl);
        }
        return;
    }
    let max_lines: usize = (body_h / 9) as usize;
    let mut line_idx: usize = 0;
    let mut r: usize = 0;
    proof {
        assert(rows.take(0) =~= Seq::<String>::empty());
        assert(rows.take(rows.len() as int) =~= rows);
    }
    while r < panel.rows.len()
        invariant_except_break
            line_idx == min_of(panel_lines(rows.take(r as int), cpl).len() as int, max_lines as int),
        invariant
            buf.drawn_within(&b1, rx + 1, ry + 16, rw - 2, rh - 17),
            rx == rect.x,
            ry == rect.y,
            rw == rect.w,
            rh == rect.h,
            rows == panel.rows@,
            cpl == panel_line_chars(rect),
            all == panel_lines(rows, cpl),
            rows.take(rows.len() as int) == rows,
            r <= rows.len(),
            rect.x + rect.w <= u32::MAX,
            rect.y + rect.h <= u32::MAX,
            rect.w >= 8,
            rect.h >= 22,
            body_x == rect.x + 3,
            body_y == rect.y + 16,
            body_w == rect.w - 6,
            body_h == rect.h - 17,
            max_lines == body_h / 9,
            max_lines == panel_max_lines(rect),
            chars_per_line == panel_line_chars(rect),
            line_idx <= max_lines,
            line_idx <= all.len(),
            forall|j: int, px: int, py: int| 0 <= j < line_idx && buf.in_bounds(px, py)
                && #[trigger] in_body_glyph(*panel, rect, j, px, py) ==> buf.black_at(px, py) == body_glyph_on(*panel, rect, j, px, py),
        ensures
            line_idx == panel_shown_lines(*panel, rect),
        decreases panel.rows.len() - r,
    {
        proof {
            lemma_panel_lines_prefix(rows, cpl, r as int, r + 1);
            lemma_panel_lines_prefix(rows, cpl, r + 1, rows.len() as int);
            assert(rows.take(rows.len() as int) =~= rows);
            assert(rows.take(r + 1).drop_last() =~= rows.take(r as int));
            assert(rows.take(r + 1).last() == rows[r as int]);
        }
        if line_idx >= max_lines {
            proof {
                lemma_panel_lines_prefix(rows, cpl, r as int, rows.len() as int);
            }
            break;
        }
        let wrapped = wrap_text(panel.rows[r].as_str(), chars_per_line);
        let ghost start = line_idx as int;
        let mut k: usize = 0;
        while k < wrapped.len()
            invariant_except_break
                line_idx == start + k,
            invariant
                buf.drawn_within(&b1, rx + 1, ry + 16, rw - 2, rh - 17),
                rx == rect.x,
                ry == rect.y,
                rw == rect.w,
                rh == rect.h,
                rows == panel.rows@,
                cpl == panel_line_chars(rect),
                all == panel_lines(rows, cpl),
                r < rows.len(),
                rect.x + rect.w <= u32::MAX,
                rect.y + rect.h <= u32::MAX,
                rect.w >= 8,
                rect.h >= 22,
                body_x == rect.x + 3,
                body_y == rect.y + 16,
                body_w == rect.w - 6,
                body_h == rect.h - 17,
                max_lines == body_h / 9,
                line_idx <= max_lines,
                k <= wrapped.len(),
                start == panel_lines(rows.take(r as int), cpl).len(),
                start <= line_idx <= start + k,
                wrapped.deep_view() == wrap_lines(rows[r as int]@, cpl),
                panel_lines(rows.take(r + 1), cpl) == panel_lines(rows.take(r as int), cpl) + wrap_lines(rows[r as int]@, cpl),
                panel_lines(rows.take(r + 1), cpl).len() <= all.len(),
                forall|i: int| 0 <= i < panel_lines(rows.take(r + 1), cpl).len() ==> #[trigger] all[i] == panel_lines(rows.take(r + 1), cpl)[i],
                forall|j: int, px: int, py: int| 0 <= j < line_idx && buf.in_bounds(px, py)
                    && #[trigger] in_body_glyph(*panel, rect, j, px, py) ==> buf.black_at(px, py) == body_glyph_on(*panel, rect, j, px, py),
            ensures
                line_idx == min_of(panel_lines(rows.take(r + 1), cpl).len() as int, max_lines as int),
            decreases wrapped.len() - k,
        {
            if line_idx >= max_lines {
                break;
            }
            assert(line_idx * 9 + 9 <= body_h) by (nonlinear_arith)
                requires line_idx < max_lines, max_lines == body_h / 9;
            let ly = body_y + line_idx as u32 * 9;
            let ghost before = *buf;
            proof {
                assert(all[line_idx as int] == wrapped[k as int]@);
            }
            draw_text(buf, body_x, ly, wrapped[k].as_str(), body_w, false);
            proof {
                lemma_within_trans(&b1, &before, buf, rx + 1, ry + 16, rw - 2, rh - 17, body_x as int, ly as int, body_w as int, 7, rx + 1, ry + 16, rw - 2, rh - 17);
                assert forall|j: int, px: int, py: int| 0 <= j < line_idx + 1 && buf.in_bounds(px, py)
                    && #[trigger] in_body_glyph(*panel, rect, j, px, py) implies buf.black_at(px, py) == body_glyph_on(*panel, rect, j, px, py) by {
                    if j < line_idx {
                        assert(9 * j + 9 <= 9 * line_idx) by (nonlinear_arith) requires j < line_idx;
                        assert(before.in_bounds(px, py));
                    }
                }
            }
            line_idx = line_idx + 1;
            k = k + 1;
        }
        r = r + 1;
    }
    proof {
        assert(rows.take(rows.len() as int) =~= rows);
    }
}

/// With no room for a character, no row has a line.
proof fn lemma_zero_width_lines(rows: Seq<String>, cpl: int)
    requires
        cpl == 0,
    ensures
        panel_lines(rows, cpl).len() == 0,
    decreases rows.len(),
{
    if rows.len() > 0 {
        lemma_zero_width_lines(rows.drop_last(), cpl);
    }
}

/// The drawn body glyphs of a panel lie below its title bar, inside its border.
pub proof fn lemma_body_in_rect(panel: Panel, rect: Rect, j: int, px: int, py: int)
    requires
        rect.w >= 8,
        rect.h >= 22,
        0 <= j < panel_shown_lines(panel, rect),
        in_body_glyph(panel, rect, j, px, py),
    ensures
        in_box(px, py, rect.x + 1, rect.y + 16, rect.w - 2, rect.h - 17),
{
    let line = panel_lines(panel.rows@, panel_line_chars(rect))[j];
    let x = rect.x + 3;
    let q = (px - x) / 6;
    let f = fitting(line.len() as int, rect.w - 6, 6);
    assert(f * 6 <= rect.w - 6) by {
        vstd::arithmetic::div_mod::lemma_fundamental_div_mod(rect.w - 6, 6);
    }
    assert(q * 6 + 6 <= f * 6) by (nonlinear_arith)
        requires q < f;
    assert(9 * j + 9 <= rect.h - 17) by {
        vstd::arithmetic::div_mod::lemma_fundamental_div_mod(rect.h - 17, 9);
        assert(9 * j + 9 <= 9 * panel_max_lines(rect)) by (nonlinear_arith)
            requires j < panel_max_lines(rect);
    }
}

/// Render a single panel into its allocated rectangle: border, title bar
/// with inverted title, divider, then the word-wrapped rows as far as they
/// fit. A rectangle too small for one line of text is left untouched;
/// otherwise the outline is black, the title bar shows exactly the title's
/// glyphs in white on black, and the glyph cells of the body lines that fit
/// show their glyphs in black on white.
pub fn render_panel(buf: &mut PixelBuffer, panel: &Panel, rect: Rect)
    requires
        old(buf).wf(),
        rect.x + rect.w <= u32::MAX,
        rect.y + rect.h <= u32::MAX,
    ensures
        final(buf).drawn_within(old(buf), rect.x as int, rect.y as int, rect.w as int, rect.h as int),
        rect.w >= 8 && rect.h >= 22 ==> forall|px: int, py: int| #[trigger] final(buf).in_bounds(px, py) && on_border(px, py, rect) ==> final(buf).black_at(px, py),
        rect.w >= 8 && rect.h >= 22 ==> title_shown(*final(buf), panel.title@, rect),
        rect.w >= 8 && rect.h >= 22 ==> body_shown(*final(buf), *panel, rect),
        rect.w < 8 || rect.h < 22 ==> *final(buf) == *old(buf),
{
    if rect.w < 6 + 2 * BORDER_WIDTH || rect.h < TITLE_BAR_HEIGHT + 9 {
        return;
    }
    let ghost b0 = *buf;
    draw_panel_frame(buf, panel.title.as_str(), rect);
    let ghost b1 = *buf;
    draw_panel_rows(buf, panel, rect);
    proof {
        assert forall|px: int, py: int| #[trigger] buf.in_bounds(px, py) && !in_box(px, py, rect.x as int, rect.y as int, rect.w as int, rect.h as int) implies buf.black_at(px, py) == b0.black_at(px, py) by {
            assert(b1.in_bounds(px, py));
        }
        assert forall|px: int, py: int| #[trigger] buf.in_bounds(px, py) && on_border(px, py, rect) implies buf.black_at(px, py) by {
            assert(b1.in_bounds(px, py));
        }
        assert forall|px: int, py: int| #[trigger] buf.in_bounds(px, py) && in_title_bar(px, py, rect)
            implies buf.black_at(px, py) == !title_ink(panel.title@, fitting(panel.title@.len() as int, rect.w - 6, 6), rect.x + 3, rect.y + 3, px, py) by {
            assert(b1.in_bounds(px, py));
        }
    }
}


/// Whether pixel (px, py) is on the outline of panel `i`'s cell, for a cell
/// with room for a line of text.
pub open spec fn cell_outline(px: int, py: int, i: int, n: int, total_w: int, total_h: int) -> bool {
    let r = grid_cell(i, n, total_w, total_h);
    r.w >= 8 && r.h >= 22 && on_border(px, py, r)
}

/// Whether the cell of panel `i` has room for a line of text.
pub open spec fn big_cell(i: int, n: int, total_w: int, total_h: int) -> bool {
    grid_cell(i, n, total_w, total_h).w >= 8 && grid_cell(i, n, total_w, total_h).h >= 22
}

/// Whether pixel (px, py) lies in the cell of panel `i`.
pub open spec fn in_cell(px: int, py: int, i: int, n: int, total_w: int, total_h: int) -> bool {
    let r = grid_cell(i, n, total_w, total_h);
    in_box(px, py, r.x as int, r.y as int, r.w as int, r.h as int)
}

proof fn lemma_cell_index(p: int, k: int, cw: int)
    requires
        cw >= 0,
        k >= 0,
        k * (cw + 2) <= p < k * (cw + 2) + cw,
    ensures
        p / (cw + 2) == k,
{
    vstd::arithmetic::div_mod::lemma_fundamental_div_mod_converse(p, cw + 2, k, p - k * (cw + 2));
}

/// The grid tiles the screen: every cell lies on the screen, and two panels'
/// cells never share a pixel.
pub proof fn law_grid_cells_disjoint(n: int, total_w: int, total_h: int, i: int, j: int, px: int, py: int)
    requires
        1 <= n <= u32::MAX,
        0 <= total_w <= u32::MAX,
        0 <= total_h <= u32::MAX,
        grid_fits(n, total_w, total_h),
        0 <= i < n,
        0 <= j < n,
        in_cell(px, py, i, n, total_w, total_h),
        in_cell(px, py, j, n, total_w, total_h),
    ensures
        i == j,
        0 <= px < total_w,
        0 <= py < total_h,
{
    lemma_grid_columns_range(n);
    lemma_cells_fit(n, total_w, total_h);
    let c = grid_cols(n);
    let cw = cell_w(n, total_w);
    let ch = cell_h(n, total_h);
    assert(cell_on_screen(i, n, total_w, total_h));
    assert(cell_on_screen(j, n, total_w, total_h));
    vstd::arithmetic::div_mod::lemma_mod_pos_bound(i, c);
    vstd::arithmetic::div_mod::lemma_mod_pos_bound(j, c);
    vstd::arithmetic::div_mod::lemma_div_pos_is_pos(i, c);
    vstd::arithmetic::div_mod::lemma_div_pos_is_pos(j, c);
    assert(0 <= (i % c) * (cw + 2) && 0 <= (j % c) * (cw + 2) && 0 <= (i / c) * (ch + 2) && 0 <= (j / c) * (ch + 2)) by (nonlinear_arith)
        requires 0 <= i % c, 0 <= j % c, 0 <= i / c, 0 <= j / c, cw >= 0, ch >= 0;
    lemma_cell_index(px, i % c, cw);
    lemma_cell_index(px, j % c, cw);
    lemma_cell_index(py, i / c, ch);
    lemma_cell_index(py, j / c, ch);
    vstd::arithmetic::div_mod::lemma_fundamental_div_mod(i, c);
    vstd::arithmetic::div_mod::lemma_fundamental_div_mod(j, c);
}

proof fn lemma_grid_columns_range(n: int)
    requires
        1 <= n,
    ensures
        1 <= grid_cols(n) <= n,
{
    if n >= 7 {
        reveal(is_ceil_sqrt);
        let g = choose|c: int| is_ceil_sqrt(c, n);
        // a witness: n itself has a square at least n, so some least one exists
        lemma_ceil_sqrt_exists(n);
        assert(is_ceil_sqrt(g, n));
        if g > n {
            assert((g - 1) * (g - 1) >= n) by (nonlinear_arith)
                requires g - 1 >= n, n >= 1;
        }
    }
}

proof fn lemma_ceil_sqrt_exists(n: int)
    requires
        n >= 1,
    ensures
        exists|c: int| is_ceil_sqrt(c, n),
    decreases n,
{
    reveal(is_ceil_sqrt);
    let c = ceil_sqrt_witness(n, 1);
    assert(is_ceil_sqrt(c, n));
}

/// The least `c >= start` with `c * c >= n`, given that `(start - 1)^2 < n`.
proof fn ceil_sqrt_witness(n: int, start: int) -> (c: int)
    requires
        n >= 1,
        1 <= start <= n,
        (start - 1) * (start - 1) < n,
    ensures
        c >= 1,
        c * c >= n,
        (c - 1) * (c - 1) < n,
    decreases n - start,
{
    if start * start >= n {
        start
    } else {
        assert(start < n) by (nonlinear_arith)
            requires start * start < n, start >= 1;
        ceil_sqrt_witness(n, start + 1)
    }
}

/// Lay out and render all panels into the pixel buffer (legacy grid layout).
///
/// Panels are drawn in order into the cells of [`compute_grid`]; the gaps
/// between cells are never drawn, and every panel with room for a line of
/// text gets a black outline, its title in reverse in its title bar, and the
/// body lines that fit below it.
pub fn layout_and_render(panels: &[Panel], buf: &mut PixelBuffer)
    requires
        old(buf).wf(),
        panels@.len() <= u32::MAX,
        grid_fits(panels@.len() as int, old(buf).width as int, old(buf).height as int),
    ensures
        final(buf).same_frame(old(buf)),
        forall|px: int, py: int| #[trigger] final(buf).in_bounds(px, py) && (forall|i: int| 0 <= i < panels@.len() ==> !in_cell(px, py, i, panels@.len() as int, old(buf).width as int, old(buf).height as int))
            ==> final(buf).black_at(px, py) == old(buf).black_at(px, py),
        forall|i: int, px: int, py: int| 0 <= i < panels@.len() && #[trigger] final(buf).in_bounds(px, py)
            && #[trigger] cell_outline(px, py, i, panels@.len() as int, old(buf).width as int, old(buf).height as int) ==> final(buf).black_at(px, py),
        forall|i: int| 0 <= i < panels@.len() && big_cell(i, panels@.len() as int, old(buf).width as int, old(buf).height as int)
            ==> #[trigger] title_shown(*final(buf), panels@[i].title@, grid_cell(i, panels@.len() as int, old(buf).width as int, old(buf).height as int)),
        forall|i: int| 0 <= i < panels@.len() && big_cell(i, panels@.len() as int, old(buf).width as int, old(buf).height as int)
            ==> #[trigger] body_shown(*final(buf), panels@[i], grid_cell(i, panels@.len() as int, old(buf).width as int, old(buf).height as int)),
{
    let ghost b0 = *buf;
    let n = panels.len();
    let ghost w = buf.width as int;
    let ghost h = buf.height as int;
    let grid = compute_grid(n, buf.width, buf.height);
    if n > 0 {
        proof {
            lemma_grid_columns_range(n as int);
            lemma_cells_fit(n as int, w, h);
        }
    }
    let mut i: usize = 0;
    while i < n
        invariant
            n == panels@.len(),
            n <= u32::MAX,
            i <= n,
            grid@.len() == n,
            w == b0.width,
            h == b0.height,
            w <= u32::MAX,
            h <= u32::MAX,
            grid_fits(n as int, w, h),
            n > 0 ==> 0 <= cell_w(n as int, w) && 0 <= cell_h(n as int, h),
            forall|k: int| 0 <= k < n ==> #[trigger] grid@[k] == grid_cell(k, n as int, w, h),
            forall|k: int| 0 <= k < n ==> #[trigger] cell_on_screen(k, n as int, w, h),
            buf.same_frame(&b0),
            forall|px: int, py: int| #[trigger] buf.in_bounds(px, py) && (forall|k: int| 0 <= k < i ==> !in_cell(px, py, k, n as int, w, h))
                ==> buf.black_at(px, py) == b0.black_at(px, py),
            forall|k: int, px: int, py: int| 0 <= k < i && #[trigger] buf.in_bounds(px, py) && #[trigger] cell_outline(px, py, k, n as int, w, h) ==> buf.black_at(px, py),
            forall|k: int| 0 <= k < i && big_cell(k, n as int, w, h) ==> #[trigger] title_shown(*buf, panels@[k].title@, grid_cell(k, n as int, w, h)),
            forall|k: int| 0 <= k < i && big_cell(k, n as int, w, h) ==> #[trigger] body_shown(*buf, panels@[k], grid_cell(k, n as int, w, h)),
        decreases n - i,
    {
        let rect = grid[i];
        assert(cell_on_screen(i as int, n as int, w, h));
        proof {
            assert(0 <= (i as int % grid_cols(n as int)) * (cell_w(n as int, w) + PANEL_GAP)) by {
                lemma_grid_columns_range(n as int);
                vstd::arithmetic::div_mod::lemma_mod_pos_bound(i as int, grid_cols(n as int));
                assert(0 <= (i as int % grid_cols(n as int)) * (cell_w(n as int, w) + PANEL_GAP)) by (nonlinear_arith)
                    requires 0 <= i as int % grid_cols(n as int), 0 <= cell_w(n as int, w);
            }
            assert(0 <= (i as int / grid_cols(n as int)) * (cell_h(n as int, h) + PANEL_GAP)) by {
                lemma_grid_columns_range(n as int);
                vstd::arithmetic::div_mod::lemma_div_pos_is_pos(i as int, grid_cols(n as int));
                assert(0 <= (i as int / grid_cols(n as int)) * (cell_h(n as int, h) + PANEL_GAP)) by (nonlinear_arith)
                    requires 0 <= i as int / grid_cols(n as int), 0 <= cell_h(n as int, h);
            }
        }
        let ghost before = *buf;
        render_panel(buf, &panels[i], rect);
        proof {
            assert forall|px: int, py: int| #[trigger] buf.in_bounds(px, py) && (forall|k: int| 0 <= k < i + 1 ==> !in_cell(px, py, k, n as int, w, h))
                implies buf.black_at(px, py) == b0.black_at(px, py) by {
                assert(before.in_bounds(px, py));
                assert(!in_cell(px, py, i as int, n as int, w, h));
            }
            assert forall|k: int, px: int, py: int| 0 <= k < i + 1 && #[trigger] buf.in_bounds(px, py) && #[trigger] cell_outline(px, py, k, n as int, w, h) implies buf.black_at(px, py) by {
                assert(before.in_bounds(px, py));
                if k < i {
                    let r = grid_cell(k, n as int, w, h);
                    if in_cell(px, py, i as int, n as int, w, h) {
                        assert(in_cell(px, py, k, n as int, w, h));
                        law_grid_cells_disjoint(n as int, w, h, i as int, k, px, py);
                    }
                }
            }
            assert forall|k: int| 0 <= k < i + 1 && big_cell(k, n as int, w, h) implies #[trigger] title_shown(*buf, panels@[k].title@, grid_cell(k, n as int, w, h)) by {
                if k < i {
                    let r = grid_cell(k, n as int, w, h);
                    assert(title_shown(before, panels@[k].title@, r));
                    assert forall|px: int, py: int| #[trigger] buf.in_bounds(px, py) && in_title_bar(px, py, r)
                        implies buf.black_at(px, py) == !title_ink(panels@[k].title@, fitting(panels@[k].title@.len() as int, r.w - 6, 6), r.x + 3, r.y + 3, px, py) by {
                        assert(before.in_bounds(px, py));
                        assert(in_cell(px, py, k, n as int, w, h));
                        if in_cell(px, py, i as int, n as int, w, h) {
                            law_grid_cells_disjoint(n as int, w, h, i as int, k, px, py);
                        }
                    }
                }
            }
            assert forall|k: int| 0 <= k < i + 1 && big_cell(k, n as int, w, h) implies #[trigger] body_shown(*buf, panels@[k], grid_cell(k, n as int, w, h)) by {
                if k < i {
                    let r = grid_cell(k, n as int, w, h);
                    assert(body_shown(before, panels@[k], r));
                    assert forall|j: int, px: int, py: int| 0 <= j < panel_shown_lines(panels@[k], r) && buf.in_bounds(px, py)
                        && #[trigger] in_body_glyph(panels@[k], r, j, px, py) implies buf.black_at(px, py) == body_glyph_on(panels@[k], r, j, px, py) by {
                        assert(before.in_bounds(px, py));
                        lemma_body_in_rect(panels@[k], r, j, px, py);
                        assert(in_cell(px, py, k, n as int, w, h));
                        if in_cell(px, py, i as int, n as int, w, h) {
                            law_grid_cells_disjoint(n as int, w, h, i as int, k, px, py);
                        }
                    }
                }
            }
        }
        i = i + 1;
    }
}

/// After the border, drawing only inside it keeps the border black and the
/// picture outside the rectangle unchanged.
#[verifier::spinoff_prover]
proof fn lemma_panel_border(b0: &PixelBuffer, b1: &PixelBuffer, b: &PixelBuffer, rect: Rect)
    requires
        rect.w >= 8,
        rect.h >= 22,
        b1.same_frame(b0),
        forall|px: int, py: int| #[trigger] b1.in_bounds(px, py) ==> b1.black_at(px, py) == (b0.black_at(px, py) || on_border(px, py, rect)),
        b.drawn_within(b1, rect.x + 1, rect.y + 1, rect.w - 2, rect.h - 2),
    ensures
        b.drawn_within(b0, rect.x as int, rect.y as int, rect.w as int, rect.h as int),
        forall|px: int, py: int| #[trigger] b.in_bounds(px, py) && on_border(px, py, rect) ==> b.black_at(px, py),
{
    assert forall|px: int, py: int| #[trigger] b.in_bounds(px, py) && !in_box(px, py, rect.x as int, rect.y as int, rect.w as int, rect.h as int) implies b.black_at(px, py) == b0.black_at(px, py) by {
        assert(b1.in_bounds(px, py));
    }
    assert forall|px: int, py: int| #[trigger] b.in_bounds(px, py) && on_border(px, py, rect) implies b.black_at(px, py) by {
        assert(b1.in_bounds(px, py));
    }
}

} // verus!
