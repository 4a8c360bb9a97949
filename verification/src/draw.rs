//! Drawing primitives on the pixel buffer: filled boxes, lines, borders,
//! discs and thick line segments.
use vstd::prelude::*;
use crate::render::{PixelBuffer, in_box};

verus! {

/// Fill the `w`×`h` box at (x, y) with one colour.
pub fn fill_rect_xy(buf: &mut PixelBuffer, x: u32, y: u32, w: u32, h: u32, black: bool)
    requires
        old(buf).wf(),
        x + w <= u32::MAX + 1,
        y + h <= u32::MAX + 1,
    ensures
        final(buf).box_painted(old(buf), x as int, y as int, w as int, h as int, black),
        final(buf).drawn_within(old(buf), x as int, y as int, w as int, h as int),
{
    let ghost b0 = *buf;
    let mut dy: u32 = 0;
    while dy < h
        invariant
            dy <= h,
            x + w <= u32::MAX + 1,
            y + h <= u32::MAX + 1,
            buf.box_painted(&b0, x as int, y as int, w as int, dy as int, black),
        decreases h - dy,
    {
        let mut dx: u32 = 0;
        while dx < w
            invariant
                dx <= w,
                dy < h,
                x + w <= u32::MAX + 1,
                y + h <= u32::MAX + 1,
                buf.same_frame(&b0),
                forall|px: int, py: int| #[trigger] buf.in_bounds(px, py) ==> buf.black_at(px, py) == if in_box(px, py, x as int, y as int, w as int, dy as int) || (py == y + dy && x <= px < x + dx) {
                    black
                } else {
                    b0.black_at(px, py)
                },
            decreases w - dx,
        {
            let ghost before = *buf;
            buf.set_pixel(x + dx, y + dy, black);
            proof {
                assert forall|px: int, py: int| #[trigger] buf.in_bounds(px, py) implies buf.black_at(px, py) == if in_box(px, py, x as int, y as int, w as int, dy as int) || (py == y + dy && x <= px < x + dx + 1) {
                    black
                } else {
                    b0.black_at(px, py)
                } by {
                    assert(before.in_bounds(px, py));
                }
            }
            dx = dx + 1;
        }
        dy = dy + 1;
    }
}

/// A horizontal bar `len` pixels long and `thickness` pixels tall.
pub fn hline(buf: &mut PixelBuffer, x: u32, y: u32, len: u32, thickness: u32)
    requires
        old(buf).wf(),
        x + len <= u32::MAX + 1,
        y + thickness <= u32::MAX + 1,
    ensures
        final(buf).box_painted(old(buf), x as int, y as int, len as int, thickness as int, true),
        final(buf).drawn_within(old(buf), x as int, y as int, len as int, thickness as int),
        final(buf).darkens(old(buf)),
{
    fill_rect_xy(buf, x, y, len, thickness, true);
}

/// A vertical bar `len` pixels tall and `thickness` pixels wide.
pub fn vline(buf: &mut PixelBuffer, x: u32, y: u32, len: u32, thickness: u32)
    requires
        old(buf).wf(),
        x + thickness <= u32::MAX + 1,
        y + len <= u32::MAX + 1,
    ensures
        final(buf).box_painted(old(buf), x as int, y as int, thickness as int, len as int, true),
        final(buf).drawn_within(old(buf), x as int, y as int, thickness as int, len as int),
        final(buf).darkens(old(buf)),
{
    fill_rect_xy(buf, x, y, thickness, len, true);
}

/// A rectangle on the pixel buffer.
#[derive(Debug, Clone, Copy)]
pub struct Rect {
    pub x: u32,
    pub y: u32,
    pub w: u32,
    pub h: u32,
}

/// Whether (px, py) is on the one-pixel outline of the rectangle.
pub open spec fn on_border(px: int, py: int, r: Rect) -> bool {
    ||| (r.x <= px < r.x + r.w && (py == r.y || py == r.y + r.h - 1))
    ||| (r.y <= py < r.y + r.h && (px == r.x || px == r.x + r.w - 1))
}

/// Draw a 1-pixel border rectangle.
pub fn draw_border(buf: &mut PixelBuffer, r: Rect)
    requires
        old(buf).wf(),
        r.x + r.w <= u32::MAX,
        r.y + r.h <= u32::MAX,
        r.w > 0 ==> r.y + r.h >= 1,
        r.h > 0 ==> r.x + r.w >= 1,
    ensures
        final(buf).same_frame(old(buf)),
        forall|px: int, py: int| #[trigger] final(buf).in_bounds(px, py) ==> final(buf).black_at(px, py) == (old(buf).black_at(px, py) || on_border(px, py, r)),
        final(buf).drawn_within(old(buf), r.x as int - 1, r.y as int - 1, r.w as int + 2, r.h as int + 2),
        final(buf).darkens(old(buf)),
{
    let ghost b0 = *buf;
    let mut x: u32 = r.x;
    while x < r.x + r.w
        invariant
            r.x <= x <= r.x + r.w,
            r.x + r.w <= u32::MAX,
            r.y + r.h <= u32::MAX,
            r.w > 0 ==> r.y + r.h >= 1,
            buf.same_frame(&b0),
            forall|px: int, py: int| #[trigger] buf.in_bounds(px, py) ==> buf.black_at(px, py) == (b0.black_at(px, py) || (r.x <= px < x && (py == r.y || py == r.y + r.h - 1))),
        decreases r.x + r.w - x,
    {
        let ghost before = *buf;
        buf.set_pixel(x, r.y, true);
        let ghost mid = *buf;
        buf.set_pixel(x, r.y + r.h - 1, true);
        proof {
            assert forall|px: int, py: int| #[trigger] buf.in_bounds(px, py) implies buf.black_at(px, py) == (b0.black_at(px, py) || (r.x <= px < x + 1 && (py == r.y || py == r.y + r.h - 1))) by {
                assert(before.in_bounds(px, py));
                assert(mid.in_bounds(px, py));
            }
        }
        x = x + 1;
    }
    let mut y: u32 = r.y;
    while y < r.y + r.h
        invariant
            r.y <= y <= r.y + r.h,
            r.x + r.w <= u32::MAX,
            r.y + r.h <= u32::MAX,
            r.h > 0 ==> r.x + r.w >= 1,
            buf.same_frame(&b0),
            forall|px: int, py: int| #[trigger] buf.in_bounds(px, py) ==> buf.black_at(px, py) == (b0.black_at(px, py) || (r.x <= px < r.x + r.w && (py == r.y || py == r.y + r.h - 1)) || (r.y <= py < y && (px == r.x || px == r.x + r.w - 1))),
        decreases r.y + r.h - y,
    {
        let ghost before = *buf;
        buf.set_pixel(r.x, y, true);
        let ghost mid = *buf;
        buf.set_pixel(r.x + r.w - 1, y, true);
        proof {
            assert forall|px: int, py: int| #[trigger] buf.in_bounds(px, py) implies buf.black_at(px, py) == (b0.black_at(px, py) || (r.x <= px < r.x + r.w && (py == r.y || py == r.y + r.h - 1)) || (r.y <= py < y + 1 && (px == r.x || px == r.x + r.w - 1))) by {
                assert(before.in_bounds(px, py));
                assert(mid.in_bounds(px, py));
            }
        }
        y = y + 1;
    }
}

/// Fill a rectangular region with a solid colour.
pub fn fill_rect(buf: &mut PixelBuffer, r: Rect, black: bool)
    requires
        old(buf).wf(),
        r.x + r.w <= u32::MAX,
        r.y + r.h <= u32::MAX,
    ensures
        final(buf).box_painted(old(buf), r.x as int, r.y as int, r.w as int, r.h as int, black),
        final(buf).drawn_within(old(buf), r.x as int, r.y as int, r.w as int, r.h as int),
{
    fill_rect_xy(buf, r.x, r.y, r.w, r.h, black);
}

/// Whether (px, py) is in the disc of radius `r` around (cx, cy).
pub open spec fn in_disc(px: int, py: int, cx: int, cy: int, r: int) -> bool {
    &&& -r <= px - cx <= r
    &&& -r <= py - cy <= r
    &&& (px - cx) * (px - cx) + (py - cy) * (py - cy) <= r * r
}

/// Fill an approximate circle centred at (cx, cy) with radius r.
pub fn fill_circle(buf: &mut PixelBuffer, cx: i32, cy: i32, r: i32)
    requires
        old(buf).wf(),
        -32767 <= r <= 32767,
        r >= 0 ==> i32::MIN <= cx - r && cx + r <= i32::MAX && i32::MIN <= cy - r && cy + r <= i32::MAX,
    ensures
        final(buf).same_frame(old(buf)),
        forall|px: int, py: int| #[trigger] final(buf).in_bounds(px, py) ==> final(buf).black_at(px, py) == (old(buf).black_at(px, py) || in_disc(px, py, cx as int, cy as int, r as int)),
        final(buf).drawn_within(old(buf), cx - r, cy - r, 2 * r + 1, 2 * r + 1),
        final(buf).darkens(old(buf)),
{
    let ghost b0 = *buf;
    assert(0 <= r * r <= 32767 * 32767) by (nonlinear_arith)
        requires -32767 <= r <= 32767;
    let r2: i32 = r * r;
    if r < 0 {
        return;
    }
    let mut dy: i32 = -r;
    while dy <= r
        invariant
            0 <= r <= 32767,
            r2 == r * r,
            -r <= dy <= r + 1,
            i32::MIN <= cx - r && cx + r <= i32::MAX && i32::MIN <= cy - r && cy + r <= i32::MAX,
            buf.same_frame(&b0),
            forall|px: int, py: int| #[trigger] buf.in_bounds(px, py) ==> buf.black_at(px, py) == (b0.black_at(px, py) || (in_disc(px, py, cx as int, cy as int, r as int) && py - cy < dy)),
        decreases r + 1 - dy,
    {
        let mut dx: i32 = -r;
        while dx <= r
            invariant
                0 <= r <= 32767,
                r2 == r * r,
                -r <= dy <= r,
                -r <= dx <= r + 1,
                i32::MIN <= cx - r && cx + r <= i32::MAX && i32::MIN <= cy - r && cy + r <= i32::MAX,
                buf.same_frame(&b0),
                forall|px: int, py: int| #[trigger] buf.in_bounds(px, py) ==> buf.black_at(px, py) == (b0.black_at(px, py) || (in_disc(px, py, cx as int, cy as int, r as int) && (py - cy < dy || (py - cy == dy && px - cx < dx)))),
            decreases r + 1 - dx,
        {
            assert(0 <= dx * dx <= 32767 * 32767 && 0 <= dy * dy <= 32767 * 32767) by (nonlinear_arith)
                requires -r <= dx <= r, -r <= dy <= r, r <= 32767;
            let ghost before = *buf;
            if dx * dx + dy * dy <= r2 {
                let px = cx + dx;
                let py = cy + dy;
                if px >= 0 && py >= 0 {
                    buf.set_pixel(px as u32, py as u32, true);
                }
            }
            proof {
                assert forall|px: int, py: int| #[trigger] buf.in_bounds(px, py) implies buf.black_at(px, py) == (b0.black_at(px, py) || (in_disc(px, py, cx as int, cy as int, r as int) && (py - cy < dy || (py - cy == dy && px - cx < dx + 1)))) by {
                    assert(before.in_bounds(px, py));
                }
            }
            dx = dx + 1;
        }
        dy = dy + 1;
    }
}

/// Bresenham's bookkeeping after `nx` steps in x and `ny` in y: a step is
/// always possible before the end point and never overshoots it.
proof fn lemma_line_step(dx: int, dy: int, nx: int, ny: int, err: int)
    requires
        0 <= nx <= dx,
        0 <= ny <= dy,
        err == dx * (1 + ny) - dy * (1 + nx),
        !(nx == dx && ny == dy),
    ensures
        2 * err > -dy ==> nx < dx,
        2 * err < dx ==> ny < dy,
        2 * err > -dy || 2 * err < dx,
        err - dy == dx * (1 + ny) - dy * (1 + (nx + 1)),
        err + dx == dx * (1 + (ny + 1)) - dy * (1 + nx),
        err - dy + dx == dx * (1 + (ny + 1)) - dy * (1 + (nx + 1)),
{
    assert(err - dy == dx * (1 + ny) - dy * (1 + (nx + 1))) by (nonlinear_arith)
        requires err == dx * (1 + ny) - dy * (1 + nx);
    assert(err + dx == dx * (1 + (ny + 1)) - dy * (1 + nx)) by (nonlinear_arith)
        requires err == dx * (1 + ny) - dy * (1 + nx);
    if nx == dx {
        assert(2 * err <= -dy) by (nonlinear_arith)
            requires err == dx * (1 + ny) - dy * (1 + nx), nx == dx, 0 <= ny < dy, 0 <= dx;
    }
    if ny == dy {
        assert(2 * err >= dx) by (nonlinear_arith)
            requires err == dx * (1 + ny) - dy * (1 + nx), ny == dy, 0 <= nx < dx, 0 <= dy;
    }
}

proof fn lemma_err_bound(dx: int, dy: int, nx: int, ny: int)
    requires
        0 <= nx <= dx < 0x8000_0000,
        0 <= ny <= dy < 0x8000_0000,
    ensures
        -0x4000_0000_0000_0001_0000_0000 <= dx * (1 + ny) - dy * (1 + nx) <= 0x4000_0000_0000_0001_0000_0000,
{
    assert(0 <= dx * (1 + ny) <= 0x8000_0000 * 0x8000_0001) by (nonlinear_arith)
        requires 0 <= ny <= dy < 0x8000_0000, 0 <= dx < 0x8000_0000;
    assert(0 <= dy * (1 + nx) <= 0x8000_0000 * 0x8000_0001) by (nonlinear_arith)
        requires 0 <= nx <= dx < 0x8000_0000, 0 <= dy < 0x8000_0000;
}

pub open spec fn min_of(a: int, b: int) -> int {
    if a <= b { a } else { b }
}

pub open spec fn dist(a: int, b: int) -> int {
    if a <= b { b - a } else { a - b }
}

/// Whether the `pen` × `pen` square at (x, y) is black, as far as it lies
/// on the buffer.
pub open spec fn pen_black(b: PixelBuffer, x: int, y: int, pen: int) -> bool {
    forall|px: int, py: int| #[trigger] b.in_bounds(px, py) && in_box(px, py, x, y, pen, pen) ==> b.black_at(px, py)
}

/// Whether column `c` holds a black pen square at some row from `lo` to `hi`.
pub open spec fn column_crossed(b: PixelBuffer, c: int, lo: int, hi: int, pen: int) -> bool {
    exists|r: int| lo <= r <= hi && #[trigger] pen_black(b, c, r, pen)
}

/// Whether row `r` holds a black pen square at some column from `lo` to `hi`.
pub open spec fn row_crossed(b: PixelBuffer, r: int, lo: int, hi: int, pen: int) -> bool {
    exists|c: int| lo <= c <= hi && #[trigger] pen_black(b, c, r, pen)
}

/// Adding ink keeps a pen square black.
proof fn lemma_pen_darkens(a: PixelBuffer, b: PixelBuffer, x: int, y: int, pen: int)
    requires
        b.same_frame(&a),
        b.darkens(&a),
        pen_black(a, x, y, pen),
    ensures
        pen_black(b, x, y, pen),
{
    assert forall|px: int, py: int| #[trigger] b.in_bounds(px, py) && in_box(px, py, x, y, pen, pen) implies b.black_at(px, py) by {
        assert(a.in_bounds(px, py));
    }
}

/// Adding ink keeps a crossed column crossed and a crossed row crossed.
proof fn lemma_crossed_darkens(a: PixelBuffer, b: PixelBuffer, k: int, lo: int, hi: int, pen: int)
    requires
        b.same_frame(&a),
        b.darkens(&a),
    ensures
        column_crossed(a, k, lo, hi, pen) ==> column_crossed(b, k, lo, hi, pen),
        row_crossed(a, k, lo, hi, pen) ==> row_crossed(b, k, lo, hi, pen),
{
    if column_crossed(a, k, lo, hi, pen) {
        let r = choose|r: int| lo <= r <= hi && #[trigger] pen_black(a, k, r, pen);
        lemma_pen_darkens(a, b, k, r, pen);
    }
    if row_crossed(a, k, lo, hi, pen) {
        let c = choose|c: int| lo <= c <= hi && #[trigger] pen_black(a, c, k, pen);
        lemma_pen_darkens(a, b, c, k, pen);
    }
}

/// Whether a stroke of a `pen`-wide brush from (x0, y0) to (x1, y1) is on
/// the buffer: both end squares black and, between them, every column and
/// every row holding a black pen square within the stroke's bounding box.
pub open spec fn stroke_drawn(b: PixelBuffer, x0: int, y0: int, x1: int, y1: int, pen: int) -> bool {
    &&& pen_black(b, x0, y0, pen)
    &&& pen_black(b, x1, y1, pen)
    &&& forall|c: int| min_of(x0, x1) <= c <= min_of(x0, x1) + dist(x0, x1)
        ==> #[trigger] column_crossed(b, c, min_of(y0, y1), min_of(y0, y1) + dist(y0, y1), pen)
    &&& forall|r: int| min_of(y0, y1) <= r <= min_of(y0, y1) + dist(y0, y1)
        ==> #[trigger] row_crossed(b, r, min_of(x0, x1), min_of(x0, x1) + dist(x0, x1), pen)
}

/// Adding ink keeps a drawn stroke drawn.
pub proof fn lemma_stroke_darkens(a: PixelBuffer, b: PixelBuffer, x0: int, y0: int, x1: int, y1: int, pen: int)
    requires
        b.same_frame(&a),
        b.darkens(&a),
        stroke_drawn(a, x0, y0, x1, y1, pen),
    ensures
        stroke_drawn(b, x0, y0, x1, y1, pen),
{
    lemma_pen_darkens(a, b, x0, y0, pen);
    lemma_pen_darkens(a, b, x1, y1, pen);
    assert forall|c: int| min_of(x0, x1) <= c <= min_of(x0, x1) + dist(x0, x1)
        implies #[trigger] column_crossed(b, c, min_of(y0, y1), min_of(y0, y1) + dist(y0, y1), pen) by {
        lemma_crossed_darkens(a, b, c, min_of(y0, y1), min_of(y0, y1) + dist(y0, y1), pen);
    }
    assert forall|r: int| min_of(y0, y1) <= r <= min_of(y0, y1) + dist(y0, y1)
        implies #[trigger] row_crossed(b, r, min_of(x0, x1), min_of(x0, x1) + dist(x0, x1), pen) by {
        lemma_crossed_darkens(a, b, r, min_of(x0, x1), min_of(x0, x1) + dist(x0, x1), pen);
    }
}

/// Draw a thick line from (x0, y0) to (x1, y1) using a `pen` × `pen` square
/// brush, stepping pixel by pixel as Bresenham's algorithm does. The line
/// has no gaps: every column from `x0` to `x1` and every row from `y0` to
/// `y1` holds a black pen square within the line's bounding box.
pub fn draw_line_thick(buf: &mut PixelBuffer, x0: u32, y0: u32, x1: u32, y1: u32, pen: u32)
    requires
        old(buf).wf(),
        x0 + pen <= i32::MAX,
        y0 + pen <= i32::MAX,
        x1 + pen <= i32::MAX,
        y1 + pen <= i32::MAX,
    ensures
        final(buf).same_frame(old(buf)),
        final(buf).darkens(old(buf)),
        final(buf).drawn_within(old(buf), min_of(x0 as int, x1 as int), min_of(y0 as int, y1 as int), dist(x0 as int, x1 as int) + pen, dist(y0 as int, y1 as int) + pen),
        forall|px: int, py: int| #[trigger] final(buf).in_bounds(px, py) && in_box(px, py, x0 as int, y0 as int, pen as int, pen as int) ==> final(buf).black_at(px, py),
        forall|px: int, py: int| #[trigger] final(buf).in_bounds(px, py) && in_box(px, py, x1 as int, y1 as int, pen as int, pen as int) ==> final(buf).black_at(px, py),
        forall|c: int| min_of(x0 as int, x1 as int) <= c <= min_of(x0 as int, x1 as int) + dist(x0 as int, x1 as int)
            ==> #[trigger] column_crossed(*final(buf), c, min_of(y0 as int, y1 as int), min_of(y0 as int, y1 as int) + dist(y0 as int, y1 as int), pen as int),
        forall|r: int| min_of(y0 as int, y1 as int) <= r <= min_of(y0 as int, y1 as int) + dist(y0 as int, y1 as int)
            ==> #[trigger] row_crossed(*final(buf), r, min_of(x0 as int, x1 as int), min_of(x0 as int, x1 as int) + dist(x0 as int, x1 as int), pen as int),
        stroke_drawn(*final(buf), x0 as int, y0 as int, x1 as int, y1 as int, pen as int),
{
    let ghost b0 = *buf;
    let ghost bx = min_of(x0 as int, x1 as int);
    let ghost by = min_of(y0 as int, y1 as int);
    let ghost bw = dist(x0 as int, x1 as int) + pen;
    let ghost bh = dist(y0 as int, y1 as int) + pen;
    let dx: i64 = if x0 <= x1 { (x1 - x0) as i64 } else { (x0 - x1) as i64 };
    let dy: i64 = if y0 <= y1 { (y1 - y0) as i64 } else { (y0 - y1) as i64 };
    let sx: i64 = if x0 < x1 { 1 } else { -1 };
    let sy: i64 = if y0 < y1 { 1 } else { -1 };
    let mut err: i128 = dx as i128 - dy as i128;
    let mut cx: i64 = x0 as i64;
    let mut cy: i64 = y0 as i64;
    let ghost mut nx: int = 0;
    let ghost mut ny: int = 0;
    fill_rect_xy(buf, x0, y0, pen, pen, true);
    let ghost xlo = min_of(x0 as int, x1 as int);
    let ghost xhi = min_of(x0 as int, x1 as int) + dist(x0 as int, x1 as int);
    let ghost ylo = min_of(y0 as int, y1 as int);
    let ghost yhi = min_of(y0 as int, y1 as int) + dist(y0 as int, y1 as int);
    proof {
        assert(pen_black(*buf, x0 as int, y0 as int, pen as int));
        assert forall|c: int| min_of(x0 as int, cx as int) <= c <= min_of(x0 as int, cx as int) + dist(x0 as int, cx as int)
            implies #[trigger] column_crossed(*buf, c, ylo, yhi, pen as int) by {
            assert(pen_black(*buf, c, y0 as int, pen as int));
        }
        assert forall|r: int| min_of(y0 as int, cy as int) <= r <= min_of(y0 as int, cy as int) + dist(y0 as int, cy as int)
            implies #[trigger] row_crossed(*buf, r, xlo, xhi, pen as int) by {
            assert(pen_black(*buf, x0 as int, r, pen as int));
        }
        assert(err == dx * (1 + ny) - dy * (1 + nx)) by (nonlinear_arith)
            requires nx == 0, ny == 0, err == dx - dy;
    }
    loop
        invariant_except_break
            bx == min_of(x0 as int, x1 as int),
            by == min_of(y0 as int, y1 as int),
            bw == dist(x0 as int, x1 as int) + pen,
            bh == dist(y0 as int, y1 as int) + pen,
            0 <= nx <= dx,
            0 <= ny <= dy,
            err == dx * (1 + ny) - dy * (1 + nx),
            cx == x0 + if x0 < x1 { nx } else { -nx },
            cy == y0 + if y0 < y1 { ny } else { -ny },
            dx == dist(x0 as int, x1 as int),
            dy == dist(y0 as int, y1 as int),
            sx == if x0 < x1 { 1int } else { -1int },
            sy == if y0 < y1 { 1int } else { -1int },
            x0 + pen <= i32::MAX,
            y0 + pen <= i32::MAX,
            x1 + pen <= i32::MAX,
            y1 + pen <= i32::MAX,
            buf.same_frame(&b0),
            buf.darkens(&b0),
            buf.drawn_within(&b0, bx, by, bw, bh),
            forall|px: int, py: int| #[trigger] buf.in_bounds(px, py) && in_box(px, py, x0 as int, y0 as int, pen as int, pen as int) ==> buf.black_at(px, py),
            forall|px: int, py: int| #[trigger] buf.in_bounds(px, py) && in_box(px, py, cx as int, cy as int, pen as int, pen as int) ==> buf.black_at(px, py),
            xlo == min_of(x0 as int, x1 as int),
            xhi == min_of(x0 as int, x1 as int) + dist(x0 as int, x1 as int),
            ylo == min_of(y0 as int, y1 as int),
            yhi == min_of(y0 as int, y1 as int) + dist(y0 as int, y1 as int),
            forall|c: int| min_of(x0 as int, cx as int) <= c <= min_of(x0 as int, cx as int) + dist(x0 as int, cx as int)
                ==> #[trigger] column_crossed(*buf, c, ylo, yhi, pen as int),
            forall|r: int| min_of(y0 as int, cy as int) <= r <= min_of(y0 as int, cy as int) + dist(y0 as int, cy as int)
                ==> #[trigger] row_crossed(*buf, r, xlo, xhi, pen as int),
        ensures
            cx == x1,
            cy == y1,
            buf.same_frame(&b0),
            buf.darkens(&b0),
            buf.drawn_within(&b0, bx, by, bw, bh),
            forall|px: int, py: int| #[trigger] buf.in_bounds(px, py) && in_box(px, py, x0 as int, y0 as int, pen as int, pen as int) ==> buf.black_at(px, py),
            forall|px: int, py: int| #[trigger] buf.in_bounds(px, py) && in_box(px, py, cx as int, cy as int, pen as int, pen as int) ==> buf.black_at(px, py),
            forall|c: int| xlo <= c <= xhi ==> #[trigger] column_crossed(*buf, c, ylo, yhi, pen as int),
            forall|r: int| ylo <= r <= yhi ==> #[trigger] row_crossed(*buf, r, xlo, xhi, pen as int),
        decreases (dx - nx) + (dy - ny),
    {
        if cx == x1 as i64 && cy == y1 as i64 {
            break;
        }
        proof {
            lemma_err_bound(dx as int, dy as int, nx, ny);
            lemma_line_step(dx as int, dy as int, nx, ny, err as int);
        }
        let e2: i128 = 2 * err;
        let move_x = e2 > -(dy as i128);
        let move_y = e2 < dx as i128;
        if move_x {
            err = err - dy as i128;
            cx = cx + sx;
            proof { nx = nx + 1; }
        }
        if move_y {
            err = err + dx as i128;
            cy = cy + sy;
            proof { ny = ny + 1; }
        }
        let ghost before = *buf;
        fill_rect_xy(buf, cx as u32, cy as u32, pen, pen, true);
        proof {
            assert forall|px: int, py: int| #[trigger] buf.in_bounds(px, py) && before.black_at(px, py) implies buf.black_at(px, py) by {
                assert(before.in_bounds(px, py));
            }
            assert forall|px: int, py: int| #[trigger] buf.in_bounds(px, py) && b0.black_at(px, py) implies buf.black_at(px, py) by {
                assert(before.in_bounds(px, py));
            }
            assert forall|px: int, py: int| #[trigger] buf.in_bounds(px, py) && !in_box(px, py, bx, by, bw, bh) implies buf.black_at(px, py) == b0.black_at(px, py) by {
                assert(before.in_bounds(px, py));
                assert(!in_box(px, py, cx as int, cy as int, pen as int, pen as int));
            }
            assert forall|px: int, py: int| #[trigger] buf.in_bounds(px, py) && in_box(px, py, x0 as int, y0 as int, pen as int, pen as int) implies buf.black_at(px, py) by {
                assert(before.in_bounds(px, py));
            }
            assert(pen_black(*buf, cx as int, cy as int, pen as int));
            assert forall|c: int| min_of(x0 as int, cx as int) <= c <= min_of(x0 as int, cx as int) + dist(x0 as int, cx as int)
                implies #[trigger] column_crossed(*buf, c, ylo, yhi, pen as int) by {
                if c == cx {
                    assert(pen_black(*buf, c, cy as int, pen as int));
                } else {
                    assert(column_crossed(before, c, ylo, yhi, pen as int));
                    lemma_crossed_darkens(before, *buf, c, ylo, yhi, pen as int);
                }
            }
            assert forall|r: int| min_of(y0 as int, cy as int) <= r <= min_of(y0 as int, cy as int) + dist(y0 as int, cy as int)
                implies #[trigger] row_crossed(*buf, r, xlo, xhi, pen as int) by {
                if r == cy {
                    assert(pen_black(*buf, cx as int, r, pen as int));
                } else {
                    assert(row_crossed(before, r, xlo, xhi, pen as int));
                    lemma_crossed_darkens(before, *buf, r, xlo, xhi, pen as int);
                }
            }
        }
    }
    proof {
        assert(pen_black(*buf, x0 as int, y0 as int, pen as int));
        assert(pen_black(*buf, x1 as int, y1 as int, pen as int));
    }
}

} // verus!
