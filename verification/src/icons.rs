//! Weather pictograms, drawn from circles, boxes and thick lines in a
//! 64×64 area.
use vstd::prelude::*;
use crate::render::{PixelBuffer, in_box, lemma_within_trans, lemma_darkens_trans, lemma_paint_darkens};
use crate::draw::{fill_circle, fill_rect_xy, hline, draw_line_thick, min_of, dist, in_disc, stroke_drawn, lemma_stroke_darkens};
use crate::presentation::WeatherIcon;

verus! {

/// Largest coordinate the icons are drawn at.
pub const ICON_COORD_MAX: i32 = 0x7FFF_FF00;

/// The buffer is unchanged outside the box: a reflexive start for chains.
pub proof fn lemma_within_refl(a: &PixelBuffer, x: int, y: int, w: int, h: int)
    requires
        a.wf(),
    ensures
        a.drawn_within(a, x, y, w, h),
{
}

/// Whether (px, py) is in the ray square of the given size at
/// `(cx + dx - 1, cy + dy - 1)` for the offset `(dx, dy)`.
pub open spec fn on_ray(offset: (i32, i32), cx: int, cy: int, size: int, px: int, py: int) -> bool {
    in_box(px, py, cx + offset.0 - 1, cy + offset.1 - 1, size, size)
}

/// Squares of the given size at `(cx + dx - 1, cy + dy - 1)` for each offset.
fn draw_rays(buf: &mut PixelBuffer, cx: i32, cy: i32, offsets: &[(i32, i32)], size: u32)
    requires
        old(buf).wf(),
        cx <= ICON_COORD_MAX,
        cy <= ICON_COORD_MAX,
        size <= 3,
        forall|k: int| 0 <= k < offsets@.len() ==> -22 <= (#[trigger] offsets@[k]).0 <= 22 && -22 <= offsets@[k].1 <= 22
            && 1 <= cx + offsets@[k].0 && 1 <= cy + offsets@[k].1,
    ensures
        final(buf).drawn_within(old(buf), cx - 23, cy - 23, 47, 47),
        final(buf).darkens(old(buf)),
        forall|k: int, px: int, py: int| 0 <= k < offsets@.len() && final(buf).in_bounds(px, py)
            && #[trigger] on_ray(offsets@[k], cx as int, cy as int, size as int, px, py) ==> final(buf).black_at(px, py),
{
    let ghost b0 = *buf;
    proof {
        lemma_within_refl(&b0, cx - 23, cy - 23, 47, 47);
    }
    let mut k: usize = 0;
    while k < offsets.len()
        invariant
            k <= offsets@.len(),
            cx <= ICON_COORD_MAX,
            cy <= ICON_COORD_MAX,
            size <= 3,
            forall|j: int| 0 <= j < offsets@.len() ==> -22 <= (#[trigger] offsets@[j]).0 <= 22 && -22 <= offsets@[j].1 <= 22
                && 1 <= cx + offsets@[j].0 && 1 <= cy + offsets@[j].1,
            buf.drawn_within(&b0, cx - 23, cy - 23, 47, 47),
            buf.darkens(&b0),
            forall|j: int, px: int, py: int| 0 <= j < k && buf.in_bounds(px, py)
                && #[trigger] on_ray(offsets@[j], cx as int, cy as int, size as int, px, py) ==> buf.black_at(px, py),
        decreases offsets.len() - k,
    {
        let (dx, dy) = offsets[k];
        let rx = cx + dx - 1;
        let ry = cy + dy - 1;
        let rx: u32 = if rx < 0 { 0 } else { rx as u32 };
        let ry: u32 = if ry < 0 { 0 } else { ry as u32 };
        let ghost before = *buf;
        fill_rect_xy(buf, rx, ry, size, size, true);
        proof {
            lemma_within_trans(&b0, &before, buf, cx - 23, cy - 23, 47, 47, rx as int, ry as int, size as int, size as int, cx - 23, cy - 23, 47, 47);
            lemma_paint_darkens(&before, buf, rx as int, ry as int, size as int, size as int);
            lemma_darkens_trans(&b0, &before, buf);
            assert forall|j: int, px: int, py: int| 0 <= j < k + 1 && buf.in_bounds(px, py)
                && #[trigger] on_ray(offsets@[j], cx as int, cy as int, size as int, px, py) implies buf.black_at(px, py) by {
                assert(before.in_bounds(px, py));
            }
        }
        k = k + 1;
    }
}

/// The eight ray offsets of the full sun: up, down, left, right, 22 pixels
/// out, and the four diagonals, 16 pixels out each way.
pub open spec fn sun_ray_offsets() -> Seq<(i32, i32)> {
    seq![(0i32, -22i32), (0i32, 22i32), (-22i32, 0i32), (22i32, 0i32), (-16i32, -16i32), (16i32, -16i32), (-16i32, 16i32), (16i32, 16i32)]
}

/// The four ray offsets of the small sun: up, down, left, right, 16 pixels out.
pub open spec fn small_ray_offsets() -> Seq<(i32, i32)> {
    seq![(0i32, -16i32), (0i32, 16i32), (-16i32, 0i32), (16i32, 0i32)]
}

/// Full sun: a disc with eight rays.
fn draw_icon_sun(buf: &mut PixelBuffer, cx: i32, cy: i32)
    requires
        old(buf).wf(),
        23 <= cx <= ICON_COORD_MAX,
        23 <= cy <= ICON_COORD_MAX,
    ensures
        final(buf).drawn_within(old(buf), cx - 23, cy - 23, 47, 47),
        final(buf).darkens(old(buf)),
        forall|px: int, py: int| #[trigger] final(buf).in_bounds(px, py) && in_disc(px, py, cx as int, cy as int, 14) ==> final(buf).black_at(px, py),
        forall|k: int, px: int, py: int| 0 <= k < 8 && final(buf).in_bounds(px, py)
            && #[trigger] on_ray(sun_ray_offsets()[k], cx as int, cy as int, 3, px, py) ==> final(buf).black_at(px, py),
{
    let ghost b0 = *buf;
    fill_circle(buf, cx, cy, 14);
    let ghost b1 = *buf;
    let offsets: [(i32, i32); 8] = [(0, -22), (0, 22), (-22, 0), (22, 0), (-16, -16), (16, -16), (-16, 16), (16, 16)];
    assert(offsets@ =~= sun_ray_offsets());
    draw_rays(buf, cx, cy, offsets.as_slice(), 3);
    proof {
        lemma_within_trans(&b0, &b1, buf, cx - 14, cy - 14, 29, 29, cx - 23, cy - 23, 47, 47, cx - 23, cy - 23, 47, 47);
        lemma_darkens_trans(&b0, &b1, buf);
        assert forall|px: int, py: int| #[trigger] buf.in_bounds(px, py) && in_disc(px, py, cx as int, cy as int, 14) implies buf.black_at(px, py) by {
            assert(b1.in_bounds(px, py));
        }
    }
}

/// Smaller sun, for partly cloudy skies.
fn draw_icon_sun_small(buf: &mut PixelBuffer, cx: i32, cy: i32)
    requires
        old(buf).wf(),
        17 <= cx <= ICON_COORD_MAX,
        17 <= cy <= ICON_COORD_MAX,
    ensures
        final(buf).drawn_within(old(buf), cx - 23, cy - 23, 47, 47),
        final(buf).darkens(old(buf)),
        forall|px: int, py: int| #[trigger] final(buf).in_bounds(px, py) && in_disc(px, py, cx as int, cy as int, 9) ==> final(buf).black_at(px, py),
        forall|k: int, px: int, py: int| 0 <= k < 4 && final(buf).in_bounds(px, py)
            && #[trigger] on_ray(small_ray_offsets()[k], cx as int, cy as int, 2, px, py) ==> final(buf).black_at(px, py),
{
    let ghost b0 = *buf;
    fill_circle(buf, cx, cy, 9);
    let ghost b1 = *buf;
    let offsets: [(i32, i32); 4] = [(0, -16), (0, 16), (-16, 0), (16, 0)];
    assert(offsets@ =~= small_ray_offsets());
    draw_rays(buf, cx, cy, offsets.as_slice(), 2);
    proof {
        lemma_within_trans(&b0, &b1, buf, cx - 9, cy - 9, 19, 19, cx - 23, cy - 23, 47, 47, cx - 23, cy - 23, 47, 47);
        lemma_darkens_trans(&b0, &b1, buf);
        assert forall|px: int, py: int| #[trigger] buf.in_bounds(px, py) && in_disc(px, py, cx as int, cy as int, 9) implies buf.black_at(px, py) by {
            assert(b1.in_bounds(px, py));
        }
    }
}

/// Tiny sun peeking behind a cloud.
fn draw_icon_sun_tiny(buf: &mut PixelBuffer, cx: i32, cy: i32)
    requires
        old(buf).wf(),
        7 <= cx <= ICON_COORD_MAX,
        7 <= cy <= ICON_COORD_MAX,
    ensures
        final(buf).drawn_within(old(buf), cx - 7, cy - 7, 15, 15),
        final(buf).darkens(old(buf)),
        forall|px: int, py: int| #[trigger] final(buf).in_bounds(px, py) && in_disc(px, py, cx as int, cy as int, 7) ==> final(buf).black_at(px, py),
{
    fill_circle(buf, cx, cy, 7);
}

/// Top edge of a cloud drawn at height `half_h`, above its centre line.
pub open spec fn cloud_rise(half_h: int) -> int {
    2 * (half_h * 2 / 3)
}

/// Left edge of a cloud's base box: `cx - hw`, moved to column 0 when that
/// is left of the buffer.
pub open spec fn cloud_box_x(cx: int, hw: int) -> int {
    if cx - hw < 0 { 0 } else { cx - hw }
}

/// Width of the area a cloud at `cx` with half-width `hw` may draw in: its
/// own width, and the shift of its base box when that is moved right.
pub open spec fn cloud_zone_w(cx: int, hw: int) -> int {
    if cx < hw { 3 * hw - cx } else { 2 * hw + 1 }
}

/// Whether (px, py) is in the cloud drawn at (cx, cy) with half-width `hw`
/// and half-height `hh`: three overlapping discs on a box base.
pub open spec fn cloud_shape(cx: int, cy: int, hw: int, hh: int, px: int, py: int) -> bool {
    ||| in_disc(px, py, cx - hw / 3, cy - hh / 2, hh / 2)
    ||| in_disc(px, py, cx, cy - hh * 2 / 3, hh * 2 / 3)
    ||| in_disc(px, py, cx + hw / 3, cy - hh / 3, hh / 2)
    ||| in_box(px, py, cloud_box_x(cx, hw), cy - hh / 2, 2 * hw, hh / 2 + 4)
}

/// Cloud shape: three overlapping discs on a box base.
fn draw_icon_cloud(buf: &mut PixelBuffer, cx: i32, cy: i32, half_w: i32, half_h: i32)
    requires
        old(buf).wf(),
        0 <= cx <= ICON_COORD_MAX,
        half_h <= cy <= ICON_COORD_MAX,
        0 <= half_h <= half_w <= 40,
        half_h <= 24,
    ensures
        final(buf).drawn_within(old(buf), cx - half_w, cy - cloud_rise(half_h as int), cloud_zone_w(cx as int, half_w as int), cloud_rise(half_h as int) + 6),
        final(buf).darkens(old(buf)),
        forall|px: int, py: int| #[trigger] final(buf).in_bounds(px, py) && cloud_shape(cx as int, cy as int, half_w as int, half_h as int, px, py)
            ==> final(buf).black_at(px, py),
{
    let ghost b0 = *buf;
    let ghost (zx, zy, zw, zh) = (cx - half_w, cy - cloud_rise(half_h as int), cloud_zone_w(cx as int, half_w as int), cloud_rise(half_h as int) + 6);
    fill_circle(buf, cx - half_w / 3, cy - half_h / 2, half_h / 2);
    let ghost b1 = *buf;
    fill_circle(buf, cx, cy - half_h * 2 / 3, half_h * 2 / 3);
    let ghost b2 = *buf;
    proof {
        lemma_within_trans(&b0, &b1, &b2, cx - half_w / 3 - half_h / 2, cy - half_h / 2 - half_h / 2, 2 * (half_h / 2) + 1, 2 * (half_h / 2) + 1,
            cx - half_h * 2 / 3, cy - half_h * 2 / 3 - half_h * 2 / 3, 2 * (half_h * 2 / 3) + 1, 2 * (half_h * 2 / 3) + 1, zx, zy, zw, zh);
    }
    fill_circle(buf, cx + half_w / 3, cy - half_h / 3, half_h / 2);
    let ghost b3 = *buf;
    proof {
        lemma_within_trans(&b0, &b2, &b3, zx, zy, zw, zh,
            cx + half_w / 3 - half_h / 2, cy - half_h / 3 - half_h / 2, 2 * (half_h / 2) + 1, 2 * (half_h / 2) + 1, zx, zy, zw, zh);
    }
    let bx = cx - half_w;
    let by = cy - half_h / 2;
    let bx: u32 = if bx < 0 { 0 } else { bx as u32 };
    let by: u32 = if by < 0 { 0 } else { by as u32 };
    let bw = (2 * half_w) as u32;
    let bh = (half_h / 2 + 4) as u32;
    fill_rect_xy(buf, bx, by, bw, bh, true);
    proof {
        lemma_within_trans(&b0, &b3, buf, zx, zy, zw, zh, bx as int, by as int, bw as int, bh as int, zx, zy, zw, zh);
        lemma_paint_darkens(&b3, buf, bx as int, by as int, bw as int, bh as int);
        lemma_darkens_trans(&b0, &b1, &b2);
        lemma_darkens_trans(&b0, &b2, &b3);
        lemma_darkens_trans(&b0, &b3, buf);
        assert forall|px: int, py: int| #[trigger] buf.in_bounds(px, py) && cloud_shape(cx as int, cy as int, half_w as int, half_h as int, px, py)
            implies buf.black_at(px, py) by {
            assert(b1.in_bounds(px, py) && b2.in_bounds(px, py) && b3.in_bounds(px, py));
        }
    }
}

/// Whether drop `i` of `count` rain drops in an area `area_w` wide at (x, y)
/// is drawn: a 2-pixel stroke from `(x + i·s, y + 6·(i mod 3))`, 3 right and
/// 8 down, where `s` is the width shared out among the drops.
pub open spec fn rain_drop_drawn(b: PixelBuffer, x: int, y: int, area_w: int, count: int, i: int) -> bool {
    let spacing = area_w / (if count < 1 { 1 } else { count });
    let dx = x + i * spacing;
    let dy = y + (i % 3) * 6;
    stroke_drawn(b, dx, dy, dx + 3, dy + 8, 2)
}

/// Rain drops: short diagonal strokes.
fn draw_rain_drops(buf: &mut PixelBuffer, x: u32, y: u32, area_w: u32, area_h: u32, count: u32)
    requires
        old(buf).wf(),
        x <= ICON_COORD_MAX,
        y <= ICON_COORD_MAX,
        area_w <= 64,
        area_h <= 64,
        count <= 16,
    ensures
        final(buf).drawn_within(old(buf), x as int, y as int, area_w as int + 5, 22),
        final(buf).darkens(old(buf)),
        forall|i: int| 0 <= i < count && (i % 3) * 6 + 8 <= area_h
            ==> #[trigger] rain_drop_drawn(*final(buf), x as int, y as int, area_w as int, count as int, i),
{
    let ghost b0 = *buf;
    proof {
        lemma_within_refl(&b0, x as int, y as int, area_w as int + 5, 22);
    }
    let spacing = area_w / if count < 1 { 1 } else { count };
    let mut i: u32 = 0;
    while i < count
        invariant
            i <= count,
            count <= 16,
            area_w <= 64,
            area_h <= 64,
            x <= ICON_COORD_MAX,
            y <= ICON_COORD_MAX,
            spacing == area_w / if count < 1 { 1u32 } else { count },
            buf.drawn_within(&b0, x as int, y as int, area_w as int + 5, 22),
            buf.darkens(&b0),
            forall|j: int| 0 <= j < i && (j % 3) * 6 + 8 <= area_h
                ==> #[trigger] rain_drop_drawn(*buf, x as int, y as int, area_w as int, count as int, j),
        decreases count - i,
    {
        assert(i * spacing <= area_w) by (nonlinear_arith)
            requires i < count, spacing == area_w / count, count >= 1;
        let dx = x + i * spacing;
        let offset = (i % 3) * 6;
        let dy = y + offset;
        if dy + 8 <= y + area_h {
            let ghost before = *buf;
            draw_line_thick(buf, dx, dy, dx + 3, dy + 8, 2);
            proof {
                assert(i * spacing + spacing <= area_w) by (nonlinear_arith)
                    requires i < count, spacing == area_w / count, count >= 1;
                lemma_within_trans(&b0, &before, buf, x as int, y as int, area_w as int + 5, 22,
                    dx as int, dy as int, 5, 10, x as int, y as int, area_w as int + 5, 22);
                lemma_darkens_trans(&b0, &before, buf);
                assert forall|j: int| 0 <= j < i + 1 && (j % 3) * 6 + 8 <= area_h
                    implies #[trigger] rain_drop_drawn(*buf, x as int, y as int, area_w as int, count as int, j) by {
                    if j < i {
                        let sp = area_w / (if count < 1 { 1u32 } else { count });
                        assert(rain_drop_drawn(before, x as int, y as int, area_w as int, count as int, j));
                        lemma_stroke_darkens(before, *buf, x + j * sp, y + (j % 3) * 6, x + j * sp + 3, y + (j % 3) * 6 + 8, 2);
                    }
                }
            }
        }
        i = i + 1;
    }
}

/// Whether (px, py) is in the 4×4 flake in column `c` of row `r` of the snow
/// drawn in the `area_w`×`area_h` area at (x, y): five columns a fifth of the
/// width apart, two rows half the height apart, the second row shifted right
/// by half a column.
pub open spec fn on_snow_dot(x: int, y: int, area_w: int, area_h: int, r: int, c: int, px: int, py: int) -> bool {
    let col_step = area_w / 5;
    let row_step = area_h / 2;
    in_box(px, py, x + c * col_step + (if r == 0 { 0 } else { col_step / 2 }), y + r * row_step, 4, 4)
}

/// Snow: two staggered rows of small squares.
fn draw_snow_dots(buf: &mut PixelBuffer, x: u32, y: u32, area_w: u32, area_h: u32)
    requires
        old(buf).wf(),
        x <= ICON_COORD_MAX,
        y <= ICON_COORD_MAX,
        area_w <= 64,
        area_h <= 64,
    ensures
        final(buf).drawn_within(old(buf), x as int, y as int, area_w as int + 4, area_h as int + 4),
        final(buf).darkens(old(buf)),
        forall|r: int, c: int, px: int, py: int| 0 <= r < 2 && 0 <= c < 5 && final(buf).in_bounds(px, py)
            && #[trigger] on_snow_dot(x as int, y as int, area_w as int, area_h as int, r, c, px, py) ==> final(buf).black_at(px, py),
{
    let ghost b0 = *buf;
    proof {
        lemma_within_refl(&b0, x as int, y as int, area_w as int + 4, area_h as int + 4);
    }
    let cols = 5u32;
    let rows = 2u32;
    let col_step = area_w / cols;
    let row_step = area_h / rows;
    let mut r: u32 = 0;
    while r < rows
        invariant
            r <= rows,
            rows == 2,
            cols == 5,
            col_step == area_w / 5,
            row_step == area_h / 2,
            area_w <= 64,
            area_h <= 64,
            x <= ICON_COORD_MAX,
            y <= ICON_COORD_MAX,
            buf.drawn_within(&b0, x as int, y as int, area_w as int + 4, area_h as int + 4),
            buf.darkens(&b0),
            forall|rr: int, cc: int, px: int, py: int| 0 <= rr < r && 0 <= cc < 5 && buf.in_bounds(px, py)
                && #[trigger] on_snow_dot(x as int, y as int, area_w as int, area_h as int, rr, cc, px, py) ==> buf.black_at(px, py),
        decreases rows - r,
    {
        let mut c: u32 = 0;
        while c < cols
            invariant
                r < rows,
                c <= cols,
                rows == 2,
                cols == 5,
                col_step == area_w / 5,
                row_step == area_h / 2,
                area_w <= 64,
                area_h <= 64,
                x <= ICON_COORD_MAX,
                y <= ICON_COORD_MAX,
                buf.drawn_within(&b0, x as int, y as int, area_w as int + 4, area_h as int + 4),
                buf.darkens(&b0),
                forall|rr: int, cc: int, px: int, py: int| 0 <= cc < 5 && (0 <= rr < r || (rr == r && cc < c)) && buf.in_bounds(px, py)
                    && #[trigger] on_snow_dot(x as int, y as int, area_w as int, area_h as int, rr, cc, px, py) ==> buf.black_at(px, py),
            decreases cols - c,
        {
            let offset = if r == 0 { 0 } else { col_step / 2 };
            assert(c * col_step <= 4 * col_step && r * row_step <= row_step) by (nonlinear_arith)
                requires c < 5, r < 2, col_step >= 0, row_step >= 0;
            let sx = x + c * col_step + offset;
            let sy = y + r * row_step;
            let ghost before = *buf;
            fill_rect_xy(buf, sx, sy, 4, 4, true);
            proof {
                lemma_within_trans(&b0, &before, buf, x as int, y as int, area_w as int + 4, area_h as int + 4,
                    sx as int, sy as int, 4, 4, x as int, y as int, area_w as int + 4, area_h as int + 4);
                lemma_paint_darkens(&before, buf, sx as int, sy as int, 4, 4);
                lemma_darkens_trans(&b0, &before, buf);
                assert forall|rr: int, cc: int, px: int, py: int| 0 <= cc < 5 && (0 <= rr < r || (rr == r && cc < c + 1)) && buf.in_bounds(px, py)
                    && #[trigger] on_snow_dot(x as int, y as int, area_w as int, area_h as int, rr, cc, px, py) implies buf.black_at(px, py) by {
                    assert(before.in_bounds(px, py));
                }
            }
            c = c + 1;
        }
        r = r + 1;
    }
}

/// The `k`-th corner of the lightning bolt drawn at (x, y): (x + 10, y),
/// (x + 4, y + 12), (x + 8, y + 12), (x + 2, y + 24), (x + 12, y + 10).
pub open spec fn bolt_corner(x: int, y: int, k: int) -> (int, int) {
    if k == 0 {
        (x + 10, y)
    } else if k == 1 {
        (x + 4, y + 12)
    } else if k == 2 {
        (x + 8, y + 12)
    } else if k == 3 {
        (x + 2, y + 24)
    } else {
        (x + 12, y + 10)
    }
}

/// Whether the `k`-th stroke of the bolt, from corner `k` to corner `k + 1`
/// with a 3-pixel brush, is drawn.
pub open spec fn bolt_stroke_drawn(b: PixelBuffer, x: int, y: int, k: int) -> bool {
    stroke_drawn(b, bolt_corner(x, y, k).0, bolt_corner(x, y, k).1, bolt_corner(x, y, k + 1).0, bolt_corner(x, y, k + 1).1, 3)
}

/// Lightning bolt: a zigzag of thick strokes.
fn draw_lightning(buf: &mut PixelBuffer, x: u32, y: u32)
    requires
        old(buf).wf(),
        x <= ICON_COORD_MAX,
        y <= ICON_COORD_MAX,
    ensures
        final(buf).drawn_within(old(buf), x as int, y as int, 15, 27),
        final(buf).darkens(old(buf)),
        forall|k: int| 0 <= k < 4 ==> #[trigger] bolt_stroke_drawn(*final(buf), x as int, y as int, k),
{
    let ghost b0 = *buf;
    proof {
        lemma_within_refl(&b0, x as int, y as int, 15, 27);
    }
    let pts: [(u32, u32); 5] = [(x + 10, y), (x + 4, y + 12), (x + 8, y + 12), (x + 2, y + 24), (x + 12, y + 10)];
    assert(pts@[0].0 == x + 10 && pts@[0].1 == y && pts@[1].0 == x + 4 && pts@[1].1 == y + 12);
    assert(pts@[2].0 == x + 8 && pts@[2].1 == y + 12 && pts@[3].0 == x + 2 && pts@[3].1 == y + 24);
    assert(pts@[4].0 == x + 12 && pts@[4].1 == y + 10);
    let mut k: usize = 0;
    while k + 1 < 5
        invariant
            k <= 4,
            x <= ICON_COORD_MAX,
            y <= ICON_COORD_MAX,
            pts@.len() == 5,
            forall|j: int| 0 <= j < 5 ==> x <= (#[trigger] pts@[j]).0 <= x + 12 && y <= pts@[j].1 <= y + 24,
            forall|j: int| 0 <= j < 5 ==> (#[trigger] pts@[j]).0 == bolt_corner(x as int, y as int, j).0
                && pts@[j].1 == bolt_corner(x as int, y as int, j).1,
            buf.drawn_within(&b0, x as int, y as int, 15, 27),
            buf.darkens(&b0),
            forall|j: int| 0 <= j < k ==> #[trigger] bolt_stroke_drawn(*buf, x as int, y as int, j),
        decreases 4 - k,
    {
        let (x0, y0) = pts[k];
        let (x1, y1) = pts[k + 1];
        let ghost before = *buf;
        draw_line_thick(buf, x0, y0, x1, y1, 3);
        proof {
            lemma_within_trans(&b0, &before, buf, x as int, y as int, 15, 27,
                min_of(x0 as int, x1 as int), min_of(y0 as int, y1 as int), dist(x0 as int, x1 as int) + 3, dist(y0 as int, y1 as int) + 3,
                x as int, y as int, 15, 27);
            lemma_darkens_trans(&b0, &before, buf);
            assert forall|j: int| 0 <= j < k + 1 implies #[trigger] bolt_stroke_drawn(*buf, x as int, y as int, j) by {
                if j < k {
                    assert(bolt_stroke_drawn(before, x as int, y as int, j));
                    lemma_stroke_darkens(before, *buf, bolt_corner(x as int, y as int, j).0, bolt_corner(x as int, y as int, j).1,
                        bolt_corner(x as int, y as int, j + 1).0, bolt_corner(x as int, y as int, j + 1).1, 3);
                } else {
                    assert(pts@[j] == pts@[k as int]);
                    assert(pts@[j + 1] == pts@[k + 1]);
                }
            }
        }
        k = k + 1;
    }
}

/// Whether (px, py) lies on one of the four fog bars of an icon at (x, y):
/// bars 56 wide and 3 tall, 10 rows apart, from row `y + 18`.
pub open spec fn on_fog_bar(x: int, y: int, px: int, py: int) -> bool {
    &&& x + 4 <= px < x + 60
    &&& y + 18 <= py < y + 58
    &&& (py - y - 18) % 10 < 3
}

/// Whether (px, py) lies on one of the three wind gusts of an icon at
/// (x, y): a bar 48 wide and a tail 8 wide, 4 rows lower, every 12 rows.
pub open spec fn on_wind_gust(x: int, y: int, px: int, py: int) -> bool {
    ||| (x + 4 <= px < x + 52 && y + 20 <= py < y + 56 && (py - y - 20) % 12 < 3)
    ||| (x + 52 <= px < x + 60 && y + 24 <= py < y + 60 && (py - y - 24) % 12 < 3)
}

/// The solid part of the pictogram for `icon` at (x, y): the sun's disc,
/// the cloud, the fog bars or the wind gusts. Rays, drops, flakes and bolts
/// are drawn around it.
pub open spec fn icon_core(icon: WeatherIcon, x: int, y: int, px: int, py: int) -> bool {
    let cx = x + 32;
    let cy = y + 32;
    match icon {
        WeatherIcon::Clear => in_disc(px, py, cx, cy, 14),
        WeatherIcon::PartlyCloudy => in_disc(px, py, cx - 10, cy - 10, 9) || cloud_shape(cx + 2, cy + 8, 28, 16, px, py),
        WeatherIcon::MostlyCloudy => in_disc(px, py, cx - 14, cy - 14, 7) || cloud_shape(cx - 4, cy + 2, 34, 20, px, py),
        WeatherIcon::Overcast => cloud_shape(cx, cy, 40, 24, px, py),
        WeatherIcon::Rain | WeatherIcon::HeavyRain | WeatherIcon::Drizzle | WeatherIcon::Snow => cloud_shape(cx, cy - 8, 36, 20, px, py),
        WeatherIcon::Thunderstorm => cloud_shape(cx, cy - 12, 36, 20, px, py),
        WeatherIcon::Fog => on_fog_bar(x, y, px, py),
        WeatherIcon::Wind => on_wind_gust(x, y, px, py),
    }
}

/// Whether the details of the pictogram for `icon` at (x, y) are on `b`:
/// the full sun's eight 3×3 rays; the small sun's four 2×2 rays; six rain
/// drops across 44 pixels from (x + 10, y + 36), nine across 52 from
/// (x + 6, y + 36) for heavy rain, four across 36 from (x + 14, y + 36) for
/// drizzle; ten snow flakes in the 48×20 area at (x + 8, y + 38); the four
/// strokes of the lightning bolt from (x + 28, y + 32). Other pictograms
/// have no details beyond their solid part.
pub open spec fn icon_details_drawn(b: PixelBuffer, icon: WeatherIcon, x: int, y: int) -> bool {
    let cx = x + 32;
    let cy = y + 32;
    match icon {
        WeatherIcon::Clear => forall|k: int, px: int, py: int| 0 <= k < 8 && b.in_bounds(px, py)
            && #[trigger] on_ray(sun_ray_offsets()[k], cx, cy, 3, px, py) ==> b.black_at(px, py),
        WeatherIcon::PartlyCloudy => forall|k: int, px: int, py: int| 0 <= k < 4 && b.in_bounds(px, py)
            && #[trigger] on_ray(small_ray_offsets()[k], cx - 10, cy - 10, 2, px, py) ==> b.black_at(px, py),
        WeatherIcon::Rain => forall|i: int| 0 <= i < 6 && (i % 3) * 6 + 8 <= 24
            ==> #[trigger] rain_drop_drawn(b, x + 10, y + 36, 44, 6, i),
        WeatherIcon::HeavyRain => forall|i: int| 0 <= i < 9 && (i % 3) * 6 + 8 <= 24
            ==> #[trigger] rain_drop_drawn(b, x + 6, y + 36, 52, 9, i),
        WeatherIcon::Drizzle => forall|i: int| 0 <= i < 4 && (i % 3) * 6 + 8 <= 20
            ==> #[trigger] rain_drop_drawn(b, x + 14, y + 36, 36, 4, i),
        WeatherIcon::Snow => forall|r: int, c: int, px: int, py: int| 0 <= r < 2 && 0 <= c < 5 && b.in_bounds(px, py)
            && #[trigger] on_snow_dot(x + 8, y + 38, 48, 20, r, c, px, py) ==> b.black_at(px, py),
        WeatherIcon::Thunderstorm => forall|k: int| 0 <= k < 4 ==> #[trigger] bolt_stroke_drawn(b, x + 28, y + 32, k),
        _ => true,
    }
}

/// Width of the area an icon at column `x` may draw in, from `x - 8`: up to
/// `x + 73`, or up to column 80 when a cloud's base box, which would start
/// left of column 0, is moved to column 0.
pub open spec fn icon_zone_w(x: int) -> int {
    if x < 7 { 88 - x } else { 81 }
}

/// Draw the pictogram for `icon` in the 64×64 area at (x, y); strokes may
/// reach a few pixels past that area, never past `(x - 8, y - 8)` to
/// `(x + 73, y + 64)` (to column 80 for an icon near the left edge). Only ink is added, the solid part of the pictogram
/// is black, and its details (rays, drops, flakes, bolt) are drawn.
pub fn draw_weather_icon(buf: &mut PixelBuffer, x: u32, y: u32, icon: &WeatherIcon)
    requires
        old(buf).wf(),
        x <= 0x7FFF_FE00,
        y <= 0x7FFF_FE00,
    ensures
        final(buf).drawn_within(old(buf), x - 8, y - 8, icon_zone_w(x as int), 72),
        final(buf).darkens(old(buf)),
        forall|px: int, py: int| #[trigger] final(buf).in_bounds(px, py) && icon_core(*icon, x as int, y as int, px, py)
            ==> final(buf).black_at(px, py),
        icon_details_drawn(*final(buf), *icon, x as int, y as int),
{
    let ghost b0 = *buf;
    let ghost (zx, zy, zw, zh) = (x - 8, y - 8, icon_zone_w(x as int), 72int);
    let cx = x as i32 + 32;
    let cy = y as i32 + 32;
    match icon {
        WeatherIcon::Clear => {
            draw_icon_sun(buf, cx, cy);
            proof {
                assert forall|px: int, py: int| #[trigger] buf.in_bounds(px, py) && !in_box(px, py, zx, zy, zw, zh)
                    implies buf.black_at(px, py) == b0.black_at(px, py) by {
                    assert(!in_box(px, py, cx - 23, cy - 23, 47, 47));
                }
            }
        },
        WeatherIcon::PartlyCloudy => {
            draw_icon_sun_small(buf, cx - 10, cy - 10);
            let ghost b1 = *buf;
            draw_icon_cloud(buf, cx + 2, cy + 8, 28, 16);
            proof {
                assert forall|k: int, px: int, py: int| 0 <= k < 4 && buf.in_bounds(px, py)
                    && #[trigger] on_ray(small_ray_offsets()[k], cx - 10, cy - 10, 2, px, py) implies buf.black_at(px, py) by {
                    assert(b1.in_bounds(px, py));
                }
                lemma_within_trans(&b0, &b1, buf, cx - 33, cy - 33, 47, 47, cx + 2 - 28, cy + 8 - 20, cloud_zone_w(cx + 2, 28), 26, zx, zy, zw, zh);
                lemma_darkens_trans(&b0, &b1, buf);
                assert forall|px: int, py: int| #[trigger] buf.in_bounds(px, py) && icon_core(*icon, x as int, y as int, px, py)
                    implies buf.black_at(px, py) by {
                    assert(b1.in_bounds(px, py));
                }
            }
        },
        WeatherIcon::MostlyCloudy => {
            draw_icon_sun_tiny(buf, cx - 14, cy - 14);
            let ghost b1 = *buf;
            draw_icon_cloud(buf, cx - 4, cy + 2, 34, 20);
            proof {
                lemma_within_trans(&b0, &b1, buf, cx - 21, cy - 21, 15, 15, cx - 4 - 34, cy + 2 - 26, cloud_zone_w(cx - 4, 34), 32, zx, zy, zw, zh);
                lemma_darkens_trans(&b0, &b1, buf);
                assert forall|px: int, py: int| #[trigger] buf.in_bounds(px, py) && icon_core(*icon, x as int, y as int, px, py)
                    implies buf.black_at(px, py) by {
                    assert(b1.in_bounds(px, py));
                }
            }
        },
        WeatherIcon::Overcast => {
            draw_icon_cloud(buf, cx, cy, 40, 24);
        },
        WeatherIcon::Rain => {
            draw_icon_cloud(buf, cx, cy - 8, 36, 20);
            let ghost b1 = *buf;
            draw_rain_drops(buf, x + 10, y + 36, 44, 24, 6);
            proof {
                lemma_within_trans(&b0, &b1, buf, cx - 36, cy - 8 - 26, cloud_zone_w(cx as int, 36), 32, x + 10, y + 36, 49, 22, zx, zy, zw, zh);
                lemma_darkens_trans(&b0, &b1, buf);
                assert forall|px: int, py: int| #[trigger] buf.in_bounds(px, py) && icon_core(*icon, x as int, y as int, px, py)
                    implies buf.black_at(px, py) by {
                    assert(b1.in_bounds(px, py));
                }
            }
        },
        WeatherIcon::HeavyRain => {
            draw_icon_cloud(buf, cx, cy - 8, 36, 20);
            let ghost b1 = *buf;
            draw_rain_drops(buf, x + 6, y + 36, 52, 24, 9);
            proof {
                lemma_within_trans(&b0, &b1, buf, cx - 36, cy - 8 - 26, cloud_zone_w(cx as int, 36), 32, x + 6, y + 36, 57, 22, zx, zy, zw, zh);
                lemma_darkens_trans(&b0, &b1, buf);
                assert forall|px: int, py: int| #[trigger] buf.in_bounds(px, py) && icon_core(*icon, x as int, y as int, px, py)
                    implies buf.black_at(px, py) by {
                    assert(b1.in_bounds(px, py));
                }
            }
        },
        WeatherIcon::Drizzle => {
            draw_icon_cloud(buf, cx, cy - 8, 36, 20);
            let ghost b1 = *buf;
            draw_rain_drops(buf, x + 14, y + 36, 36, 20, 4);
            proof {
                lemma_within_trans(&b0, &b1, buf, cx - 36, cy - 8 - 26, cloud_zone_w(cx as int, 36), 32, x + 14, y + 36, 41, 22, zx, zy, zw, zh);
                lemma_darkens_trans(&b0, &b1, buf);
                assert forall|px: int, py: int| #[trigger] buf.in_bounds(px, py) && icon_core(*icon, x as int, y as int, px, py)
                    implies buf.black_at(px, py) by {
                    assert(b1.in_bounds(px, py));
                }
            }
        },
        WeatherIcon::Snow => {
            draw_icon_cloud(buf, cx, cy - 8, 36, 20);
            let ghost b1 = *buf;
            draw_snow_dots(buf, x + 8, y + 38, 48, 20);
            proof {
                lemma_within_trans(&b0, &b1, buf, cx - 36, cy - 8 - 26, cloud_zone_w(cx as int, 36), 32, x + 8, y + 38, 52, 24, zx, zy, zw, zh);
                lemma_darkens_trans(&b0, &b1, buf);
                assert forall|px: int, py: int| #[trigger] buf.in_bounds(px, py) && icon_core(*icon, x as int, y as int, px, py)
                    implies buf.black_at(px, py) by {
                    assert(b1.in_bounds(px, py));
                }
            }
        },
        WeatherIcon::Thunderstorm => {
            draw_icon_cloud(buf, cx, cy - 12, 36, 20);
            let ghost b1 = *buf;
            draw_lightning(buf, x + 28, y + 32);
            proof {
                lemma_within_trans(&b0, &b1, buf, cx - 36, cy - 12 - 26, cloud_zone_w(cx as int, 36), 32, x + 28, y + 32, 15, 27, zx, zy, zw, zh);
                lemma_darkens_trans(&b0, &b1, buf);
                assert forall|px: int, py: int| #[trigger] buf.in_bounds(px, py) && icon_core(*icon, x as int, y as int, px, py)
                    implies buf.black_at(px, py) by {
                    assert(b1.in_bounds(px, py));
                }
            }
        },
        WeatherIcon::Fog => {
            proof {
                lemma_within_refl(&b0, zx, zy, zw, zh);
            }
            let mut i: u32 = 0;
            while i < 4
                invariant
                    i <= 4,
                    x <= 0x7FFF_FE00,
                    y <= 0x7FFF_FE00,
                    zx == x - 8,
                    zy == y - 8,
                    zw == icon_zone_w(x as int),
                    zh == 72,
                    buf.drawn_within(&b0, zx, zy, zw, zh),
                    buf.darkens(&b0),
                    forall|px: int, py: int| #[trigger] buf.in_bounds(px, py) && on_fog_bar(x as int, y as int, px, py) && py < y + 18 + 10 * i
                        ==> buf.black_at(px, py),
                decreases 4 - i,
            {
                let ghost before = *buf;
                hline(buf, x + 4, y + 18 + i * 10, 56, 3);
                proof {
                    lemma_within_trans(&b0, &before, buf, zx, zy, zw, zh, x + 4, y + 18 + i * 10, 56, 3, zx, zy, zw, zh);
                    lemma_darkens_trans(&b0, &before, buf);
                    assert forall|px: int, py: int| #[trigger] buf.in_bounds(px, py) && on_fog_bar(x as int, y as int, px, py) && py < y + 18 + 10 * (i + 1)
                        implies buf.black_at(px, py) by {
                        assert(before.in_bounds(px, py));
                        if py >= y + 18 + 10 * i {
                            lemma_mod_in_step(py - y - 18, 10, i as int);
                        }
                    }
                }
                i = i + 1;
            }
        },
        WeatherIcon::Wind => {
            proof {
                lemma_within_refl(&b0, zx, zy, zw, zh);
            }
            let mut i: u32 = 0;
            while i < 3
                invariant
                    i <= 3,
                    x <= 0x7FFF_FE00,
                    y <= 0x7FFF_FE00,
                    zx == x - 8,
                    zy == y - 8,
                    zw == icon_zone_w(x as int),
                    zh == 72,
                    buf.drawn_within(&b0, zx, zy, zw, zh),
                    buf.darkens(&b0),
                    forall|px: int, py: int| #[trigger] buf.in_bounds(px, py) && on_wind_gust(x as int, y as int, px, py) && py < y + 20 + 12 * i
                        ==> buf.black_at(px, py),
                decreases 3 - i,
            {
                let ghost before = *buf;
                hline(buf, x + 4, y + 20 + i * 12, 48, 3);
                let ghost mid = *buf;
                hline(buf, x + 52, y + 24 + i * 12, 8, 3);
                proof {
                    lemma_within_trans(&b0, &before, &mid, zx, zy, zw, zh, x + 4, y + 20 + i * 12, 48, 3, zx, zy, zw, zh);
                    lemma_within_trans(&b0, &mid, buf, zx, zy, zw, zh, x + 52, y + 24 + i * 12, 8, 3, zx, zy, zw, zh);
                    lemma_darkens_trans(&b0, &before, &mid);
                    lemma_darkens_trans(&b0, &mid, buf);
                    assert forall|px: int, py: int| #[trigger] buf.in_bounds(px, py) && on_wind_gust(x as int, y as int, px, py) && py < y + 20 + 12 * (i + 1)
                        implies buf.black_at(px, py) by {
                        assert(before.in_bounds(px, py) && mid.in_bounds(px, py));
                        if py >= y + 20 + 12 * i {
                            lemma_mod_in_step(py - y - 20, 12, i as int);
                            if py >= y + 24 + 12 * i {
                                lemma_mod_in_step(py - y - 24, 12, i as int);
                            } else if i >= 1 {
                                lemma_mod_in_step(py - y - 24, 12, i - 1);
                            }
                        }
                    }
                }
                i = i + 1;
            }
        },
    }
}

/// The solid part of an icon at (x, y) lies in the box the icon is drawn in.
pub proof fn lemma_icon_core_box(icon: WeatherIcon, x: int, y: int, px: int, py: int)
    requires
        0 <= x,
        icon_core(icon, x, y, px, py),
    ensures
        in_box(px, py, x - 8, y - 8, icon_zone_w(x), 72),
{
    let cx = x + 32;
    let cy = y + 32;
    match icon {
        WeatherIcon::PartlyCloudy => {
            assert(cloud_shape(cx + 2, cy + 8, 28, 16, px, py) ==> in_box(px, py, cx - 26, cy - 16, 56, 28));
            assert(in_disc(px, py, cx - 10, cy - 10, 9) ==> in_box(px, py, cx - 19, cy - 19, 19, 19));
        },
        WeatherIcon::MostlyCloudy => {
            assert(cloud_shape(cx - 4, cy + 2, 34, 20, px, py) ==> in_box(px, py, cx - 38, cy - 24, 74, 40));
            assert(in_disc(px, py, cx - 14, cy - 14, 7) ==> in_box(px, py, cx - 21, cy - 21, 15, 15));
        },
        WeatherIcon::Overcast => {
            assert(cloud_shape(cx, cy, 40, 24, px, py) ==> in_box(px, py, cx - 40, cy - 32, 88, 48));
        },
        WeatherIcon::Thunderstorm => {
            assert(cloud_shape(cx, cy - 12, 36, 20, px, py) ==> in_box(px, py, cx - 36, cy - 38, 76, 40));
        },
        WeatherIcon::Rain | WeatherIcon::HeavyRain | WeatherIcon::Drizzle | WeatherIcon::Snow => {
            assert(cloud_shape(cx, cy - 8, 36, 20, px, py) ==> in_box(px, py, cx - 36, cy - 34, 76, 40));
        },
        _ => {},
    }
}

/// Within the `k`-th step of length `d`, the remainder is the offset into it.
proof fn lemma_mod_in_step(n: int, d: int, k: int)
    requires
        0 < d,
        0 <= k,
        k * d <= n < k * d + d,
    ensures
        n % d == n - k * d,
{
    vstd::arithmetic::div_mod::lemma_fundamental_div_mod_converse(n, d, k, n - k * d);
}

} // verus!
