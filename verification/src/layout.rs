//! The four-zone layout of the 800×480 display: header, hero (decision and
//! weather), data (river and ferry) and context (trail and road).
use vstd::prelude::*;
use crate::render::{PixelBuffer, in_box, lemma_within_trans, lemma_within_widen, lemma_paint_darkens, lemma_darkens_trans, lemma_darkens_refl};
use crate::draw::{fill_rect_xy, hline, vline, draw_line_thick, min_of, dist};
use crate::icons::{lemma_within_refl, draw_weather_icon, icon_core, lemma_icon_core_box};
use crate::font::FontSize;
use crate::glyphs::{draw_text_scaled, draw_text_right, draw_text_centered, clear_text_centered, fitting, text_ink, centered_start, right_start};
use crate::presentation::{
    DisplayLayout, HeaderContent, HeroContent, HeroDecision, DataContent, RiverContent, FerryContent,
    ContextContent, RoadContent, TrendArrow, WeatherContent,
};
use crate::render::lemma_within_step;
use crate::text::{append_str, chars_of, contains_chars, has_infix, sub_chars, i64_to_string, lemma_decimal_len_u64, lowercase, uppercase, signed_decimal,
    string_from_chars, tenths_to_string, tenths_text, to_lowercase, to_uppercase, u64_to_string, decimal};
use crate::wrap::{wrap_text, wrap_lines};

verus! {

/// Largest coordinate the layout draws at.
pub const LAYOUT_COORD_MAX: u32 = 100_000;

/// Pixel row of a sparkline value: the lowest value sits at the bottom of the
/// inner area, the highest at its top.
pub open spec fn spark_row(v: int, min_v: int, range: int, y: int, h: int) -> int {
    let off = (range - (v - min_v)) * (h - 3) / range;
    y + 1 + if off < h - 3 { off } else { h - 3 }
}

/// Pixel column of the `i`-th of `n` sparkline points across width `w`.
pub open spec fn spark_col(i: int, n: int, x: int, w: int) -> int {
    x + (i * w) / (if n - 1 < 1 { 1 } else { n - 1 })
}

/// Smallest value of a non-empty sequence.
pub open spec fn seq_min(s: Seq<i64>) -> int
    decreases s.len(),
{
    if s.len() <= 1 {
        s[0] as int
    } else {
        let m = seq_min(s.drop_last());
        if (s.last() as int) < m { s.last() as int } else { m }
    }
}

/// Largest value of a non-empty sequence.
pub open spec fn seq_max(s: Seq<i64>) -> int
    decreases s.len(),
{
    if s.len() <= 1 {
        s[0] as int
    } else {
        let m = seq_max(s.drop_last());
        if (s.last() as int) > m { s.last() as int } else { m }
    }
}

proof fn lemma_min_max(s: Seq<i64>)
    requires
        s.len() >= 1,
    ensures
        forall|i: int| 0 <= i < s.len() ==> seq_min(s) <= #[trigger] s[i] <= seq_max(s),
        i64::MIN <= seq_min(s) <= seq_max(s) <= i64::MAX,
    decreases s.len(),
{
    if s.len() > 1 {
        lemma_min_max(s.drop_last());
        assert forall|i: int| 0 <= i < s.len() implies seq_min(s) <= #[trigger] s[i] <= seq_max(s) by {
            if i < s.len() - 1 {
                assert(s[i] == s.drop_last()[i]);
            }
        }
    }
}

/// Row of value `v`, computed exactly.
fn value_row(v: i64, min_v: i64, range: i128, y: u32, h: u32) -> (r: u32)
    requires
        range >= 1,
        range <= 0x2_0000_0000_0000_0000,
        min_v <= v,
        v - min_v <= range,
        h >= 4,
        y + h <= u32::MAX,
    ensures
        r == spark_row(v as int, min_v as int, range as int, y as int, h as int),
        y + 1 <= r <= y + h - 2,
{
    let span: i128 = range - (v as i128 - min_v as i128);
    assert(0 <= span * (h - 3) <= range * (h - 3)) by (nonlinear_arith)
        requires 0 <= span <= range, h >= 4;
    assert(range * (h - 3) <= 0x2_0000_0000_0000_0000 * 0x1_0000_0000) by (nonlinear_arith)
        requires 1 <= range <= 0x2_0000_0000_0000_0000, h <= 0x1_0000_0000;
    let off: i128 = span * (h as i128 - 3) / range;
    let lim: i128 = h as i128 - 3;
    let o: i128 = if off < lim { off } else { lim };
    assert(0 <= off) by {
        vstd::arithmetic::div_mod::lemma_div_pos_is_pos(span * (h - 3), range as int);
    }
    y + 1 + o as u32
}

/// The row of the current (last) value of a non-empty sparkline drawn in a
/// box of height `h` at row `y`.
pub open spec fn spark_last_row(vs: Seq<i64>, y: int, h: int) -> int {
    let mn = seq_min(vs);
    let mx = seq_max(vs);
    spark_row(vs.last() as int, mn, if mx - mn < 1 { 1 } else { mx - mn }, y, h)
}

/// Whether a pixel `dx` columns right of a sparkline of width `w`, at row
/// `py`, lies on the dashed flood line drawn at row `row`: dashes 4 pixels
/// long and 2 tall every 6 pixels, each starting at least 4 pixels before
/// the right edge.
pub open spec fn on_flood_dash(dx: int, w: int, py: int, row: int) -> bool {
    &&& 0 <= dx
    &&& dx % 6 < 4
    &&& dx / 6 * 6 + 3 < w
    &&& row <= py < row + 2
}

/// Whether (px, py) is under the 2-pixel pen at the `k`-th value of a
/// sparkline drawn in the `w`×`h` box at (x, y): values are spread evenly
/// from the left edge to the right edge, and scaled between the smallest
/// (bottom) and the largest (top).
pub open spec fn on_spark_point(vs: Seq<i64>, k: int, x: int, y: int, w: int, h: int, px: int, py: int) -> bool {
    let mn = seq_min(vs);
    let mx = seq_max(vs);
    let range = if mx - mn < 1 { 1 } else { mx - mn };
    in_box(px, py, spark_col(k, vs.len() as int, x, w), spark_row(vs[k] as int, mn, range, y, h), 2, 2)
}

/// Draw a sparkline of river levels in the `w`×`h` box at (x, y): a dashed
/// flood line when the threshold is within the range of the values, the
/// polyline through the values with a 2-pixel pen, and a black 4×4 square on
/// the current (last) value at the right end. With two values or more, the
/// line passes through every value.
#[verifier::spinoff_prover]
pub fn render_sparkline(buf: &mut PixelBuffer, x: u32, y: u32, w: u32, h: u32, spark: &crate::presentation::Sparkline)
    requires
        old(buf).wf(),
        x + w + 2 <= i32::MAX,
        y + h + 2 <= i32::MAX,
    ensures
        final(buf).drawn_within(old(buf), x as int, y - 1, w + 2, h + 1),
        spark.values@.len() == 0 || w < 4 || h < 4 ==> *final(buf) == *old(buf),
        spark.values@.len() > 0 && w >= 4 && h >= 4 ==> forall|px: int, py: int| #[trigger] final(buf).in_bounds(px, py)
            && in_box(px, py, x + w - 4, spark_last_row(spark.values@, y as int, h as int) - 2, 4, 4) ==> final(buf).black_at(px, py),
        spark.values@.len() >= 2 && w >= 4 && h >= 4 ==> forall|k: int, px: int, py: int| 0 <= k < spark.values@.len()
            && final(buf).in_bounds(px, py) && #[trigger] on_spark_point(spark.values@, k, x as int, y as int, w as int, h as int, px, py)
            ==> final(buf).black_at(px, py),
        spark.values@.len() > 0 && w >= 4 && h >= 4 ==> (spark.threshold matches Some(t) ==> (
            seq_min(spark.values@) <= t <= seq_max(spark.values@) ==> forall|px: int, py: int| #[trigger] final(buf).in_bounds(px, py)
            && on_flood_dash(px - x, w as int, py, spark_row(t as int, seq_min(spark.values@),
                if seq_max(spark.values@) - seq_min(spark.values@) < 1 { 1 } else { seq_max(spark.values@) - seq_min(spark.values@) }, y as int, h as int))
            ==> final(buf).black_at(px, py))),
{
    let ghost b0 = *buf;
    let ghost (zx, zy, zw, zh) = (x as int, y - 1, w + 2, h + 1);
    let values = &spark.values;
    if values.len() == 0 || w < 4 || h < 4 {
        return;
    }
    proof {
        lemma_within_refl(&b0, zx, zy, zw, zh);
        lemma_min_max(values@);
    }
    let n = values.len();
    let mut min_v: i64 = values[0];
    let mut max_v: i64 = values[0];
    let mut k: usize = 1;
    while k < n
        invariant
            n == values@.len(),
            1 <= k <= n,
            min_v == seq_min(values@.take(k as int)),
            max_v == seq_max(values@.take(k as int)),
        decreases n - k,
    {
        assert(values@.take(k + 1).drop_last() =~= values@.take(k as int));
        if values[k] < min_v {
            min_v = values[k];
        }
        if values[k] > max_v {
            max_v = values[k];
        }
        k = k + 1;
    }
    assert(values@.take(n as int) =~= values@);
    let diff: i128 = max_v as i128 - min_v as i128;
    let range: i128 = if diff < 1 { 1 } else { diff };

    if let Some(thresh) = spark.threshold {
        if thresh >= min_v && thresh <= max_v {
            let ty = value_row(thresh, min_v, range, y, h);
            let mut dash: u32 = 0;
            while dash + 3 < w
                invariant
                    x + w + 2 <= i32::MAX,
                    y + h + 2 <= i32::MAX,
                    y + 1 <= ty <= y + h - 2,
                    h >= 4,
                    dash <= w + 6,
                    dash % 6 == 0,
                    zx == x, zy == y - 1, zw == w + 2, zh == h + 1,
                    buf.drawn_within(&b0, zx, zy, zw, zh),
                    forall|px: int, py: int| #[trigger] buf.in_bounds(px, py) && on_flood_dash(px - x, w as int, py, ty as int)
                        && (px - x) / 6 * 6 < dash ==> buf.black_at(px, py),
                decreases w + 6 - dash,
            {
                let len: u32 = if 4 < w - dash { 4 } else { w - dash };
                let ghost before = *buf;
                hline(buf, x + dash, ty, len, 2);
                proof {
                    lemma_within_trans(&b0, &before, buf, zx, zy, zw, zh, x + dash, ty as int, len as int, 2, zx, zy, zw, zh);
                    assert forall|px: int, py: int| #[trigger] buf.in_bounds(px, py) && on_flood_dash(px - x, w as int, py, ty as int)
                        && (px - x) / 6 * 6 < dash + 6 implies buf.black_at(px, py) by {
                        assert(before.in_bounds(px, py));
                        vstd::arithmetic::div_mod::lemma_fundamental_div_mod(px - x, 6);
                        vstd::arithmetic::div_mod::lemma_fundamental_div_mod(dash as int, 6);
                    }
                }
                dash = dash + 6;
            }
            proof {
                assert forall|px: int, py: int| #[trigger] buf.in_bounds(px, py) && on_flood_dash(px - x, w as int, py, ty as int)
                    implies buf.black_at(px, py) by {
                }
            }
        }
    }
    let ghost bd = *buf;
    proof {
        lemma_darkens_refl(&bd);
    }

    let steps: u64 = if n - 1 < 1 { 1 } else { (n - 1) as u64 };
    let mut i: usize = 1;
    while i < n
        invariant
            n == values@.len(),
            n >= 1,
            1 <= i <= n,
            steps == if n - 1 < 1 { 1 } else { n - 1 },
            min_v == seq_min(values@),
            max_v == seq_max(values@),
            range == if max_v - min_v < 1 { 1 } else { max_v - min_v },
            forall|j: int| 0 <= j < values@.len() ==> min_v <= #[trigger] values@[j] <= max_v,
            x + w + 2 <= i32::MAX,
            y + h + 2 <= i32::MAX,
            h >= 4,
            w >= 4,
            zx == x, zy == y - 1, zw == w + 2, zh == h + 1,
            buf.drawn_within(&b0, zx, zy, zw, zh),
            bd.same_frame(&b0),
            buf.same_frame(&bd),
            buf.darkens(&bd),
            i >= 2 ==> forall|k: int, px: int, py: int| 0 <= k < i
                && buf.in_bounds(px, py) && #[trigger] on_spark_point(values@, k, x as int, y as int, w as int, h as int, px, py)
                ==> buf.black_at(px, py),
        decreases n - i,
    {
        proof {
            assert(i <= steps);
            assert(steps * w <= 0xFFFF_FFFF_FFFF_FFFF * 0xFFFF_FFFF) by (nonlinear_arith)
                requires steps <= 0xFFFF_FFFF_FFFF_FFFF, w <= 0xFFFF_FFFF, steps >= 0, w >= 0;
            assert((i - 1) * w <= steps * w && i * w <= steps * w) by (nonlinear_arith)
                requires 1 <= i <= steps, w >= 0;
            assert(steps * w / (steps as int) == w) by {
                vstd::arithmetic::div_mod::lemma_div_multiples_vanish(w as int, steps as int);
                assert(steps * w == w * steps) by (nonlinear_arith);
            }
            vstd::arithmetic::div_mod::lemma_div_is_ordered(((i - 1) * w) as int, (steps * w) as int, steps as int);
            vstd::arithmetic::div_mod::lemma_div_is_ordered((i * w) as int, (steps * w) as int, steps as int);
            vstd::arithmetic::div_mod::lemma_div_pos_is_pos(((i - 1) * w) as int, steps as int);
            vstd::arithmetic::div_mod::lemma_div_pos_is_pos((i * w) as int, steps as int);
        }
        let x0: u32 = x + (((i - 1) as u128 * w as u128) / steps as u128) as u32;
        let x1: u32 = x + ((i as u128 * w as u128) / steps as u128) as u32;
        let y0 = value_row(values[i - 1], min_v, range, y, h);
        let y1 = value_row(values[i], min_v, range, y, h);
        let ghost before = *buf;
        draw_line_thick(buf, x0, y0, x1, y1, 2);
        proof {
            lemma_within_trans(&b0, &before, buf, zx, zy, zw, zh,
                min_of(x0 as int, x1 as int), min_of(y0 as int, y1 as int), dist(x0 as int, x1 as int) + 2, dist(y0 as int, y1 as int) + 2,
                zx, zy, zw, zh);
            lemma_darkens_trans(&bd, &before, buf);
            assert forall|k: int, px: int, py: int| 0 <= k < i + 1
                && buf.in_bounds(px, py) && #[trigger] on_spark_point(values@, k, x as int, y as int, w as int, h as int, px, py)
                implies buf.black_at(px, py) by {
                assert(before.in_bounds(px, py));
                if k + 1 < i {
                    assert(before.black_at(px, py));
                } else if k + 1 == i {
                    assert(in_box(px, py, x0 as int, y0 as int, 2, 2));
                } else {
                    assert(in_box(px, py, x1 as int, y1 as int, 2, 2));
                }
            }
        }
        i = i + 1;
    }

    let last_x = x + (w - 4);
    let last_y = value_row(values[n - 1], min_v, range, y, h);
    let my: u32 = if last_y >= 2 { last_y - 2 } else { 0 };
    let ghost before = *buf;
    fill_rect_xy(buf, last_x, my, 4, 4, true);
    proof {
        lemma_within_trans(&b0, &before, buf, zx, zy, zw, zh, last_x as int, my as int, 4, 4, zx, zy, zw, zh);
        assert(last_y == spark_last_row(values@, y as int, h as int));
        lemma_paint_darkens(&before, buf, last_x as int, my as int, 4, 4);
        lemma_darkens_trans(&bd, &before, buf);
        if spark.threshold is Some {
            let t = spark.threshold.unwrap();
            if min_v <= t <= max_v {
                assert forall|px: int, py: int| #[trigger] buf.in_bounds(px, py)
                    && on_flood_dash(px - x, w as int, py, spark_row(t as int, min_v as int, range as int, y as int, h as int))
                    implies buf.black_at(px, py) by {
                    assert(bd.in_bounds(px, py));
                }
            }
        }
        if n >= 2 {
            assert forall|k: int, px: int, py: int| 0 <= k < values@.len()
                && buf.in_bounds(px, py) && #[trigger] on_spark_point(values@, k, x as int, y as int, w as int, h as int, px, py)
                implies buf.black_at(px, py) by {
                assert(before.in_bounds(px, py));
            }
        }
    }
}


// Zone y-offsets and heights (800×480 canvas).
pub const HEADER_Y: u32 = 0;
pub const HEADER_H: u32 = 28;
pub const DIVIDER_H: u32 = 2;
pub const HERO_Y: u32 = 30;
pub const HERO_H: u32 = 202;
pub const DATA_Y: u32 = 234;
pub const DATA_H: u32 = 140;
pub const CONTEXT_Y: u32 = 376;
pub const CONTEXT_H: u32 = 102;

// Column splits.
pub const HERO_LEFT_W: u32 = 490;
pub const HERO_DIVIDER_X: u32 = 492;
pub const HERO_RIGHT_X: u32 = 494;
pub const HERO_RIGHT_W: u32 = 306;
pub const DATA_LEFT_W: u32 = 396;
pub const DATA_DIVIDER_X: u32 = 398;
pub const DATA_RIGHT_X: u32 = 400;
pub const DATA_RIGHT_W: u32 = 400;
pub const CTX_LEFT_W: u32 = 396;
pub const CTX_DIVIDER_X: u32 = 398;
pub const CTX_RIGHT_X: u32 = 400;
pub const CTX_RIGHT_W: u32 = 400;

/// Width of the zone boxes: every column a `u32` can name.
pub open spec fn all_columns() -> int {
    0x1_0000_0000
}

/// Whether the full-width divider rows `y` and `y + 1` are black across the
/// 800 display columns (as far as the buffer reaches).
pub open spec fn divider_drawn(b: PixelBuffer, y: int) -> bool {
    forall|px: int, py: int| #[trigger] b.in_bounds(px, py) && 0 <= px < 800 && (py == y || py == y + 1) ==> b.black_at(px, py)
}

/// Whether pixel (px, py) is ink of the app name in the header: Small type
/// (18-pixel cells, 3-pixel blocks) from (16, 7), cut to 400 pixels.
pub open spec fn header_name_ink(name: Seq<char>, px: int, py: int) -> bool {
    text_ink(name, fitting(name.len() as int, 400, 18), 16, 7, 3, 18, false, px, py)
}

/// Whether pixel (px, py) is ink of the river site's name in the header:
/// Micro type (12-pixel cells, 2-pixel blocks) at row 10, centred in the 400
/// columns from column 200.
pub open spec fn header_site_ink(site: Seq<char>, px: int, py: int) -> bool {
    text_ink(site, fitting(site.len() as int, 400, 12), centered_start(200, 400, site.len() as int, 12), 10, 2, 12, false, px, py)
}

/// Whether pixel (px, py) is ink of "Updated <time>" in the header: Micro
/// type at row 10, right-aligned in the 784 columns from column 0.
pub open spec fn header_updated_ink(ts: Seq<char>, px: int, py: int) -> bool {
    let t = "Updated "@ + ts;
    text_ink(t, fitting(t.len() as int, 784, 12), right_start(0, 784, t.len() as int, 12), 10, 2, 12, false, px, py)
}

/// Whether pixel (px, py) is drawn in the header: the app name, the river
/// site, "Updated <time>", or the divider below.
pub open spec fn header_ink(h: HeaderContent, px: int, py: int) -> bool {
    ||| header_name_ink(h.app_name@, px, py)
    ||| (h.river_site matches Some(site) && header_site_ink(site@, px, py))
    ||| (h.last_updated matches Some(ts) && header_updated_ink(ts@, px, py))
    ||| in_box(px, py, 0, 28, 800, 2)
}

/// Whether pixel (px, py) is ink of the river level, "<feet> ft" in Large
/// type (44-pixel cells, 8-pixel blocks) from (12, 256), cut to 240 pixels.
pub open spec fn river_level_ink(tenths: int, px: int, py: int) -> bool {
    let t = tenths_text(tenths) + " ft"@;
    text_ink(t, fitting(t.len() as int, 240, 44), 12, 256, 8, 44, false, px, py)
}

/// Whether pixel (px, py) is ink of the river flow, "<cfs> cfs" in Medium
/// type (24-pixel cells, 4-pixel blocks) from (12, 316), cut to 372 pixels.
pub open spec fn river_flow_ink(cfs: int, px: int, py: int) -> bool {
    let t = signed_decimal(cfs) + " cfs"@;
    text_ink(t, fitting(t.len() as int, 372, 24), 12, 316, 4, 24, false, px, py)
}

/// Whether pixel (px, py) is ink of the next ferry departure, "Next: <time>"
/// in Large type from (412, 256), cut to 376 pixels.
pub open spec fn ferry_next_ink(departure: Seq<char>, px: int, py: int) -> bool {
    let t = "Next: "@ + departure;
    text_ink(t, fitting(t.len() as int, 376, 44), 412, 256, 8, 44, false, px, py)
}

/// Whether pixel (px, py) is ink of the trend arrow beside the river level:
/// "^" when rising, "v" when falling, in Medium type at (260, 270); a
/// stable level has none.
pub open spec fn trend_ink(trend: TrendArrow, px: int, py: int) -> bool {
    match trend {
        TrendArrow::Rising => text_ink("^"@, 1, 260, 270, 4, 24, false, px, py),
        TrendArrow::Falling => text_ink("v"@, 1, 260, 270, 4, 24, false, px, py),
        TrendArrow::Stable => false,
    }
}

/// Whether pixel (px, py) is ink of the river column's text: the site name
/// in Micro type from (12, 238) cut to 372 pixels, the level, the trend
/// arrow and the flow.
pub open spec fn river_text_ink(r: RiverContent, px: int, py: int) -> bool {
    ||| text_ink(r.site_name@, fitting(r.site_name@.len() as int, 372, 12), 12, 238, 2, 12, false, px, py)
    ||| river_level_ink(r.level_tenths_ft as int, px, py)
    ||| trend_ink(r.trend, px, py)
    ||| river_flow_ink(r.flow_cfs as int, px, py)
}

/// Whether pixel (px, py) is ink of the `k`-th departure after the next one
/// (k = 1, 2): Medium type from (412, 316 + 32(k - 1)), cut to 376 pixels.
pub open spec fn later_departure_ink(departure: Seq<char>, k: int, px: int, py: int) -> bool {
    text_ink(departure, fitting(departure.len() as int, 376, 24), 412, 316 + 32 * (k - 1), 4, 24, false, px, py)
}

/// Whether pixel (px, py) is ink of the ferry column's text: the route in
/// Micro type from (412, 238) cut to 376 pixels, the next departure, the two
/// after it, and the vessel's name in Micro type at row 354, right-aligned
/// in the 384 columns from column 400.
pub open spec fn ferry_text_ink(f: FerryContent, px: int, py: int) -> bool {
    let deps = f.departures@;
    ||| text_ink(f.route@, fitting(f.route@.len() as int, 376, 12), 412, 238, 2, 12, false, px, py)
    ||| (deps.len() > 0 && ferry_next_ink(deps[0]@, px, py))
    ||| (deps.len() > 1 && later_departure_ink(deps[1]@, 1, px, py))
    ||| (deps.len() > 2 && later_departure_ink(deps[2]@, 2, px, py))
    ||| text_ink(f.vessel_name@, fitting(f.vessel_name@.len() as int, 384, 12), right_start(400, 384, f.vessel_name@.len() as int, 12), 354, 2, 12, false, px, py)
}

/// Ink of text drawn from row `y` in blocks of `s` lies in rows `y` to `y + 7s`.
proof fn lemma_text_rows(t: Seq<char>, n: int, x: int, y: int, s: int, cw: int, px: int, py: int)
    requires
        text_ink(t, n, x, y, s, cw, false, px, py),
    ensures
        y <= py < y + 7 * s,
{
}

/// Whether a road status reads as closed: "closed" appears in it, in any case.
pub open spec fn status_closed(status: Seq<char>) -> bool {
    has_infix(lowercase(status), "closed"@)
}

/// Whether pixel (px, py) is ink of "CLOSED" in the closed-road bar: Medium
/// type (24-pixel cells, 4-pixel blocks) at row 404, centred in the bar's
/// 376 columns from column 412 (so from column 528).
pub open spec fn closed_text_ink(px: int, py: int) -> bool {
    text_ink("CLOSED"@, 6, 528, 404, 4, 24, false, px, py)
}

/// Whether pixel (px, py) is ink of an open road's status: the status in
/// capitals, Medium type (24-pixel cells, 4-pixel blocks) from (412, 402),
/// cut to 376 pixels.
pub open spec fn road_status_ink(status: Seq<char>, px: int, py: int) -> bool {
    text_ink(uppercase(status), fitting(uppercase(status).len() as int, 376, 24), 412, 402, 4, 24, false, px, py)
}

/// The wind line of the weather column: direction, speed and chance of
/// precipitation.
pub open spec fn wind_line(w: WeatherContent) -> Seq<char> {
    w.wind_dir@ + " "@ + signed_decimal(w.wind_speed_mph as int) + "mph  PoP "@ + signed_decimal(w.precip_chance_pct as int) + "%"@
}

/// The temperature as shown: whole degrees and "°F".
pub open spec fn temperature_text(w: WeatherContent) -> Seq<char> {
    signed_decimal(w.temperature_f as int) + "\u{B0}F"@
}

/// Whether pixel (px, py) is ink of the weather column's text: the
/// temperature in Large type (44-pixel cells, 8-pixel blocks) at row 42,
/// right-aligned in the 784 columns from column 494; the sky condition in
/// Small type (18-pixel cells, 3-pixel blocks) from (506, 108); or the wind
/// line in Micro type (12-pixel cells, 2-pixel blocks) from (506, 136), the
/// last two cut to 282 pixels.
pub open spec fn weather_text_ink(w: WeatherContent, px: int, py: int) -> bool {
    let t = temperature_text(w);
    ||| text_ink(t, fitting(t.len() as int, 784, 44), right_start(494, 784, t.len() as int, 44), 42, 8, 44, false, px, py)
    ||| text_ink(w.sky_condition@, fitting(w.sky_condition@.len() as int, 282, 18), 506, 108, 3, 18, false, px, py)
    ||| text_ink(wind_line(w), fitting(wind_line(w).len() as int, 282, 12), 506, 136, 2, 12, false, px, py)
}

/// Whether pixel (px, py) belongs to the weather column's icon or text.
pub open spec fn weather_ink(w: WeatherContent, px: int, py: int) -> bool {
    icon_core(w.icon, 506, 38, px, py) || weather_text_ink(w, px, py)
}

/// The row the road segment starts at: below the black bar of a closed road,
/// or below the status of an open one.
pub open spec fn road_segment_row(status: Seq<char>) -> int {
    if status_closed(status) { 442 } else { 438 }
}

/// Whether pixel (px, py) is ink of a context-zone heading: the text in
/// capitals, Micro type (12-pixel cells, 2-pixel blocks) from (x, 382), cut
/// to `width` pixels.
pub open spec fn context_heading_ink(name: Seq<char>, x: int, width: int, px: int, py: int) -> bool {
    text_ink(uppercase(name), fitting(uppercase(name).len() as int, width, 12), x, 382, 2, 12, false, px, py)
}

/// The word a decision is shown with in large type.
pub open spec fn hero_word(d: HeroDecision) -> Seq<char> {
    match d {
        HeroDecision::Go { .. } => "GO"@,
        HeroDecision::AllGo => "GO"@,
        HeroDecision::NoGo { .. } => "NO GO"@,
        HeroDecision::Caution { .. } => "CAUTION"@,
        HeroDecision::Unknown { .. } => "UNKNOWN"@,
    }
}

/// The explanation lines listed under the decision word.
pub open spec fn hero_reasons(d: HeroDecision) -> Seq<String> {
    match d {
        HeroDecision::NoGo { reasons, .. } => reasons@,
        HeroDecision::Caution { warnings, .. } => warnings@,
        HeroDecision::Unknown { missing, .. } => missing@,
        _ => Seq::empty(),
    }
}

/// How many explanation lines fit in the hero zone below the decision word.
pub open spec fn hero_reason_rows() -> int {
    2
}

/// Whether pixel (px, py) is ink of the `i`-th bullet text: Small type
/// (18-pixel cells, 3-pixel blocks) from (34, 176 + 26i), cut to 456 pixels.
pub open spec fn bullet_text_ink(item: Seq<char>, i: int, px: int, py: int) -> bool {
    text_ink(item, fitting(item.len() as int, 456, 18), 34, 176 + 26 * i, 3, 18, false, px, py)
}

/// Whether (px, py) is in the 6×6 bullet square of the `i`-th explanation
/// line: at column 24, 6 rows below the line's top.
pub open spec fn on_bullet(i: int, px: int, py: int) -> bool {
    in_box(px, py, 24, 182 + 26 * i, 6, 6)
}

/// Whether the bullets of `d`'s explanation lines are filled black: for NO GO
/// and CAUTION; UNKNOWN lists its missing data after white squares.
pub open spec fn bullets_black(d: HeroDecision) -> bool {
    !(d is Unknown)
}

/// Whether pixel (px, py) is in the bullet square or the text of
/// explanation line `k` of `items`.
pub open spec fn bullet_row_ink(items: Seq<String>, k: int, px: int, py: int) -> bool {
    on_bullet(k, px, py) || bullet_text_ink(items[k]@, k, px, py)
}

/// Whether pixel (px, py) belongs to one of the first `n` explanation lines
/// of `items`.
pub open spec fn bullet_rows_ink(items: Seq<String>, n: int, px: int, py: int) -> bool {
    exists|k: int| 0 <= k < n && k < items.len() && #[trigger] bullet_row_ink(items, k, px, py)
}

/// Whether pixel (px, py) is drawn in the left column of the hero zone: the
/// decision word and the explanation lines that fit.
pub open spec fn hero_left_ink(d: HeroDecision, px: int, py: int) -> bool {
    hero_word_ink(d, px, py) || bullet_rows_ink(hero_reasons(d), hero_reason_rows(), px, py)
}

/// Whether pixel (px, py) is ink of the `i`-th explanation line of `d`.
pub open spec fn hero_reason_ink(d: HeroDecision, i: int, px: int, py: int) -> bool {
    bullet_text_ink(hero_reasons(d)[i]@, i, px, py)
}

/// Bullet text lies in the left column of the hero zone, in its own rows.
proof fn lemma_bullet_zone(item: Seq<char>, i: int, px: int, py: int)
    requires
        0 <= i,
        bullet_text_ink(item, i, px, py),
    ensures
        34 <= px < 484,
        176 + 26 * i <= py < 176 + 26 * i + 21,
{
    let n = fitting(item.len() as int, 456, 18);
    let k = (px - 34) / 18;
    assert(0 <= k) by {
        vstd::arithmetic::div_mod::lemma_div_pos_is_pos(px - 34, 18);
    }
    assert(n <= 25);
    assert(k < n);
    assert(in_box(px, py, 34 + k * 18, 176 + 26 * i, 15, 21));
}

/// Whether pixel (px, py) is ink of the decision word in Hero type (74-pixel
/// cells, 14-pixel blocks): "GO" centred in the 490-pixel left column of the
/// hero zone at row 82; any other word from (24, 50), cut to the characters
/// that fit in 466 pixels.
pub open spec fn hero_word_ink(d: HeroDecision, px: int, py: int) -> bool {
    match d {
        HeroDecision::Go { .. } => text_ink("GO"@, 2, 171, 82, 14, 74, false, px, py),
        HeroDecision::AllGo => text_ink("GO"@, 2, 171, 82, 14, 74, false, px, py),
        _ => text_ink(hero_word(d), fitting(hero_word(d).len() as int, 466, 74), 24, 50, 14, 74, false, px, py),
    }
}

/// The decision word lies in the left column of the hero zone, above the
/// explanation lines when it has any.
proof fn lemma_hero_word_zone(d: HeroDecision, px: int, py: int)
    requires
        hero_word_ink(d, px, py),
    ensures
        24 <= px < 490,
        50 <= py < 180,
        !(d is Go || d is AllGo) ==> py < 148,
{
    let go = d is Go || d is AllGo;
    let x: int = if go { 171 } else { 24 };
    let y: int = if go { 82 } else { 50 };
    let t = if go { "GO"@ } else { hero_word(d) };
    let n: int = if go { 2 } else { fitting(hero_word(d).len() as int, 466, 74) };
    assert(text_ink(t, n, x, y, 14, 74, false, px, py));
    let k = (px - x) / 74;
    assert(0 <= k) by {
        vstd::arithmetic::div_mod::lemma_div_pos_is_pos(px - x, 74);
    }
    assert(n <= 6);
    assert(k < n);
    assert(in_box(px, py, x + k * 74, y, 70, 98));
}

/// The river column's text lies in rows 238 to 375.
proof fn lemma_river_text_rows(r: RiverContent, px: int, py: int)
    requires
        river_text_ink(r, px, py),
    ensures
        238 <= py < 376,
{
    let site = r.site_name@;
    let lv = tenths_text(r.level_tenths_ft as int) + " ft"@;
    let fl = signed_decimal(r.flow_cfs as int) + " cfs"@;
    if text_ink(site, fitting(site.len() as int, 372, 12), 12, 238, 2, 12, false, px, py) {
        lemma_text_rows(site, fitting(site.len() as int, 372, 12), 12, 238, 2, 12, px, py);
    } else if river_level_ink(r.level_tenths_ft as int, px, py) {
        lemma_text_rows(lv, fitting(lv.len() as int, 240, 44), 12, 256, 8, 44, px, py);
    } else if river_flow_ink(r.flow_cfs as int, px, py) {
        lemma_text_rows(fl, fitting(fl.len() as int, 372, 24), 12, 316, 4, 24, px, py);
    } else if r.trend is Rising {
        lemma_text_rows("^"@, 1, 260, 270, 4, 24, px, py);
    } else {
        lemma_text_rows("v"@, 1, 260, 270, 4, 24, px, py);
    }
}

/// The ferry column's text lies in rows 238 to 375.
proof fn lemma_ferry_text_rows(f: FerryContent, px: int, py: int)
    requires
        ferry_text_ink(f, px, py),
    ensures
        238 <= py < 376,
{
    let deps = f.departures@;
    let route = f.route@;
    let vessel = f.vessel_name@;
    if text_ink(route, fitting(route.len() as int, 376, 12), 412, 238, 2, 12, false, px, py) {
        lemma_text_rows(route, fitting(route.len() as int, 376, 12), 412, 238, 2, 12, px, py);
    } else if deps.len() > 0 && ferry_next_ink(deps[0]@, px, py) {
        let t = "Next: "@ + deps[0]@;
        lemma_text_rows(t, fitting(t.len() as int, 376, 44), 412, 256, 8, 44, px, py);
    } else if deps.len() > 1 && later_departure_ink(deps[1]@, 1, px, py) {
        lemma_text_rows(deps[1]@, fitting(deps[1]@.len() as int, 376, 24), 412, 316, 4, 24, px, py);
    } else if deps.len() > 2 && later_departure_ink(deps[2]@, 2, px, py) {
        lemma_text_rows(deps[2]@, fitting(deps[2]@.len() as int, 376, 24), 412, 348, 4, 24, px, py);
    } else {
        lemma_text_rows(vessel, fitting(vessel.len() as int, 384, 12), right_start(400, 384, vessel.len() as int, 12), 354, 2, 12, px, py);
    }
}

/// Strings drawn right-aligned or centred are within what the drawing
/// arithmetic can handle.
pub open spec fn layout_drawable(layout: DisplayLayout) -> bool {
    &&& (layout.header.river_site matches Some(site) ==> site@.len() * 12 <= u32::MAX)
    &&& (layout.header.last_updated matches Some(ts) ==> (ts@.len() + 8) * 12 <= u32::MAX)
    &&& (layout.data.ferry matches Some(f) ==> f.vessel_name@.len() * 12 <= u32::MAX)
}

/// `a` followed by `b`, as a new `String`.
fn concat(a: &str, b: &str) -> (s: String)
    ensures
        s@ == a@ + b@,
{
    let mut v = chars_of(a);
    append_str(&mut v, b);
    string_from_chars(v.as_slice())
}

// ── Zone 1: Header ────────────────────────────────────────────────────────────

#[verifier::spinoff_prover]
fn render_header(buf: &mut PixelBuffer, h: &HeaderContent)
    requires
        old(buf).wf(),
        h.river_site matches Some(site) ==> site@.len() * 12 <= u32::MAX,
        h.last_updated matches Some(ts) ==> (ts@.len() + 8) * 12 <= u32::MAX,
    ensures
        final(buf).drawn_within(old(buf), 0, 0, all_columns(), 30),
        divider_drawn(*final(buf), 28),
        forall|px: int, py: int| #[trigger] final(buf).in_bounds(px, py) && header_name_ink(h.app_name@, px, py) ==> final(buf).black_at(px, py),
        h.river_site matches Some(site) ==> forall|px: int, py: int| #[trigger] final(buf).in_bounds(px, py)
            && header_site_ink(site@, px, py) ==> final(buf).black_at(px, py),
        h.last_updated matches Some(ts) ==> forall|px: int, py: int| #[trigger] final(buf).in_bounds(px, py)
            && header_updated_ink(ts@, px, py) ==> final(buf).black_at(px, py),
        forall|px: int, py: int| #[trigger] final(buf).in_bounds(px, py) && !header_ink(*h, px, py)
            ==> final(buf).black_at(px, py) == old(buf).black_at(px, py),
{
    let ghost b0 = *buf;
    let ghost (zx, zy, zw, zh) = (0int, 0int, all_columns(), 30int);
    let pad_x = 16u32;
    let pad_y = (HEADER_H - FontSize::Micro.glyph_h()) / 2;
    assert(FontSize::Small.spec_cell_w() == 18 && FontSize::Small.spec_scale() == 3 && FontSize::Micro.spec_glyph_h() == 14);
    assert(pad_y == 7);
    draw_text_scaled(buf, pad_x, HEADER_Y + pad_y, h.app_name.as_str(), FontSize::Small, false, 400);
    let ghost bn = *buf;
    if let Some(site) = &h.river_site {
        let ghost before = *buf;
        draw_text_centered(buf, 200, HEADER_Y + pad_y + 3, site.as_str(), FontSize::Micro, 400, false);
        proof {
            lemma_within_step(&b0, &before, buf, zx, zy, zw, zh, 200, 10, 400, 14);
            assert forall|px: int, py: int| #[trigger] buf.in_bounds(px, py) && !header_ink(*h, px, py)
                implies buf.black_at(px, py) == bn.black_at(px, py) by {
                assert(before.in_bounds(px, py));
            }
            assert forall|px: int, py: int| #[trigger] buf.in_bounds(px, py) && header_name_ink(h.app_name@, px, py) implies buf.black_at(px, py) by {
                assert(before.in_bounds(px, py));
            }
        }
    }
    let ghost bs = *buf;
    if let Some(ts) = &h.last_updated {
        let label = concat("Updated ", ts.as_str());
        proof {
            reveal_strlit("Updated ");
        }
        let ghost before = *buf;
        draw_text_right(buf, 0, HEADER_Y + pad_y + 3, label.as_str(), FontSize::Micro, 800 - 16, false);
        proof {
            lemma_within_step(&b0, &before, buf, zx, zy, zw, zh, 0, 10, 784, 14);
            assert forall|px: int, py: int| #[trigger] buf.in_bounds(px, py) && !header_ink(*h, px, py)
                implies buf.black_at(px, py) == bs.black_at(px, py) by {
                assert(before.in_bounds(px, py));
            }
            assert forall|px: int, py: int| #[trigger] buf.in_bounds(px, py) && header_name_ink(h.app_name@, px, py) implies buf.black_at(px, py) by {
                assert(before.in_bounds(px, py));
            }
        }
    }
    let ghost before = *buf;
    hline(buf, 0, HEADER_H, 800, DIVIDER_H);
    proof {
        lemma_within_step(&b0, &before, buf, zx, zy, zw, zh, 0, 28, 800, 2);
        assert forall|px: int, py: int| #[trigger] buf.in_bounds(px, py) && header_name_ink(h.app_name@, px, py) implies buf.black_at(px, py) by {
            assert(before.in_bounds(px, py));
        }
        if h.river_site is Some {
            let site = h.river_site.unwrap();
            assert forall|px: int, py: int| #[trigger] buf.in_bounds(px, py) && header_site_ink(site@, px, py) implies buf.black_at(px, py) by {
                assert(bs.in_bounds(px, py) && before.in_bounds(px, py));
            }
        }
        if h.last_updated is Some {
            let ts = h.last_updated.unwrap();
            assert forall|px: int, py: int| #[trigger] buf.in_bounds(px, py) && header_updated_ink(ts@, px, py) implies buf.black_at(px, py) by {
                assert(before.in_bounds(px, py));
            }
        }
    }
    proof {
        assert forall|px: int, py: int| #[trigger] buf.in_bounds(px, py) && !header_ink(*h, px, py)
            implies buf.black_at(px, py) == b0.black_at(px, py) by {
            assert(b0.in_bounds(px, py) && bn.in_bounds(px, py) && bs.in_bounds(px, py) && before.in_bounds(px, py));
        }
    }
}

// ── Zone 2: Hero ──────────────────────────────────────────────────────────────

/// Up to four explanation lines under the hero text, each after a 6×6
/// bullet (black, or white for missing data), while they fit in the zone.
#[verifier::spinoff_prover]
fn render_bullets(buf: &mut PixelBuffer, items: &Vec<String>, black_bullet: bool)
    requires
        old(buf).wf(),
    ensures
        final(buf).drawn_within(old(buf), 0, 176, all_columns(), 47),
        forall|i: int, px: int, py: int| 0 <= i < items@.len() && i < hero_reason_rows() && final(buf).in_bounds(px, py)
            && #[trigger] bullet_text_ink(items@[i]@, i, px, py) ==> final(buf).black_at(px, py),
        forall|i: int, px: int, py: int| 0 <= i < items@.len() && i < hero_reason_rows() && final(buf).in_bounds(px, py)
            && #[trigger] on_bullet(i, px, py) ==> final(buf).black_at(px, py) == black_bullet,
        forall|px: int, py: int| #[trigger] final(buf).in_bounds(px, py) && !bullet_rows_ink(items@, hero_reason_rows(), px, py)
            ==> final(buf).black_at(px, py) == old(buf).black_at(px, py),
{
    let ghost b0 = *buf;
    let ghost (zx, zy, zw, zh) = (0int, 176int, all_columns(), 47int);
    proof {
        lemma_within_refl(&b0, zx, zy, zw, zh);
    }
    let pad_x = 24u32;
    let reasons_y = HERO_Y + 20 + FontSize::Hero.glyph_h() + FontSize::Hero.scale() * 2;
    let small_cell_h = FontSize::Small.cell_h();
    let max_items = 4usize;
    let shown: usize = if items.len() < max_items { items.len() } else { max_items };
    let mut i: usize = 0;
    while i < shown
        invariant
            shown <= 4,
            i <= shown,
            shown <= items@.len(),
            reasons_y == 176,
            small_cell_h == 24,
            pad_x == 24,
            zx == 0, zy == 176, zw == all_columns(), zh == 47,
            buf.drawn_within(&b0, zx, zy, zw, zh),
            shown == if items@.len() < 4 { items@.len() as int } else { 4 },
            i <= hero_reason_rows(),
            forall|k: int, px: int, py: int| 0 <= k < i && buf.in_bounds(px, py)
                && #[trigger] bullet_text_ink(items@[k]@, k, px, py) ==> buf.black_at(px, py),
            forall|k: int, px: int, py: int| 0 <= k < i && buf.in_bounds(px, py)
                && #[trigger] on_bullet(k, px, py) ==> buf.black_at(px, py) == black_bullet,
            forall|px: int, py: int| #[trigger] buf.in_bounds(px, py) && !bullet_rows_ink(items@, i as int, px, py)
                ==> buf.black_at(px, py) == b0.black_at(px, py),
        ensures
            i == shown || i == hero_reason_rows(),
            i <= shown,
            shown <= 4,
            buf.drawn_within(&b0, zx, zy, zw, zh),
            forall|k: int, px: int, py: int| 0 <= k < i && buf.in_bounds(px, py)
                && #[trigger] bullet_text_ink(items@[k]@, k, px, py) ==> buf.black_at(px, py),
            forall|k: int, px: int, py: int| 0 <= k < i && buf.in_bounds(px, py)
                && #[trigger] on_bullet(k, px, py) ==> buf.black_at(px, py) == black_bullet,
            forall|px: int, py: int| #[trigger] buf.in_bounds(px, py) && !bullet_rows_ink(items@, i as int, px, py)
                ==> buf.black_at(px, py) == b0.black_at(px, py),
        decreases shown - i,
    {
        assert(i * (small_cell_h + 2) == 26 * i) by (nonlinear_arith)
            requires small_cell_h == 24;
        let ry = reasons_y + i as u32 * (small_cell_h + 2);
        if ry + FontSize::Small.glyph_h() > HERO_Y + HERO_H {
            break;
        }
        let ghost before = *buf;
        fill_rect_xy(buf, pad_x, ry + 6, 6, 6, black_bullet);
        let ghost mid = *buf;
        draw_text_scaled(buf, pad_x + 10, ry, items[i].as_str(), FontSize::Small, false, HERO_LEFT_W - pad_x - 10);
        proof {
            lemma_within_step(&b0, &before, &mid, zx, zy, zw, zh, 24, ry + 6, 6, 6);
            lemma_within_step(&b0, &mid, buf, zx, zy, zw, zh, 34, ry as int, 456, 21);
            assert forall|k: int, px: int, py: int| 0 <= k < i + 1 && buf.in_bounds(px, py)
                && #[trigger] bullet_text_ink(items@[k]@, k, px, py) implies buf.black_at(px, py) by {
                lemma_bullet_zone(items@[k]@, k, px, py);
                assert(before.in_bounds(px, py) && mid.in_bounds(px, py));
            }
            assert forall|k: int, px: int, py: int| 0 <= k < i + 1 && buf.in_bounds(px, py)
                && #[trigger] on_bullet(k, px, py) implies buf.black_at(px, py) == black_bullet by {
                assert(before.in_bounds(px, py) && mid.in_bounds(px, py));
            }
            assert forall|px: int, py: int| #[trigger] buf.in_bounds(px, py) && !bullet_rows_ink(items@, i + 1, px, py)
                implies buf.black_at(px, py) == b0.black_at(px, py) by {
                assert(before.in_bounds(px, py) && mid.in_bounds(px, py));
                assert(!bullet_row_ink(items@, i as int, px, py));
                assert(!bullet_rows_ink(items@, i as int, px, py));
            }
        }
        i = i + 1;
    }
    proof {
        assert forall|px: int, py: int| #[trigger] buf.in_bounds(px, py) && !bullet_rows_ink(items@, hero_reason_rows(), px, py)
            implies buf.black_at(px, py) == b0.black_at(px, py) by {
            assert(!bullet_rows_ink(items@, i as int, px, py));
        }
    }
}

/// The left column of the hero zone: the decision word in Hero type, and
/// under NO GO, CAUTION and UNKNOWN the explanation lines that fit above the
/// hero divider (the first two), each after a 6×6 bullet square, filled
/// black except under UNKNOWN. Further lines, and the "...+N more" note,
/// would start below row 223 and are not drawn.
#[verifier::spinoff_prover]
fn render_hero_left(buf: &mut PixelBuffer, hero: &HeroContent)
    requires
        old(buf).wf(),
    ensures
        final(buf).drawn_within(old(buf), 0, HERO_Y as int, all_columns(), 193),
        forall|i: int, px: int, py: int| 0 <= i < hero_reasons(hero.decision).len() && i < hero_reason_rows() && final(buf).in_bounds(px, py)
            && #[trigger] on_bullet(i, px, py) ==> final(buf).black_at(px, py) == bullets_black(hero.decision),
        forall|px: int, py: int| #[trigger] final(buf).in_bounds(px, py) && hero_word_ink(hero.decision, px, py) ==> final(buf).black_at(px, py),
        forall|i: int, px: int, py: int| 0 <= i < hero_reasons(hero.decision).len() && i < hero_reason_rows() && final(buf).in_bounds(px, py)
            && #[trigger] hero_reason_ink(hero.decision, i, px, py) ==> final(buf).black_at(px, py),
        forall|px: int, py: int| #[trigger] final(buf).in_bounds(px, py) && !hero_left_ink(hero.decision, px, py)
            ==> final(buf).black_at(px, py) == old(buf).black_at(px, py),
{
    let ghost b0 = *buf;
    let ghost (zx, zy, zw, zh) = (0int, HERO_Y as int, all_columns(), 193int);
    let scale = FontSize::Hero.scale();
    let glyph_h = FontSize::Hero.glyph_h();
    let cell_w = FontSize::Hero.cell_w();
    assert(FontSize::Hero.spec_cell_w() == 74 && FontSize::Hero.spec_scale() == 14 && FontSize::Hero.spec_glyph_h() == 98);
    let pad_x = 24u32;
    match &hero.decision {
        HeroDecision::Go { destination: _ } | HeroDecision::AllGo => {
            let label = "GO";
            let count = label.unicode_len();
            proof {
                reveal_strlit("GO");
            }
            let text_w = count as u32 * cell_w;
            let cx = if text_w < HERO_LEFT_W { (HERO_LEFT_W - text_w) / 2 } else { pad_x };
            let cy = HERO_Y + (HERO_H - glyph_h) / 2;
            assert(cx == 171 && cy == 82);
            draw_text_scaled(buf, cx, cy, label, FontSize::Hero, false, HERO_LEFT_W);
            proof {
                assert forall|px: int, py: int| #[trigger] buf.in_bounds(px, py) && !hero_left_ink(hero.decision, px, py)
                    implies buf.black_at(px, py) == b0.black_at(px, py) by {
                    assert(b0.in_bounds(px, py));
                }
            }
        },
        HeroDecision::NoGo { destination: _, reasons } => {
            draw_text_scaled(buf, pad_x, HERO_Y + 20, "NO GO", FontSize::Hero, false, HERO_LEFT_W - pad_x);
            let ghost b1 = *buf;
            render_bullets(buf, reasons, true);
            proof {
                lemma_within_step(&b0, &b1, buf, zx, zy, zw, zh, zx, 176, zw, 47);
                assert forall|px: int, py: int| #[trigger] buf.in_bounds(px, py) && hero_word_ink(hero.decision, px, py) implies buf.black_at(px, py) by {
                    lemma_hero_word_zone(hero.decision, px, py);
                    assert(b1.in_bounds(px, py));
                }
                assert forall|i: int, px: int, py: int| 0 <= i < hero_reasons(hero.decision).len() && i < hero_reason_rows() && buf.in_bounds(px, py)
                    && #[trigger] hero_reason_ink(hero.decision, i, px, py) implies buf.black_at(px, py) by {
                    assert(bullet_text_ink(hero_reasons(hero.decision)[i]@, i, px, py));
                }
            }
            proof {
                assert forall|px: int, py: int| #[trigger] buf.in_bounds(px, py) && !hero_left_ink(hero.decision, px, py)
                    implies buf.black_at(px, py) == b0.black_at(px, py) by {
                    assert(b1.in_bounds(px, py));
                }
            }
            let max_reasons = 4usize;
            if reasons.len() > max_reasons {
                let reasons_y = HERO_Y + 20 + glyph_h + scale * 2;
                let extra_y = reasons_y + max_reasons as u32 * (FontSize::Small.cell_h() + 2);
                if extra_y + FontSize::Micro.glyph_h() <= HERO_Y + HERO_H {
                    let count = u64_to_string((reasons.len() - max_reasons) as u64);
                    let more = concat(concat("...+", count.as_str()).as_str(), " more");
                    let ghost before = *buf;
                    draw_text_scaled(buf, pad_x + 10, extra_y, more.as_str(), FontSize::Micro, false, HERO_LEFT_W - pad_x - 10);
                    proof {
                        lemma_within_step(&b0, &before, buf, zx, zy, zw, zh, 34, extra_y as int, 456, 14);
                        assert forall|px: int, py: int| #[trigger] buf.in_bounds(px, py) && hero_word_ink(hero.decision, px, py) implies buf.black_at(px, py) by {
                            assert(before.in_bounds(px, py));
                        }
                        assert forall|i: int, px: int, py: int| 0 <= i < hero_reasons(hero.decision).len() && i < hero_reason_rows() && buf.in_bounds(px, py)
                            && #[trigger] hero_reason_ink(hero.decision, i, px, py) implies buf.black_at(px, py) by {
                            assert(before.in_bounds(px, py));
                            assert(bullet_text_ink(reasons@[i]@, i, px, py));
                        }
                    }
                }
            }
        },
        HeroDecision::Caution { destination: _, warnings } => {
            draw_text_scaled(buf, pad_x, HERO_Y + 20, "CAUTION", FontSize::Hero, false, HERO_LEFT_W - pad_x);
            let ghost b1 = *buf;
            render_bullets(buf, warnings, true);
            proof {
                lemma_within_step(&b0, &b1, buf, zx, zy, zw, zh, zx, 176, zw, 47);
                assert forall|px: int, py: int| #[trigger] buf.in_bounds(px, py) && hero_word_ink(hero.decision, px, py) implies buf.black_at(px, py) by {
                    lemma_hero_word_zone(hero.decision, px, py);
                    assert(b1.in_bounds(px, py));
                }
                assert forall|i: int, px: int, py: int| 0 <= i < hero_reasons(hero.decision).len() && i < hero_reason_rows() && buf.in_bounds(px, py)
                    && #[trigger] hero_reason_ink(hero.decision, i, px, py) implies buf.black_at(px, py) by {
                    assert(bullet_text_ink(hero_reasons(hero.decision)[i]@, i, px, py));
                }
            }
            proof {
                assert forall|px: int, py: int| #[trigger] buf.in_bounds(px, py) && !hero_left_ink(hero.decision, px, py)
                    implies buf.black_at(px, py) == b0.black_at(px, py) by {
                    assert(b1.in_bounds(px, py));
                }
            }
        },
        HeroDecision::Unknown { destination: _, missing } => {
            draw_text_scaled(buf, pad_x, HERO_Y + 20, "UNKNOWN", FontSize::Hero, false, HERO_LEFT_W - pad_x);
            let ghost b1 = *buf;
            render_bullets(buf, missing, false);
            proof {
                lemma_within_step(&b0, &b1, buf, zx, zy, zw, zh, zx, 176, zw, 47);
                assert forall|px: int, py: int| #[trigger] buf.in_bounds(px, py) && hero_word_ink(hero.decision, px, py) implies buf.black_at(px, py) by {
                    lemma_hero_word_zone(hero.decision, px, py);
                    assert(b1.in_bounds(px, py));
                }
                assert forall|i: int, px: int, py: int| 0 <= i < hero_reasons(hero.decision).len() && i < hero_reason_rows() && buf.in_bounds(px, py)
                    && #[trigger] hero_reason_ink(hero.decision, i, px, py) implies buf.black_at(px, py) by {
                    assert(bullet_text_ink(hero_reasons(hero.decision)[i]@, i, px, py));
                }
            }
            proof {
                assert forall|px: int, py: int| #[trigger] buf.in_bounds(px, py) && !hero_left_ink(hero.decision, px, py)
                    implies buf.black_at(px, py) == b0.black_at(px, py) by {
                    assert(b1.in_bounds(px, py));
                }
            }
        },
    }
}

#[verifier::spinoff_prover]
fn render_hero_right(buf: &mut PixelBuffer, w: &crate::presentation::WeatherContent)
    requires
        old(buf).wf(),
    ensures
        final(buf).drawn_within(old(buf), HERO_RIGHT_X as int, HERO_Y as int, all_columns() - HERO_RIGHT_X, HERO_H as int),
        final(buf).darkens(old(buf)),
        forall|px: int, py: int| #[trigger] final(buf).in_bounds(px, py) && weather_ink(*w, px, py) ==> final(buf).black_at(px, py),
{
    let ghost b0 = *buf;
    let ghost (zx, zy, zw, zh) = (HERO_RIGHT_X as int, HERO_Y as int, all_columns() - HERO_RIGHT_X, HERO_H as int);
    let col_x = HERO_RIGHT_X;
    let pad = 12u32;
    let icon_x = col_x + pad;
    let icon_y = HERO_Y + 8;
    draw_weather_icon(buf, icon_x, icon_y, &w.icon);
    let ghost b1 = *buf;
    let temp_str = concat(i64_to_string(w.temperature_f).as_str(), "\u{B0}F");
    proof {
        reveal_strlit("\u{B0}F");
        let t = w.temperature_f as int;
        let a: nat = if t < 0 { (-t) as nat } else { t as nat };
        lemma_decimal_len_u64(a);
        assert(signed_decimal(t).len() <= 21);
        assert(temp_str@.len() <= 23);
        assert(FontSize::Large.spec_cell_w() == 44);
        assert(temp_str@.len() * FontSize::Large.spec_cell_w() <= u32::MAX);
    }
    let icon_mid_y = icon_y + 32;
    let temp_glyph_h = FontSize::Large.glyph_h();
    let temp_y = icon_mid_y - temp_glyph_h / 2;
    draw_text_right(buf, col_x, temp_y, temp_str.as_str(), FontSize::Large, 800 - 16, false);
    let ghost b2 = *buf;
    let sky_y = icon_y + 64 + 6;
    draw_text_scaled(buf, col_x + pad, sky_y, w.sky_condition.as_str(), FontSize::Small, false, HERO_RIGHT_W - 2 * pad);
    let ghost b3 = *buf;
    let mut wind = concat(w.wind_dir.as_str(), " ");
    wind = concat(wind.as_str(), i64_to_string(w.wind_speed_mph).as_str());
    wind = concat(wind.as_str(), "mph  PoP ");
    wind = concat(wind.as_str(), i64_to_string(w.precip_chance_pct).as_str());
    wind = concat(wind.as_str(), "%");
    let wind_y = sky_y + FontSize::Small.cell_h() + 4;
    draw_text_scaled(buf, col_x + pad, wind_y, wind.as_str(), FontSize::Micro, false, HERO_RIGHT_W - 2 * pad);
    proof {
        lemma_within_step(&b0, &b0, &b1, zx, zy, zw, zh, 498, 30, 81, 72);
        lemma_within_step(&b0, &b1, &b2, zx, zy, zw, zh, 494, 42, 784, 56);
        lemma_within_step(&b0, &b2, &b3, zx, zy, zw, zh, 506, 108, 282, 21);
        lemma_within_step(&b0, &b3, buf, zx, zy, zw, zh, 506, 136, 282, 14);
        reveal_strlit(" ");
        reveal_strlit("mph  PoP ");
        reveal_strlit("%");
        assert(wind@ == wind_line(*w));
        lemma_darkens_trans(&b0, &b1, &b2);
        lemma_darkens_trans(&b0, &b2, &b3);
        lemma_darkens_trans(&b0, &b3, buf);
        assert forall|px: int, py: int| #[trigger] buf.in_bounds(px, py) && weather_ink(*w, px, py) implies buf.black_at(px, py) by {
            assert(b1.in_bounds(px, py) && b2.in_bounds(px, py) && b3.in_bounds(px, py));
        }
    }
}

#[verifier::spinoff_prover]
fn render_hero(buf: &mut PixelBuffer, hero: &HeroContent)
    requires
        old(buf).wf(),
    ensures
        final(buf).drawn_within(old(buf), 0, HERO_Y as int, all_columns(), HERO_H as int + 2),
        divider_drawn(*final(buf), 232),
        hero.weather matches Some(w) ==> forall|px: int, py: int| #[trigger] final(buf).in_bounds(px, py)
            && weather_ink(w, px, py) ==> final(buf).black_at(px, py),
        forall|i: int, px: int, py: int| 0 <= i < hero_reasons(hero.decision).len() && i < hero_reason_rows() && final(buf).in_bounds(px, py)
            && #[trigger] on_bullet(i, px, py) ==> final(buf).black_at(px, py) == bullets_black(hero.decision),
        forall|px: int, py: int| #[trigger] final(buf).in_bounds(px, py) && hero_word_ink(hero.decision, px, py) ==> final(buf).black_at(px, py),
        forall|i: int, px: int, py: int| 0 <= i < hero_reasons(hero.decision).len() && i < hero_reason_rows() && final(buf).in_bounds(px, py)
            && #[trigger] hero_reason_ink(hero.decision, i, px, py) ==> final(buf).black_at(px, py),
        forall|px: int, py: int| #[trigger] final(buf).in_bounds(px, py) && in_box(px, py, 0, 30, 492, 202)
            && !hero_left_ink(hero.decision, px, py) ==> final(buf).black_at(px, py) == old(buf).black_at(px, py),
{
    let ghost b0 = *buf;
    let ghost (zx, zy, zw, zh) = (0int, HERO_Y as int, all_columns(), HERO_H as int + 2);
    render_hero_left(buf, hero);
    let ghost b1 = *buf;
    proof {
        lemma_within_step(&b0, &b0, &b1, zx, zy, zw, zh, 0, 30, all_columns(), 202);
    }
    if let Some(w) = &hero.weather {
        vline(buf, HERO_DIVIDER_X, HERO_Y, HERO_H, DIVIDER_H);
        let ghost b2 = *buf;
        render_hero_right(buf, w);
        proof {
            lemma_within_step(&b0, &b1, &b2, zx, zy, zw, zh, 492, 30, 2, 202);
            lemma_within_step(&b0, &b2, buf, zx, zy, zw, zh, 494, 30, all_columns() - 494, 202);
            assert forall|px: int, py: int| #[trigger] buf.in_bounds(px, py) && in_box(px, py, 0, 30, 492, 202)
                implies buf.black_at(px, py) == b1.black_at(px, py) by {
                assert(b2.in_bounds(px, py));
            }
            assert forall|px: int, py: int| #[trigger] buf.in_bounds(px, py) && hero_word_ink(hero.decision, px, py) implies buf.black_at(px, py) by {
                lemma_hero_word_zone(hero.decision, px, py);
                assert(b1.in_bounds(px, py));
                assert(b2.in_bounds(px, py));
            }
            assert forall|i: int, px: int, py: int| 0 <= i < hero_reasons(hero.decision).len() && i < hero_reason_rows() && buf.in_bounds(px, py)
                && #[trigger] hero_reason_ink(hero.decision, i, px, py) implies buf.black_at(px, py) by {
                lemma_bullet_zone(hero_reasons(hero.decision)[i]@, i, px, py);
                assert(b1.in_bounds(px, py));
                assert(b2.in_bounds(px, py));
            }
            assert forall|i: int, px: int, py: int| 0 <= i < hero_reasons(hero.decision).len() && i < hero_reason_rows() && buf.in_bounds(px, py)
                && #[trigger] on_bullet(i, px, py) implies buf.black_at(px, py) == bullets_black(hero.decision) by {
                assert(b1.in_bounds(px, py));
                assert(b2.in_bounds(px, py));
            }
        }
    }
    let ghost b3 = *buf;
    hline(buf, 0, HERO_Y + HERO_H, 800, DIVIDER_H);
    proof {
        lemma_within_step(&b0, &b3, buf, zx, zy, zw, zh, 0, 232, 800, 2);
        assert forall|px: int, py: int| #[trigger] buf.in_bounds(px, py) && hero_word_ink(hero.decision, px, py) implies buf.black_at(px, py) by {
            assert(b3.in_bounds(px, py));
        }
        assert forall|i: int, px: int, py: int| 0 <= i < hero_reasons(hero.decision).len() && i < hero_reason_rows() && buf.in_bounds(px, py)
            && #[trigger] hero_reason_ink(hero.decision, i, px, py) implies buf.black_at(px, py) by {
            assert(b3.in_bounds(px, py));
        }
        assert forall|i: int, px: int, py: int| 0 <= i < hero_reasons(hero.decision).len() && i < hero_reason_rows() && buf.in_bounds(px, py)
            && #[trigger] on_bullet(i, px, py) implies buf.black_at(px, py) == bullets_black(hero.decision) by {
            assert(b3.in_bounds(px, py));
        }
        if hero.weather is Some {
            let w = hero.weather.unwrap();
            assert forall|px: int, py: int| #[trigger] buf.in_bounds(px, py) && weather_ink(w, px, py) implies buf.black_at(px, py) by {
                assert(b3.in_bounds(px, py));
            }
        }
    }
    proof {
        assert forall|px: int, py: int| #[trigger] buf.in_bounds(px, py) && in_box(px, py, 0, 30, 492, 202)
            && !hero_left_ink(hero.decision, px, py) implies buf.black_at(px, py) == b0.black_at(px, py) by {
            assert(b1.in_bounds(px, py) && b3.in_bounds(px, py));
        }
    }
}


// ── Zone 3: Data ──────────────────────────────────────────────────────────────

#[verifier::spinoff_prover]
fn render_river_column(buf: &mut PixelBuffer, river: &RiverContent)
    requires
        old(buf).wf(),
    ensures
        final(buf).drawn_within(old(buf), 0, DATA_Y as int, all_columns(), DATA_H as int + 2),
        forall|px: int, py: int| #[trigger] final(buf).in_bounds(px, py) && river_text_ink(*river, px, py) ==> final(buf).black_at(px, py),        river.sparkline matches Some(sp) ==> (sp.values@.len() >= 2 ==> forall|k: int, px: int, py: int| 0 <= k < sp.values@.len()
            && final(buf).in_bounds(px, py) && #[trigger] on_spark_point(sp.values@, k, 8, 352, 380, 22, px, py) ==> final(buf).black_at(px, py)),
        river.sparkline matches Some(sp) ==> (sp.values@.len() > 0 ==> forall|px: int, py: int| #[trigger] final(buf).in_bounds(px, py)
            && in_box(px, py, 384, spark_last_row(sp.values@, 352, 22) - 2, 4, 4) ==> final(buf).black_at(px, py)),
{
    let ghost b0 = *buf;
    let ghost (zx, zy, zw, zh) = (0int, DATA_Y as int, all_columns(), DATA_H as int + 2);
    let x = 12u32;
    let mut y = DATA_Y + 4;
    draw_text_scaled(buf, x, y, river.site_name.as_str(), FontSize::Micro, false, DATA_LEFT_W - 24);
    let ghost b1 = *buf;
    y = y + FontSize::Micro.cell_h() + 2;
    let level_str = concat(tenths_to_string(river.level_tenths_ft).as_str(), " ft");
    draw_text_scaled(buf, x, y, level_str.as_str(), FontSize::Large, false, 240);
    let ghost b2 = *buf;
    proof {
        lemma_within_step(&b0, &b0, &b1, zx, zy, zw, zh, 12, 238, 372, 14);
        lemma_within_step(&b0, &b1, &b2, zx, zy, zw, zh, 12, 256, 240, 56);
    }
    let arrow_x = x + 240 + 8;
    let arrow_y = y + (FontSize::Large.glyph_h() - FontSize::Medium.glyph_h()) / 2;
    proof {
        reveal_strlit("^");
        reveal_strlit("v");
    }
    match river.trend {
        TrendArrow::Rising => {
            draw_text_scaled(buf, arrow_x, arrow_y, "^", FontSize::Medium, false, 40);
            assert(arrow_x == 260 && arrow_y == 270);
            assert(fitting("^"@.len() as int, 40, 24) == 1);
        },
        TrendArrow::Falling => {
            draw_text_scaled(buf, arrow_x, arrow_y, "v", FontSize::Medium, false, 40);
            assert(arrow_x == 260 && arrow_y == 270);
            assert(fitting("v"@.len() as int, 40, 24) == 1);
        },
        TrendArrow::Stable => {},
    }
    let ghost b3 = *buf;
    proof {
        lemma_within_step(&b0, &b2, &b3, zx, zy, zw, zh, 260, 270, 40, 28);
    }
    y = y + FontSize::Large.cell_h();
    let flow_str = concat(i64_to_string(river.flow_cfs).as_str(), " cfs");
    draw_text_scaled(buf, x, y, flow_str.as_str(), FontSize::Medium, false, DATA_LEFT_W - 24);
    let ghost b4 = *buf;
    proof {
        lemma_within_step(&b0, &b3, &b4, zx, zy, zw, zh, 12, 316, 372, 28);
    }
    y = y + FontSize::Medium.cell_h() + 4;
    assert(y == 352);
    if let Some(spark) = &river.sparkline {
        render_sparkline(buf, 8, y, 380, 22, spark);
        proof {
            lemma_within_step(&b0, &b4, buf, zx, zy, zw, zh, 8, 351, 382, 23);
        }
    }
    proof {
        assert forall|px: int, py: int| #[trigger] buf.in_bounds(px, py) && river_text_ink(*river, px, py)
            implies buf.black_at(px, py) by {
            lemma_river_text_rows(*river, px, py);
            assert(b1.in_bounds(px, py) && b2.in_bounds(px, py) && b3.in_bounds(px, py) && b4.in_bounds(px, py));
        }
    }
}

#[verifier::spinoff_prover]
fn render_ferry_column(buf: &mut PixelBuffer, ferry: &FerryContent)
    requires
        old(buf).wf(),
        ferry.vessel_name@.len() * 12 <= u32::MAX,
    ensures
        final(buf).drawn_within(old(buf), 0, DATA_Y as int, all_columns(), DATA_H as int + 2),
        final(buf).darkens(old(buf)),
        forall|px: int, py: int| #[trigger] final(buf).in_bounds(px, py) && ferry_text_ink(*ferry, px, py) ==> final(buf).black_at(px, py),
{
    let ghost b0 = *buf;
    let ghost (zx, zy, zw, zh) = (0int, DATA_Y as int, all_columns(), DATA_H as int + 2);
    let ghost deps = ferry.departures@;
    let x = DATA_RIGHT_X + 12;
    let mut y = DATA_Y + 4;
    draw_text_scaled(buf, x, y, ferry.route.as_str(), FontSize::Micro, false, DATA_RIGHT_W - 24);
    let ghost b1 = *buf;
    proof {
        lemma_within_step(&b0, &b0, &b1, zx, zy, zw, zh, 412, 238, 376, 14);
    }
    y = y + FontSize::Micro.cell_h() + 2;
    let n = ferry.departures.len();
    if n > 0 {
        let next_label = concat("Next: ", ferry.departures[0].as_str());
        let ghost before = *buf;
        draw_text_scaled(buf, x, y, next_label.as_str(), FontSize::Large, false, DATA_RIGHT_W - 24);
        proof {
            lemma_within_step(&b0, &before, buf, zx, zy, zw, zh, 412, 256, 376, 56);
            lemma_darkens_trans(&b0, &before, buf);
            assert forall|px: int, py: int| #[trigger] buf.in_bounds(px, py)
                && text_ink(ferry.route@, fitting(ferry.route@.len() as int, 376, 12), 412, 238, 2, 12, false, px, py) implies buf.black_at(px, py) by {
                assert(before.in_bounds(px, py));
            }
        }
        y = y + FontSize::Large.cell_h();
    }
    let stop: usize = if n < 3 { n } else { 3 };
    let mut k: usize = 1;
    while k < stop
        invariant
            stop <= 3,
            stop == if n < 3 { n } else { 3 },
            n == ferry.departures@.len(),
            deps == ferry.departures@,
            1 <= k <= stop || stop == 0,
            x == DATA_RIGHT_X + 12,
            y == DATA_Y + 4 + 16 + 2 + (if n > 0 { 60int } else { 0int }) + 32 * (k - 1),
            zx == 0, zy == DATA_Y, zw == all_columns(), zh == DATA_H + 2,
            buf.drawn_within(&b0, zx, zy, zw, zh),
            buf.darkens(&b0),
            forall|px: int, py: int| #[trigger] buf.in_bounds(px, py) && (text_ink(ferry.route@, fitting(ferry.route@.len() as int, 376, 12), 412, 238, 2, 12, false, px, py)
                || (n > 0 && ferry_next_ink(deps[0]@, px, py))
                || (n > 1 && k > 1 && later_departure_ink(deps[1]@, 1, px, py))
                || (n > 2 && k > 2 && later_departure_ink(deps[2]@, 2, px, py))) ==> buf.black_at(px, py),
        decreases stop - k,
    {
        let ghost before = *buf;
        draw_text_scaled(buf, x, y, ferry.departures[k].as_str(), FontSize::Medium, false, DATA_RIGHT_W - 24);
        proof {
            lemma_within_step(&b0, &before, buf, zx, zy, zw, zh, 412, y as int, 376, 28);
            lemma_darkens_trans(&b0, &before, buf);
            assert forall|px: int, py: int| #[trigger] buf.in_bounds(px, py) && (text_ink(ferry.route@, fitting(ferry.route@.len() as int, 376, 12), 412, 238, 2, 12, false, px, py)
                || (n > 0 && ferry_next_ink(deps[0]@, px, py))
                || (n > 1 && k + 1 > 1 && later_departure_ink(deps[1]@, 1, px, py))
                || (n > 2 && k + 1 > 2 && later_departure_ink(deps[2]@, 2, px, py))) implies buf.black_at(px, py) by {
                assert(before.in_bounds(px, py));
            }
        }
        y = y + FontSize::Medium.cell_h();
        k = k + 1;
    }
    let vessel_y = DATA_Y + DATA_H - FontSize::Micro.cell_h() - 4;
    let ghost b5 = *buf;
    draw_text_right(buf, DATA_RIGHT_X, vessel_y, ferry.vessel_name.as_str(), FontSize::Micro, DATA_RIGHT_W - 16, false);
    proof {
        lemma_within_step(&b0, &b5, buf, zx, zy, zw, zh, 400, 354, 384, 14);
        lemma_darkens_trans(&b0, &b5, buf);
        assert forall|px: int, py: int| #[trigger] buf.in_bounds(px, py) && ferry_text_ink(*ferry, px, py) implies buf.black_at(px, py) by {
            assert(b5.in_bounds(px, py));
        }
    }
}

#[verifier::spinoff_prover]
fn render_data(buf: &mut PixelBuffer, data: &DataContent)
    requires
        old(buf).wf(),
        data.ferry matches Some(f) ==> f.vessel_name@.len() * 12 <= u32::MAX,
    ensures
        final(buf).drawn_within(old(buf), 0, DATA_Y as int, all_columns(), DATA_H as int + 2),
        divider_drawn(*final(buf), 374),
        data.river matches Some(r) ==> forall|px: int, py: int| #[trigger] final(buf).in_bounds(px, py)
            && river_text_ink(r, px, py) ==> final(buf).black_at(px, py),
        data.river matches Some(r) ==> (r.sparkline matches Some(sp) ==> (sp.values@.len() >= 2 ==> forall|k: int, px: int, py: int| 0 <= k < sp.values@.len()
            && final(buf).in_bounds(px, py) && #[trigger] on_spark_point(sp.values@, k, 8, 352, 380, 22, px, py) ==> final(buf).black_at(px, py))),
        data.river matches Some(r) ==> (r.sparkline matches Some(sp) ==> (sp.values@.len() > 0 ==> forall|px: int, py: int| #[trigger] final(buf).in_bounds(px, py)
            && in_box(px, py, 384, spark_last_row(sp.values@, 352, 22) - 2, 4, 4) ==> final(buf).black_at(px, py))),
        data.ferry matches Some(f) ==> forall|px: int, py: int| #[trigger] final(buf).in_bounds(px, py)
            && ferry_text_ink(f, px, py) ==> final(buf).black_at(px, py),
{
    let ghost b0 = *buf;
    let ghost (zx, zy, zw, zh) = (0int, DATA_Y as int, all_columns(), DATA_H as int + 2);
    proof {
        lemma_within_refl(&b0, zx, zy, zw, zh);
    }
    if data.river.is_some() || data.ferry.is_some() {
        vline(buf, DATA_DIVIDER_X, DATA_Y, DATA_H, DIVIDER_H);
        proof {
            lemma_within_step(&b0, &b0, buf, zx, zy, zw, zh, 398, 234, 2, 140);
        }
    }
    if let Some(river) = &data.river {
        let ghost before = *buf;
        render_river_column(buf, river);
        proof {
            lemma_within_step(&b0, &before, buf, zx, zy, zw, zh, zx, zy, zw, zh);
        }
    }
    let ghost br = *buf;
    if let Some(ferry) = &data.ferry {
        let ghost before = *buf;
        render_ferry_column(buf, ferry);
        proof {
            lemma_within_step(&b0, &before, buf, zx, zy, zw, zh, zx, zy, zw, zh);
        }
    }
    let ghost bf = *buf;
    let ghost before = *buf;
    hline(buf, 0, DATA_Y + DATA_H, 800, DIVIDER_H);
    proof {
        lemma_within_step(&b0, &before, buf, zx, zy, zw, zh, 0, 374, 800, 2);
        if data.river is Some {
            let r = data.river.unwrap();
            assert forall|px: int, py: int| #[trigger] buf.in_bounds(px, py)
                && river_text_ink(r, px, py) implies buf.black_at(px, py) by {
                assert(br.in_bounds(px, py) && bf.in_bounds(px, py));
            }
            if r.sparkline is Some {
                let sp = r.sparkline.unwrap();
                if sp.values@.len() >= 2 {
                    assert forall|k: int, px: int, py: int| 0 <= k < sp.values@.len() && buf.in_bounds(px, py)
                        && #[trigger] on_spark_point(sp.values@, k, 8, 352, 380, 22, px, py) implies buf.black_at(px, py) by {
                        assert(br.in_bounds(px, py) && bf.in_bounds(px, py));
                    }
                }
                if sp.values@.len() > 0 {
                    assert forall|px: int, py: int| #[trigger] buf.in_bounds(px, py)
                        && in_box(px, py, 384, spark_last_row(sp.values@, 352, 22) - 2, 4, 4) implies buf.black_at(px, py) by {
                        assert(br.in_bounds(px, py) && bf.in_bounds(px, py));
                    }
                }
            }
        }
        if data.ferry is Some {
            let f = data.ferry.unwrap();
            assert forall|px: int, py: int| #[trigger] buf.in_bounds(px, py)
                && ferry_text_ink(f, px, py) implies buf.black_at(px, py) by {
                assert(bf.in_bounds(px, py));
            }
        }
    }
}

// ── Zone 4: Context ───────────────────────────────────────────────────────────

/// Whether pixel (px, py) is ink of line `k` of `text` wrapped to
/// `max_chars` characters, drawn from (x, y + k·step) in blocks of `s`
/// pixels, one glyph every `cw` pixels, cut to `width` pixels.
pub open spec fn wrapped_line_ink(text: Seq<char>, max_chars: int, k: int, x: int, y: int, s: int, cw: int, width: int, step: int, px: int, py: int) -> bool {
    let line = wrap_lines(text, max_chars)[k];
    text_ink(line, fitting(line.len() as int, width, cw), x, y + k * step, s, cw, false, px, py)
}

/// Whether pixel (px, py) is ink of one of the first `max_lines` wrapped
/// lines of `text`; see [`wrapped_line_ink`].
pub open spec fn wrapped_ink(text: Seq<char>, max_chars: int, max_lines: int, x: int, y: int, s: int, cw: int, width: int, step: int, px: int, py: int) -> bool {
    exists|k: int| 0 <= k < wrap_lines(text, max_chars).len() && k < max_lines
        && #[trigger] wrapped_line_ink(text, max_chars, k, x, y, s, cw, width, step, px, py)
}

/// Ink of the first `n` glyphs drawn from column `x` lies in the `n` cells.
proof fn lemma_text_cols(t: Seq<char>, n: int, x: int, y: int, s: int, cw: int, px: int, py: int)
    requires
        text_ink(t, n, x, y, s, cw, false, px, py),
        0 < 5 * s <= cw,
    ensures
        x <= px < x + n * cw,
{
    let k = (px - x) / cw;
    assert(0 <= k) by {
        vstd::arithmetic::div_mod::lemma_div_pos_is_pos(px - x, cw);
    }
    assert(px < x + k * cw + 5 * s);
    assert(k * cw + cw <= n * cw) by (nonlinear_arith)
        requires k < n, cw > 0;
}

/// `line` marked as cut short: "…" after it when it has fewer than `n`
/// characters, else in place of its `n`-th character.
pub open spec fn ellipsized(line: Seq<char>, n: int) -> Seq<char> {
    if line.len() < n { line + "\u{2026}"@ } else { line.take(n - 1) + "\u{2026}"@ }
}

/// The summary lines of a trail condition: its text wrapped to 20
/// characters, at most two lines, the second marked with "…" when more
/// text follows.
pub open spec fn trail_lines(condition: Seq<char>) -> Seq<Seq<char>> {
    let ls = wrap_lines(condition, 20);
    if ls.len() <= 2 { ls } else { seq![ls[0], ellipsized(ls[1], 20)] }
}

/// Whether pixel (px, py) is ink of summary line `k` of a trail condition:
/// Small type (18-pixel cells, 3-pixel blocks) from (12, 402 + 26k), cut to
/// 372 pixels.
pub open spec fn trail_line_ink(condition: Seq<char>, k: int, px: int, py: int) -> bool {
    let line = trail_lines(condition)[k];
    text_ink(line, fitting(line.len() as int, 372, 18), 12, 402 + 26 * k, 3, 18, false, px, py)
}

/// Whether pixel (px, py) is ink of any summary line of a trail condition.
pub open spec fn trail_summary_ink(condition: Seq<char>, px: int, py: int) -> bool {
    ||| (0 < trail_lines(condition).len() && trail_line_ink(condition, 0, px, py))
    ||| (1 < trail_lines(condition).len() && trail_line_ink(condition, 1, px, py))
}

/// `line` marked as cut short; see [`ellipsized`].
fn ellipsize(line: &str, n: usize) -> (r: String)
    requires
        n >= 1,
    ensures
        r@ == ellipsized(line@, n as int),
{
    let cs = chars_of(line);
    let mut v = if cs.len() < n { cs } else { sub_chars(cs.as_slice(), 0, n - 1) };
    proof {
        reveal_strlit("\u{2026}");
    }
    append_str(&mut v, "\u{2026}");
    string_from_chars(v.as_slice())
}

/// The summary lines of a trail condition below its heading.
#[verifier::spinoff_prover]
fn render_trail_summary(buf: &mut PixelBuffer, condition: &str)
    requires
        old(buf).wf(),
    ensures
        final(buf).drawn_within(old(buf), 12, 402, 372, 47),
        forall|k: int, px: int, py: int| 0 <= k < trail_lines(condition@).len() && final(buf).in_bounds(px, py)
            && #[trigger] trail_line_ink(condition@, k, px, py) ==> final(buf).black_at(px, py),
        forall|px: int, py: int| #[trigger] final(buf).in_bounds(px, py) && !trail_summary_ink(condition@, px, py)
            ==> final(buf).black_at(px, py) == old(buf).black_at(px, py),
{
    let ghost b0 = *buf;
    let lines = wrap_text(condition, 20);
    let ghost tl = trail_lines(condition@);
    proof {
        lemma_within_refl(&b0, 12, 402, 372, 47);
        assert(tl.len() <= 2);
    }
    if lines.len() > 0 {
        draw_text_scaled(buf, 12, 402, lines[0].as_str(), FontSize::Small, false, 372);
        proof {
            lemma_within_step(&b0, &b0, buf, 12, 402, 372, 47, 12, 402, 372, 21);
            assert(lines.deep_view()[0] == lines@[0]@);
        }
    }
    let ghost b1 = *buf;
    if lines.len() > 1 {
        let second = if lines.len() > 2 { ellipsize(lines[1].as_str(), 20) } else { copy_text(lines[1].as_str()) };
        proof {
            assert(lines.deep_view()[1] == lines@[1]@);
            assert(second@ == tl[1]);
        }
        draw_text_scaled(buf, 12, 428, second.as_str(), FontSize::Small, false, 372);
        proof {
            lemma_within_step(&b0, &b1, buf, 12, 402, 372, 47, 12, 428, 372, 21);
        }
    }
    proof {
        assert forall|k: int, px: int, py: int| 0 <= k < tl.len() && buf.in_bounds(px, py)
            && #[trigger] trail_line_ink(condition@, k, px, py) implies buf.black_at(px, py) by {
            assert(b1.in_bounds(px, py));
        }
        assert forall|px: int, py: int| #[trigger] buf.in_bounds(px, py) && !trail_summary_ink(condition@, px, py)
            implies buf.black_at(px, py) == b0.black_at(px, py) by {
            assert(b1.in_bounds(px, py));
            if lines.len() > 0 {
                assert(lines.deep_view()[0] == lines@[0]@);
            }
        }
    }
}

/// A copy of `s`.
fn copy_text(s: &str) -> (r: String)
    ensures
        r@ == s@,
{
    string_from_chars(chars_of(s).as_slice())
}

/// Up to `max_lines` wrapped lines of `text`, one every `step` pixels from
/// `y`, while a line still fits above the bottom of the context zone.
#[verifier::spinoff_prover]
#[verifier::rlimit(40)]
fn render_wrapped(buf: &mut PixelBuffer, x: u32, y: u32, text: &str, size: FontSize, max_chars: usize, max_lines: usize, width: u32, step: u32)
    requires
        old(buf).wf(),
        x + width + size.glyph_w() <= LAYOUT_COORD_MAX,
        CONTEXT_Y <= y <= CONTEXT_Y + CONTEXT_H,
        step >= size.glyph_h(),
        step <= 100,
        max_lines <= 3,
    ensures
        final(buf).drawn_within(old(buf), x as int, y as int, width as int, CONTEXT_Y + CONTEXT_H + 2 - y),
        forall|k: int, px: int, py: int| 0 <= k < wrap_lines(text@, max_chars as int).len() && k < max_lines
            && y + k * step + size.glyph_h() <= CONTEXT_Y + CONTEXT_H && final(buf).in_bounds(px, py)
            && #[trigger] wrapped_line_ink(text@, max_chars as int, k, x as int, y as int, size.scale() as int, size.cell_w() as int, width as int, step as int, px, py)
            ==> final(buf).black_at(px, py),
        forall|px: int, py: int| #[trigger] final(buf).in_bounds(px, py)
            && !wrapped_ink(text@, max_chars as int, max_lines as int, x as int, y as int, size.scale() as int, size.cell_w() as int, width as int, step as int, px, py)
            ==> final(buf).black_at(px, py) == old(buf).black_at(px, py),
{
    let ghost b0 = *buf;
    let ghost (zx, zy, zw, zh) = (x as int, y as int, width as int, CONTEXT_Y + CONTEXT_H + 2 - y);
    proof {
        lemma_within_refl(&b0, zx, zy, zw, zh);
    }
    let lines = wrap_text(text, max_chars);
    let y0 = y;
    let mut y = y;
    let mut k: usize = 0;
    while k < lines.len() && k < max_lines
        invariant
            k <= max_lines,
            k <= lines.len(),
            max_lines <= 3,
            y0 <= y <= CONTEXT_Y + CONTEXT_H + 100 * k,
            y == y0 + k * step,
            CONTEXT_Y <= y0 <= CONTEXT_Y + CONTEXT_H,
            step <= 100,
            step >= size.glyph_h(),
            x + width + size.glyph_w() <= LAYOUT_COORD_MAX,
            zx == x, zy == y0, zw == width, zh == CONTEXT_Y + CONTEXT_H + 2 - y0,
            buf.drawn_within(&b0, zx, zy, zw, zh),
            lines.deep_view() == wrap_lines(text@, max_chars as int),
            forall|j: int, px: int, py: int| 0 <= j < k && buf.in_bounds(px, py)
                && #[trigger] wrapped_line_ink(text@, max_chars as int, j, x as int, y0 as int, size.scale() as int, size.cell_w() as int, width as int, step as int, px, py)
                ==> buf.black_at(px, py),
            forall|px: int, py: int| #[trigger] buf.in_bounds(px, py)
                && !wrapped_ink(text@, max_chars as int, k as int, x as int, y0 as int, size.scale() as int, size.cell_w() as int, width as int, step as int, px, py)
                ==> buf.black_at(px, py) == b0.black_at(px, py),
        ensures
            k == lines.len() || k == max_lines || y + size.glyph_h() > CONTEXT_Y + CONTEXT_H,
            y == y0 + k * step,
            buf.drawn_within(&b0, zx, zy, zw, zh),
            forall|j: int, px: int, py: int| 0 <= j < k && buf.in_bounds(px, py)
                && #[trigger] wrapped_line_ink(text@, max_chars as int, j, x as int, y0 as int, size.scale() as int, size.cell_w() as int, width as int, step as int, px, py)
                ==> buf.black_at(px, py),
            forall|px: int, py: int| #[trigger] buf.in_bounds(px, py)
                && !wrapped_ink(text@, max_chars as int, k as int, x as int, y0 as int, size.scale() as int, size.cell_w() as int, width as int, step as int, px, py)
                ==> buf.black_at(px, py) == b0.black_at(px, py),
        decreases lines.len() - k,
    {
        if y + size.glyph_h() > CONTEXT_Y + CONTEXT_H {
            break;
        }
        let ghost before = *buf;
        draw_text_scaled(buf, x, y, lines[k].as_str(), size, false, width);
        proof {
            lemma_within_step(&b0, &before, buf, zx, zy, zw, zh, x as int, y as int, width as int, size.glyph_h() as int);
            assert forall|j: int, px: int, py: int| 0 <= j < k + 1 && buf.in_bounds(px, py)
                && #[trigger] wrapped_line_ink(text@, max_chars as int, j, x as int, y0 as int, size.scale() as int, size.cell_w() as int, width as int, step as int, px, py)
                implies buf.black_at(px, py) by {
                assert(before.in_bounds(px, py));
                if j == k {
                    assert(lines.deep_view()[j] == lines@[j]@);
                }
            }
            assert forall|px: int, py: int| #[trigger] buf.in_bounds(px, py)
                && !wrapped_ink(text@, max_chars as int, k + 1, x as int, y0 as int, size.scale() as int, size.cell_w() as int, width as int, step as int, px, py)
                implies buf.black_at(px, py) == b0.black_at(px, py) by {
                assert(before.in_bounds(px, py));
                assert(lines.deep_view()[k as int] == lines@[k as int]@);
                assert(!wrapped_line_ink(text@, max_chars as int, k as int, x as int, y0 as int, size.scale() as int, size.cell_w() as int, width as int, step as int, px, py));
                assert(!wrapped_ink(text@, max_chars as int, k as int, x as int, y0 as int, size.scale() as int, size.cell_w() as int, width as int, step as int, px, py));
            }
            assert(y0 + (k + 1) * step == y0 + k * step + step) by (nonlinear_arith);
        }
        y = y + step;
        k = k + 1;
    }
    proof {
        assert forall|j: int, px: int, py: int| 0 <= j < wrap_lines(text@, max_chars as int).len() && j < max_lines
            && y0 + j * step + size.glyph_h() <= CONTEXT_Y + CONTEXT_H && buf.in_bounds(px, py)
            && #[trigger] wrapped_line_ink(text@, max_chars as int, j, x as int, y0 as int, size.scale() as int, size.cell_w() as int, width as int, step as int, px, py)
            implies buf.black_at(px, py) by {
            if j >= k {
                assert(y0 + j * step >= y0 + k * step) by (nonlinear_arith)
                    requires j >= k, step >= 0;
            }
        }
        assert forall|px: int, py: int| #[trigger] buf.in_bounds(px, py)
            && !wrapped_ink(text@, max_chars as int, max_lines as int, x as int, y0 as int, size.scale() as int, size.cell_w() as int, width as int, step as int, px, py)
            implies buf.black_at(px, py) == b0.black_at(px, py) by {
            assert(!wrapped_ink(text@, max_chars as int, k as int, x as int, y0 as int, size.scale() as int, size.cell_w() as int, width as int, step as int, px, py));
        }
    }
}

/// Whether pixel (px, py) is drawn for a road in the context zone: its
/// heading, the CLOSED bar or its status, and its first two segment lines.
pub open spec fn road_context_ink(r: RoadContent, px: int, py: int) -> bool {
    ||| context_heading_ink(r.name@, 412, 376, px, py)
    ||| (status_closed(r.status@) && in_box(px, py, 412, 402, 376, 36))
    ||| (!status_closed(r.status@) && road_status_ink(r.status@, px, py))
    ||| wrapped_ink(r.segment@, 31, 2, 412, road_segment_row(r.status@), 2, 12, 376, 18, px, py)
}

/// Whether pixel (px, py) is drawn in the context zone: the column divider,
/// the trail's heading and summary lines, and what is drawn for the road.
pub open spec fn context_ink(ctx: ContextContent, px: int, py: int) -> bool {
    ||| ((ctx.trail is Some || ctx.road is Some) && in_box(px, py, 398, 376, 2, 102))
    ||| (ctx.trail matches Some(t) && (context_heading_ink(t.name@, 12, 372, px, py) || trail_summary_ink(t.condition@, px, py)))
    ||| (ctx.road matches Some(r) && road_context_ink(r, px, py))
}

#[verifier::spinoff_prover]
fn render_context(buf: &mut PixelBuffer, ctx: &ContextContent)
    requires
        old(buf).wf(),
    ensures
        final(buf).drawn_within(old(buf), 0, CONTEXT_Y as int, all_columns(), CONTEXT_H as int + 2),
        ctx.trail is Some || ctx.road is Some ==> forall|px: int, py: int| #[trigger] final(buf).in_bounds(px, py)
            && in_box(px, py, 398, 376, 2, 102) ==> final(buf).black_at(px, py),
        ctx.trail matches Some(t) ==> forall|px: int, py: int| #[trigger] final(buf).in_bounds(px, py)
            && context_heading_ink(t.name@, 12, 372, px, py) ==> final(buf).black_at(px, py),
        ctx.road matches Some(r) ==> forall|px: int, py: int| #[trigger] final(buf).in_bounds(px, py)
            && context_heading_ink(r.name@, 412, 376, px, py) ==> final(buf).black_at(px, py),
        ctx.road matches Some(r) ==> (status_closed(r.status@) ==> forall|px: int, py: int| #[trigger] final(buf).in_bounds(px, py)
            && in_box(px, py, 412, 402, 376, 36) ==> final(buf).black_at(px, py) == !closed_text_ink(px, py)),
        ctx.road matches Some(r) ==> (!status_closed(r.status@) ==> forall|px: int, py: int| #[trigger] final(buf).in_bounds(px, py)
            && road_status_ink(r.status@, px, py) ==> final(buf).black_at(px, py)),
        ctx.trail matches Some(t) ==> forall|k: int, px: int, py: int| 0 <= k < trail_lines(t.condition@).len() && final(buf).in_bounds(px, py)
            && #[trigger] trail_line_ink(t.condition@, k, px, py) ==> final(buf).black_at(px, py),
        ctx.road matches Some(r) ==> forall|k: int, px: int, py: int| 0 <= k < wrap_lines(r.segment@, 31).len() && k < 2 && final(buf).in_bounds(px, py)
            && #[trigger] wrapped_line_ink(r.segment@, 31, k, 412, road_segment_row(r.status@), 2, 12, 376, 18, px, py) ==> final(buf).black_at(px, py),
        forall|px: int, py: int| #[trigger] final(buf).in_bounds(px, py) && !context_ink(*ctx, px, py)
            ==> final(buf).black_at(px, py) == old(buf).black_at(px, py),
{
    let ghost b0 = *buf;
    let ghost (zx, zy, zw, zh) = (0int, CONTEXT_Y as int, all_columns(), CONTEXT_H as int + 2);
    assert(FontSize::Micro.spec_cell_w() == 12 && FontSize::Micro.spec_scale() == 2 && FontSize::Micro.spec_cell_h() == 16);
    proof {
        lemma_within_refl(&b0, zx, zy, zw, zh);
    }
    if ctx.trail.is_some() || ctx.road.is_some() {
        vline(buf, CTX_DIVIDER_X, CONTEXT_Y, CONTEXT_H, DIVIDER_H);
        proof {
            lemma_within_step(&b0, &b0, buf, zx, zy, zw, zh, 398, 376, 2, 102);
        }
    }
    let ghost bd = *buf;
    proof {
        assert forall|px: int, py: int| #[trigger] bd.in_bounds(px, py) && !context_ink(*ctx, px, py)
            implies bd.black_at(px, py) == b0.black_at(px, py) by {
            assert(b0.in_bounds(px, py));
        }
    }
    if let Some(trail) = &ctx.trail {
        let x = 12u32;
        let y = CONTEXT_Y + 6;
        let name = to_uppercase(trail.name.as_str());
        let ghost b1 = *buf;
        draw_text_scaled(buf, x, y, name.as_str(), FontSize::Micro, false, CTX_LEFT_W - 24);
        let ghost b2 = *buf;
        let y = y + FontSize::Micro.cell_h() + 4;
        render_trail_summary(buf, trail.condition.as_str());
        proof {
            lemma_within_step(&b0, &b1, &b2, zx, zy, zw, zh, 12, 382, 372, 14);
            lemma_within_step(&b0, &b2, buf, zx, zy, zw, zh, zx, zy, zw, zh);
            assert forall|px: int, py: int| #[trigger] buf.in_bounds(px, py) && context_heading_ink(trail.name@, 12, 372, px, py) implies buf.black_at(px, py) by {
                assert(b2.in_bounds(px, py));
            }
            assert forall|px: int, py: int| #[trigger] buf.in_bounds(px, py) && in_box(px, py, 398, 376, 2, 102) implies buf.black_at(px, py) == bd.black_at(px, py) by {
                assert(b1.in_bounds(px, py) && b2.in_bounds(px, py));
            }
            assert forall|px: int, py: int| #[trigger] buf.in_bounds(px, py) && !context_ink(*ctx, px, py)
                implies buf.black_at(px, py) == b0.black_at(px, py) by {
                assert(b1.in_bounds(px, py) && b2.in_bounds(px, py) && bd.in_bounds(px, py));
            }
        }
    }
    let ghost bt = *buf;
    if let Some(road) = &ctx.road {
        let x = CTX_RIGHT_X + 12;
        let mut y = CONTEXT_Y + 6;
        let name = to_uppercase(road.name.as_str());
        let ghost b1 = *buf;
        draw_text_scaled(buf, x, y, name.as_str(), FontSize::Micro, false, CTX_RIGHT_W - 24);
        let ghost b2 = *buf;
        proof {
            lemma_within_step(&b0, &b1, &b2, zx, zy, zw, zh, 412, 382, 376, 14);
        }
        let ghost rest0 = *buf;
        proof {
            lemma_within_refl(&rest0, 412, 402, 376, 78);
            assert forall|px: int, py: int| #[trigger] rest0.in_bounds(px, py) && !context_heading_ink(road.name@, 412, 376, px, py)
                implies rest0.black_at(px, py) == b1.black_at(px, py) by {
                assert(b1.in_bounds(px, py));
            }
        }
        y = y + FontSize::Micro.cell_h() + 4;
        let lower = to_lowercase(road.status.as_str());
        let is_closed = contains_chars(chars_of(lower.as_str()).as_slice(), chars_of("closed").as_slice());
        if is_closed {
            let bar_w = CTX_RIGHT_W - 24;
            let bar_h = FontSize::Medium.cell_h() + 4;
            fill_rect_xy(buf, x, y, bar_w, bar_h, true);
            let ghost b3 = *buf;
            proof {
                reveal_strlit("CLOSED");
                lemma_within_step(&b0, &b2, &b3, zx, zy, zw, zh, 412, 402, 376, 36);
                lemma_within_step(&rest0, &rest0, &b3, 412, 402, 376, 78, 412, 402, 376, 36);
            }
            clear_text_centered(buf, x, y + 2, "CLOSED", FontSize::Medium, bar_w);
            proof {
                lemma_within_step(&b0, &b3, buf, zx, zy, zw, zh, 412, 404, 376, 28);
                lemma_within_step(&rest0, &b3, buf, 412, 402, 376, 78, 412, 404, 376, 28);
                lemma_within_refl(&rest0, 412, 402, 376, 36);
                lemma_within_step(&rest0, &rest0, &b3, 412, 402, 376, 36, 412, 402, 376, 36);
                lemma_within_step(&rest0, &b3, buf, 412, 402, 376, 36, 412, 404, 376, 28);
                assert(fitting(6, 376, 24) == 6);
                assert(centered_start(412, 376, 6, 24) == 528);
                assert forall|px: int, py: int| #[trigger] buf.in_bounds(px, py) && in_box(px, py, 412, 402, 376, 36)
                    implies buf.black_at(px, py) == !closed_text_ink(px, py) by {
                    assert(b3.in_bounds(px, py));
                }
            }
            y = y + bar_h + 4;
        } else {
            let status_str = to_uppercase(road.status.as_str());
            draw_text_scaled(buf, x, y, status_str.as_str(), FontSize::Medium, false, CTX_RIGHT_W - 24);
            proof {
                lemma_within_step(&b0, &b2, buf, zx, zy, zw, zh, 412, 402, 376, 28);
                lemma_within_step(&rest0, &rest0, buf, 412, 402, 376, 78, 412, 402, 376, 28);
            }
            y = y + FontSize::Medium.cell_h() + 4;
        }
        let ghost b4 = *buf;
        proof {
            assert forall|px: int, py: int| #[trigger] b4.in_bounds(px, py) && !road_context_ink(*road, px, py)
                implies b4.black_at(px, py) == b1.black_at(px, py) by {
                assert(rest0.in_bounds(px, py));
                if !status_closed(road.status@) {
                    assert(!road_status_ink(road.status@, px, py));
                }
            }
        }
        let cw = FontSize::Micro.cell_w();
        assert(cw == 12);
        let q: u32 = (CTX_RIGHT_W - 24) / cw;
        assert(q == 31) by (nonlinear_arith)
            requires q == 376u32 / cw, cw == 12;
        let max_chars = q as usize;
        proof {
            assert(is_closed == status_closed(road.status@));
            assert(y == road_segment_row(road.status@));
        }
        render_wrapped(buf, x, y, road.segment.as_str(), FontSize::Micro, max_chars, 2, CTX_RIGHT_W - 24, FontSize::Micro.cell_h() + 2);
        proof {
            lemma_within_step(&b0, &b4, buf, zx, zy, zw, zh, zx, zy, zw, zh);
            lemma_within_step(&rest0, &b4, buf, 412, 402, 376, 78, x as int, y as int, 376, CONTEXT_Y + CONTEXT_H + 2 - y);
            assert forall|px: int, py: int| #[trigger] buf.in_bounds(px, py) && context_heading_ink(road.name@, 412, 376, px, py) implies buf.black_at(px, py) by {
                assert(rest0.in_bounds(px, py));
            }
            assert forall|px: int, py: int| #[trigger] buf.in_bounds(px, py) && !in_box(px, py, 412, 376, 376, 104) implies buf.black_at(px, py) == bt.black_at(px, py) by {
                assert(b1.in_bounds(px, py) && rest0.in_bounds(px, py));
            }
            assert forall|px: int, py: int| #[trigger] buf.in_bounds(px, py) && !road_context_ink(*road, px, py)
                implies buf.black_at(px, py) == bt.black_at(px, py) by {
                assert(b4.in_bounds(px, py));
                assert(!wrapped_ink(road.segment@, 31, 2, 412, road_segment_row(road.status@), 2, 12, 376, 18, px, py));
            }
            assert(is_closed == status_closed(road.status@));
            if is_closed {
                assert forall|px: int, py: int| #[trigger] buf.in_bounds(px, py) && in_box(px, py, 412, 402, 376, 36)
                    implies buf.black_at(px, py) == !closed_text_ink(px, py) by {
                    assert(b4.in_bounds(px, py));
                }
            } else {
                assert forall|px: int, py: int| #[trigger] buf.in_bounds(px, py) && road_status_ink(road.status@, px, py) implies buf.black_at(px, py) by {
                    lemma_text_rows(uppercase(road.status@), fitting(uppercase(road.status@).len() as int, 376, 24), 412, 402, 4, 24, px, py);
                    assert(b4.in_bounds(px, py));
                }
            }
        }
    }
    proof {
        assert forall|px: int, py: int| #[trigger] buf.in_bounds(px, py) && !in_box(px, py, 412, 376, 376, 104) implies buf.black_at(px, py) == bt.black_at(px, py) by {
            assert(bt.in_bounds(px, py));
        }
        assert forall|px: int, py: int| #[trigger] buf.in_bounds(px, py) && !context_ink(*ctx, px, py)
            implies buf.black_at(px, py) == b0.black_at(px, py) by {
            assert(bt.in_bounds(px, py) && bd.in_bounds(px, py));
        }
        if ctx.trail is Some || ctx.road is Some {
            assert forall|px: int, py: int| #[trigger] buf.in_bounds(px, py) && in_box(px, py, 398, 376, 2, 102) implies buf.black_at(px, py) by {
                assert(bt.in_bounds(px, py) && bd.in_bounds(px, py));
            }
        }
        if ctx.trail is Some {
            let t = ctx.trail.unwrap();
            assert forall|px: int, py: int| #[trigger] buf.in_bounds(px, py) && context_heading_ink(t.name@, 12, 372, px, py) implies buf.black_at(px, py) by {
                assert(bt.in_bounds(px, py));
            }
            assert forall|k: int, px: int, py: int| 0 <= k < trail_lines(t.condition@).len() && buf.in_bounds(px, py)
                && #[trigger] trail_line_ink(t.condition@, k, px, py) implies buf.black_at(px, py) by {
                let line = trail_lines(t.condition@)[k];
                lemma_text_cols(line, fitting(line.len() as int, 372, 18), 12, 402 + 26 * k, 3, 18, px, py);
                assert(bt.in_bounds(px, py));
            }
        }
    }
}

// ── Public entry points ───────────────────────────────────────────────────────

/// Render a [`DisplayLayout`] into a 1-bit pixel buffer laid out for 800×480.
///
/// Each zone draws only in its own band of rows, so the three full-width
/// dividers under the header, hero and data zones are always black; the app
/// name, the river site and the update time stand in the header; the
/// decision word stands in large type in the hero zone, with its first two
/// explanation lines below it and the weather icon, temperature, sky
/// condition and wind line beside it; the river's site, level, trend, flow
/// and level history and the ferry's route, next three departures and vessel
/// stand in the data zone; and the trail and road names head the context
/// zone above the trail's condition and the road's segment, with a closed
/// road's status as "CLOSED" in white on a black bar and an open road's
/// status in capitals.
pub fn layout_and_render_display(layout: &DisplayLayout, buf: &mut PixelBuffer)
    requires
        old(buf).wf(),
        layout_drawable(*layout),
    ensures
        final(buf).same_frame(old(buf)),
        divider_drawn(*final(buf), 28),
        divider_drawn(*final(buf), 232),
        divider_drawn(*final(buf), 374),
        forall|px: int, py: int| #[trigger] final(buf).in_bounds(px, py) && hero_word_ink(layout.hero.decision, px, py) ==> final(buf).black_at(px, py),
        forall|px: int, py: int| #[trigger] final(buf).in_bounds(px, py) && header_name_ink(layout.header.app_name@, px, py) ==> final(buf).black_at(px, py),
        layout.header.river_site matches Some(site) ==> forall|px: int, py: int| #[trigger] final(buf).in_bounds(px, py)
            && header_site_ink(site@, px, py) ==> final(buf).black_at(px, py),
        layout.header.last_updated matches Some(ts) ==> forall|px: int, py: int| #[trigger] final(buf).in_bounds(px, py)
            && header_updated_ink(ts@, px, py) ==> final(buf).black_at(px, py),
        layout.context.trail matches Some(t) ==> forall|px: int, py: int| #[trigger] final(buf).in_bounds(px, py)
            && context_heading_ink(t.name@, 12, 372, px, py) ==> final(buf).black_at(px, py),
        layout.context.road matches Some(r) ==> forall|px: int, py: int| #[trigger] final(buf).in_bounds(px, py)
            && context_heading_ink(r.name@, 412, 376, px, py) ==> final(buf).black_at(px, py),
        layout.context.road matches Some(r) ==> (status_closed(r.status@) ==> forall|px: int, py: int| #[trigger] final(buf).in_bounds(px, py)
            && in_box(px, py, 412, 402, 376, 36) ==> final(buf).black_at(px, py) == !closed_text_ink(px, py)),
        layout.context.road matches Some(r) ==> (!status_closed(r.status@) ==> forall|px: int, py: int| #[trigger] final(buf).in_bounds(px, py)
            && road_status_ink(r.status@, px, py) ==> final(buf).black_at(px, py)),
        layout.context.trail matches Some(t) ==> forall|k: int, px: int, py: int| 0 <= k < trail_lines(t.condition@).len() && final(buf).in_bounds(px, py)
            && #[trigger] trail_line_ink(t.condition@, k, px, py) ==> final(buf).black_at(px, py),
        layout.context.road matches Some(r) ==> forall|k: int, px: int, py: int| 0 <= k < wrap_lines(r.segment@, 31).len() && k < 2 && final(buf).in_bounds(px, py)
            && #[trigger] wrapped_line_ink(r.segment@, 31, k, 412, road_segment_row(r.status@), 2, 12, 376, 18, px, py) ==> final(buf).black_at(px, py),
        forall|i: int, px: int, py: int| 0 <= i < hero_reasons(layout.hero.decision).len() && i < hero_reason_rows() && final(buf).in_bounds(px, py)
            && #[trigger] hero_reason_ink(layout.hero.decision, i, px, py) ==> final(buf).black_at(px, py),
        layout.hero.weather matches Some(w) ==> forall|px: int, py: int| #[trigger] final(buf).in_bounds(px, py)
            && weather_ink(w, px, py) ==> final(buf).black_at(px, py),
        forall|i: int, px: int, py: int| 0 <= i < hero_reasons(layout.hero.decision).len() && i < hero_reason_rows() && final(buf).in_bounds(px, py)
            && #[trigger] on_bullet(i, px, py) ==> final(buf).black_at(px, py) == bullets_black(layout.hero.decision),
        layout.data.river matches Some(r) ==> forall|px: int, py: int| #[trigger] final(buf).in_bounds(px, py)
            && river_text_ink(r, px, py) ==> final(buf).black_at(px, py),
        layout.data.river matches Some(r) ==> (r.sparkline matches Some(sp) ==> (sp.values@.len() >= 2 ==> forall|k: int, px: int, py: int| 0 <= k < sp.values@.len()
            && final(buf).in_bounds(px, py) && #[trigger] on_spark_point(sp.values@, k, 8, 352, 380, 22, px, py) ==> final(buf).black_at(px, py))),
        layout.data.river matches Some(r) ==> (r.sparkline matches Some(sp) ==> (sp.values@.len() > 0 ==> forall|px: int, py: int| #[trigger] final(buf).in_bounds(px, py)
            && in_box(px, py, 384, spark_last_row(sp.values@, 352, 22) - 2, 4, 4) ==> final(buf).black_at(px, py))),
        layout.data.ferry matches Some(f) ==> forall|px: int, py: int| #[trigger] final(buf).in_bounds(px, py)
            && ferry_text_ink(f, px, py) ==> final(buf).black_at(px, py),
        forall|px: int, py: int| #[trigger] final(buf).in_bounds(px, py) && in_box(px, py, 0, 0, all_columns(), 30)
            && !header_ink(layout.header, px, py) ==> final(buf).black_at(px, py) == old(buf).black_at(px, py),
        forall|px: int, py: int| #[trigger] final(buf).in_bounds(px, py) && in_box(px, py, 0, 30, 492, 202)
            && !hero_left_ink(layout.hero.decision, px, py) ==> final(buf).black_at(px, py) == old(buf).black_at(px, py),
        forall|px: int, py: int| #[trigger] final(buf).in_bounds(px, py) && in_box(px, py, 0, 376, all_columns(), 104)
            && !context_ink(layout.context, px, py) ==> final(buf).black_at(px, py) == old(buf).black_at(px, py),
{
    let ghost b0 = *buf;
    render_header(buf, &layout.header);
    let ghost b1 = *buf;
    render_hero(buf, &layout.hero);
    let ghost b2 = *buf;
    render_data(buf, &layout.data);
    let ghost b3 = *buf;
    render_context(buf, &layout.context);
    proof {
        assert forall|px: int, py: int| #[trigger] buf.in_bounds(px, py) && 0 <= px < 800 && (py == 28 || py == 29) implies buf.black_at(px, py) by {
            assert(b1.in_bounds(px, py) && b2.in_bounds(px, py) && b3.in_bounds(px, py));
        }
        assert forall|px: int, py: int| #[trigger] buf.in_bounds(px, py) && 0 <= px < 800 && (py == 232 || py == 233) implies buf.black_at(px, py) by {
            assert(b2.in_bounds(px, py) && b3.in_bounds(px, py));
        }
        assert forall|px: int, py: int| #[trigger] buf.in_bounds(px, py) && 0 <= px < 800 && (py == 374 || py == 375) implies buf.black_at(px, py) by {
            assert(b3.in_bounds(px, py));
        }
        assert forall|px: int, py: int| #[trigger] buf.in_bounds(px, py) && hero_word_ink(layout.hero.decision, px, py) implies buf.black_at(px, py) by {
            lemma_hero_word_zone(layout.hero.decision, px, py);
            assert(b2.in_bounds(px, py) && b3.in_bounds(px, py));
        }
        assert forall|px: int, py: int| #[trigger] buf.in_bounds(px, py) && header_name_ink(layout.header.app_name@, px, py) implies buf.black_at(px, py) by {
            assert(b1.in_bounds(px, py) && b2.in_bounds(px, py) && b3.in_bounds(px, py));
        }
        if layout.header.river_site is Some {
            let site = layout.header.river_site.unwrap();
            assert forall|px: int, py: int| #[trigger] buf.in_bounds(px, py) && header_site_ink(site@, px, py) implies buf.black_at(px, py) by {
                lemma_text_rows(site@, fitting(site@.len() as int, 400, 12), centered_start(200, 400, site@.len() as int, 12), 10, 2, 12, px, py);
                assert(b1.in_bounds(px, py) && b2.in_bounds(px, py) && b3.in_bounds(px, py));
            }
        }
        if layout.header.last_updated is Some {
            let ts = layout.header.last_updated.unwrap();
            assert forall|px: int, py: int| #[trigger] buf.in_bounds(px, py) && header_updated_ink(ts@, px, py) implies buf.black_at(px, py) by {
                let t = "Updated "@ + ts@;
                lemma_text_rows(t, fitting(t.len() as int, 784, 12), right_start(0, 784, t.len() as int, 12), 10, 2, 12, px, py);
                assert(b1.in_bounds(px, py) && b2.in_bounds(px, py) && b3.in_bounds(px, py));
            }
        }
        assert forall|i: int, px: int, py: int| 0 <= i < hero_reasons(layout.hero.decision).len() && i < hero_reason_rows() && buf.in_bounds(px, py)
            && #[trigger] hero_reason_ink(layout.hero.decision, i, px, py) implies buf.black_at(px, py) by {
            lemma_bullet_zone(hero_reasons(layout.hero.decision)[i]@, i, px, py);
            assert(b2.in_bounds(px, py) && b3.in_bounds(px, py));
        }
        assert forall|i: int, px: int, py: int| 0 <= i < hero_reasons(layout.hero.decision).len() && i < hero_reason_rows() && buf.in_bounds(px, py)
            && #[trigger] on_bullet(i, px, py) implies buf.black_at(px, py) == bullets_black(layout.hero.decision) by {
            assert(b2.in_bounds(px, py) && b3.in_bounds(px, py));
        }
        if layout.hero.weather is Some {
            let w = layout.hero.weather.unwrap();
            assert forall|px: int, py: int| #[trigger] buf.in_bounds(px, py) && weather_ink(w, px, py) implies buf.black_at(px, py) by {
                let t = temperature_text(w);
                if icon_core(w.icon, 506, 38, px, py) {
                    lemma_icon_core_box(w.icon, 506, 38, px, py);
                } else if text_ink(t, fitting(t.len() as int, 784, 44), right_start(494, 784, t.len() as int, 44), 42, 8, 44, false, px, py) {
                    lemma_text_rows(t, fitting(t.len() as int, 784, 44), right_start(494, 784, t.len() as int, 44), 42, 8, 44, px, py);
                } else if text_ink(w.sky_condition@, fitting(w.sky_condition@.len() as int, 282, 18), 506, 108, 3, 18, false, px, py) {
                    lemma_text_rows(w.sky_condition@, fitting(w.sky_condition@.len() as int, 282, 18), 506, 108, 3, 18, px, py);
                } else {
                    lemma_text_rows(wind_line(w), fitting(wind_line(w).len() as int, 282, 12), 506, 136, 2, 12, px, py);
                }
                assert(b2.in_bounds(px, py) && b3.in_bounds(px, py));
            }
        }
        if layout.data.river is Some {
            let r = layout.data.river.unwrap();
            assert forall|px: int, py: int| #[trigger] buf.in_bounds(px, py) && river_text_ink(r, px, py)
                implies buf.black_at(px, py) by {
                lemma_river_text_rows(r, px, py);
                assert(b3.in_bounds(px, py));
            }
            if r.sparkline is Some {
                let sp = r.sparkline.unwrap();
                if sp.values@.len() >= 2 {
                    assert forall|k: int, px: int, py: int| 0 <= k < sp.values@.len() && buf.in_bounds(px, py)
                        && #[trigger] on_spark_point(sp.values@, k, 8, 352, 380, 22, px, py) implies buf.black_at(px, py) by {
                        assert(b3.in_bounds(px, py));
                    }
                }
                if sp.values@.len() > 0 {
                    assert forall|px: int, py: int| #[trigger] buf.in_bounds(px, py)
                        && in_box(px, py, 384, spark_last_row(sp.values@, 352, 22) - 2, 4, 4) implies buf.black_at(px, py) by {
                        assert(b3.in_bounds(px, py));
                    }
                }
            }
        }
        if layout.data.ferry is Some {
            let f = layout.data.ferry.unwrap();
            assert forall|px: int, py: int| #[trigger] buf.in_bounds(px, py) && ferry_text_ink(f, px, py)
                implies buf.black_at(px, py) by {
                lemma_ferry_text_rows(f, px, py);
                assert(b3.in_bounds(px, py));
            }
        }
        assert forall|px: int, py: int| #[trigger] buf.in_bounds(px, py) && in_box(px, py, 0, 0, all_columns(), 30)
            && !header_ink(layout.header, px, py) implies buf.black_at(px, py) == b0.black_at(px, py) by {
            assert(b0.in_bounds(px, py) && b1.in_bounds(px, py) && b2.in_bounds(px, py) && b3.in_bounds(px, py));
        }
        assert forall|px: int, py: int| #[trigger] buf.in_bounds(px, py) && in_box(px, py, 0, 30, 492, 202)
            && !hero_left_ink(layout.hero.decision, px, py) implies buf.black_at(px, py) == b0.black_at(px, py) by {
            assert(b0.in_bounds(px, py) && b1.in_bounds(px, py) && b2.in_bounds(px, py) && b3.in_bounds(px, py));
        }
        assert forall|px: int, py: int| #[trigger] buf.in_bounds(px, py) && in_box(px, py, 0, 376, all_columns(), 104)
            && !context_ink(layout.context, px, py) implies buf.black_at(px, py) == b0.black_at(px, py) by {
            assert(b0.in_bounds(px, py) && b1.in_bounds(px, py) && b2.in_bounds(px, py) && b3.in_bounds(px, py));
        }
    }
}

/// Whether pixel (px, py) is drawn on the startup screen: the app name, the
/// header divider, or "Loading data...".
pub open spec fn startup_ink(px: int, py: int) -> bool {
    ||| text_ink("SKAGIT FLATS"@, 12, 16, 3, 3, 18, false, px, py)
    ||| in_box(px, py, 0, 28, 800, 2)
    ||| text_ink("Loading data..."@, 15, 220, 241, 4, 24, false, px, py)
}

/// Render a startup/loading screen: the app name in the header, the header
/// divider, and "Loading data..." centred below.
pub fn layout_and_render_startup(buf: &mut PixelBuffer)
    requires
        old(buf).wf(),
    ensures
        final(buf).same_frame(old(buf)),
        divider_drawn(*final(buf), 28),
        final(buf).drawn_within(old(buf), 0, 0, all_columns(), 300),
        forall|px: int, py: int| #[trigger] final(buf).in_bounds(px, py) && text_ink("SKAGIT FLATS"@, 12, 16, 3, 3, 18, false, px, py)
            ==> final(buf).black_at(px, py),
        forall|px: int, py: int| #[trigger] final(buf).in_bounds(px, py) && text_ink("Loading data..."@, 15, 220, 241, 4, 24, false, px, py)
            ==> final(buf).black_at(px, py),
        forall|px: int, py: int| #[trigger] final(buf).in_bounds(px, py) && !startup_ink(px, py)
            ==> final(buf).black_at(px, py) == old(buf).black_at(px, py),
{
    let ghost b0 = *buf;
    let pad_x = 16u32;
    let pad_y = (HEADER_H - FontSize::Small.glyph_h()) / 2;
    assert(FontSize::Small.spec_cell_w() == 18 && FontSize::Small.spec_scale() == 3 && FontSize::Small.spec_glyph_h() == 21);
    proof {
        reveal_strlit("SKAGIT FLATS");
    }
    draw_text_scaled(buf, pad_x, HEADER_Y + pad_y, "SKAGIT FLATS", FontSize::Small, false, 400);
    let ghost b1 = *buf;
    hline(buf, 0, HEADER_H, 800, DIVIDER_H);
    let ghost b2 = *buf;
    let body_y = HEADER_H + DIVIDER_H;
    let body_h = 480u32 - body_y;
    let text = "Loading data...";
    proof {
        reveal_strlit("Loading data...");
    }
    assert(FontSize::Medium.spec_cell_w() == 24 && FontSize::Medium.spec_scale() == 4 && FontSize::Medium.spec_glyph_h() == 28);
    let text_w = text.unicode_len() as u32 * FontSize::Medium.cell_w();
    let text_h = FontSize::Medium.glyph_h();
    let x = if 800u32 >= text_w { (800u32 - text_w) / 2 } else { 0 };
    let y = body_y + (body_h - text_h) / 2;
    assert(x == 220 && y == 241);
    draw_text_scaled(buf, x, y, text, FontSize::Medium, false, 800);
    proof {
        lemma_within_step(&b0, &b0, &b1, 0, 0, all_columns(), 300, 16, 3, 400, 21);
        lemma_within_step(&b0, &b1, &b2, 0, 0, all_columns(), 300, 0, 28, 800, 2);
        lemma_within_step(&b0, &b2, buf, 0, 0, all_columns(), 300, x as int, y as int, 800, 28);
        assert forall|px: int, py: int| #[trigger] buf.in_bounds(px, py) && 0 <= px < 800 && (py == 28 || py == 29) implies buf.black_at(px, py) by {
            assert(b2.in_bounds(px, py));
        }
        assert forall|px: int, py: int| #[trigger] buf.in_bounds(px, py) && text_ink("SKAGIT FLATS"@, 12, 16, 3, 3, 18, false, px, py)
            implies buf.black_at(px, py) by {
            assert(b1.in_bounds(px, py) && b2.in_bounds(px, py));
        }
        assert forall|px: int, py: int| #[trigger] buf.in_bounds(px, py) && !startup_ink(px, py)
            implies buf.black_at(px, py) == b0.black_at(px, py) by {
            assert(b0.in_bounds(px, py) && b1.in_bounds(px, py) && b2.in_bounds(px, py));
        }
    }
}

/// A fresh 800×480 buffer with the layout drawn into it.
pub fn render_display(layout: &DisplayLayout) -> (buf: PixelBuffer)
    requires
        layout_drawable(*layout),
    ensures
        buf.wf(),
        buf.width == 800,
        buf.height == 480,
        divider_drawn(buf, 28),
        divider_drawn(buf, 232),
        divider_drawn(buf, 374),
        forall|px: int, py: int| #[trigger] buf.in_bounds(px, py) && hero_word_ink(layout.hero.decision, px, py) ==> buf.black_at(px, py),
        forall|px: int, py: int| #[trigger] buf.in_bounds(px, py) && header_name_ink(layout.header.app_name@, px, py) ==> buf.black_at(px, py),
        layout.header.river_site matches Some(site) ==> forall|px: int, py: int| #[trigger] buf.in_bounds(px, py)
            && header_site_ink(site@, px, py) ==> buf.black_at(px, py),
        layout.header.last_updated matches Some(ts) ==> forall|px: int, py: int| #[trigger] buf.in_bounds(px, py)
            && header_updated_ink(ts@, px, py) ==> buf.black_at(px, py),
        layout.context.trail matches Some(t) ==> forall|px: int, py: int| #[trigger] buf.in_bounds(px, py)
            && context_heading_ink(t.name@, 12, 372, px, py) ==> buf.black_at(px, py),
        layout.context.road matches Some(r) ==> forall|px: int, py: int| #[trigger] buf.in_bounds(px, py)
            && context_heading_ink(r.name@, 412, 376, px, py) ==> buf.black_at(px, py),
        layout.context.road matches Some(r) ==> (status_closed(r.status@) ==> forall|px: int, py: int| #[trigger] buf.in_bounds(px, py)
            && in_box(px, py, 412, 402, 376, 36) ==> buf.black_at(px, py) == !closed_text_ink(px, py)),
        layout.context.road matches Some(r) ==> (!status_closed(r.status@) ==> forall|px: int, py: int| #[trigger] buf.in_bounds(px, py)
            && road_status_ink(r.status@, px, py) ==> buf.black_at(px, py)),
        layout.context.trail matches Some(t) ==> forall|k: int, px: int, py: int| 0 <= k < trail_lines(t.condition@).len() && buf.in_bounds(px, py)
            && #[trigger] trail_line_ink(t.condition@, k, px, py) ==> buf.black_at(px, py),
        layout.context.road matches Some(r) ==> forall|k: int, px: int, py: int| 0 <= k < wrap_lines(r.segment@, 31).len() && k < 2 && buf.in_bounds(px, py)
            && #[trigger] wrapped_line_ink(r.segment@, 31, k, 412, road_segment_row(r.status@), 2, 12, 376, 18, px, py) ==> buf.black_at(px, py),
        forall|i: int, px: int, py: int| 0 <= i < hero_reasons(layout.hero.decision).len() && i < hero_reason_rows() && buf.in_bounds(px, py)
            && #[trigger] hero_reason_ink(layout.hero.decision, i, px, py) ==> buf.black_at(px, py),
        layout.hero.weather matches Some(w) ==> forall|px: int, py: int| #[trigger] buf.in_bounds(px, py)
            && weather_ink(w, px, py) ==> buf.black_at(px, py),
        forall|i: int, px: int, py: int| 0 <= i < hero_reasons(layout.hero.decision).len() && i < hero_reason_rows() && buf.in_bounds(px, py)
            && #[trigger] on_bullet(i, px, py) ==> buf.black_at(px, py) == bullets_black(layout.hero.decision),
        layout.data.river matches Some(r) ==> forall|px: int, py: int| #[trigger] buf.in_bounds(px, py)
            && river_text_ink(r, px, py) ==> buf.black_at(px, py),
        layout.data.river matches Some(r) ==> (r.sparkline matches Some(sp) ==> (sp.values@.len() >= 2 ==> forall|k: int, px: int, py: int| 0 <= k < sp.values@.len()
            && buf.in_bounds(px, py) && #[trigger] on_spark_point(sp.values@, k, 8, 352, 380, 22, px, py) ==> buf.black_at(px, py))),
        layout.data.river matches Some(r) ==> (r.sparkline matches Some(sp) ==> (sp.values@.len() > 0 ==> forall|px: int, py: int| #[trigger] buf.in_bounds(px, py)
            && in_box(px, py, 384, spark_last_row(sp.values@, 352, 22) - 2, 4, 4) ==> buf.black_at(px, py))),
        layout.data.ferry matches Some(f) ==> forall|px: int, py: int| #[trigger] buf.in_bounds(px, py)
            && ferry_text_ink(f, px, py) ==> buf.black_at(px, py),
        forall|px: int, py: int| #[trigger] buf.in_bounds(px, py) && in_box(px, py, 0, 0, all_columns(), 30)
            && !header_ink(layout.header, px, py) ==> !buf.black_at(px, py),
        forall|px: int, py: int| #[trigger] buf.in_bounds(px, py) && in_box(px, py, 0, 30, 492, 202)
            && !hero_left_ink(layout.hero.decision, px, py) ==> !buf.black_at(px, py),
        forall|px: int, py: int| #[trigger] buf.in_bounds(px, py) && in_box(px, py, 0, 376, all_columns(), 104)
            && !context_ink(layout.context, px, py) ==> !buf.black_at(px, py),
{
    let mut buf = PixelBuffer::new(800, 480);
    let ghost b0 = buf;
    layout_and_render_display(layout, &mut buf);
    proof {
        assert forall|px: int, py: int| #[trigger] buf.in_bounds(px, py) && in_box(px, py, 0, 0, all_columns(), 30)
            && !header_ink(layout.header, px, py) implies !buf.black_at(px, py) by {
            assert(b0.in_bounds(px, py));
        }
        assert forall|px: int, py: int| #[trigger] buf.in_bounds(px, py) && in_box(px, py, 0, 30, 492, 202)
            && !hero_left_ink(layout.hero.decision, px, py) implies !buf.black_at(px, py) by {
            assert(b0.in_bounds(px, py));
        }
        assert forall|px: int, py: int| #[trigger] buf.in_bounds(px, py) && in_box(px, py, 0, 376, all_columns(), 104)
            && !context_ink(layout.context, px, py) implies !buf.black_at(px, py) by {
            assert(b0.in_bounds(px, py));
        }
    }
    buf
}

} // verus!
