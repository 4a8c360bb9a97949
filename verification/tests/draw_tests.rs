use skagit_flats::draw::{draw_border, draw_line_thick, fill_circle, fill_rect, hline, vline, Rect};
use skagit_flats::font::{glyph, FontSize};
use skagit_flats::glyphs::{draw_glyph, draw_text, draw_text_centered, draw_text_right};
use skagit_flats::grid::{compute_grid, layout_and_render, render_panel};
use skagit_flats::icons::draw_weather_icon;
use skagit_flats::presentation::{Panel, WeatherIcon};
use skagit_flats::render::PixelBuffer;

fn black(buf: &PixelBuffer) -> Vec<(u32, u32)> {
    let mut v = Vec::new();
    for y in 0..buf.height {
        for x in 0..buf.width {
            if buf.get_pixel(x, y) {
                v.push((x, y));
            }
        }
    }
    v
}

#[test]
fn fill_rect_paints_exactly_the_box() {
    let mut buf = PixelBuffer::new(10, 10);
    fill_rect(&mut buf, Rect { x: 2, y: 3, w: 3, h: 2 }, true);
    assert_eq!(black(&buf), vec![(2, 3), (3, 3), (4, 3), (2, 4), (3, 4), (4, 4)]);
    fill_rect(&mut buf, Rect { x: 3, y: 3, w: 1, h: 2 }, false);
    assert_eq!(black(&buf), vec![(2, 3), (4, 3), (2, 4), (4, 4)]);
}

#[test]
fn lines_clip_at_the_edge() {
    let mut buf = PixelBuffer::new(8, 8);
    hline(&mut buf, 5, 1, 10, 1);
    vline(&mut buf, 0, 6, 10, 2);
    assert_eq!(black(&buf), vec![(5, 1), (6, 1), (7, 1), (0, 6), (1, 6), (0, 7), (1, 7)]);
}

#[test]
fn border_is_one_pixel_ring() {
    let mut buf = PixelBuffer::new(6, 6);
    draw_border(&mut buf, Rect { x: 1, y: 1, w: 3, h: 3 });
    assert_eq!(black(&buf), vec![(1, 1), (2, 1), (3, 1), (1, 2), (3, 2), (1, 3), (2, 3), (3, 3)]);
}

#[test]
fn circle_is_the_integer_disc() {
    let mut buf = PixelBuffer::new(5, 5);
    fill_circle(&mut buf, 2, 2, 1);
    assert_eq!(black(&buf), vec![(2, 1), (1, 2), (2, 2), (3, 2), (2, 3)]);
    let mut buf = PixelBuffer::new(5, 5);
    fill_circle(&mut buf, 2, 2, -1);
    assert!(black(&buf).is_empty());
}

#[test]
fn thick_line_covers_endpoints_within_its_box() {
    let mut buf = PixelBuffer::new(20, 20);
    draw_line_thick(&mut buf, 2, 3, 12, 8, 2);
    let px = black(&buf);
    assert!(px.contains(&(2, 3)) && px.contains(&(3, 4)));
    assert!(px.contains(&(12, 8)) && px.contains(&(13, 9)));
    assert!(px.iter().all(|&(x, y)| (2..14).contains(&x) && (3..10).contains(&y)));
}

#[test]
fn thick_line_has_no_gaps() {
    for &(x0, y0, x1, y1) in &[(2u32, 3u32, 12u32, 8u32), (15, 2, 4, 17), (5, 5, 5, 15), (1, 10, 18, 10)] {
        let mut buf = PixelBuffer::new(20, 20);
        draw_line_thick(&mut buf, x0, y0, x1, y1, 2);
        let (xlo, xhi) = (x0.min(x1), x0.max(x1));
        let (ylo, yhi) = (y0.min(y1), y0.max(y1));
        let pen = |x: u32, y: u32| buf.get_pixel(x, y) && buf.get_pixel(x + 1, y) && buf.get_pixel(x, y + 1) && buf.get_pixel(x + 1, y + 1);
        for c in xlo..=xhi {
            assert!((ylo..=yhi).any(|r| pen(c, r)), "column {c}");
        }
        for r in ylo..=yhi {
            assert!((xlo..=xhi).any(|c| pen(c, r)), "row {r}");
        }
    }
}

#[test]
fn glyph_rows_and_fallback() {
    assert_eq!(glyph('?'), glyph('\u{1F600}'));
    assert_ne!(glyph('A'), glyph('B'));
    assert_eq!(glyph(' '), [0u8; 7]);
}

#[test]
fn draw_text_counts_fitting_characters() {
    let mut buf = PixelBuffer::new(100, 10);
    assert_eq!(draw_text(&mut buf, 0, 0, "HELLO", 20, false), 3);
    assert!(black(&buf).iter().all(|&(x, y)| x < 18 && y < 7));
    let mut buf = PixelBuffer::new(100, 10);
    draw_glyph(&mut buf, 0, 0, ' ', true);
    assert_eq!(black(&buf).len(), 35);
}

#[test]
fn aligned_text_positions() {
    let mut buf = PixelBuffer::new(100, 20);
    draw_text_right(&mut buf, 0, 0, "I", FontSize::Micro, 100, false);
    assert!(black(&buf).iter().all(|&(x, _)| x >= 88));
    let mut buf = PixelBuffer::new(100, 20);
    draw_text_centered(&mut buf, 0, 0, "I", FontSize::Micro, 100, false);
    assert!(black(&buf).iter().all(|&(x, _)| (44..56).contains(&x)));
}

#[test]
fn weather_icons_stay_in_their_box() {
    let icons = [
        WeatherIcon::Clear, WeatherIcon::PartlyCloudy, WeatherIcon::MostlyCloudy, WeatherIcon::Overcast,
        WeatherIcon::Rain, WeatherIcon::HeavyRain, WeatherIcon::Drizzle, WeatherIcon::Snow,
        WeatherIcon::Thunderstorm, WeatherIcon::Fog, WeatherIcon::Wind,
    ];
    for icon in icons {
        let mut buf = PixelBuffer::new(200, 200);
        draw_weather_icon(&mut buf, 50, 50, &icon);
        let px = black(&buf);
        assert!(!px.is_empty(), "{:?}", icon);
        assert!(px.iter().all(|&(x, y)| (42..123).contains(&x) && (42..114).contains(&y)), "{:?}", icon);
    }
}

#[test]
fn weather_icon_solid_parts_are_black() {
    // Icon at (50, 50): centre (82, 82).
    let mut buf = PixelBuffer::new(200, 200);
    draw_weather_icon(&mut buf, 50, 50, &WeatherIcon::Clear);
    assert!(buf.get_pixel(82, 82) && buf.get_pixel(82 + 14, 82) && buf.get_pixel(82, 82 - 14));
    let mut buf = PixelBuffer::new(200, 200);
    draw_weather_icon(&mut buf, 50, 50, &WeatherIcon::Overcast);
    // Base of the cloud: box from (42, 70), 80 wide, 16 tall.
    assert!((42..122).all(|x| buf.get_pixel(x, 70) && buf.get_pixel(x, 85)));
    let mut buf = PixelBuffer::new(200, 200);
    draw_weather_icon(&mut buf, 50, 50, &WeatherIcon::Fog);
    for bar in 0..4u32 {
        let row = 68 + 10 * bar;
        assert!((54..110).all(|x| buf.get_pixel(x, row) && buf.get_pixel(x, row + 2)));
        assert!(!buf.get_pixel(80, row + 3));
    }
    let mut buf = PixelBuffer::new(200, 200);
    draw_weather_icon(&mut buf, 50, 50, &WeatherIcon::Wind);
    for gust in 0..3u32 {
        assert!((54..102).all(|x| buf.get_pixel(x, 70 + 12 * gust)));
        assert!((102..110).all(|x| buf.get_pixel(x, 74 + 12 * gust)));
    }
}

#[test]
fn weather_icon_at_the_left_edge_moves_the_cloud_base_to_column_zero() {
    let mut buf = PixelBuffer::new(200, 200);
    draw_weather_icon(&mut buf, 0, 0, &WeatherIcon::Overcast);
    // The base box would start at column -8; it is drawn from column 0, 80 wide.
    assert!((0..80).all(|x| buf.get_pixel(x, 20) && buf.get_pixel(x, 35)));
    assert!(!buf.get_pixel(80, 35));
    let px = black(&buf);
    assert!(px.iter().all(|&(x, y)| x < 81 && y < 64));
    for icon in [WeatherIcon::Clear, WeatherIcon::PartlyCloudy, WeatherIcon::MostlyCloudy, WeatherIcon::Rain, WeatherIcon::Thunderstorm] {
        let mut buf = PixelBuffer::new(200, 200);
        draw_weather_icon(&mut buf, 0, 0, &icon);
        assert!(!black(&buf).is_empty(), "{:?}", icon);
    }
}

#[test]
fn panel_draws_inside_its_rect_with_border() {
    let mut buf = PixelBuffer::new(300, 200);
    let p = Panel::new("Weather".to_string()).with_row("52°F".to_string());
    let r = Rect { x: 10, y: 10, w: 200, h: 100 };
    render_panel(&mut buf, &p, r);
    let px = black(&buf);
    assert!(px.iter().all(|&(x, y)| (10..210).contains(&x) && (10..110).contains(&y)));
    assert!((10..210).all(|x| buf.get_pixel(x, 10) && buf.get_pixel(x, 109)));
    let mut tiny = PixelBuffer::new(300, 200);
    render_panel(&mut tiny, &p, Rect { x: 0, y: 0, w: 7, h: 100 });
    assert!(black(&tiny).is_empty());
}

#[test]
fn grid_layout_leaves_gaps_white() {
    let panels: Vec<Panel> = (0..4).map(|i| Panel::new(format!("P{i}")).with_row("row".to_string())).collect();
    let mut buf = PixelBuffer::new(800, 480);
    layout_and_render(&panels, &mut buf);
    let rects = compute_grid(4, 800, 480);
    for (x, y) in black(&buf) {
        assert!(rects.iter().any(|r| r.x <= x && x < r.x + r.w && r.y <= y && y < r.y + r.h), "({x},{y})");
    }
    for r in &rects {
        assert!(buf.get_pixel(r.x, r.y) && buf.get_pixel(r.x + r.w - 1, r.y + r.h - 1));
    }
}

#[test]
fn grid_cells_do_not_overlap() {
    for n in 1..=9usize {
        let rects = compute_grid(n, 800, 480);
        for i in 0..n {
            let a = &rects[i];
            assert!(a.x + a.w <= 800 && a.y + a.h <= 480);
            for j in (i + 1)..n {
                let b = &rects[j];
                let apart = a.x + a.w <= b.x || b.x + b.w <= a.x || a.y + a.h <= b.y || b.y + b.h <= a.y;
                assert!(apart, "n={n} {i} {j}");
            }
        }
    }
}

#[test]
fn panel_body_lines_show_their_glyphs() {
    let mut buf = PixelBuffer::new(100, 60);
    let r = Rect { x: 0, y: 0, w: 100, h: 60 };
    let p = Panel::new("T".to_string()).with_row("Hi".to_string()).with_row("x".to_string());
    render_panel(&mut buf, &p, r);
    // Body lines start at (3, 16) and (3, 25); glyphs every 6 pixels.
    for (ch, x0, y0) in [('H', 3u32, 16u32), ('i', 9, 16), ('x', 3, 25)] {
        let g = glyph(ch);
        for y in 0..7u32 {
            for x in 0..5u32 {
                let ink = (g[y as usize] >> (7 - x)) & 1 == 1;
                assert_eq!(buf.get_pixel(x0 + x, y0 + y), ink, "{ch} ({x},{y})");
            }
        }
    }
}

#[test]
fn panel_title_is_reversed_in_title_bar() {
    let mut buf = PixelBuffer::new(100, 60);
    let r = Rect { x: 0, y: 0, w: 100, h: 60 };
    render_panel(&mut buf, &Panel::new("I".to_string()), r);
    // title bar rows 1..13, columns 1..99; the glyph of 'I' starts at (3, 3)
    let g = glyph('I');
    for y in 1..13u32 {
        for x in 1..99u32 {
            let in_glyph = (3..8).contains(&x) && (3..10).contains(&y);
            let ink = in_glyph && (g[(y - 3) as usize] >> (7 - (x - 3))) & 1 == 1;
            assert_eq!(buf.get_pixel(x, y), !ink, "({x},{y})");
        }
    }
}

/// Whether the `n`×`n` square at (x, y) is black.
fn square_black(buf: &PixelBuffer, x: u32, y: u32, n: u32) -> bool {
    (x..x + n).all(|px| (y..y + n).all(|py| buf.get_pixel(px, py)))
}

#[test]
fn weather_icon_details_are_drawn() {
    // Icon at (50, 50): centre (82, 82).
    let mut buf = PixelBuffer::new(200, 200);
    draw_weather_icon(&mut buf, 50, 50, &WeatherIcon::Clear);
    // Rays: 3×3 squares at (cx + dx - 1, cy + dy - 1).
    for (dx, dy) in [(0i32, -22i32), (0, 22), (-22, 0), (22, 0), (-16, -16), (16, -16), (-16, 16), (16, 16)] {
        assert!(square_black(&buf, (82 + dx - 1) as u32, (82 + dy - 1) as u32, 3), "ray {dx},{dy}");
    }
    let mut buf = PixelBuffer::new(200, 200);
    draw_weather_icon(&mut buf, 50, 50, &WeatherIcon::Snow);
    // Flakes in a 48×20 area at (58, 88): columns 9 apart, rows 10 apart, second row shifted by 4.
    for c in 0..5u32 {
        assert!(square_black(&buf, 58 + 9 * c, 88, 4) && square_black(&buf, 58 + 9 * c + 4, 98, 4), "flake column {c}");
    }
    let mut buf = PixelBuffer::new(200, 200);
    draw_weather_icon(&mut buf, 50, 50, &WeatherIcon::Rain);
    // Six drops in a 44-wide area at (60, 86): 7 apart, stepping down 6 rows in threes.
    for i in 0..6u32 {
        let (dx, dy) = (60 + 7 * i, 86 + 6 * (i % 3));
        assert!(square_black(&buf, dx, dy, 2) && square_black(&buf, dx + 3, dy + 8, 2), "drop {i}");
    }
    let mut buf = PixelBuffer::new(200, 200);
    draw_weather_icon(&mut buf, 50, 50, &WeatherIcon::Thunderstorm);
    // Bolt corners from (78, 82): (88, 82), (82, 94), (86, 94), (80, 106), (90, 92).
    for (bx, by) in [(88u32, 82u32), (82, 94), (86, 94), (80, 106), (90, 92)] {
        assert!(square_black(&buf, bx, by, 3), "corner {bx},{by}");
    }
}
