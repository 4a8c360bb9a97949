use skagit_flats::font::{glyph, FontSize};
use skagit_flats::glyphs::{draw_glyph_scaled, draw_text_scaled};
use skagit_flats::grid::compute_grid;
use skagit_flats::layout::{layout_and_render_display, layout_and_render_startup, render_display, render_sparkline};
use skagit_flats::presentation::{
    ContextContent, DataContent, DisplayLayout, FerryContent, HeaderContent, HeroContent, HeroDecision, RiverContent, RoadContent,
    Sparkline, TrailContent, TrendArrow, WeatherContent,
};
use skagit_flats::presentation::WeatherIcon;
use skagit_flats::render::PixelBuffer;
use skagit_flats::wrap::wrap_text;

#[test]
fn grid_single_panel_fills_screen() {
    let rects = compute_grid(1, 800, 480);
    assert_eq!(rects.len(), 1);
    assert_eq!(rects[0].x, 0);
    assert_eq!(rects[0].y, 0);
    assert_eq!(rects[0].w, 800);
    assert_eq!(rects[0].h, 480);
}

#[test]
fn grid_two_panels_side_by_side() {
    let rects = compute_grid(2, 800, 480);
    assert_eq!(rects.len(), 2);
    assert_eq!(rects[0].x, 0);
    assert!(rects[1].x > 0);
}

#[test]
fn grid_four_panels_2x2() {
    let rects = compute_grid(4, 800, 480);
    assert_eq!(rects.len(), 4);
    assert_eq!(rects[0].x, rects[2].x);
    assert_eq!(rects[1].x, rects[3].x);
}

#[test]
fn grid_of_zero_panels_is_empty() {
    assert!(compute_grid(0, 800, 480).is_empty());
}

#[test]
fn grid_five_panels_use_three_columns() {
    let rects = compute_grid(5, 800, 480);
    assert_eq!(rects.len(), 5);
    // 3 columns × 2 rows with 2 px gaps: (800 - 4) / 3 × (480 - 2) / 2 cells
    assert_eq!((rects[1].x, rects[1].y, rects[1].w, rects[1].h), (267, 0, 265, 239));
    assert_eq!((rects[4].x, rects[4].y), (267, 241));
}

#[test]
fn wrap_text_basic() {
    let lines = wrap_text("hello world", 20);
    assert_eq!(lines, vec!["hello world"]);
}

#[test]
fn wrap_text_breaks_at_word_boundary() {
    let lines = wrap_text("hello world foo", 11);
    assert_eq!(lines, vec!["hello world", "foo"]);
}

#[test]
fn wrap_text_long_word() {
    let lines = wrap_text("abcdefghij", 5);
    assert_eq!(lines, vec!["abcde", "fghij"]);
}

#[test]
fn wrap_text_collapses_whitespace() {
    let lines = wrap_text("  a   b\tc  ", 3);
    assert_eq!(lines, vec!["a b", "c"]);
}

#[test]
fn wrap_text_zero_width_gives_no_lines() {
    assert!(wrap_text("anything", 0).is_empty());
}

#[test]
fn wrap_text_empty_gives_one_empty_line() {
    assert_eq!(wrap_text("", 5), vec![""]);
}

#[test]
fn wrap_text_counts_characters_not_bytes() {
    assert_eq!(wrap_text("héllo wörld", 5), vec!["héllo", "wörld"]);
    assert_eq!(wrap_text("ñññññññ", 3), vec!["ñññ", "ñññ", "ñ"]);
    assert_eq!(wrap_text("café au lait", 7), vec!["café au", "lait"]);
}

#[test]
fn draw_glyph_scaled_sets_pixels() {
    let mut buf = PixelBuffer::new(200, 200);
    draw_glyph_scaled(&mut buf, 0, 0, 'A', FontSize::Medium, false);
    let has_black = (0..FontSize::Medium.glyph_w())
        .any(|x| (0..FontSize::Medium.glyph_h()).any(|y| buf.get_pixel(x, y)));
    assert!(has_black);
}

#[test]
fn draw_text_scaled_hero_fits_go() {
    let mut buf = PixelBuffer::new(800, 480);
    let w = draw_text_scaled(&mut buf, 0, 0, "GO", FontSize::Hero, false, 490);
    assert_eq!(w, 2 * FontSize::Hero.cell_w());
}

#[test]
fn draw_text_scaled_clips_to_max_width() {
    let mut buf = PixelBuffer::new(800, 480);
    // Small cells are 18 px wide: 40 px hold two of them.
    let w = draw_text_scaled(&mut buf, 0, 0, "ABCDEF", FontSize::Small, false, 40);
    assert_eq!(w, 36);
    assert!((36..800).all(|x| (0..480).all(|y| !buf.get_pixel(x, y))));
}

#[test]
fn font_cell_sizes() {
    assert_eq!(FontSize::Hero.cell_w(), 74);
    assert_eq!(FontSize::Large.cell_w(), 44);
    assert_eq!(FontSize::Medium.cell_w(), 24);
    assert_eq!(FontSize::Small.cell_w(), 18);
    assert_eq!(FontSize::Micro.cell_w(), 12);
    assert_eq!(FontSize::Medium.glyph_h(), 28);
}

fn empty_layout() -> DisplayLayout {
    DisplayLayout {
        header: HeaderContent { app_name: "SKAGIT FLATS".to_string(), river_site: None, last_updated: None },
        hero: HeroContent { decision: HeroDecision::AllGo, weather: None },
        data: DataContent { river: None, ferry: None },
        context: ContextContent { trail: None, road: None },
    }
}

#[test]
fn new_layout_renders_with_go_decision() {
    let layout = empty_layout();
    let mut buf = PixelBuffer::new(800, 480);
    layout_and_render_display(&layout, &mut buf);
    // Header divider should be visible at y=28–29
    assert!(buf.get_pixel(0, 28));
}

#[test]
fn layout_dividers_span_the_width() {
    let buf = render_display(&empty_layout());
    assert_eq!((buf.width, buf.height), (800, 480));
    for y in [28u32, 29, 232, 233, 374, 375] {
        assert!((0..800).all(|x| buf.get_pixel(x, y)), "row {y}");
    }
}

#[test]
fn startup_screen_draws_header_divider_only_above_row_300() {
    let mut buf = PixelBuffer::new(800, 480);
    layout_and_render_startup(&mut buf);
    assert!((0..800).all(|x| buf.get_pixel(x, 28)));
    assert!((300..480).all(|y| (0..800).all(|x| !buf.get_pixel(x, y))));
}

#[test]
fn sparkline_renders_values() {
    let mut buf = PixelBuffer::new(400, 50);
    let spark = Sparkline { values: vec![1000, 2000, 1500, 3000, 2500, 1000, 4000], threshold: None };
    render_sparkline(&mut buf, 5, 5, 380, 22, &spark);
    assert!(buf.pixels.iter().any(|&b| b != 0));
}

#[test]
fn sparkline_with_threshold() {
    let mut buf = PixelBuffer::new(400, 50);
    let spark = Sparkline { values: vec![1000, 2000, 3000, 2000, 1000], threshold: Some(2000) };
    render_sparkline(&mut buf, 5, 5, 380, 22, &spark);
    assert!(buf.pixels.iter().any(|&b| b != 0));
}

#[test]
fn sparkline_stays_in_its_box() {
    let mut buf = PixelBuffer::new(400, 50);
    let spark = Sparkline { values: vec![1000, 4000, 2000], threshold: Some(2500) };
    render_sparkline(&mut buf, 5, 5, 380, 22, &spark);
    for y in 0..50u32 {
        for x in 0..400u32 {
            if buf.get_pixel(x, y) {
                assert!((5..387).contains(&x) && (4..27).contains(&y), "({x},{y})");
            }
        }
    }
}

#[test]
fn sparkline_passes_through_every_value() {
    let mut buf = PixelBuffer::new(400, 50);
    let spark = Sparkline { values: vec![1000, 4000, 2000], threshold: None };
    render_sparkline(&mut buf, 5, 5, 380, 22, &spark);
    // Columns 5, 195, 385; rows 25 (lowest), 6 (highest), 18.
    for (x, y) in [(5u32, 25u32), (195, 6), (385, 18)] {
        assert!(buf.get_pixel(x, y) && buf.get_pixel(x + 1, y) && buf.get_pixel(x, y + 1) && buf.get_pixel(x + 1, y + 1), "({x},{y})");
    }
}

#[test]
fn empty_sparkline_draws_nothing() {
    let mut buf = PixelBuffer::new(400, 50);
    let spark = Sparkline { values: vec![], threshold: Some(2000) };
    render_sparkline(&mut buf, 5, 5, 380, 22, &spark);
    assert!(buf.pixels.iter().all(|&b| b == 0));
}

/// Whether every ink block of `word` in Hero type (14-pixel blocks, 74-pixel
/// cells) from (x0, y0) is black.
fn hero_word_drawn(buf: &PixelBuffer, word: &str, x0: u32, y0: u32) -> bool {
    word_drawn(buf, word, x0, y0, 14, 74)
}

/// Whether every ink block of `word` (blocks of `scale` pixels, one glyph
/// every `cell` pixels) from (x0, y0) is black.
fn word_drawn(buf: &PixelBuffer, word: &str, x0: u32, y0: u32, scale: u32, cell: u32) -> bool {
    word.chars().enumerate().all(|(k, ch)| {
        let g = glyph(ch);
        (0..7u32).all(|row| {
            (0..5u32).all(|col| {
                if (g[row as usize] >> (7 - col)) & 1 == 0 {
                    return true;
                }
                let bx = x0 + k as u32 * cell + col * scale;
                let by = y0 + row * scale;
                (bx..bx + scale).all(|x| (by..by + scale).all(|y| buf.get_pixel(x, y)))
            })
        })
    })
}

#[test]
fn hero_shows_decision_word() {
    let buf = render_display(&empty_layout());
    assert!(hero_word_drawn(&buf, "GO", 171, 82));
    let mut layout = empty_layout();
    layout.hero.decision = HeroDecision::NoGo { destination: "D".to_string(), reasons: vec!["SR-20 is closed".to_string()] };
    let buf = render_display(&layout);
    assert!(hero_word_drawn(&buf, "NO GO", 24, 50));
    layout.hero.decision = HeroDecision::Caution { destination: "D".to_string(), warnings: vec![] };
    let buf = render_display(&layout);
    // seven letters do not fit in 466 pixels: six are drawn
    assert!(hero_word_drawn(&buf, "CAUTIO", 24, 50));
}

#[test]
fn sparkline_marks_current_value() {
    let mut buf = PixelBuffer::new(400, 50);
    let spark = Sparkline { values: vec![1000, 4000, 2000], threshold: None };
    render_sparkline(&mut buf, 5, 5, 380, 22, &spark);
    // last value 2000 of 1000..4000: row 6 + (3000 - 1000) * 19 / 3000 = 18
    assert!((381..385).all(|x| (16..20).all(|y| buf.get_pixel(x, y))));
}

#[test]
fn header_shows_app_name_and_startup_text() {
    let buf = render_display(&empty_layout());
    assert!(word_drawn(&buf, "SKAGIT FLATS", 16, 7, 3, 18));
    let mut buf = PixelBuffer::new(800, 480);
    layout_and_render_startup(&mut buf);
    assert!(word_drawn(&buf, "SKAGIT FLATS", 16, 3, 3, 18));
    assert!(word_drawn(&buf, "Loading data...", 220, 241, 4, 24));
}

#[test]
fn context_zone_headings_and_divider() {
    let mut layout = empty_layout();
    layout.context = ContextContent {
        trail: Some(TrailContent { name: "Cascade Pass".to_string(), condition: "Snow above 5000 ft".to_string() }),
        road: Some(RoadContent { name: "SR-20".to_string(), status: "closed".to_string(), segment: "MP 134 to MP 171".to_string() }),
    };
    let buf = render_display(&layout);
    assert!(word_drawn(&buf, "CASCADE PASS", 12, 382, 2, 12));
    assert!(word_drawn(&buf, "SR-20", 412, 382, 2, 12));
    assert!((398..400).all(|x| (376..478).all(|y| buf.get_pixel(x, y))));
}

#[test]
fn data_zone_shows_river_level_flow_and_next_ferry() {
    let mut layout = empty_layout();
    layout.data.river = Some(RiverContent {
        site_name: "Skagit River near Mount Vernon".to_string(),
        level_tenths_ft: 123,
        flow_cfs: 4520,
        trend: TrendArrow::Rising,
        sparkline: Some(Sparkline { values: vec![1000, 4000, 2000], threshold: Some(2500) }),
    });
    layout.data.ferry = Some(FerryContent {
        route: "Anacortes - Friday Harbor".to_string(),
        vessel_name: "Samish".to_string(),
        departures: vec!["10:30".to_string(), "11:45".to_string()],
    });
    let buf = render_display(&layout);
    // Large type: 44-pixel cells, five fit in 240 pixels.
    assert!(word_drawn(&buf, "12.3 ", 12, 256, 8, 44));
    assert!(word_drawn(&buf, "4520 cfs", 12, 316, 4, 24));
    // Eight Large cells fit in 376 pixels.
    assert!(word_drawn(&buf, "Next: 10", 412, 256, 8, 44));
    assert!(word_drawn(&buf, "Skagit River near Mount Vernon", 12, 238, 2, 12));
    assert!(word_drawn(&buf, "^", 260, 270, 4, 24));
    assert!(word_drawn(&buf, "Anacortes - Friday Harbor", 412, 238, 2, 12));
    assert!(word_drawn(&buf, "11:45", 412, 316, 4, 24));
    // "Samish" right-aligned to column 784 in Micro cells.
    assert!(word_drawn(&buf, "Samish", 784 - 6 * 12, 354, 2, 12));
    // The level history: 1000, 4000, 2000 in the 380×22 box at (8, 352).
    for (x, y) in [(8u32, 372u32), (198, 353), (388, 365)] {
        assert!(buf.get_pixel(x, y) && buf.get_pixel(x + 1, y + 1), "({x},{y})");
    }
    assert!((384..388).all(|x| (363..367).all(|y| buf.get_pixel(x, y))));
}

#[test]
fn hero_lists_the_first_two_reasons() {
    let mut layout = empty_layout();
    layout.hero.decision = HeroDecision::NoGo {
        destination: "D".to_string(),
        reasons: vec!["SR-20 closed".to_string(), "Wind 40mph".to_string(), "Third".to_string()],
    };
    let buf = render_display(&layout);
    // Small type: 3-pixel blocks, 18-pixel cells, from (34, 176), 26 rows apart.
    assert!(word_drawn(&buf, "SR-20 closed", 34, 176, 3, 18));
    assert!(word_drawn(&buf, "Wind 40mph", 34, 202, 3, 18));
    // the third does not fit above the hero divider
    assert!((228..232).all(|y| (34..484).all(|x| !buf.get_pixel(x, y))));
}

#[test]
fn closed_road_shows_white_text_on_a_bar_and_open_road_its_status() {
    let mut layout = empty_layout();
    layout.context.road = Some(RoadContent { name: "SR-20".to_string(), status: "Closed for winter".to_string(), segment: "MP 134 to MP 171".to_string() });
    let buf = render_display(&layout);
    // "CLOSED" in white Medium glyphs (4-pixel blocks, 24-pixel cells) from
    // (528, 404); every other pixel of the bar is black.
    for y in 402..438u32 {
        for x in 412..788u32 {
            let mut ink = false;
            if (528..672).contains(&x) && (404..432).contains(&y) {
                let k = (x - 528) / 24;
                let (col, row) = ((x - 528 - 24 * k) / 4, (y - 404) / 4);
                let ch = "CLOSED".chars().nth(k as usize).unwrap();
                ink = col < 5 && (glyph(ch)[row as usize] >> (7 - col)) & 1 == 1;
            }
            assert_eq!(buf.get_pixel(x, y), !ink, "({x},{y})");
        }
    }
    layout.context.road = Some(RoadContent { name: "SR-20".to_string(), status: "open".to_string(), segment: "MP 134 to MP 171".to_string() });
    let buf = render_display(&layout);
    assert!(word_drawn(&buf, "OPEN", 412, 402, 4, 24));
    assert!(!buf.get_pixel(787, 410));
}

#[test]
fn hero_shows_weather_icon_sky_and_wind() {
    let mut layout = empty_layout();
    layout.hero.weather = Some(WeatherContent {
        icon: WeatherIcon::Clear,
        temperature_f: 52,
        sky_condition: "Sunny".to_string(),
        wind_dir: "NW".to_string(),
        wind_speed_mph: 8,
        precip_chance_pct: 10,
    });
    let buf = render_display(&layout);
    // Sun disc of radius 14 around (538, 70).
    assert!(buf.get_pixel(538, 70) && buf.get_pixel(538 + 14, 70) && buf.get_pixel(538, 56));
    assert!(word_drawn(&buf, "Sunny", 506, 108, 3, 18));
    assert!(word_drawn(&buf, "NW 8mph  PoP 10%", 506, 136, 2, 12));
}

#[test]
fn context_shows_trail_condition_and_road_segment() {
    let mut layout = empty_layout();
    layout.context.trail = Some(TrailContent {
        name: "Cascade Pass".to_string(),
        condition: "Snow above 5000 ft, use caution".to_string(),
    });
    layout.context.road = Some(RoadContent { name: "SR-20".to_string(), status: "open".to_string(), segment: "MP 134 to MP 171".to_string() });
    let buf = render_display(&layout);
    // Twenty Small characters per line, from (12, 402), 26 rows apart.
    assert!(word_drawn(&buf, "Snow above 5000 ft,", 12, 402, 3, 18));
    assert!(word_drawn(&buf, "use caution", 12, 428, 3, 18));
    // Nothing below the second line.
    assert!((450..478).all(|y| (12..384).all(|x| !buf.get_pixel(x, y))));
    // The segment in Micro type below the open road's status.
    assert!(word_drawn(&buf, "MP 134 to MP 171", 412, 438, 2, 12));
}

#[test]
fn header_shows_site_and_update_time() {
    let mut layout = empty_layout();
    layout.header.river_site = Some("Mount Vernon".to_string());
    layout.header.last_updated = Some("14:05".to_string());
    let buf = render_display(&layout);
    // 12 Micro cells centred in 400 columns from 200: start 200 + (400 - 144) / 2.
    assert!(word_drawn(&buf, "Mount Vernon", 328, 10, 2, 12));
    // "Updated 14:05" is 13 cells, right-aligned to column 784.
    assert!(word_drawn(&buf, "Updated 14:05", 784 - 13 * 12, 10, 2, 12));
}

#[test]
fn sparkline_draws_dashed_flood_line() {
    let mut buf = PixelBuffer::new(400, 50);
    let spark = Sparkline { values: vec![1000, 4000, 2000], threshold: Some(2500) };
    render_sparkline(&mut buf, 5, 5, 380, 22, &spark);
    // Row 6 + (3000 - 1500) * 19 / 3000 = 15: dashes 4 long every 6 pixels.
    for d in (0..377u32).step_by(6) {
        assert!((0..4).all(|t| buf.get_pixel(5 + d + t, 15) && buf.get_pixel(5 + d + t, 16)), "dash at {d}");
    }
}

#[test]
fn trail_summary_stops_at_two_lines_with_an_ellipsis() {
    let mut layout = empty_layout();
    layout.context.trail = Some(TrailContent {
        name: "Cascade Pass".to_string(),
        condition: "Snow above 5000 ft, use caution on the upper switchbacks today".to_string(),
    });
    let buf = render_display(&layout);
    // Lines: "Snow above 5000 ft,", "use caution on the" + "…", then more text.
    assert!(word_drawn(&buf, "Snow above 5000 ft,", 12, 402, 3, 18));
    assert!(word_drawn(&buf, "use caution on the\u{2026}", 12, 428, 3, 18));
    assert!((450..478).all(|y| (12..384).all(|x| !buf.get_pixel(x, y))));
}

#[test]
fn hero_bullets_are_filled_or_hollow() {
    let mut layout = empty_layout();
    layout.hero.decision = HeroDecision::Caution { destination: "D".to_string(), warnings: vec!["a".to_string(), "b".to_string(), "c".to_string()] };
    let buf = render_display(&layout);
    assert!((24..30).all(|x| (182..188).all(|y| buf.get_pixel(x, y)) && (208..214).all(|y| buf.get_pixel(x, y))));
    // The third bullet does not fit above the hero divider.
    assert!((223..232).all(|y| (0..490).all(|x| !buf.get_pixel(x, y))));
    layout.hero.decision = HeroDecision::Unknown { destination: "D".to_string(), missing: vec!["weather".to_string()] };
    let buf = render_display(&layout);
    assert!((24..30).all(|x| (182..188).all(|y| !buf.get_pixel(x, y))));
}
