use skagit_flats::domain::{FerryStatus, RoadStatus, TrailCondition, TripDecision};
use skagit_flats::presentation::{fmt_time, format_ferry, format_road, format_trail, format_trip_decision, Panel};

#[test]
fn trip_decision_go_panel() {
    let panel = format_trip_decision("Test Dest", &TripDecision::Go);
    assert_eq!(panel.rows[0], "GO");
}

#[test]
fn trip_decision_no_go_panel_lists_reasons() {
    let decision = TripDecision::NoGo { reasons: vec!["Too cold".to_string()] };
    let panel = format_trip_decision("Test Dest", &decision);
    assert_eq!(panel.rows[0], "NO GO");
    assert!(panel.rows[1].contains("Too cold"));
}

#[test]
fn trip_decision_panel_is_titled_with_destination() {
    let panel = format_trip_decision("Cascade Pass", &TripDecision::Go);
    assert_eq!(panel.title, "Cascade Pass");
    assert_eq!(panel.rows.len(), 1);
}

#[test]
fn caution_and_unknown_panels_bullet_every_line() {
    let caution = TripDecision::Caution { warnings: vec!["Temp near minimum".to_string(), "Windy".to_string()] };
    let panel = format_trip_decision("D", &caution);
    assert_eq!(panel.rows, vec!["CAUTION", "• Temp near minimum", "• Windy"]);
    let unknown = TripDecision::Unknown { missing: vec!["No weather data".to_string()] };
    let panel = format_trip_decision("D", &unknown);
    assert_eq!(panel.rows, vec!["UNKNOWN", "• No weather data"]);
}

#[test]
fn panel_builder_appends_rows() {
    let p = Panel::new("T".to_string()).with_row("a".to_string()).with_row("b".to_string());
    assert_eq!(p.title, "T");
    assert_eq!(p.rows, vec!["a", "b"]);
}

#[test]
fn fmt_time_is_utc_clock() {
    assert_eq!(fmt_time(0), "00:00");
    // 2024-03-28T18:00:00Z
    assert_eq!(fmt_time(1711648800), "18:00");
    assert_eq!(fmt_time(86399), "23:59");
    assert_eq!(fmt_time(3600 * 5 + 60 * 7 + 59), "05:07");
}

#[test]
fn ferry_panel_lists_first_three_departures() {
    let status = FerryStatus {
        route: "Anacortes / SJI".to_string(),
        vessel_name: "MV Samish".to_string(),
        estimated_departures: vec![0, 3600, 7200, 10800],
    };
    let p = format_ferry(&status);
    assert_eq!(p.title, "Ferry — Anacortes / SJI");
    assert_eq!(p.rows, vec!["MV Samish", "Departs 00:00", "Departs 01:00", "Departs 02:00"]);
}

#[test]
fn trail_panel_shows_summary() {
    let cond = TrailCondition {
        destination_name: "Cascade Pass".to_string(),
        suitability_summary: "Snow above 5000 ft".to_string(),
        last_updated: 0,
    };
    let p = format_trail(&cond);
    assert_eq!(p.title, "Cascade Pass");
    assert_eq!(p.rows, vec!["Snow above 5000 ft"]);
}

#[test]
fn road_panel_capitalises_status() {
    let road = RoadStatus {
        road_name: "SR-20".to_string(),
        status: "closed".to_string(),
        affected_segment: "MP 134 to MP 171".to_string(),
        timestamp: 0,
    };
    let p = format_road(&road);
    assert_eq!(p.title, "SR-20");
    assert_eq!(p.rows, vec!["CLOSED — MP 134 to MP 171"]);
}
