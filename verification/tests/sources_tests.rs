use skagit_flats::config::{FerrySourceConfig, RoadSourceConfig, TrailSourceConfig};
use skagit_flats::sources::{
    ferry_status_from_schedule, format_road_name, gauge_from_series, retry_delay_secs, road_status_from_alerts,
    should_retry, FetchFailure, title_case, trail_condition_from_alerts, trail_summary, HighwayAlert, NpsAlert, NwisReading,
    NwisSeries, RoadClosuresSource, SailingTime, SourceError, TerminalCombo, TrailConditionsSource, UsgsSource,
    WsdotFerrySource, MAX_RETRIES,
};

#[test]
fn format_road_name_known_routes() {
    assert_eq!(format_road_name("005"), "I-5");
    assert_eq!(format_road_name("020"), "SR-20 North Cascades Hwy");
    assert_eq!(format_road_name("530"), "SR-530");
    assert_eq!(format_road_name("042"), "SR-42");
}

#[test]
fn format_road_name_other_routes() {
    assert_eq!(format_road_name("009"), "SR-9");
    assert_eq!(format_road_name("011"), "SR-11 Chuckanut Dr");
    assert_eq!(format_road_name("000"), "SR-");
    assert_eq!(format_road_name("101"), "SR-101");
}

#[test]
fn long_description_is_truncated() {
    let long_desc = "A".repeat(200);
    let alert = NpsAlert {
        title: "Test Trail".to_string(),
        description: long_desc.clone(),
        category: "Caution".to_string(),
    };
    let summary = trail_summary(&alert.category, &alert.description);
    // "[Caution] " = 10 chars + 117 chars + "…" = 128 chars
    assert!(summary.len() < 200);
}

#[test]
fn trail_summary_cuts_at_117_bytes() {
    let summary = trail_summary("Caution", &"A".repeat(200));
    assert_eq!(summary, format!("[Caution] {}…", "A".repeat(117)));
    assert_eq!(trail_summary("Danger", &"B".repeat(120)), format!("[Danger] {}", "B".repeat(120)));
}

#[test]
fn trail_condition_prefers_warnings() {
    let alerts = vec![
        NpsAlert { title: "Info".to_string(), description: "road work".to_string(), category: "Information".to_string() },
        NpsAlert { title: "Cascade Pass".to_string(), description: "Snow".to_string(), category: "Danger".to_string() },
    ];
    let c = trail_condition_from_alerts(&alerts, "noca", 900);
    assert_eq!(c.destination_name, "Cascade Pass");
    assert_eq!(c.suitability_summary, "[Danger] Snow");
    assert_eq!(c.last_updated, 900);
}

#[test]
fn trail_condition_falls_back_to_first_alert() {
    let alerts = vec![
        NpsAlert { title: "Info".to_string(), description: "road work".to_string(), category: "Information".to_string() },
    ];
    let c = trail_condition_from_alerts(&alerts, "noca", 1);
    assert_eq!(c.destination_name, "Info");
    assert_eq!(c.suitability_summary, "[Information] road work");
}

#[test]
fn empty_alerts_returns_no_active_alerts() {
    let c = trail_condition_from_alerts(&vec![], "noca", 900);
    assert_eq!(c.destination_name, "NPS NOCA");
    assert_eq!(c.suitability_summary, "No active alerts");
    assert_eq!(c.last_updated, 900);
}

fn closure(road: &str, category: &str) -> HighwayAlert {
    HighwayAlert {
        event_category: category.to_string(),
        headline_description: "SR 20 closed for the winter".to_string(),
        start_road_name: road.to_string(),
        start_mile_post: 134,
        start_description: "Ross Dam Trailhead".to_string(),
        end_mile_post: 171,
        end_description: "Silver Star Gate".to_string(),
    }
}

#[test]
fn filters_to_closures_only() {
    let routes = vec!["020".to_string()];
    let alerts = vec![closure("020", "Construction"), closure("005", "Closure"), closure("020", "Closure")];
    let r = road_status_from_alerts(&routes, &alerts, 1800);
    assert_eq!(r.road_name, "SR-20 North Cascades Hwy");
    assert_eq!(r.status, "SR 20 closed for the winter");
    assert_eq!(r.affected_segment, "MP 134 (Ross Dam Trailhead) to MP 171 (Silver Star Gate)");
    assert_eq!(r.timestamp, 1800);
}

#[test]
fn empty_alerts_returns_no_closures() {
    let routes = vec!["020".to_string()];
    let r = road_status_from_alerts(&routes, &vec![], 1800);
    assert_eq!(r.road_name, "SR-20 North Cascades Hwy");
    assert_eq!(r.status, "No active closures");
    assert_eq!(r.affected_segment, "");
    assert_eq!(r.timestamp, 1800);
}

#[test]
fn long_headline_is_cut_with_dots() {
    let routes = vec!["020".to_string()];
    let mut a = closure("020", "Closure");
    a.headline_description = "x".repeat(100);
    let r = road_status_from_alerts(&routes, &vec![a], 0);
    assert_eq!(r.status, format!("{}...", "x".repeat(77)));
}

#[test]
fn no_routes_gives_highway() {
    let r = road_status_from_alerts(&vec![], &vec![closure("020", "Closure")], 5);
    assert_eq!(r.road_name, "Highway");
    assert_eq!(r.status, "No active closures");
}

fn sailing(t: &str, v: &str) -> SailingTime {
    SailingTime { departing_time: t.to_string(), vessel_name: v.to_string() }
}

#[test]
fn ferry_schedule_takes_first_pair() {
    let combos = vec![TerminalCombo {
        departing_terminal_name: "Anacortes".to_string(),
        arriving_terminal_name: "Friday Harbor".to_string(),
        times: vec![
            sailing("/Date(1711652400000-0700)/", "MV Samish"),
            sailing("garbled", "MV Yakima"),
            sailing("/Date(1711656000000-0700)/", "MV Yakima"),
        ],
    }];
    let f = ferry_status_from_schedule(&combos, "Test Route").unwrap();
    assert_eq!(f.route, "Anacortes → Friday Harbor");
    assert_eq!(f.vessel_name, "MV Samish");
    assert_eq!(f.estimated_departures, vec![1711652400, 1711656000]);
}

#[test]
fn empty_schedule_returns_unknown_vessel() {
    let combos = vec![TerminalCombo {
        departing_terminal_name: "Anacortes".to_string(),
        arriving_terminal_name: "Friday Harbor".to_string(),
        times: vec![],
    }];
    let f = ferry_status_from_schedule(&combos, "Test Route").unwrap();
    assert_eq!(f.vessel_name, "Unknown");
    assert!(f.estimated_departures.is_empty());
    assert!(f.route.contains("Anacortes"));
}

#[test]
fn unnamed_terminal_uses_route_description() {
    let combos = vec![TerminalCombo {
        departing_terminal_name: "".to_string(),
        arriving_terminal_name: "Orcas".to_string(),
        times: vec![],
    }];
    let f = ferry_status_from_schedule(&combos, "Test Route").unwrap();
    assert_eq!(f.route, "Test Route");
}

#[test]
fn missing_terminal_combos_returns_error() {
    match ferry_status_from_schedule(&vec![], "Test Route") {
        Err(SourceError::Parse(msg)) => assert!(msg.contains("no terminal combos")),
        other => panic!("expected Parse error, got {:?}", other),
    }
}

fn series(code: &str, value: &str, when: &str) -> NwisSeries {
    NwisSeries {
        site_name: "SKAGIT RIVER NEAR MOUNT VERNON, WA".to_string(),
        site_codes: vec!["12200500".to_string()],
        variable_codes: vec![code.to_string()],
        values: vec![vec![
            NwisReading { value: "1.0".to_string(), date_time: "2026-03-28T11:45:00.000-07:00".to_string() },
            NwisReading { value: value.to_string(), date_time: when.to_string() },
        ]],
    }
}

#[test]
fn gauge_takes_latest_level_and_flow() {
    let s = vec![
        series("00065", "11.5", "2026-03-28T12:45:00.000-07:00"),
        series("00060", "5000", "2026-03-28T12:30:00.000-07:00"),
    ];
    let g = gauge_from_series(&s).unwrap();
    assert_eq!(g.site_id, "12200500");
    assert_eq!(g.site_name, "Skagit River Near Mount Vernon, WA");
    assert_eq!(g.level.as_deref(), Some("11.5"));
    assert_eq!(g.flow.as_deref(), Some("5000"));
    // 2026-03-28T19:45:00Z
    assert_eq!(g.timestamp, 1774727100);
}

#[test]
fn missing_parameter_returns_zero() {
    // Only gauge height, no streamflow: the flow stays unread (zero to the caller).
    let s = vec![NwisSeries {
        site_name: "TEST SITE".to_string(),
        site_codes: vec!["99999999".to_string()],
        variable_codes: vec!["00065".to_string()],
        values: vec![vec![NwisReading { value: "5.5".to_string(), date_time: "2026-03-28T10:00:00.000-07:00".to_string() }]],
    }];
    let g = gauge_from_series(&s).unwrap();
    assert_eq!(g.level.as_deref(), Some("5.5"));
    assert_eq!(g.flow, None);
    assert_eq!(g.site_id, "99999999");
    assert_eq!(g.site_name, "Test Site");
}

#[test]
fn unknown_parameter_is_ignored() {
    let s = vec![series("99999", "3", "2026-03-28T12:45:00.000-07:00")];
    let g = gauge_from_series(&s).unwrap();
    assert_eq!(g.level, None);
    assert_eq!(g.flow, None);
    assert_eq!(g.timestamp, 0);
}

#[test]
fn empty_time_series_returns_error() {
    match gauge_from_series(&vec![]) {
        Err(SourceError::Parse(msg)) => assert!(msg.contains("no time series")),
        other => panic!("expected Parse error, got {:?}", other),
    }
}

#[test]
fn title_case_conversion() {
    assert_eq!(title_case("SKAGIT RIVER NEAR MOUNT VERNON, WA"), "Skagit River Near Mount Vernon, WA");
    assert_eq!(title_case("SINGLE"), "Single");
    assert_eq!(title_case(""), "");
}

#[test]
fn usgs_source_name_and_interval() {
    let source = UsgsSource::new("12200500", 300, false);
    assert_eq!(source.name(), "usgs-river");
    assert_eq!(source.refresh_interval_secs(), 300);
    assert_eq!(source.site_id, "12200500");
}

#[test]
fn wsdot_missing_access_code_in_live_mode_errors() {
    let r = WsdotFerrySource::new(None, 60, false, None);
    assert!(matches!(r, Err(SourceError::Other(_))));
}

#[test]
fn road_closures_missing_access_code_in_live_mode_errors() {
    let r = RoadClosuresSource::new(None, 1800, false, None);
    assert!(r.is_err(), "should fail without access code in live mode");
}

#[test]
fn missing_api_key_in_live_mode_errors() {
    let r = TrailConditionsSource::new(None, 900, false, None);
    assert!(r.is_err(), "should fail without API key in live mode");
}

#[test]
fn wsdot_source_name_and_interval() {
    let source = WsdotFerrySource::new(None, 60, true, None).expect("should create in fixture mode");
    assert_eq!(source.name(), "wsdot-ferries");
    assert_eq!(source.refresh_interval_secs(), 60);
}

#[test]
fn fixture_mode_needs_no_access_code() {
    let s = WsdotFerrySource::new(None, 60, true, None).unwrap();
    assert_eq!(s.route_id, 9);
    assert_eq!(s.route_description, "Anacortes / San Juan Islands");
    assert_eq!(s.access_code, "");
    assert_eq!(s.name(), "wsdot-ferries");
}

#[test]
fn configured_code_beats_environment() {
    let cfg = FerrySourceConfig {
        route_id: 7,
        route_description: Some("Seattle / Bainbridge".to_string()),
        wsdot_access_code: Some("CFG".to_string()),
    };
    let s = WsdotFerrySource::new(Some(&cfg), 120, false, Some("ENV".to_string())).unwrap();
    assert_eq!(s.access_code, "CFG");
    assert_eq!(s.route_id, 7);
    assert_eq!(s.route_description, "Seattle / Bainbridge");
    assert_eq!(s.refresh_interval_secs(), 120);
    let s = WsdotFerrySource::new(None, 120, false, Some("ENV".to_string())).unwrap();
    assert_eq!(s.access_code, "ENV");
}

#[test]
fn road_source_defaults_to_sr20() {
    let s = RoadClosuresSource::new(None, 1800, true, None).unwrap();
    assert_eq!(s.routes, vec!["020"]);
    assert_eq!(s.name(), "road-closures");
    let cfg = RoadSourceConfig { routes: vec!["005".to_string(), "530".to_string()], wsdot_access_code: None };
    let s = RoadClosuresSource::new(Some(&cfg), 1800, false, Some("K".to_string())).unwrap();
    assert_eq!(s.routes, vec!["005", "530"]);
    assert!(RoadClosuresSource::new(Some(&cfg), 1800, false, None).is_err());
}

#[test]
fn trail_source_needs_api_key_when_live() {
    let cfg = TrailSourceConfig { park_code: "noca".to_string(), nps_api_key: None };
    assert!(matches!(TrailConditionsSource::new(Some(&cfg), 900, false, None), Err(SourceError::Other(_))));
    let s = TrailConditionsSource::new(Some(&cfg), 900, true, None).unwrap();
    assert_eq!(s.park_code, "noca");
    assert_eq!(s.name(), "trail-conditions");
    assert_eq!(s.refresh_interval_secs(), 900);
}

#[test]
fn retry_backoff_doubles_to_a_cap() {
    assert_eq!(retry_delay_secs(1), 2);
    assert_eq!(retry_delay_secs(2), 4);
    assert_eq!(retry_delay_secs(3), 8);
    assert_eq!(retry_delay_secs(8), 256);
    assert_eq!(retry_delay_secs(9), 300);
    assert_eq!(retry_delay_secs(1000), 300);
    assert!(should_retry(0, FetchFailure::Transport));
    assert!(should_retry(0, FetchFailure::Status(503)));
    assert!(should_retry(MAX_RETRIES - 1, FetchFailure::Status(500)));
    assert!(!should_retry(MAX_RETRIES, FetchFailure::Transport));
    // A client error is not retried.
    assert!(!should_retry(0, FetchFailure::Status(404)));
    assert!(!should_retry(0, FetchFailure::Status(401)));
}

#[test]
fn long_texts_are_cut_at_a_character_boundary() {
    // 116 ASCII bytes, then a two-byte character across byte 117.
    let d = format!("{}\u{e9}{}", "a".repeat(116), "b".repeat(10));
    assert_eq!(trail_summary("Caution", &d), format!("[Caution] {}\u{2026}", "a".repeat(116)));
    let h = format!("{}\u{2014}{}", "x".repeat(76), "y".repeat(10));
    let alerts = vec![HighwayAlert {
        event_category: "Closure".to_string(),
        headline_description: h,
        start_road_name: "SR 20".to_string(),
        start_mile_post: 134,
        start_description: "a".to_string(),
        end_mile_post: 171,
        end_description: "b".to_string(),
    }];
    let r = road_status_from_alerts(&vec!["SR 20".to_string()], &alerts, 0);
    assert_eq!(r.status, format!("{}...", "x".repeat(76)));
}
