use skagit_flats::domain::{EvalFactor, FerryStatus, RelevantSignals, RoadStatus, TrailCondition, TripDecision};
use skagit_flats::evaluation::{
    aging_text, age_secs, current_unix_secs, decide, evaluate, evaluate_detail, freshness, is_stale, missing_text,
    road_factor_of, status_is_open, unchecked_source_text, CriterionCheck, Freshness, NumericSource, Reading,
    SourceKind, Verdict, ROAD_STALE_SECS, WEATHER_STALE_SECS,
};

const NOW: u64 = 0;

fn none() -> NumericSource {
    NumericSource { labels: vec![], reading: None }
}

fn road_status(status: &str) -> RoadStatus {
    RoadStatus {
        road_name: "SR-20".to_string(),
        status: status.to_string(),
        affected_segment: "Newhalem to Rainy Pass".to_string(),
        timestamp: 0,
    }
}

fn factor(name: &str) -> EvalFactor {
    EvalFactor { name: name.to_string(), actual: "x".to_string(), threshold: "y".to_string(), detail: "z".to_string() }
}

fn check(v: Verdict, msg: &str) -> CriterionCheck {
    CriterionCheck { verdict: v, message: msg.to_string(), factor: factor(msg) }
}

fn source(label: &str, at: u64, checks: Vec<CriterionCheck>) -> NumericSource {
    NumericSource { labels: vec![label.to_string()], reading: Some(Reading { observed_at: at, checks }) }
}

fn all() -> RelevantSignals {
    RelevantSignals::default()
}

#[test]
fn no_go_when_road_closed() {
    match evaluate(&all(), &none(), &none(), true, &Some(road_status("closed")), NOW) {
        TripDecision::NoGo { reasons } => {
            assert_eq!(reasons.len(), 1);
            assert!(reasons[0].contains("SR-20"));
            assert!(reasons[0].contains("closed"));
        },
        _ => panic!("expected NoGo"),
    }
}

#[test]
fn go_when_road_open() {
    assert!(matches!(evaluate(&all(), &none(), &none(), true, &Some(road_status("open")), NOW), TripDecision::Go));
}

#[test]
fn go_when_road_not_required() {
    assert!(matches!(evaluate(&all(), &none(), &none(), false, &Some(road_status("closed")), NOW), TripDecision::Go));
}

#[test]
fn go_when_road_no_active_closures() {
    let d = evaluate(&all(), &none(), &none(), true, &Some(road_status("No active closures")), NOW);
    assert!(matches!(d, TripDecision::Go));
}

#[test]
fn unknown_when_no_weather_data_and_criteria_configured() {
    let weather = NumericSource { labels: vec!["Min temperature".to_string()], reading: None };
    match evaluate(&all(), &weather, &none(), false, &None, NOW) {
        TripDecision::Unknown { missing } => assert!(missing.iter().any(|m| m.contains("weather"))),
        _ => panic!("expected Unknown"),
    }
}

#[test]
fn unknown_when_no_river_data_and_criteria_configured() {
    let river = NumericSource { labels: vec!["Max river level".to_string()], reading: None };
    match evaluate(&all(), &none(), &river, false, &None, NOW) {
        TripDecision::Unknown { missing } => assert!(missing.iter().any(|m| m.contains("river"))),
        _ => panic!("expected Unknown"),
    }
}

#[test]
fn unknown_when_no_road_data_and_road_required() {
    match evaluate(&all(), &none(), &none(), true, &None, NOW) {
        TripDecision::Unknown { missing } => assert!(missing.iter().any(|m| m.contains("road"))),
        _ => panic!("expected Unknown"),
    }
}

#[test]
fn go_when_no_criteria_configured_and_no_data() {
    assert!(matches!(evaluate(&all(), &none(), &none(), false, &None, NOW), TripDecision::Go));
}

#[test]
fn unknown_when_weather_stale() {
    let weather = source("Min temperature", 0, vec![check(Verdict::Within, "")]);
    match evaluate(&all(), &weather, &none(), false, &None, 4 * 3600) {
        TripDecision::Unknown { missing } => assert_eq!(missing, vec!["Weather data stale (>4h)"]),
        _ => panic!("expected Unknown"),
    }
}

#[test]
fn unknown_when_road_stale() {
    match evaluate(&all(), &none(), &none(), true, &Some(road_status("open")), 25 * 3600) {
        TripDecision::Unknown { missing } => {
            assert!(missing.iter().any(|m| m.contains("stale")));
            assert_eq!(missing, vec!["Road data stale (>25h)"]);
        },
        _ => panic!("expected Unknown"),
    }
}

#[test]
fn no_go_beats_unknown_when_road_closed_and_weather_missing() {
    let weather = NumericSource { labels: vec!["Min temperature".to_string()], reading: None };
    match evaluate(&all(), &weather, &none(), true, &Some(road_status("closed")), NOW) {
        TripDecision::NoGo { reasons } => assert!(reasons[0].contains("SR-20")),
        _ => panic!("expected NoGo"),
    }
}

#[test]
fn multiple_reasons_in_source_order() {
    let weather = source("Min temperature", 0, vec![check(Verdict::Exceeded, "Temperature 30°F below minimum 50°F")]);
    let river = source("Max river level", 0, vec![check(Verdict::Exceeded, "River level 15.0 ft above max 12.0 ft")]);
    match evaluate(&all(), &weather, &river, true, &Some(road_status("closed")), NOW) {
        TripDecision::NoGo { reasons } => {
            assert_eq!(reasons.len(), 3);
            assert!(reasons[0].contains("Temperature"));
            assert!(reasons[1].contains("River level"));
            assert!(reasons[2].contains("SR-20"));
        },
        _ => panic!("expected NoGo"),
    }
}

#[test]
fn caution_lists_near_misses() {
    let weather = source("Min temperature", 0, vec![
        check(Verdict::NearLimit, "Temp 52°F near minimum 50°F"),
        check(Verdict::Within, "unused"),
    ]);
    match evaluate(&all(), &weather, &none(), false, &None, NOW) {
        TripDecision::Caution { warnings } => assert_eq!(warnings, vec!["Temp 52°F near minimum 50°F"]),
        _ => panic!("expected Caution"),
    }
}

#[test]
fn weather_signal_disabled_skips_weather_criteria() {
    let weather = source("Min temperature", 0, vec![check(Verdict::Exceeded, "too cold")]);
    let signals = RelevantSignals { weather: false, ..all() };
    assert!(matches!(evaluate(&signals, &weather, &none(), false, &None, NOW), TripDecision::Go));
}

#[test]
fn river_signal_disabled_skips_river_criteria() {
    let river = source("Max river level", 0, vec![check(Verdict::Exceeded, "too high")]);
    let signals = RelevantSignals { river: false, ..all() };
    assert!(matches!(evaluate(&signals, &none(), &river, false, &None, NOW), TripDecision::Go));
}

#[test]
fn road_signal_disabled_skips_road_criteria() {
    let signals = RelevantSignals { road: false, ..all() };
    assert!(matches!(evaluate(&signals, &none(), &none(), true, &Some(road_status("closed")), NOW), TripDecision::Go));
}

#[test]
fn detail_blocker_and_passing_rows() {
    let river = source("Max river level", 0, vec![
        check(Verdict::Exceeded, "River level over limit"),
        check(Verdict::Within, "River flow"),
    ]);
    let d = evaluate_detail(&all(), &none(), &river, false, &None, &None, &None, 100);
    assert!(matches!(d.decision, TripDecision::NoGo { .. }));
    assert_eq!(d.blockers.len(), 1);
    assert_eq!(d.blockers[0].name, "River level over limit");
    assert_eq!(d.passing.len(), 1);
    assert_eq!(d.passing[0].name, "River flow");
    assert!(d.unchecked.is_empty());
}

#[test]
fn detail_unchecked_when_weather_absent() {
    let weather = NumericSource { labels: vec!["Min temperature".to_string()], reading: None };
    let d = evaluate_detail(&all(), &weather, &none(), false, &None, &None, &None, 0);
    assert!(matches!(d.decision, TripDecision::Unknown { .. }));
    assert_eq!(d.unchecked.len(), 1);
    assert_eq!(d.unchecked[0].criterion, "Min temperature");
    assert_eq!(d.unchecked[0].missing_source, "Weather (no data)");
}

#[test]
fn detail_road_rows() {
    let d = evaluate_detail(&all(), &none(), &none(), true, &Some(road_status("closed")), &None, &None, 0);
    assert_eq!(d.blockers.len(), 1);
    assert_eq!(d.blockers[0].name, "Road access");
    assert_eq!(d.blockers[0].actual, "CLOSED");
    assert_eq!(d.blockers[0].detail, "SR-20 is closed — Newhalem to Rainy Pass");
}

#[test]
fn detail_source_age_populated() {
    let weather = source("Min temperature", 100, vec![check(Verdict::Within, "")]);
    let ferry = FerryStatus { route: "r".to_string(), vessel_name: "v".to_string(), estimated_departures: vec![150] };
    let trail = TrailCondition { destination_name: "t".to_string(), suitability_summary: "s".to_string(), last_updated: 0 };
    let d = evaluate_detail(&all(), &weather, &none(), false, &None, &Some(ferry), &Some(trail), 200);
    assert_eq!(d.source_age_secs.weather_secs, Some(100));
    assert_eq!(d.source_age_secs.ferry_secs, Some(50));
    assert_eq!(d.source_age_secs.trail_secs, None);
    assert_eq!(d.source_age_secs.river_secs, None);
}

#[test]
fn staleness_thresholds() {
    assert!(!is_stale(0, WEATHER_STALE_SECS, WEATHER_STALE_SECS));
    assert!(is_stale(0, WEATHER_STALE_SECS + 1, WEATHER_STALE_SECS));
    assert!(!is_stale(500, 100, 10));
    assert_eq!(freshness(None, 5, 1), Freshness::Missing);
    assert_eq!(freshness(Some(0), ROAD_STALE_SECS + 7200, ROAD_STALE_SECS), Freshness::Stale { age_hours: 26 });
    assert_eq!(freshness(Some(10), 20, 100), Freshness::Fresh);
    assert_eq!(age_secs(Some(0), 50), None);
    assert_eq!(age_secs(Some(60), 50), Some(0));
    assert_eq!(age_secs(Some(40), 50), Some(10));
}

#[test]
fn texts_of_missing_sources() {
    assert_eq!(missing_text(SourceKind::River, Freshness::Missing), "No river data");
    assert_eq!(missing_text(SourceKind::Weather, Freshness::Stale { age_hours: 3 }), "Weather data stale (>3h)");
    assert_eq!(unchecked_source_text(SourceKind::Road, Freshness::Stale { age_hours: 30 }), "Road status (stale >30h)");
    assert_eq!(unchecked_source_text(SourceKind::River, Freshness::Missing), "River gauge (no data)");
}

#[test]
fn decide_priority() {
    let s = |v: &[&str]| v.iter().map(|x| x.to_string()).collect::<Vec<_>>();
    assert!(matches!(decide(s(&["a"]), s(&["b"]), s(&["c"])), TripDecision::NoGo { .. }));
    assert!(matches!(decide(s(&[]), s(&["b"]), s(&["c"])), TripDecision::Unknown { .. }));
    assert!(matches!(decide(s(&[]), s(&[]), s(&["c"])), TripDecision::Caution { .. }));
    assert!(matches!(decide(s(&[]), s(&[]), s(&[])), TripDecision::Go));
}

#[test]
fn road_factor_and_status() {
    assert!(status_is_open("open"));
    assert!(status_is_open("No active closures"));
    assert!(!status_is_open("Open"));
    let f = road_factor_of(&road_status("open"));
    assert_eq!((f.name.as_str(), f.actual.as_str(), f.threshold.as_str(), f.detail.as_str()), ("Road access", "OPEN", "OPEN", "SR-20 ✓"));
}

#[test]
fn clock_is_after_2024() {
    assert!(current_unix_secs() > 1_700_000_000);
}

#[test]
fn caution_when_weather_data_aging() {
    // 2h 15m old: exactly three quarters of the 3h window
    let weather = source("Min temperature", 0, vec![check(Verdict::Within, "")]);
    match evaluate(&all(), &weather, &none(), false, &None, 8100) {
        TripDecision::Caution { warnings } => assert_eq!(warnings, vec!["Weather data aging (2h 15m — limit 3h)"]),
        other => panic!("expected Caution, got {:?}", other),
    }
    // just under three quarters: GO
    assert!(matches!(evaluate(&all(), &weather, &none(), false, &None, 8099), TripDecision::Go));
}

#[test]
fn aging_warning_follows_near_misses() {
    let river = source("Max river level", 0, vec![check(Verdict::NearLimit, "River level 11.5ft — near limit 12.0ft")]);
    match evaluate(&all(), &none(), &river, true, &Some(road_status("open")), 21_600) {
        TripDecision::Caution { warnings } => assert_eq!(
            warnings,
            vec!["River level 11.5ft — near limit 12.0ft", "River data aging (6h 0m — limit 6h)"]
        ),
        other => panic!("expected Caution, got {:?}", other),
    }
}

#[test]
fn road_data_aging_and_unrequired_road_ignored() {
    match evaluate(&all(), &none(), &none(), true, &Some(road_status("open")), 20 * 3600) {
        TripDecision::Caution { warnings } => assert_eq!(warnings, vec!["Road data aging (20h 0m — limit 24h)"]),
        other => panic!("expected Caution, got {:?}", other),
    }
    assert!(matches!(evaluate(&all(), &none(), &none(), false, &Some(road_status("open")), 20 * 3600), TripDecision::Go));
}

#[test]
fn aging_text_format() {
    assert_eq!(aging_text(SourceKind::Weather, 8280), "Weather data aging (2h 18m — limit 3h)");
}

#[test]
fn unknown_when_river_stale() {
    let river = source("River level", 0, vec![check(Verdict::Within, "")]);
    match evaluate(&all(), &none(), &river, false, &None, 21_600 + 1) {
        TripDecision::Unknown { missing } => assert!(missing.iter().any(|m| m.contains("stale"))),
        _ => panic!("expected Unknown"),
    }
}

#[test]
fn go_when_no_criteria_configured_with_data() {
    let weather = NumericSource { labels: vec![], reading: Some(Reading { observed_at: 0, checks: vec![] }) };
    let river = NumericSource { labels: vec![], reading: Some(Reading { observed_at: 0, checks: vec![] }) };
    assert!(matches!(evaluate(&all(), &weather, &river, false, &Some(road_status("closed")), NOW), TripDecision::Go));
}

#[test]
fn detail_unchecked_when_weather_stale() {
    let weather = source("Min temperature", 0, vec![check(Verdict::Within, "")]);
    let d = evaluate_detail(&all(), &weather, &none(), false, &None, &None, &None, WEATHER_STALE_SECS + 1);
    assert!(d.blockers.is_empty());
    assert!(d.passing.is_empty());
    assert_eq!(d.unchecked.len(), 1);
    assert!(d.unchecked[0].missing_source.contains("stale"));
    assert!(matches!(d.decision, TripDecision::Unknown { .. }));
}

/// GO 0, CAUTION 1, UNKNOWN 2, NO GO 3.
fn severity(d: &TripDecision) -> u8 {
    match d {
        TripDecision::Go => 0,
        TripDecision::Caution { .. } => 1,
        TripDecision::Unknown { .. } => 2,
        TripDecision::NoGo { .. } => 3,
    }
}

#[test]
fn dropping_criteria_never_worsens_the_decision() {
    let both = NumericSource {
        labels: vec!["Min temperature".to_string(), "Max precipitation".to_string()],
        reading: Some(Reading { observed_at: NOW, checks: vec![check(Verdict::Exceeded, "too cold"), check(Verdict::NearLimit, "rain likely")] }),
    };
    let one = NumericSource {
        labels: vec!["Max precipitation".to_string()],
        reading: Some(Reading { observed_at: NOW, checks: vec![check(Verdict::NearLimit, "rain likely")] }),
    };
    let before = evaluate(&all(), &both, &none(), true, &Some(road_status("closed")), NOW);
    let fewer = evaluate(&all(), &one, &none(), true, &Some(road_status("closed")), NOW);
    let no_road = evaluate(&all(), &one, &none(), false, &Some(road_status("closed")), NOW);
    let nothing = evaluate(&all(), &none(), &none(), false, &Some(road_status("closed")), NOW);
    assert_eq!(severity(&before), 3);
    assert!(severity(&fewer) <= severity(&before));
    assert_eq!(severity(&no_road), 1);
    assert_eq!(severity(&nothing), 0);
}
