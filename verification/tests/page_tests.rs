use skagit_flats::config::Destination;
use skagit_flats::domain::{RelevantSignals, TripDecision};
use skagit_flats::page::{dest_card_html, fixture_banner, hw_error_banner, join_parts, source_rows_html};
use skagit_flats::web::{delete_destination, upsert_destination, SourceStatus};

#[test]
fn go_card_has_badge_and_no_reasons() {
    let html = dest_card_html("Cascade Pass", &TripDecision::Go, &vec![]);
    assert_eq!(
        html,
        "<div class=\"dest-card\" id=\"card-Cascade%20Pass\">\n  <div class=\"card-header\">\n    <span class=\"dest-name\">Cascade Pass</span>\n    <span class=\"badge go\">GO</span>\n  </div>\n  \n  \n  <div class=\"card-actions\">\n    <button class=\"btn-delete\" onclick=\"deleteDestination('Cascade Pass')\">Delete</button>\n  </div>\n</div>"
    );
}

#[test]
fn no_go_card_lists_escaped_reasons_and_criteria() {
    let d = TripDecision::NoGo { reasons: vec!["Temp < 40°F".to_string(), "Road closed".to_string()] };
    let html = dest_card_html("A&B", &d, &vec!["min 40°F".to_string(), "road open".to_string()]);
    assert!(html.contains("id=\"card-A%26B\""));
    assert!(html.contains("<span class=\"dest-name\">A&amp;B</span>"));
    assert!(html.contains("<span class=\"badge nogo\">NO GO</span>"));
    assert!(html.contains("<ul class=\"reasons\"><li>Temp &lt; 40°F</li><li>Road closed</li></ul>"));
    assert!(html.contains("<p class=\"criteria-summary\">min 40°F · road open</p>"));
}

#[test]
fn caution_and_unknown_badges() {
    let c = dest_card_html("x", &TripDecision::Caution { warnings: vec!["w".to_string()] }, &vec![]);
    assert!(c.contains("badge caution\">CAUTION<"));
    let u = dest_card_html("x", &TripDecision::Unknown { missing: vec![] }, &vec![]);
    assert!(u.contains("badge unknown\">UNKNOWN<"));
    assert!(!u.contains("<ul"));
}

#[test]
fn join_parts_separates_neighbours() {
    assert_eq!(join_parts(&vec![], ", "), "");
    assert_eq!(join_parts(&vec!["a".to_string()], ", "), "a");
    assert_eq!(join_parts(&vec!["a".to_string(), "b".to_string(), "c".to_string()], ", "), "a, b, c");
}

#[test]
fn source_rows_toggle_the_other_way() {
    let s = vec![
        SourceStatus { name: "noaa-weather".to_string(), enabled: true, last_fetch: None, last_error: None, next_fetch: None },
        SourceStatus { name: "usgs-river".to_string(), enabled: false, last_fetch: None, last_error: Some("timeout <5s>".to_string()), next_fetch: None },
    ];
    let html = source_rows_html(&s);
    assert!(html.starts_with("<div class=\"source-row\" id=\"src-noaa-weather\">"));
    assert!(html.contains("<span class=\"src-status enabled\">Enabled</span>"));
    assert!(html.contains("toggleSource('noaa-weather', 'disable')\">Disable</button>"));
    assert!(html.contains("<span class=\"src-status disabled\">Disabled</span>"));
    assert!(html.contains("<span class=\"src-error\">timeout &lt;5s&gt;</span>"));
    assert!(html.contains("toggleSource('usgs-river', 'enable')\">Enable</button>"));
    assert_eq!(source_rows_html(&vec![]), "");
}

#[test]
fn banners() {
    assert_eq!(hw_error_banner(&None), "");
    assert_eq!(
        hw_error_banner(&Some("SPI <busy>".to_string())),
        "<div class=\"hw-error-banner\"><span class=\"hw-icon\">&#9888;</span><div class=\"hw-msg\"><strong>Hardware Error</strong>SPI &lt;busy&gt;</div></div>"
    );
    assert_eq!(fixture_banner(false), "");
    assert!(fixture_banner(true).contains("FIXTURE DATA MODE"));
}

fn dest(name: &str, c: u32) -> Destination<u32> {
    Destination { name: name.to_string(), signals: RelevantSignals::default(), criteria: c }
}

#[test]
fn upsert_updates_or_appends() {
    let mut v = vec![dest("A", 1), dest("B", 2)];
    let quiet = RelevantSignals { road: false, ..RelevantSignals::default() };
    assert!(upsert_destination(&mut v, "B".to_string(), quiet, 20));
    assert_eq!(v.len(), 2);
    assert_eq!(v[1].criteria, 20);
    assert!(!v[1].signals.road);
    assert!(upsert_destination(&mut v, "C".to_string(), RelevantSignals::default(), 3));
    assert_eq!(v.len(), 3);
    assert_eq!(v[2].name, "C");
}

#[test]
fn upsert_refuses_blank_names() {
    let mut v = vec![dest("A", 1)];
    assert!(!upsert_destination(&mut v, "  \t".to_string(), RelevantSignals::default(), 9));
    assert_eq!(v.len(), 1);
    assert_eq!(v[0].criteria, 1);
}

#[test]
fn delete_removes_every_match() {
    let mut v = vec![dest("A", 1), dest("B", 2), dest("A", 3)];
    assert!(delete_destination(&mut v, "A"));
    assert_eq!(v.len(), 1);
    assert_eq!(v[0].name, "B");
    assert!(!delete_destination(&mut v, "Z"));
    assert_eq!(v.len(), 1);
}

#[test]
fn delete_button_html_escapes_the_name() {
    let html = dest_card_html("Tom & \"Jerry\"", &TripDecision::Go, &vec![]);
    assert!(html.contains("onclick=\"deleteDestination('Tom &amp; &quot;Jerry&quot;')\""), "{html}");
    let rows = source_rows_html(&vec![SourceStatus { name: "a<b".to_string(), enabled: true, last_fetch: None, last_error: None, next_fetch: None }]);
    assert!(rows.contains("toggleSource('a&lt;b', 'disable')"), "{rows}");
}

#[test]
fn index_page_sets_the_parts_in_order() {
    let page = skagit_flats::page_shell::index_page_html("<E>", "<F>", "<C>", "<S>");
    assert!(page.starts_with("<!DOCTYPE html>"));
    assert!(page.ends_with("</html>"));
    let e = page.find("<E>").unwrap();
    let f = page.find("<F>").unwrap();
    let c = page.find("<C>").unwrap();
    let s = page.find("<S>").unwrap();
    assert!(e < f && f < c && c < s);
    assert!(page.contains("<title>Skagit Flats</title>"));
}
