use skagit_flats::web::{html_escape, parse_usgs_sites_rdb, set_source_enabled, urlencoding, SourceStatus};

#[test]
fn html_escape_replaces_markup() {
    assert_eq!(html_escape("<b>\"R&D\"</b>"), "&lt;b&gt;&quot;R&amp;D&quot;&lt;/b&gt;");
    assert_eq!(html_escape("plain — text"), "plain — text");
    assert_eq!(html_escape(""), "");
}

#[test]
fn urlencoding_percent_encodes_bytes() {
    assert_eq!(urlencoding("Cascade Pass"), "Cascade%20Pass");
    assert_eq!(urlencoding("a-b_c.d~e"), "a-b_c.d~e");
    assert_eq!(urlencoding("°"), "%C2%B0");
    assert_eq!(urlencoding("x/y?z"), "x%2Fy%3Fz");
}

fn status(name: &str, enabled: bool) -> SourceStatus {
    SourceStatus { name: name.to_string(), enabled, last_fetch: Some(5), last_error: None, next_fetch: None }
}

#[test]
fn set_source_enabled_toggles_named_source() {
    let mut v = vec![status("noaa-weather", true), status("usgs-river", true)];
    assert!(set_source_enabled(&mut v, "usgs-river", false));
    assert!(v[0].enabled);
    assert!(!v[1].enabled);
    assert_eq!(v[1].name, "usgs-river");
    assert_eq!(v[1].last_fetch, Some(5));
    assert!(set_source_enabled(&mut v, "usgs-river", true));
    assert!(v[1].enabled);
}

#[test]
fn set_source_enabled_unknown_name_changes_nothing() {
    let mut v = vec![status("noaa-weather", true)];
    assert!(!set_source_enabled(&mut v, "nope", false));
    assert_eq!(v.len(), 1);
    assert!(v[0].enabled);
}

const RDB: &str = "# USGS site list\n\
#\n\
agency_cd\tsite_no\tstation_nm\tsite_tp_cd\tdec_lat_va\tdec_long_va\n\
5s\t15s\t50s\t7s\t16s\t16s\n\
USGS\t12200500\tSKAGIT RIVER NEAR MOUNT VERNON, WA\tST\t48.4445\t-122.3346\n\
USGS\t\tNO NUMBER\tST\t48.0\t-122.0\n\
USGS\t12201500\tSAMISH RIVER NEAR BURLINGTON, WA\tST\t48.5468\t-122.3379\n\
  \n";

#[test]
fn parse_usgs_sites_rdb_reads_rows() {
    let sites = parse_usgs_sites_rdb(RDB);
    assert_eq!(sites.len(), 2);
    assert_eq!(sites[0].site_id, "12200500");
    assert_eq!(sites[0].site_name, "SKAGIT RIVER NEAR MOUNT VERNON, WA");
    assert_eq!(sites[0].lat, "48.4445");
    assert_eq!(sites[0].lon, "-122.3346");
    assert_eq!(sites[1].site_id, "12201500");
}

#[test]
fn parse_usgs_sites_rdb_without_rows_is_empty() {
    assert!(parse_usgs_sites_rdb("").is_empty());
    assert!(parse_usgs_sites_rdb("# only\n# comments\n").is_empty());
    assert!(parse_usgs_sites_rdb("site_no\tstation_nm\n5s\t15s\n").is_empty());
}

const SITES_RDB: &str = "#\n\
# U.S. Geological Survey\n\
# National Water Information System\n\
#\n\
agency_cd\tsite_no\tstation_nm\tsite_tp_cd\tdec_lat_va\tdec_long_va\tcoord_acy_cd\tdec_coord_datum_cd\n\
5s\t15s\t50s\t7s\t16s\t16s\t1s\t10s\n\
USGS\t12194000\tSKAGIT RIVER NEAR CONCRETE, WA\tST\t48.5248\t-121.7646\tS\tNAD83\n\
USGS\t12200500\tSKAGIT RIVER NEAR MOUNT VERNON, WA\tST\t48.4445\t-122.3346\tS\tNAD83\n\
USGS\t12201500\tSAMISH RIVER NEAR BURLINGTON, WA\tST\t48.5468\t-122.3379\tS\tNAD83\n";

#[test]
fn parse_usgs_sites_rdb_fixture() {
    let candidates = parse_usgs_sites_rdb(SITES_RDB);
    assert!(!candidates.is_empty(), "fixture should yield candidates");
    let skagit = candidates.iter().find(|c| c.site_id == "12200500");
    assert!(skagit.is_some(), "should find Skagit River gauge");
    assert_eq!(skagit.unwrap().lat, "48.4445");
    assert_eq!(candidates.len(), 3);
}
