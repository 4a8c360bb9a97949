//! What the display shows, before any pixel is drawn: text panels for the
//! legacy grid layout and the content of the four display zones.
use vstd::prelude::*;
use crate::domain::{FerryStatus, RoadStatus, TrailCondition, TripDecision};
use crate::text::{all_ascii, append_chars, append_str, ascii_upper, chars_of, decimal2, string_from_chars, to_uppercase, u64_to_decimal2, uppercase};

verus! {

broadcast use vstd::seq_lib::group_seq_properties;

/// A rendered panel: a title and zero or more text rows.
///
/// Panels have no knowledge of pixels, fonts, or geometry — that is render's job.
#[derive(Debug, Clone)]
pub struct Panel {
    pub title: String,
    pub rows: Vec<String>,
}

impl Panel {
    /// A panel with the given title and no rows.
    pub fn new(title: String) -> (p: Self)
        ensures
            p.title@ == title@,
            p.rows.deep_view() == Seq::<Seq<char>>::empty(),
    {
        let p = Panel { title, rows: Vec::new() };
        assert(p.rows.deep_view() =~= Seq::<Seq<char>>::empty());
        p
    }

    /// The panel with one more row at the bottom.
    pub fn with_row(self, row: String) -> (p: Self)
        ensures
            p.title@ == self.title@,
            p.rows.deep_view() == self.rows.deep_view().push(row@),
    {
        let mut p = self;
        let ghost rows0 = p.rows.deep_view();
        let ghost r = row@;
        p.rows.push(row);
        assert(p.rows.deep_view() =~= rows0.push(r));
        p
    }
}

/// `h:mm` of the day, both fields zero-padded to two digits.
pub open spec fn clock_text(ts: nat) -> Seq<char> {
    let secs = ts % 86400;
    decimal2(secs / 3600) + seq![':'] + decimal2((secs % 3600) / 60)
}

/// Format a Unix timestamp as HH:MM of its UTC day.
pub fn fmt_time(ts: u64) -> (s: String)
    ensures
        s@ == clock_text(ts as nat),
{
    let secs = ts % 86400;
    let h = secs / 3600;
    let m = (secs % 3600) / 60;
    let mut v = u64_to_decimal2(h);
    v.push(':');
    let mv = u64_to_decimal2(m);
    append_chars(&mut v, mv.as_slice());
    string_from_chars(v.as_slice())
}

/// `a` followed by `b`, as a new `String`.
fn join2(a: &str, b: &str) -> (s: String)
    ensures
        s@ == a@ + b@,
{
    let mut v = chars_of(a);
    append_str(&mut v, b);
    string_from_chars(v.as_slice())
}

/// `a`, `b` and `c` in order, as a new `String`.
fn join3(a: &str, b: &str, c: &str) -> (s: String)
    ensures
        s@ == a@ + b@ + c@,
{
    let mut v = chars_of(a);
    append_str(&mut v, b);
    append_str(&mut v, c);
    string_from_chars(v.as_slice())
}

/// The rows of the ferry panel after the vessel name: the first three
/// departures, each as "Departs HH:MM".
pub open spec fn departure_rows(deps: Seq<u64>) -> Seq<Seq<char>> {
    let k = if deps.len() < 3 { deps.len() } else { 3 };
    Seq::new(k, |i: int| "Departs "@ + clock_text(deps[i] as nat))
}

/// Format FerryStatus into a Panel.
pub fn format_ferry(status: &FerryStatus) -> (p: Panel)
    ensures
        p.title@ == "Ferry — "@ + status.route@,
        p.rows.deep_view() == seq![status.vessel_name@] + departure_rows(status.estimated_departures@),
{
    let mut panel = Panel::new(join2("Ferry — ", status.route.as_str()));
    let ghost r0 = panel.rows.deep_view();
    let vessel = string_from_chars(chars_of(status.vessel_name.as_str()).as_slice());
    panel.rows.push(vessel);
    assert(panel.rows.deep_view() =~= seq![status.vessel_name@] + departure_rows(status.estimated_departures@).take(0));
    let deps = &status.estimated_departures;
    let k: usize = if deps.len() < 3 { deps.len() } else { 3 };
    let mut i: usize = 0;
    while i < k
        invariant
            k == if deps@.len() < 3 { deps@.len() } else { 3 },
            i <= k,
            panel.title@ == "Ferry — "@ + status.route@,
            panel.rows.deep_view() == seq![status.vessel_name@] + departure_rows(deps@).take(i as int),
        decreases k - i,
    {
        let ghost rows0 = panel.rows.deep_view();
        let t = fmt_time(deps[i]);
        let row = join2("Departs ", t.as_str());
        let ghost rv = row@;
        panel.rows.push(row);
        assert(panel.rows.deep_view() =~= rows0.push(rv));
        assert(departure_rows(deps@).take(i + 1) =~= departure_rows(deps@).take(i as int).push(departure_rows(deps@)[i as int]));
        assert(panel.rows.deep_view() =~= seq![status.vessel_name@] + departure_rows(deps@).take(i + 1));
        i = i + 1;
    }
    assert(departure_rows(deps@).take(k as int) =~= departure_rows(deps@));
    panel
}

/// Format TrailCondition into a Panel.
pub fn format_trail(cond: &TrailCondition) -> (p: Panel)
    ensures
        p.title@ == cond.destination_name@,
        p.rows.deep_view() == seq![cond.suitability_summary@],
{
    let p = Panel::new(cond.destination_name.clone());
    p.with_row(cond.suitability_summary.clone())
}

/// Format RoadStatus into a Panel: the road name, then the status in
/// capitals and the affected segment.
pub fn format_road(road: &RoadStatus) -> (p: Panel)
    ensures
        p.title@ == road.road_name@,
        p.rows.deep_view() == seq![uppercase(road.status@) + " — "@ + road.affected_segment@],
        all_ascii(road.status@) ==> p.rows.deep_view()
            == seq![road.status@.map_values(|c: char| ascii_upper(c)) + " — "@ + road.affected_segment@],
{
    let upper = to_uppercase(road.status.as_str());
    let row = join3(upper.as_str(), " — ", road.affected_segment.as_str());
    let p = Panel::new(road.road_name.clone());
    p.with_row(row)
}

/// Each explanation line as a bullet row.
pub open spec fn bullet_rows(lines: Seq<Seq<char>>) -> Seq<Seq<char>> {
    Seq::new(lines.len(), |i: int| "• "@ + lines[i])
}

/// The rows of the decision panel: the verdict, then one bullet per line of
/// its explanation.
pub open spec fn decision_rows(d: crate::domain::DecisionModel) -> Seq<Seq<char>> {
    match d {
        crate::domain::DecisionModel::Go => seq!["GO"@],
        crate::domain::DecisionModel::NoGo(rs) => seq!["NO GO"@] + bullet_rows(rs),
        crate::domain::DecisionModel::Caution(ws) => seq!["CAUTION"@] + bullet_rows(ws),
        crate::domain::DecisionModel::Unknown(ms) => seq!["UNKNOWN"@] + bullet_rows(ms),
    }
}

/// Every explanation line is listed: the decision panel shows the verdict,
/// then, for NO GO, CAUTION and UNKNOWN alike, exactly one row "• line" per
/// explanation line, in order, and nothing else.
pub proof fn law_decision_rows_list_every_line(d: crate::domain::DecisionModel)
    ensures
        match d {
            crate::domain::DecisionModel::Go => decision_rows(d) == seq!["GO"@],
            crate::domain::DecisionModel::NoGo(ls) => decision_rows(d).len() == 1 + ls.len() && decision_rows(d)[0] == "NO GO"@
                && forall|k: int| 0 <= k < ls.len() ==> #[trigger] decision_rows(d)[k + 1] == "• "@ + ls[k],
            crate::domain::DecisionModel::Caution(ls) => decision_rows(d).len() == 1 + ls.len() && decision_rows(d)[0] == "CAUTION"@
                && forall|k: int| 0 <= k < ls.len() ==> #[trigger] decision_rows(d)[k + 1] == "• "@ + ls[k],
            crate::domain::DecisionModel::Unknown(ls) => decision_rows(d).len() == 1 + ls.len() && decision_rows(d)[0] == "UNKNOWN"@
                && forall|k: int| 0 <= k < ls.len() ==> #[trigger] decision_rows(d)[k + 1] == "• "@ + ls[k],
        },
{
}

/// Appends "• line" for each line.
fn push_bullets(panel: &mut Panel, lines: &Vec<String>)
    ensures
        final(panel).title@ == old(panel).title@,
        final(panel).rows.deep_view() == old(panel).rows.deep_view() + bullet_rows(lines.deep_view()),
{
    let ghost r0 = panel.rows.deep_view();
    let mut i: usize = 0;
    while i < lines.len()
        invariant
            i <= lines@.len(),
            panel.title@ == old(panel).title@,
            r0 == old(panel).rows.deep_view(),
            panel.rows.deep_view() == r0 + bullet_rows(lines.deep_view()).take(i as int),
        decreases lines.len() - i,
    {
        let row = join2("• ", lines[i].as_str());
        let ghost rv = row@;
        let ghost before = panel.rows.deep_view();
        panel.rows.push(row);
        assert(panel.rows.deep_view() =~= before.push(rv));
        assert(bullet_rows(lines.deep_view()).take(i + 1) =~= bullet_rows(lines.deep_view()).take(i as int).push(bullet_rows(lines.deep_view())[i as int]));
        assert(panel.rows.deep_view() =~= r0 + bullet_rows(lines.deep_view()).take(i + 1));
        i = i + 1;
    }
    assert(bullet_rows(lines.deep_view()).take(lines.len() as int) =~= bullet_rows(lines.deep_view()));
}

/// Format a TripDecision into a Panel titled with the destination.
pub fn format_trip_decision(destination: &str, decision: &TripDecision) -> (p: Panel)
    ensures
        p.title@ == destination@,
        p.rows.deep_view() == decision_rows(decision.model()),
{
    let title = string_from_chars(chars_of(destination).as_slice());
    let base = Panel::new(title);
    match decision {
        TripDecision::Go => base.with_row("GO".to_string()),
        TripDecision::NoGo { reasons } => {
            let mut panel = base.with_row("NO GO".to_string());
            push_bullets(&mut panel, reasons);
            panel
        },
        TripDecision::Caution { warnings } => {
            let mut panel = base.with_row("CAUTION".to_string());
            push_bullets(&mut panel, warnings);
            panel
        },
        TripDecision::Unknown { missing } => {
            let mut panel = base.with_row("UNKNOWN".to_string());
            push_bullets(&mut panel, missing);
            panel
        },
    }
}


// ── Content of the four display zones ────────────────────────────────────────

/// Everything the 800×480 display shows, zone by zone.
#[derive(Debug, Clone)]
pub struct DisplayLayout {
    pub header: HeaderContent,
    pub hero: HeroContent,
    pub data: DataContent,
    pub context: ContextContent,
}

/// Zone 1: the app name, the river site and the time of the last update.
#[derive(Debug, Clone)]
pub struct HeaderContent {
    pub app_name: String,
    pub river_site: Option<String>,
    /// "HH:MM" of the last update.
    pub last_updated: Option<String>,
}

/// Zone 2: the trip decision and the current weather.
#[derive(Debug, Clone)]
pub struct HeroContent {
    pub decision: HeroDecision,
    pub weather: Option<WeatherContent>,
}

/// The decision shown in large type, with its explanation lines.
#[derive(Debug, Clone)]
pub enum HeroDecision {
    Go { destination: String },
    AllGo,
    NoGo { destination: String, reasons: Vec<String> },
    Caution { destination: String, warnings: Vec<String> },
    Unknown { destination: String, missing: Vec<String> },
}

/// Pictogram for the sky condition.
#[derive(Debug, Clone, Copy, PartialEq, Eq, Structural)]
pub enum WeatherIcon {
    Clear,
    PartlyCloudy,
    MostlyCloudy,
    Overcast,
    Rain,
    HeavyRain,
    Drizzle,
    Snow,
    Thunderstorm,
    Fog,
    Wind,
}

/// Current weather, with measurements rounded to whole units.
#[derive(Debug, Clone)]
pub struct WeatherContent {
    pub icon: WeatherIcon,
    /// Temperature in whole degrees Fahrenheit.
    pub temperature_f: i64,
    pub sky_condition: String,
    pub wind_dir: String,
    /// Wind speed in whole miles per hour.
    pub wind_speed_mph: i64,
    /// Chance of precipitation in whole percent.
    pub precip_chance_pct: i64,
}

/// Zone 3: river gauge on the left, ferry on the right.
#[derive(Debug, Clone)]
pub struct DataContent {
    pub river: Option<RiverContent>,
    pub ferry: Option<FerryContent>,
}

/// Direction of the river level over the last readings.
#[derive(Debug, Clone, Copy, PartialEq, Eq, Structural)]
pub enum TrendArrow {
    Rising,
    Falling,
    Stable,
}

/// Recent river levels for the sparkline, in thousandths of a foot, oldest
/// first, with the flood threshold in the same unit when one is configured.
#[derive(Debug, Clone)]
pub struct Sparkline {
    pub values: Vec<i64>,
    pub threshold: Option<i64>,
}

/// The river column of the data zone.
#[derive(Debug, Clone)]
pub struct RiverContent {
    pub site_name: String,
    /// Water level in tenths of a foot.
    pub level_tenths_ft: i64,
    /// Streamflow in whole cubic feet per second.
    pub flow_cfs: i64,
    pub trend: TrendArrow,
    pub sparkline: Option<Sparkline>,
}

/// The ferry column of the data zone.
#[derive(Debug, Clone)]
pub struct FerryContent {
    pub route: String,
    pub vessel_name: String,
    /// Upcoming departures, "HH:MM", soonest first.
    pub departures: Vec<String>,
}

/// Zone 4: trail conditions on the left, road status on the right.
#[derive(Debug, Clone)]
pub struct ContextContent {
    pub trail: Option<TrailContent>,
    pub road: Option<RoadContent>,
}

#[derive(Debug, Clone)]
pub struct TrailContent {
    pub name: String,
    pub condition: String,
}

#[derive(Debug, Clone)]
pub struct RoadContent {
    pub name: String,
    pub status: String,
    pub segment: String,
}

} // verus!
