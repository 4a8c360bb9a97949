//! Trip recommendation rules: freshness of source data, the checks of the
//! configured criteria, and the priority order of the four states.
//!
//! Numeric thresholds (temperatures, precipitation, river level and flow)
//! are compared by the caller, which hands each comparison in as a
//! [`CriterionCheck`]; everything that decides the recommendation from those
//! comparisons lives here.
use vstd::prelude::*;
use crate::domain::{DecisionModel, EvalFactor, EvaluationDetail, FerryStatus, RelevantSignals, RoadStatus, SourceAge, TrailCondition, TripDecision, UncheckedCriterion};
use crate::text::{all_ascii, append_chars, append_str, ascii_upper, chars_of, decimal, str_eq, string_from_chars, to_uppercase, u64_to_decimal, uppercase};

verus! {

broadcast use vstd::seq_lib::group_seq_properties;

// ─── Staleness thresholds (seconds) ──────────────────────────────────────────

/// Weather observations older than 3 hours are stale.
pub const WEATHER_STALE_SECS: u64 = 10_800;
/// River readings older than 6 hours are stale.
pub const RIVER_STALE_SECS: u64 = 21_600;
/// Road status older than 24 hours is stale.
pub const ROAD_STALE_SECS: u64 = 86_400;
/// Trail conditions older than 48 hours are stale.
pub const TRAIL_STALE_SECS: u64 = 172_800;

/// `a - b`, or 0 when `b > a`.
pub open spec fn sat_sub(a: u64, b: u64) -> u64 {
    if a > b { (a - b) as u64 } else { 0 }
}

pub open spec fn spec_is_stale(data_ts: u64, now_secs: u64, threshold: u64) -> bool {
    sat_sub(now_secs, data_ts) > threshold
}

/// Whether data taken at `data_ts` is older than `threshold` seconds at `now_secs`.
pub fn is_stale(data_ts: u64, now_secs: u64, threshold: u64) -> (r: bool)
    ensures
        r == spec_is_stale(data_ts, now_secs, threshold),
{
    now_secs.saturating_sub(data_ts) > threshold
}

/// How usable a source's latest reading is.
#[derive(Debug, Clone, Copy, PartialEq, Eq, Structural)]
pub enum Freshness {
    /// No reading has been received.
    Missing,
    /// The reading is older than the source's staleness threshold.
    Stale { age_hours: u64 },
    /// The reading is recent enough to evaluate against.
    Fresh,
}

pub open spec fn spec_freshness(ts: Option<u64>, now_secs: u64, threshold: u64) -> Freshness {
    match ts {
        None => Freshness::Missing,
        Some(t) => if spec_is_stale(t, now_secs, threshold) {
            Freshness::Stale { age_hours: (sat_sub(now_secs, t) / 3600) as u64 }
        } else {
            Freshness::Fresh
        },
    }
}

/// Classify a reading taken at `ts` (or never) against a staleness threshold.
pub fn freshness(ts: Option<u64>, now_secs: u64, threshold: u64) -> (f: Freshness)
    ensures
        f == spec_freshness(ts, now_secs, threshold),
{
    match ts {
        None => Freshness::Missing,
        Some(t) => if is_stale(t, now_secs, threshold) {
            Freshness::Stale { age_hours: now_secs.saturating_sub(t) / 3600 }
        } else {
            Freshness::Fresh
        },
    }
}

// ─── Criterion checks ───────────────────────────────────────────────────────

/// Outcome of comparing one live reading with one configured threshold.
#[derive(Debug, Clone, Copy, PartialEq, Eq, Structural)]
pub enum Verdict {
    /// The threshold is breached: a hard blocker.
    Exceeded,
    /// The threshold is met, but within the near-miss margin.
    NearLimit,
    /// The threshold is met with room to spare.
    Within,
}

/// One configured criterion compared against the current reading.
#[derive(Debug, Clone)]
pub struct CriterionCheck {
    pub verdict: Verdict,
    /// The blocking reason (`Exceeded`) or near-miss warning (`NearLimit`)
    /// that the recommendation lists; not read for `Within`.
    pub message: String,
    /// The planning-view row for this criterion.
    pub factor: EvalFactor,
}

/// The latest reading of a numeric source, with the comparison of every
/// configured criterion against it, in evaluation order.
#[derive(Debug, Clone)]
pub struct Reading {
    /// Unix timestamp of the reading.
    pub observed_at: u64,
    pub checks: Vec<CriterionCheck>,
}

/// A numeric source (weather or river) as far as one destination needs it.
#[derive(Debug, Clone)]
pub struct NumericSource {
    /// Labels of the configured criteria that depend on this source, e.g.
    /// "Min temperature"; empty when the destination sets no such threshold.
    pub labels: Vec<String>,
    /// The latest reading, or `None` when the source has produced none.
    pub reading: Option<Reading>,
}

/// Which source a message speaks of.
#[derive(Debug, Clone, Copy, PartialEq, Eq, Structural)]
pub enum SourceKind {
    Weather,
    River,
    Road,
}

pub open spec fn stale_threshold(kind: SourceKind) -> u64 {
    match kind {
        SourceKind::Weather => WEATHER_STALE_SECS,
        SourceKind::River => RIVER_STALE_SECS,
        SourceKind::Road => ROAD_STALE_SECS,
    }
}

/// Recommendation line for a source with no reading.
pub open spec fn no_data_line(kind: SourceKind) -> Seq<char> {
    match kind {
        SourceKind::Weather => "No weather data"@,
        SourceKind::River => "No river data"@,
        SourceKind::Road => "No road data"@,
    }
}

/// Recommendation line for a stale source.
pub open spec fn stale_line(kind: SourceKind, age_hours: u64) -> Seq<char> {
    let head = match kind {
        SourceKind::Weather => "Weather data stale (>"@,
        SourceKind::River => "River data stale (>"@,
        SourceKind::Road => "Road data stale (>"@,
    };
    head + decimal(age_hours as nat) + "h)"@
}

/// The explanation line for a source that cannot be evaluated.
pub open spec fn missing_line(kind: SourceKind, f: Freshness) -> Seq<char> {
    match f {
        Freshness::Stale { age_hours } => stale_line(kind, age_hours),
        _ => no_data_line(kind),
    }
}

/// Planning-view name of a source that cannot be evaluated.
pub open spec fn unchecked_source_name(kind: SourceKind, f: Freshness) -> Seq<char> {
    let head = match kind {
        SourceKind::Weather => "Weather ("@,
        SourceKind::River => "River gauge ("@,
        SourceKind::Road => "Road status ("@,
    };
    match f {
        Freshness::Stale { age_hours } => head + "stale >"@ + decimal(age_hours as nat) + "h)"@,
        _ => head + "no data)"@,
    }
}

/// Messages of the checks with the given verdict, in order.
pub open spec fn messages_with(checks: Seq<CriterionCheck>, v: Verdict) -> Seq<Seq<char>>
    decreases checks.len(),
{
    if checks.len() == 0 {
        Seq::empty()
    } else {
        let rest = messages_with(checks.drop_last(), v);
        if checks.last().verdict == v {
            rest.push(checks.last().message@)
        } else {
            rest
        }
    }
}

pub open spec fn numeric_needed(enabled: bool, src: NumericSource) -> bool {
    enabled && src.labels@.len() > 0
}

pub open spec fn numeric_freshness(kind: SourceKind, src: NumericSource, now_secs: u64) -> Freshness {
    spec_freshness(
        match src.reading {
            Some(r) => Some(r.observed_at),
            None => None,
        },
        now_secs,
        stale_threshold(kind),
    )
}

/// Whether the source's checks take part in the recommendation.
pub open spec fn numeric_checked(kind: SourceKind, enabled: bool, src: NumericSource, now_secs: u64) -> bool {
    numeric_needed(enabled, src) && numeric_freshness(kind, src, now_secs) == Freshness::Fresh
}

pub open spec fn numeric_lines(kind: SourceKind, enabled: bool, src: NumericSource, now_secs: u64, v: Verdict) -> Seq<Seq<char>> {
    if numeric_checked(kind, enabled, src, now_secs) {
        messages_with(src.reading.unwrap().checks@, v)
    } else {
        Seq::empty()
    }
}

/// Whether a reading taken at `ts` has used at least three quarters of its
/// staleness window at `now_secs`.
pub open spec fn is_aging(ts: u64, now_secs: u64, threshold: u64) -> bool {
    sat_sub(now_secs, ts) * 4 >= threshold * 3
}

/// The name of a source in an aging warning.
pub open spec fn source_word(kind: SourceKind) -> Seq<char> {
    match kind {
        SourceKind::Weather => "Weather"@,
        SourceKind::River => "River"@,
        SourceKind::Road => "Road"@,
    }
}

/// Warning for fresh data close to its staleness threshold, e.g.
/// "Weather data aging (2h 18m — limit 3h)".
pub open spec fn aging_line(kind: SourceKind, age_secs: u64) -> Seq<char> {
    source_word(kind) + " data aging ("@ + decimal((age_secs / 3600) as nat) + "h "@
        + decimal(((age_secs % 3600) / 60) as nat) + "m — limit "@
        + decimal((stale_threshold(kind) / 3600) as nat) + "h)"@
}

/// The aging warning of a checked numeric source, if its reading is aging.
pub open spec fn numeric_aging(kind: SourceKind, enabled: bool, src: NumericSource, now_secs: u64) -> Seq<Seq<char>> {
    if numeric_checked(kind, enabled, src, now_secs) && is_aging(src.reading.unwrap().observed_at, now_secs, stale_threshold(kind)) {
        seq![aging_line(kind, sat_sub(now_secs, src.reading.unwrap().observed_at))]
    } else {
        Seq::empty()
    }
}

pub open spec fn numeric_missing(kind: SourceKind, enabled: bool, src: NumericSource, now_secs: u64) -> Seq<Seq<char>> {
    if numeric_needed(enabled, src) && numeric_freshness(kind, src, now_secs) != Freshness::Fresh {
        seq![missing_line(kind, numeric_freshness(kind, src, now_secs))]
    } else {
        Seq::empty()
    }
}

// ─── Road ───────────────────────────────────────────────────────────────────

/// A road counts as open when its status is "open" or "No active closures".
pub open spec fn road_is_open(status: Seq<char>) -> bool {
    status == "open"@ || status == "No active closures"@
}

pub fn status_is_open(status: &str) -> (r: bool)
    ensures
        r == road_is_open(status@),
{
    str_eq(status, "open") || str_eq(status, "No active closures")
}

pub open spec fn road_freshness(road: Option<RoadStatus>, now_secs: u64) -> Freshness {
    spec_freshness(
        match road {
            Some(r) => Some(r.timestamp),
            None => None,
        },
        now_secs,
        ROAD_STALE_SECS,
    )
}

pub open spec fn road_checked(enabled: bool, required: bool, road: Option<RoadStatus>, now_secs: u64) -> bool {
    enabled && required && road_freshness(road, now_secs) == Freshness::Fresh
}

/// "{road_name} is {status}".
pub open spec fn road_reason_line(road: RoadStatus) -> Seq<char> {
    road.road_name@ + " is "@ + road.status@
}

pub open spec fn road_reasons(enabled: bool, required: bool, road: Option<RoadStatus>, now_secs: u64) -> Seq<Seq<char>> {
    if road_checked(enabled, required, road, now_secs) && !road_is_open(road.unwrap().status@) {
        seq![road_reason_line(road.unwrap())]
    } else {
        Seq::empty()
    }
}

/// The aging warning of a checked road status, if it is aging.
pub open spec fn road_aging(enabled: bool, required: bool, road: Option<RoadStatus>, now_secs: u64) -> Seq<Seq<char>> {
    if road_checked(enabled, required, road, now_secs) && is_aging(road.unwrap().timestamp, now_secs, ROAD_STALE_SECS) {
        seq![aging_line(SourceKind::Road, sat_sub(now_secs, road.unwrap().timestamp))]
    } else {
        Seq::empty()
    }
}

pub open spec fn road_missing(enabled: bool, required: bool, road: Option<RoadStatus>, now_secs: u64) -> Seq<Seq<char>> {
    if enabled && required && road_freshness(road, now_secs) != Freshness::Fresh {
        seq![missing_line(SourceKind::Road, road_freshness(road, now_secs))]
    } else {
        Seq::empty()
    }
}

// ─── Priority rules ─────────────────────────────────────────────────────────

/// NO GO beats UNKNOWN beats CAUTION beats GO.
pub open spec fn prioritize(reasons: Seq<Seq<char>>, missing: Seq<Seq<char>>, warnings: Seq<Seq<char>>) -> DecisionModel {
    if reasons.len() > 0 {
        DecisionModel::NoGo(reasons)
    } else if missing.len() > 0 {
        DecisionModel::Unknown(missing)
    } else if warnings.len() > 0 {
        DecisionModel::Caution(warnings)
    } else {
        DecisionModel::Go
    }
}

/// Blocking reasons, in the order weather, river, road.
pub open spec fn all_reasons(signals: RelevantSignals, weather: NumericSource, river: NumericSource, road_required: bool, road: Option<RoadStatus>, now_secs: u64) -> Seq<Seq<char>> {
    numeric_lines(SourceKind::Weather, signals.weather, weather, now_secs, Verdict::Exceeded)
        + numeric_lines(SourceKind::River, signals.river, river, now_secs, Verdict::Exceeded)
        + road_reasons(signals.road, road_required, road, now_secs)
}

/// Missing or stale sources, in the order weather, river, road.
pub open spec fn all_missing(signals: RelevantSignals, weather: NumericSource, river: NumericSource, road_required: bool, road: Option<RoadStatus>, now_secs: u64) -> Seq<Seq<char>> {
    numeric_missing(SourceKind::Weather, signals.weather, weather, now_secs)
        + numeric_missing(SourceKind::River, signals.river, river, now_secs)
        + road_missing(signals.road, road_required, road, now_secs)
}

/// Near-miss and aging-data warnings, in the order weather, river, road;
/// a source's near misses come before its aging warning.
pub open spec fn all_warnings(signals: RelevantSignals, weather: NumericSource, river: NumericSource, road_required: bool, road: Option<RoadStatus>, now_secs: u64) -> Seq<Seq<char>> {
    numeric_lines(SourceKind::Weather, signals.weather, weather, now_secs, Verdict::NearLimit)
        + numeric_aging(SourceKind::Weather, signals.weather, weather, now_secs)
        + numeric_lines(SourceKind::River, signals.river, river, now_secs, Verdict::NearLimit)
        + numeric_aging(SourceKind::River, signals.river, river, now_secs)
        + road_aging(signals.road, road_required, road, now_secs)
}

/// The recommendation for one destination.
pub open spec fn spec_evaluate(signals: RelevantSignals, weather: NumericSource, river: NumericSource, road_required: bool, road: Option<RoadStatus>, now_secs: u64) -> DecisionModel {
    prioritize(
        all_reasons(signals, weather, river, road_required, road, now_secs),
        all_missing(signals, weather, river, road_required, road, now_secs),
        all_warnings(signals, weather, river, road_required, road, now_secs),
    )
}


// ─── Executable rules ───────────────────────────────────────────────────────

fn threshold_of(kind: SourceKind) -> (t: u64)
    ensures
        t == stale_threshold(kind),
{
    match kind {
        SourceKind::Weather => WEATHER_STALE_SECS,
        SourceKind::River => RIVER_STALE_SECS,
        SourceKind::Road => ROAD_STALE_SECS,
    }
}

/// The recommendation line for a source that cannot be evaluated.
pub fn missing_text(kind: SourceKind, f: Freshness) -> (s: String)
    ensures
        s@ == missing_line(kind, f),
{
    match f {
        Freshness::Stale { age_hours } => {
            let head: &str = match kind {
                SourceKind::Weather => "Weather data stale (>",
                SourceKind::River => "River data stale (>",
                SourceKind::Road => "Road data stale (>",
            };
            let mut v: Vec<char> = Vec::new();
            append_str(&mut v, head);
            let d = u64_to_decimal(age_hours);
            append_chars(&mut v, d.as_slice());
            append_str(&mut v, "h)");
            string_from_chars(v.as_slice())
        },
        _ => {
            let line: &str = match kind {
                SourceKind::Weather => "No weather data",
                SourceKind::River => "No river data",
                SourceKind::Road => "No road data",
            };
            line.to_owned()
        },
    }
}

/// The planning-view name of a source that cannot be evaluated.
pub fn unchecked_source_text(kind: SourceKind, f: Freshness) -> (s: String)
    ensures
        s@ == unchecked_source_name(kind, f),
{
    let head: &str = match kind {
        SourceKind::Weather => "Weather (",
        SourceKind::River => "River gauge (",
        SourceKind::Road => "Road status (",
    };
    let mut v: Vec<char> = Vec::new();
    append_str(&mut v, head);
    match f {
        Freshness::Stale { age_hours } => {
            append_str(&mut v, "stale >");
            let d = u64_to_decimal(age_hours);
            append_chars(&mut v, d.as_slice());
            append_str(&mut v, "h)");
        },
        _ => {
            append_str(&mut v, "no data)");
        },
    }
    string_from_chars(v.as_slice())
}

/// The aging warning for a reading `age_secs` old.
pub fn aging_text(kind: SourceKind, age_secs: u64) -> (s: String)
    ensures
        s@ == aging_line(kind, age_secs),
{
    let word: &str = match kind {
        SourceKind::Weather => "Weather",
        SourceKind::River => "River",
        SourceKind::Road => "Road",
    };
    let mut v = chars_of(word);
    append_str(&mut v, " data aging (");
    append_chars(&mut v, u64_to_decimal(age_secs / 3600).as_slice());
    append_str(&mut v, "h ");
    append_chars(&mut v, u64_to_decimal((age_secs % 3600) / 60).as_slice());
    append_str(&mut v, "m — limit ");
    append_chars(&mut v, u64_to_decimal(threshold_of(kind) / 3600).as_slice());
    append_str(&mut v, "h)");
    string_from_chars(v.as_slice())
}

/// Whether a reading taken at `ts` is aging at `now_secs`.
fn aging(ts: u64, now_secs: u64, threshold: u64) -> (r: bool)
    ensures
        r == is_aging(ts, now_secs, threshold),
{
    (now_secs.saturating_sub(ts) as u128) * 4 >= (threshold as u128) * 3
}

/// Appends the messages of the checks with verdict `v` to `out`.
fn push_messages(checks: &Vec<CriterionCheck>, v: Verdict, out: &mut Vec<String>)
    ensures
        final(out).deep_view() == old(out).deep_view() + messages_with(checks@, v),
{
    let ghost start = out.deep_view();
    let mut i: usize = 0;
    while i < checks.len()
        invariant
            i <= checks@.len(),
            out.deep_view() == start + messages_with(checks@.take(i as int), v),
        decreases checks.len() - i,
    {
        let ghost before = out.deep_view();
        assert(checks@.take(i + 1).drop_last() =~= checks@.take(i as int));
        if checks[i].verdict == v {
            out.push(checks[i].message.clone());
            assert(out.deep_view() =~= before.push(checks@[i as int].message@));
        }
        i = i + 1;
    }
    assert(checks@.take(checks@.len() as int) =~= checks@);
}

fn reading_time(src: &NumericSource) -> (t: Option<u64>)
    ensures
        t == match src.reading {
            Some(r) => Some(r.observed_at),
            None => None,
        },
{
    match &src.reading {
        Some(r) => Some(r.observed_at),
        None => None,
    }
}

/// Adds one numeric source's reasons, missing line and warnings.
fn add_numeric(
    kind: SourceKind,
    enabled: bool,
    src: &NumericSource,
    now_secs: u64,
    reasons: &mut Vec<String>,
    missing: &mut Vec<String>,
    warnings: &mut Vec<String>,
)
    ensures
        final(reasons).deep_view() == old(reasons).deep_view() + numeric_lines(kind, enabled, *src, now_secs, Verdict::Exceeded),
        final(missing).deep_view() == old(missing).deep_view() + numeric_missing(kind, enabled, *src, now_secs),
        final(warnings).deep_view() == old(warnings).deep_view() + numeric_lines(kind, enabled, *src, now_secs, Verdict::NearLimit)
            + numeric_aging(kind, enabled, *src, now_secs),
{
    let ghost r0 = reasons.deep_view();
    let ghost m0 = missing.deep_view();
    let ghost w0 = warnings.deep_view();
    let needed = enabled && src.labels.len() > 0;
    if !needed {
        assert(reasons.deep_view() =~= r0 + Seq::<Seq<char>>::empty());
        assert(missing.deep_view() =~= m0 + Seq::<Seq<char>>::empty());
        assert(warnings.deep_view() =~= w0 + Seq::<Seq<char>>::empty());
        return;
    }
    let f = freshness(reading_time(src), now_secs, threshold_of(kind));
    match f {
        Freshness::Fresh => {
            match &src.reading {
                Some(r) => {
                    push_messages(&r.checks, Verdict::Exceeded, reasons);
                    push_messages(&r.checks, Verdict::NearLimit, warnings);
                    let ghost w1 = warnings.deep_view();
                    if aging(r.observed_at, now_secs, threshold_of(kind)) {
                        let line = aging_text(kind, now_secs.saturating_sub(r.observed_at));
                        warnings.push(line);
                        assert(warnings.deep_view() =~= w1 + numeric_aging(kind, enabled, *src, now_secs));
                    } else {
                        assert(warnings.deep_view() =~= w1 + numeric_aging(kind, enabled, *src, now_secs));
                    }
                    assert(missing.deep_view() =~= m0 + Seq::<Seq<char>>::empty());
                },
                None => {},
            }
        },
        _ => {
            let line = missing_text(kind, f);
            missing.push(line);
            assert(missing.deep_view() =~= m0 + seq![missing_line(kind, f)]);
            assert(reasons.deep_view() =~= r0 + Seq::<Seq<char>>::empty());
            assert(warnings.deep_view() =~= w0 + Seq::<Seq<char>>::empty());
        },
    }
}

fn road_time(road: &Option<RoadStatus>) -> (t: Option<u64>)
    ensures
        t == match *road {
            Some(r) => Some(r.timestamp),
            None => None,
        },
{
    match road {
        Some(r) => Some(r.timestamp),
        None => None,
    }
}

/// "{road_name} is {status}".
pub fn road_reason_text(road: &RoadStatus) -> (s: String)
    ensures
        s@ == road_reason_line(*road),
{
    let mut v = chars_of(road.road_name.as_str());
    append_str(&mut v, " is ");
    append_str(&mut v, road.status.as_str());
    string_from_chars(v.as_slice())
}

/// Adds the road's reason or missing line.
fn add_road(
    enabled: bool,
    required: bool,
    road: &Option<RoadStatus>,
    now_secs: u64,
    reasons: &mut Vec<String>,
    missing: &mut Vec<String>,
    warnings: &mut Vec<String>,
)
    ensures
        final(reasons).deep_view() == old(reasons).deep_view() + road_reasons(enabled, required, *road, now_secs),
        final(missing).deep_view() == old(missing).deep_view() + road_missing(enabled, required, *road, now_secs),
        final(warnings).deep_view() == old(warnings).deep_view() + road_aging(enabled, required, *road, now_secs),
{
    let ghost r0 = reasons.deep_view();
    let ghost m0 = missing.deep_view();
    let ghost w0 = warnings.deep_view();
    if !(enabled && required) {
        assert(reasons.deep_view() =~= r0 + Seq::<Seq<char>>::empty());
        assert(missing.deep_view() =~= m0 + Seq::<Seq<char>>::empty());
        assert(warnings.deep_view() =~= w0 + Seq::<Seq<char>>::empty());
        return;
    }
    let f = freshness(road_time(road), now_secs, ROAD_STALE_SECS);
    match f {
        Freshness::Fresh => {
            match road {
                Some(rd) => {
                    if !status_is_open(rd.status.as_str()) {
                        let line = road_reason_text(rd);
                        reasons.push(line);
                        assert(reasons.deep_view() =~= r0 + seq![road_reason_line(*rd)]);
                    } else {
                        assert(reasons.deep_view() =~= r0 + Seq::<Seq<char>>::empty());
                    }
                    if aging(rd.timestamp, now_secs, ROAD_STALE_SECS) {
                        let line = aging_text(SourceKind::Road, now_secs.saturating_sub(rd.timestamp));
                        warnings.push(line);
                        assert(warnings.deep_view() =~= w0 + road_aging(enabled, required, *road, now_secs));
                    } else {
                        assert(warnings.deep_view() =~= w0 + road_aging(enabled, required, *road, now_secs));
                    }
                    assert(missing.deep_view() =~= m0 + Seq::<Seq<char>>::empty());
                },
                None => {},
            }
        },
        _ => {
            let line = missing_text(SourceKind::Road, f);
            missing.push(line);
            assert(missing.deep_view() =~= m0 + seq![missing_line(SourceKind::Road, f)]);
            assert(reasons.deep_view() =~= r0 + Seq::<Seq<char>>::empty());
            assert(warnings.deep_view() =~= w0 + Seq::<Seq<char>>::empty());
        },
    }
}

/// Applies the priority rules to the collected lines.
pub fn decide(reasons: Vec<String>, missing: Vec<String>, warnings: Vec<String>) -> (d: TripDecision)
    ensures
        d.model() == prioritize(reasons.deep_view(), missing.deep_view(), warnings.deep_view()),
{
    if reasons.len() > 0 {
        TripDecision::NoGo { reasons }
    } else if missing.len() > 0 {
        TripDecision::Unknown { missing }
    } else if warnings.len() > 0 {
        TripDecision::Caution { warnings }
    } else {
        TripDecision::Go
    }
}

/// Evaluate a destination's go/no-go criteria against the current readings.
///
/// Returns one of four states (priority order):
/// 1. `NoGo`: a hard criterion is exceeded.
/// 2. `Unknown`: no blocker, but required data is absent or stale.
/// 3. `Caution`: all criteria pass but a near-miss or aging data was found
///    (a source used by a criterion has spent three quarters or more of its
///    staleness window).
/// 4. `Go`: all criteria met, all required data fresh.
///
/// Weather and river criteria are handed in already compared against the
/// readings; road status is checked here. `now_secs` measures staleness.
pub fn evaluate(
    signals: &RelevantSignals,
    weather: &NumericSource,
    river: &NumericSource,
    road_open_required: bool,
    road: &Option<RoadStatus>,
    now_secs: u64,
) -> (d: TripDecision)
    ensures
        d.model() == spec_evaluate(*signals, *weather, *river, road_open_required, *road, now_secs),
{
    let mut reasons: Vec<String> = Vec::new();
    let mut missing: Vec<String> = Vec::new();
    let mut warnings: Vec<String> = Vec::new();
    assert(reasons.deep_view() =~= Seq::<Seq<char>>::empty());
    assert(missing.deep_view() =~= Seq::<Seq<char>>::empty());
    assert(warnings.deep_view() =~= Seq::<Seq<char>>::empty());
    add_numeric(SourceKind::Weather, signals.weather, weather, now_secs, &mut reasons, &mut missing, &mut warnings);
    add_numeric(SourceKind::River, signals.river, river, now_secs, &mut reasons, &mut missing, &mut warnings);
    add_road(signals.road, road_open_required, road, now_secs, &mut reasons, &mut missing, &mut warnings);
    proof {
        let e = Seq::<Seq<char>>::empty();
        assert(reasons.deep_view() =~= all_reasons(*signals, *weather, *river, road_open_required, *road, now_secs));
        assert(missing.deep_view() =~= all_missing(*signals, *weather, *river, road_open_required, *road, now_secs));
        assert(warnings.deep_view() =~= all_warnings(*signals, *weather, *river, road_open_required, *road, now_secs));
    }
    decide(reasons, missing, warnings)
}


// ─── Planning-view breakdown ────────────────────────────────────────────────

/// Planning-view rows of the checks that are (`blocking`) or are not
/// (`!blocking`) exceeded, in order.
pub open spec fn factors_where(checks: Seq<CriterionCheck>, blocking: bool) -> Seq<EvalFactor>
    decreases checks.len(),
{
    if checks.len() == 0 {
        Seq::empty()
    } else {
        let rest = factors_where(checks.drop_last(), blocking);
        if (checks.last().verdict == Verdict::Exceeded) == blocking {
            rest.push(checks.last().factor)
        } else {
            rest
        }
    }
}

/// The planning view partitions the checks: every check of a checked source
/// is listed exactly once, among the blockers when it is `Exceeded` and
/// among the passing rows otherwise (near-limit checks included), so the
/// two lists together are as long as the checks.
pub proof fn law_factors_partition_checks(checks: Seq<CriterionCheck>)
    ensures
        factors_where(checks, true).len() + factors_where(checks, false).len() == checks.len(),
        forall|k: int| 0 <= k < checks.len() && #[trigger] checks[k].verdict == Verdict::Exceeded
            ==> factors_where(checks, true).contains(checks[k].factor),
        forall|k: int| 0 <= k < checks.len() && #[trigger] checks[k].verdict != Verdict::Exceeded
            ==> factors_where(checks, false).contains(checks[k].factor),
        forall|f: EvalFactor| #[trigger] factors_where(checks, true).contains(f)
            ==> exists|k: int| 0 <= k < checks.len() && #[trigger] checks[k].factor == f && checks[k].verdict == Verdict::Exceeded,
        forall|f: EvalFactor| #[trigger] factors_where(checks, false).contains(f)
            ==> exists|k: int| 0 <= k < checks.len() && #[trigger] checks[k].factor == f && checks[k].verdict != Verdict::Exceeded,
    decreases checks.len(),
{
    if checks.len() > 0 {
        let init = checks.drop_last();
        law_factors_partition_checks(init);
        let c = checks.last();
        let t0 = factors_where(init, true);
        let f0 = factors_where(init, false);
        assert forall|k: int| 0 <= k < checks.len() && #[trigger] checks[k].verdict == Verdict::Exceeded
            implies factors_where(checks, true).contains(checks[k].factor) by {
            if k < checks.len() - 1 {
                assert(checks[k] == init[k]);
                assert(init[k].verdict == Verdict::Exceeded);
                let idx = choose|idx: int| 0 <= idx < t0.len() && t0[idx] == init[k].factor;
                if c.verdict == Verdict::Exceeded {
                    assert(factors_where(checks, true)[idx] == t0[idx]);
                }
            } else {
                assert(factors_where(checks, true) == t0.push(c.factor));
                assert(factors_where(checks, true)[t0.len() as int] == c.factor);
            }
        }
        assert forall|k: int| 0 <= k < checks.len() && #[trigger] checks[k].verdict != Verdict::Exceeded
            implies factors_where(checks, false).contains(checks[k].factor) by {
            if k < checks.len() - 1 {
                assert(checks[k] == init[k]);
                assert(init[k].verdict != Verdict::Exceeded);
                let idx = choose|idx: int| 0 <= idx < f0.len() && f0[idx] == init[k].factor;
                if c.verdict != Verdict::Exceeded {
                    assert(factors_where(checks, false)[idx] == f0[idx]);
                }
            } else {
                assert(factors_where(checks, false) == f0.push(c.factor));
                assert(factors_where(checks, false)[f0.len() as int] == c.factor);
            }
        }
        assert forall|f: EvalFactor| #[trigger] factors_where(checks, true).contains(f)
            implies exists|k: int| 0 <= k < checks.len() && #[trigger] checks[k].factor == f && checks[k].verdict == Verdict::Exceeded by {
            let t = factors_where(checks, true);
            let idx = choose|idx: int| 0 <= idx < t.len() && t[idx] == f;
            if idx < t0.len() {
                assert(t[idx] == t0[idx]);
                assert(t0.contains(f));
                let k = choose|k: int| 0 <= k < init.len() && #[trigger] init[k].factor == f && init[k].verdict == Verdict::Exceeded;
                assert(checks[k] == init[k]);
            } else {
                assert(checks[checks.len() - 1] == c);
            }
        }
        assert forall|f: EvalFactor| #[trigger] factors_where(checks, false).contains(f)
            implies exists|k: int| 0 <= k < checks.len() && #[trigger] checks[k].factor == f && checks[k].verdict != Verdict::Exceeded by {
            let t = factors_where(checks, false);
            let idx = choose|idx: int| 0 <= idx < t.len() && t[idx] == f;
            if idx < f0.len() {
                assert(t[idx] == f0[idx]);
                assert(f0.contains(f));
                let k = choose|k: int| 0 <= k < init.len() && #[trigger] init[k].factor == f && init[k].verdict != Verdict::Exceeded;
                assert(checks[k] == init[k]);
            } else {
                assert(checks[checks.len() - 1] == c);
            }
        }
    }
}

pub open spec fn numeric_factors(kind: SourceKind, enabled: bool, src: NumericSource, now_secs: u64, blocking: bool) -> Seq<EvalFactor> {
    if numeric_checked(kind, enabled, src, now_secs) {
        factors_where(src.reading.unwrap().checks@, blocking)
    } else {
        Seq::empty()
    }
}

/// Model of an [`UncheckedCriterion`]: (criterion, missing source).
pub open spec fn unchecked_model(u: UncheckedCriterion) -> (Seq<char>, Seq<char>) {
    (u.criterion@, u.missing_source@)
}

pub open spec fn unchecked_models(v: Seq<UncheckedCriterion>) -> Seq<(Seq<char>, Seq<char>)> {
    Seq::new(v.len(), |i: int| unchecked_model(v[i]))
}

pub open spec fn numeric_unchecked(kind: SourceKind, enabled: bool, src: NumericSource, now_secs: u64) -> Seq<(Seq<char>, Seq<char>)> {
    let f = numeric_freshness(kind, src, now_secs);
    if numeric_needed(enabled, src) && f != Freshness::Fresh {
        Seq::new(src.labels@.len(), |i: int| (src.labels@[i]@, unchecked_source_name(kind, f)))
    } else {
        Seq::empty()
    }
}

/// The planning-view row for the road.
pub open spec fn road_factor(road: RoadStatus) -> (Seq<char>, Seq<char>, Seq<char>, Seq<char>) {
    (
        "Road access"@,
        uppercase(road.status@),
        "OPEN"@,
        if road_is_open(road.status@) {
            road.road_name@ + " ✓"@
        } else {
            road.road_name@ + " is "@ + road.status@ + " — "@ + road.affected_segment@
        },
    )
}

pub open spec fn factor_model(f: EvalFactor) -> (Seq<char>, Seq<char>, Seq<char>, Seq<char>) {
    (f.name@, f.actual@, f.threshold@, f.detail@)
}

pub open spec fn road_unchecked(enabled: bool, required: bool, road: Option<RoadStatus>, now_secs: u64) -> Seq<(Seq<char>, Seq<char>)> {
    let f = road_freshness(road, now_secs);
    if enabled && required && f != Freshness::Fresh {
        seq![("Road access"@, unchecked_source_name(SourceKind::Road, f))]
    } else {
        Seq::empty()
    }
}

/// Age of a reading taken at `ts`; a zero timestamp means "never".
pub open spec fn age_of(ts: Option<u64>, now_secs: u64) -> Option<u64> {
    match ts {
        Some(t) => if t == 0 { None } else { Some(sat_sub(now_secs, t)) },
        None => None,
    }
}

pub open spec fn spec_source_age(
    weather_ts: Option<u64>,
    river_ts: Option<u64>,
    ferry: Option<FerryStatus>,
    trail: Option<TrailCondition>,
    road: Option<RoadStatus>,
    now_secs: u64,
) -> SourceAge {
    SourceAge {
        weather_secs: age_of(weather_ts, now_secs),
        river_secs: age_of(river_ts, now_secs),
        ferry_secs: match ferry {
            Some(f) => if f.estimated_departures@.len() > 0 {
                age_of(Some(f.estimated_departures@[0]), now_secs)
            } else {
                None
            },
            None => None,
        },
        trail_secs: match trail {
            Some(t) => age_of(Some(t.last_updated), now_secs),
            None => None,
        },
        road_secs: match road {
            Some(r) => age_of(Some(r.timestamp), now_secs),
            None => None,
        },
    }
}

pub fn age_secs(ts: Option<u64>, now_secs: u64) -> (r: Option<u64>)
    ensures
        r == age_of(ts, now_secs),
{
    match ts {
        Some(t) => if t == 0 { None } else { Some(now_secs.saturating_sub(t)) },
        None => None,
    }
}

/// Seconds since each source's last reading, `None` when there is none.
pub fn source_age(
    weather_ts: Option<u64>,
    river_ts: Option<u64>,
    ferry: &Option<FerryStatus>,
    trail: &Option<TrailCondition>,
    road: &Option<RoadStatus>,
    now_secs: u64,
) -> (a: SourceAge)
    ensures
        a == spec_source_age(weather_ts, river_ts, *ferry, *trail, *road, now_secs),
{
    let ferry_secs = match ferry {
        Some(f) => if f.estimated_departures.len() > 0 {
            age_secs(Some(f.estimated_departures[0]), now_secs)
        } else {
            None
        },
        None => None,
    };
    let trail_secs = match trail {
        Some(t) => age_secs(Some(t.last_updated), now_secs),
        None => None,
    };
    let road_secs = match road {
        Some(r) => age_secs(Some(r.timestamp), now_secs),
        None => None,
    };
    SourceAge {
        weather_secs: age_secs(weather_ts, now_secs),
        river_secs: age_secs(river_ts, now_secs),
        ferry_secs,
        trail_secs,
        road_secs,
    }
}

fn copy_factor(f: &EvalFactor) -> (r: EvalFactor)
    ensures
        r == *f,
{
    EvalFactor {
        name: f.name.clone(),
        actual: f.actual.clone(),
        threshold: f.threshold.clone(),
        detail: f.detail.clone(),
    }
}

/// Appends the rows of the checks that are (or are not) exceeded.
fn push_factors(checks: &Vec<CriterionCheck>, blocking: bool, out: &mut Vec<EvalFactor>)
    ensures
        final(out)@ == old(out)@ + factors_where(checks@, blocking),
{
    let ghost start = out@;
    let mut i: usize = 0;
    while i < checks.len()
        invariant
            i <= checks@.len(),
            out@ == start + factors_where(checks@.take(i as int), blocking),
        decreases checks.len() - i,
    {
        assert(checks@.take(i + 1).drop_last() =~= checks@.take(i as int));
        let exceeded = checks[i].verdict == Verdict::Exceeded;
        if exceeded == blocking {
            let f = copy_factor(&checks[i].factor);
            out.push(f);
        }
        i = i + 1;
    }
    assert(checks@.take(checks@.len() as int) =~= checks@);
}

/// Appends an unchecked entry for every configured label of the source.
fn push_unchecked(labels: &Vec<String>, source_name: &String, out: &mut Vec<UncheckedCriterion>)
    ensures
        unchecked_models(final(out)@) == unchecked_models(old(out)@)
            + Seq::new(labels@.len(), |i: int| (labels@[i]@, source_name@)),
{
    let ghost start = unchecked_models(out@);
    let mut i: usize = 0;
    while i < labels.len()
        invariant
            i <= labels@.len(),
            unchecked_models(out@) == start + Seq::new(i as nat, |j: int| (labels@[j]@, source_name@)),
        decreases labels.len() - i,
    {
        let ghost before = out@;
        out.push(UncheckedCriterion { criterion: labels[i].clone(), missing_source: source_name.clone() });
        i = i + 1;
        assert(unchecked_models(out@) =~= unchecked_models(before).push((labels@[i - 1]@, source_name@)));
        assert(unchecked_models(out@) =~= start + Seq::new(i as nat, |j: int| (labels@[j]@, source_name@)));
    }
}

fn detail_numeric(
    kind: SourceKind,
    enabled: bool,
    src: &NumericSource,
    now_secs: u64,
    blockers: &mut Vec<EvalFactor>,
    passing: &mut Vec<EvalFactor>,
    unchecked: &mut Vec<UncheckedCriterion>,
)
    ensures
        final(blockers)@ == old(blockers)@ + numeric_factors(kind, enabled, *src, now_secs, true),
        final(passing)@ == old(passing)@ + numeric_factors(kind, enabled, *src, now_secs, false),
        unchecked_models(final(unchecked)@) == unchecked_models(old(unchecked)@) + numeric_unchecked(kind, enabled, *src, now_secs),
{
    let ghost b0 = blockers@;
    let ghost p0 = passing@;
    let ghost u0 = unchecked_models(unchecked@);
    let needed = enabled && src.labels.len() > 0;
    if !needed {
        assert(blockers@ =~= b0 + Seq::<EvalFactor>::empty());
        assert(passing@ =~= p0 + Seq::<EvalFactor>::empty());
        assert(unchecked_models(unchecked@) =~= u0 + Seq::<(Seq<char>, Seq<char>)>::empty());
        return;
    }
    let f = freshness(reading_time(src), now_secs, threshold_of(kind));
    match f {
        Freshness::Fresh => {
            match &src.reading {
                Some(r) => {
                    push_factors(&r.checks, true, blockers);
                    push_factors(&r.checks, false, passing);
                    assert(unchecked_models(unchecked@) =~= u0 + Seq::<(Seq<char>, Seq<char>)>::empty());
                },
                None => {},
            }
        },
        _ => {
            let name = unchecked_source_text(kind, f);
            push_unchecked(&src.labels, &name, unchecked);
            assert(blockers@ =~= b0 + Seq::<EvalFactor>::empty());
            assert(passing@ =~= p0 + Seq::<EvalFactor>::empty());
            assert(Seq::new(src.labels@.len(), |i: int| (src.labels@[i]@, name@)) =~= numeric_unchecked(kind, enabled, *src, now_secs));
        },
    }
}

/// The planning-view row for a road status.
pub fn road_factor_of(road: &RoadStatus) -> (f: EvalFactor)
    ensures
        factor_model(f) == road_factor(*road),
        all_ascii(road.status@) ==> f.actual@ == road.status@.map_values(|c: char| ascii_upper(c)),
{
    let open = status_is_open(road.status.as_str());
    let mut detail = chars_of(road.road_name.as_str());
    if open {
        append_str(&mut detail, " ✓");
    } else {
        append_str(&mut detail, " is ");
        append_str(&mut detail, road.status.as_str());
        append_str(&mut detail, " — ");
        append_str(&mut detail, road.affected_segment.as_str());
    }
    EvalFactor {
        name: "Road access".to_owned(),
        actual: to_uppercase(road.status.as_str()),
        threshold: "OPEN".to_owned(),
        detail: string_from_chars(detail.as_slice()),
    }
}

pub open spec fn road_factors(enabled: bool, required: bool, road: Option<RoadStatus>, now_secs: u64, blocking: bool) -> Seq<(Seq<char>, Seq<char>, Seq<char>, Seq<char>)> {
    if road_checked(enabled, required, road, now_secs) && (!road_is_open(road.unwrap().status@)) == blocking {
        seq![road_factor(road.unwrap())]
    } else {
        Seq::empty()
    }
}

pub open spec fn factor_models(v: Seq<EvalFactor>) -> Seq<(Seq<char>, Seq<char>, Seq<char>, Seq<char>)> {
    Seq::new(v.len(), |i: int| factor_model(v[i]))
}

/// Planning-view rows, blocking or passing, in the order weather, river, road.
pub open spec fn detail_factors(signals: RelevantSignals, weather: NumericSource, river: NumericSource, road_required: bool, road: Option<RoadStatus>, now_secs: u64, blocking: bool) -> Seq<(Seq<char>, Seq<char>, Seq<char>, Seq<char>)> {
    factor_models(
        numeric_factors(SourceKind::Weather, signals.weather, weather, now_secs, blocking)
            + numeric_factors(SourceKind::River, signals.river, river, now_secs, blocking),
    ) + road_factors(signals.road, road_required, road, now_secs, blocking)
}

/// Criteria that could not be checked, in the order weather, river, road.
pub open spec fn detail_unchecked(signals: RelevantSignals, weather: NumericSource, river: NumericSource, road_required: bool, road: Option<RoadStatus>, now_secs: u64) -> Seq<(Seq<char>, Seq<char>)> {
    numeric_unchecked(SourceKind::Weather, signals.weather, weather, now_secs)
        + numeric_unchecked(SourceKind::River, signals.river, river, now_secs)
        + road_unchecked(signals.road, road_required, road, now_secs)
}

/// Full structured evaluation result for the planning view: the decision
/// that [`evaluate`] gives, which criteria blocked, which passed, which could
/// not be checked, and how old each source's data is.
pub fn evaluate_detail(
    signals: &RelevantSignals,
    weather: &NumericSource,
    river: &NumericSource,
    road_open_required: bool,
    road: &Option<RoadStatus>,
    ferry: &Option<FerryStatus>,
    trail: &Option<TrailCondition>,
    now_secs: u64,
) -> (d: EvaluationDetail)
    ensures
        d.decision.model() == spec_evaluate(*signals, *weather, *river, road_open_required, *road, now_secs),
        factor_models(d.blockers@) == detail_factors(*signals, *weather, *river, road_open_required, *road, now_secs, true),
        factor_models(d.passing@) == detail_factors(*signals, *weather, *river, road_open_required, *road, now_secs, false),
        unchecked_models(d.unchecked@) == detail_unchecked(*signals, *weather, *river, road_open_required, *road, now_secs),
        d.source_age_secs == spec_source_age(
            match weather.reading { Some(r) => Some(r.observed_at), None => None },
            match river.reading { Some(r) => Some(r.observed_at), None => None },
            *ferry,
            *trail,
            *road,
            now_secs,
        ),
{
    let mut blockers: Vec<EvalFactor> = Vec::new();
    let mut passing: Vec<EvalFactor> = Vec::new();
    let mut unchecked: Vec<UncheckedCriterion> = Vec::new();
    assert(unchecked_models(unchecked@) =~= Seq::<(Seq<char>, Seq<char>)>::empty());
    detail_numeric(SourceKind::Weather, signals.weather, weather, now_secs, &mut blockers, &mut passing, &mut unchecked);
    detail_numeric(SourceKind::River, signals.river, river, now_secs, &mut blockers, &mut passing, &mut unchecked);
    let ghost nb = blockers@;
    let ghost np = passing@;
    let ghost nu = unchecked_models(unchecked@);
    if signals.road && road_open_required {
        let f = freshness(road_time(road), now_secs, ROAD_STALE_SECS);
        match f {
            Freshness::Fresh => {
                match road {
                    Some(rd) => {
                        let factor = road_factor_of(rd);
                        if status_is_open(rd.status.as_str()) {
                            passing.push(factor);
                        } else {
                            blockers.push(factor);
                        }
                    },
                    None => {},
                }
            },
            _ => {
                let name = unchecked_source_text(SourceKind::Road, f);
                unchecked.push(UncheckedCriterion { criterion: "Road access".to_owned(), missing_source: name });
                assert(unchecked_models(unchecked@) =~= nu.push(unchecked_model(unchecked@.last())));
            },
        }
    }
    proof {
        assert(factor_models(blockers@) =~= detail_factors(*signals, *weather, *river, road_open_required, *road, now_secs, true));
        assert(factor_models(passing@) =~= detail_factors(*signals, *weather, *river, road_open_required, *road, now_secs, false));
        assert(unchecked_models(unchecked@) =~= detail_unchecked(*signals, *weather, *river, road_open_required, *road, now_secs));
    }
    let source_age_secs = source_age(reading_time(weather), reading_time(river), ferry, trail, road, now_secs);
    let decision = evaluate(signals, weather, river, road_open_required, road, now_secs);
    EvaluationDetail { decision, blockers, passing, unchecked, source_age_secs }
}


// ─── Laws ───────────────────────────────────────────────────────────────────

/// How bad a recommendation is: GO 0, CAUTION 1, UNKNOWN 2, NO GO 3.
pub open spec fn severity(d: DecisionModel) -> int {
    match d {
        DecisionModel::Go => 0,
        DecisionModel::Caution(_) => 1,
        DecisionModel::Unknown(_) => 2,
        DecisionModel::NoGo(_) => 3,
    }
}

/// Whether `fewer` is `more` with some criteria left unconfigured: it has
/// thresholds only if `more` has, the same reading (taken at the same time),
/// and each of its checks is one of the checks of `more`.
pub open spec fn fewer_criteria(fewer: NumericSource, more: NumericSource) -> bool {
    &&& (fewer.labels@.len() > 0 ==> more.labels@.len() > 0)
    &&& match (fewer.reading, more.reading) {
        (None, None) => true,
        (Some(a), Some(b)) => a.observed_at == b.observed_at
            && forall|i: int| 0 <= i < a.checks@.len() ==> b.checks@.contains(#[trigger] a.checks@[i]),
        _ => false,
    }
}

/// Whether every signal relevant under `fewer` is relevant under `more`.
pub open spec fn fewer_signals(fewer: RelevantSignals, more: RelevantSignals) -> bool {
    &&& (fewer.weather ==> more.weather)
    &&& (fewer.river ==> more.river)
    &&& (fewer.ferry ==> more.ferry)
    &&& (fewer.trail ==> more.trail)
    &&& (fewer.road ==> more.road)
}

/// A source's checks list a message of verdict `v` exactly when one of them
/// has that verdict.
proof fn lemma_messages_with_nonempty(checks: Seq<CriterionCheck>, v: Verdict)
    ensures
        messages_with(checks, v).len() > 0 <==> exists|i: int| 0 <= i < checks.len() && (#[trigger] checks[i]).verdict == v,
    decreases checks.len(),
{
    if checks.len() > 0 {
        lemma_messages_with_nonempty(checks.drop_last(), v);
        if exists|i: int| 0 <= i < checks.drop_last().len() && (#[trigger] checks.drop_last()[i]).verdict == v {
            let i = choose|i: int| 0 <= i < checks.drop_last().len() && (#[trigger] checks.drop_last()[i]).verdict == v;
            assert(checks[i] == checks.drop_last()[i]);
        }
        if exists|i: int| 0 <= i < checks.len() && (#[trigger] checks[i]).verdict == v {
            let i = choose|i: int| 0 <= i < checks.len() && (#[trigger] checks[i]).verdict == v;
            if i < checks.len() - 1 {
                assert(checks.drop_last()[i] == checks[i]);
            }
        }
    }
}

/// Fewer criteria on a numeric source never add a line of any kind.
proof fn lemma_numeric_fewer(kind: SourceKind, en2: bool, src2: NumericSource, en1: bool, src1: NumericSource, now_secs: u64, v: Verdict)
    requires
        en2 ==> en1,
        fewer_criteria(src2, src1),
    ensures
        numeric_lines(kind, en2, src2, now_secs, v).len() > 0 ==> numeric_lines(kind, en1, src1, now_secs, v).len() > 0,
        numeric_missing(kind, en2, src2, now_secs).len() > 0 ==> numeric_missing(kind, en1, src1, now_secs).len() > 0,
        numeric_aging(kind, en2, src2, now_secs).len() > 0 ==> numeric_aging(kind, en1, src1, now_secs).len() > 0,
{
    if numeric_lines(kind, en2, src2, now_secs, v).len() > 0 {
        let c2 = src2.reading.unwrap().checks@;
        let c1 = src1.reading.unwrap().checks@;
        lemma_messages_with_nonempty(c2, v);
        lemma_messages_with_nonempty(c1, v);
        let i = choose|i: int| 0 <= i < c2.len() && (#[trigger] c2[i]).verdict == v;
        assert(c1.contains(c2[i]));
        let j = choose|j: int| 0 <= j < c1.len() && c1[j] == c2[i];
        assert(c1[j].verdict == v);
    }
}

/// A reading is fresh exactly when it was taken no more than `threshold`
/// seconds before `now_secs` (readings stamped in the future count as fresh).
pub proof fn law_fresh_within_threshold(t: u64, now_secs: u64, threshold: u64)
    ensures
        (spec_freshness(Some(t), now_secs, threshold) == Freshness::Fresh) <==> (now_secs <= t + threshold),
        spec_freshness(None, now_secs, threshold) == Freshness::Missing,
{
}

/// A confirmed blocker wins: when the road must be open, its status is
/// fresh and it is not open, the destination is NO GO whatever the weather
/// and river data say, missing or not.
pub proof fn law_blocker_beats_missing_data(
    signals: RelevantSignals,
    weather: NumericSource,
    river: NumericSource,
    road: RoadStatus,
    now_secs: u64,
)
    requires
        signals.road,
        !spec_is_stale(road.timestamp, now_secs, ROAD_STALE_SECS),
        !road_is_open(road.status@),
    ensures
        spec_evaluate(signals, weather, river, true, Some(road), now_secs) is NoGo,
{
    let r = all_reasons(signals, weather, river, true, Some(road), now_secs);
    assert(road_reasons(signals.road, true, Some(road), now_secs) == seq![road_reason_line(road)]);
    assert(r.len() > 0);
}

/// With no threshold configured the destination is GO, whatever data is
/// present, missing or stale.
pub proof fn law_unconfigured_is_go(
    signals: RelevantSignals,
    weather: NumericSource,
    river: NumericSource,
    road: Option<RoadStatus>,
    now_secs: u64,
)
    requires
        weather.labels@.len() == 0,
        river.labels@.len() == 0,
    ensures
        spec_evaluate(signals, weather, river, false, road, now_secs) == DecisionModel::Go,
{
    assert(all_reasons(signals, weather, river, false, road, now_secs) =~= Seq::<Seq<char>>::empty());
    assert(all_missing(signals, weather, river, false, road, now_secs) =~= Seq::<Seq<char>>::empty());
    assert(all_warnings(signals, weather, river, false, road, now_secs) =~= Seq::<Seq<char>>::empty());
}

/// A signal that is not relevant to the destination is never consulted:
/// the decision does not depend on that source's data or thresholds.
pub proof fn law_irrelevant_signal_ignored(
    signals: RelevantSignals,
    weather: NumericSource,
    weather2: NumericSource,
    river: NumericSource,
    river2: NumericSource,
    road_required: bool,
    road_required2: bool,
    road: Option<RoadStatus>,
    road2: Option<RoadStatus>,
    now_secs: u64,
)
    ensures
        !signals.weather ==> spec_evaluate(signals, weather, river, road_required, road, now_secs)
            == spec_evaluate(signals, weather2, river, road_required, road, now_secs),
        !signals.river ==> spec_evaluate(signals, weather, river, road_required, road, now_secs)
            == spec_evaluate(signals, weather, river2, road_required, road, now_secs),
        !signals.road ==> spec_evaluate(signals, weather, river, road_required, road, now_secs)
            == spec_evaluate(signals, weather, river, road_required2, road2, now_secs),
{
}

/// Every state but GO carries at least one explanation line, and GO
/// carries none.
pub proof fn law_non_go_is_explained(
    signals: RelevantSignals,
    weather: NumericSource,
    river: NumericSource,
    road_required: bool,
    road: Option<RoadStatus>,
    now_secs: u64,
)
    ensures
        match spec_evaluate(signals, weather, river, road_required, road, now_secs) {
            DecisionModel::Go => true,
            DecisionModel::Caution(lines) => lines.len() > 0,
            DecisionModel::NoGo(lines) => lines.len() > 0,
            DecisionModel::Unknown(lines) => lines.len() > 0,
        },
{
}

/// A needed source without any reading makes the destination UNKNOWN,
/// unless another criterion is a confirmed blocker; the first missing line
/// then names the weather.
pub proof fn law_missing_weather_is_unknown(
    signals: RelevantSignals,
    weather: NumericSource,
    river: NumericSource,
    road_required: bool,
    road: Option<RoadStatus>,
    now_secs: u64,
)
    requires
        signals.weather,
        weather.labels@.len() > 0,
        weather.reading is None,
        all_reasons(signals, weather, river, road_required, road, now_secs).len() == 0,
    ensures
        spec_evaluate(signals, weather, river, road_required, road, now_secs) matches DecisionModel::Unknown(lines)
            && lines[0] == "No weather data"@,
{
    let m = all_missing(signals, weather, river, road_required, road, now_secs);
    assert(numeric_missing(SourceKind::Weather, signals.weather, weather, now_secs) == seq![no_data_line(SourceKind::Weather)]);
    assert(m[0] == no_data_line(SourceKind::Weather));
}

/// Weather data that is still fresh but has used three quarters of its
/// staleness window turns a destination with no blocker and no missing data
/// into CAUTION, with a warning that says how old the data is.
pub proof fn law_aging_data_is_caution(
    signals: RelevantSignals,
    weather: NumericSource,
    river: NumericSource,
    road_required: bool,
    road: Option<RoadStatus>,
    now_secs: u64,
)
    requires
        signals.weather,
        weather.labels@.len() > 0,
        weather.reading is Some,
        !spec_is_stale(weather.reading.unwrap().observed_at, now_secs, WEATHER_STALE_SECS),
        is_aging(weather.reading.unwrap().observed_at, now_secs, WEATHER_STALE_SECS),
        all_reasons(signals, weather, river, road_required, road, now_secs).len() == 0,
        all_missing(signals, weather, river, road_required, road, now_secs).len() == 0,
    ensures
        spec_evaluate(signals, weather, river, road_required, road, now_secs) matches DecisionModel::Caution(lines)
            && lines.contains(aging_line(SourceKind::Weather, sat_sub(now_secs, weather.reading.unwrap().observed_at))),
{
    let near = numeric_lines(SourceKind::Weather, signals.weather, weather, now_secs, Verdict::NearLimit);
    let age = numeric_aging(SourceKind::Weather, signals.weather, weather, now_secs);
    let line = aging_line(SourceKind::Weather, sat_sub(now_secs, weather.reading.unwrap().observed_at));
    assert(age == seq![line]);
    let w = all_warnings(signals, weather, river, road_required, road, now_secs);
    assert(w[near.len() as int] == line);
}

proof fn lemma_counts_agree(checks: Seq<CriterionCheck>)
    ensures
        factors_where(checks, true).len() == messages_with(checks, Verdict::Exceeded).len(),
    decreases checks.len(),
{
    if checks.len() > 0 {
        lemma_counts_agree(checks.drop_last());
    }
}

/// A road status that is not needed, or needed by fewer destinations,
/// never adds a line of any kind.
proof fn lemma_road_fewer(en2: bool, req2: bool, en1: bool, req1: bool, road: Option<RoadStatus>, now_secs: u64)
    requires
        en2 ==> en1,
        req2 ==> req1,
    ensures
        road_reasons(en2, req2, road, now_secs).len() > 0 ==> road_reasons(en1, req1, road, now_secs).len() > 0,
        road_missing(en2, req2, road, now_secs).len() > 0 ==> road_missing(en1, req1, road, now_secs).len() > 0,
        road_aging(en2, req2, road, now_secs).len() > 0 ==> road_aging(en1, req1, road, now_secs).len() > 0,
{
}

/// Unconfigured or irrelevant criteria never make the recommendation worse:
/// with some thresholds left out, a signal no longer relevant, or the road
/// no longer required open, the decision is at most as severe as before
/// (GO, then CAUTION, UNKNOWN, NO GO), for the same data at the same time.
#[verifier::spinoff_prover]
#[verifier::rlimit(60)]
pub proof fn law_fewer_criteria_never_worse(
    signals2: RelevantSignals,
    weather2: NumericSource,
    river2: NumericSource,
    road_required2: bool,
    signals1: RelevantSignals,
    weather1: NumericSource,
    river1: NumericSource,
    road_required1: bool,
    road: Option<RoadStatus>,
    now_secs: u64,
)
    requires
        fewer_signals(signals2, signals1),
        fewer_criteria(weather2, weather1),
        fewer_criteria(river2, river1),
        road_required2 ==> road_required1,
    ensures
        severity(spec_evaluate(signals2, weather2, river2, road_required2, road, now_secs))
            <= severity(spec_evaluate(signals1, weather1, river1, road_required1, road, now_secs)),
{
    lemma_numeric_fewer(SourceKind::Weather, signals2.weather, weather2, signals1.weather, weather1, now_secs, Verdict::Exceeded);
    lemma_numeric_fewer(SourceKind::River, signals2.river, river2, signals1.river, river1, now_secs, Verdict::Exceeded);
    lemma_numeric_fewer(SourceKind::Weather, signals2.weather, weather2, signals1.weather, weather1, now_secs, Verdict::NearLimit);
    lemma_numeric_fewer(SourceKind::River, signals2.river, river2, signals1.river, river1, now_secs, Verdict::NearLimit);
    lemma_road_fewer(signals2.road, road_required2, signals1.road, road_required1, road, now_secs);
    let r2 = all_reasons(signals2, weather2, river2, road_required2, road, now_secs);
    let r1 = all_reasons(signals1, weather1, river1, road_required1, road, now_secs);
    let m2 = all_missing(signals2, weather2, river2, road_required2, road, now_secs);
    let m1 = all_missing(signals1, weather1, river1, road_required1, road, now_secs);
    let w2 = all_warnings(signals2, weather2, river2, road_required2, road, now_secs);
    let w1 = all_warnings(signals1, weather1, river1, road_required1, road, now_secs);
    assert(r2.len() > 0 ==> r1.len() > 0);
    assert(m2.len() > 0 ==> m1.len() > 0);
    assert(w2.len() > 0 ==> w1.len() > 0);
}

/// The planning-view breakdown agrees with the recommendation: there is a
/// blocking row for every blocking reason, so the decision is NO GO exactly
/// when some row blocks; and, when nothing blocks, it is UNKNOWN exactly when
/// some configured criterion could not be checked.
pub proof fn law_breakdown_matches_decision(
    signals: RelevantSignals,
    weather: NumericSource,
    river: NumericSource,
    road_required: bool,
    road: Option<RoadStatus>,
    now_secs: u64,
)
    ensures
        detail_factors(signals, weather, river, road_required, road, now_secs, true).len()
            == all_reasons(signals, weather, river, road_required, road, now_secs).len(),
        (spec_evaluate(signals, weather, river, road_required, road, now_secs) is NoGo)
            <==> detail_factors(signals, weather, river, road_required, road, now_secs, true).len() > 0,
        detail_factors(signals, weather, river, road_required, road, now_secs, true).len() == 0 ==> (
            (spec_evaluate(signals, weather, river, road_required, road, now_secs) is Unknown)
                <==> detail_unchecked(signals, weather, river, road_required, road, now_secs).len() > 0),
{
    if numeric_checked(SourceKind::Weather, signals.weather, weather, now_secs) {
        lemma_counts_agree(weather.reading.unwrap().checks@);
    }
    if numeric_checked(SourceKind::River, signals.river, river, now_secs) {
        lemma_counts_agree(river.reading.unwrap().checks@);
    }
    let wf = numeric_factors(SourceKind::Weather, signals.weather, weather, now_secs, true);
    let rf = numeric_factors(SourceKind::River, signals.river, river, now_secs, true);
    assert(factor_models(wf + rf).len() == wf.len() + rf.len());
}


// ─── The system clock ─────────────────────────────────────────────────────────

#[verifier::external_type_specification]
#[verifier::external_body]
pub struct ExSystemTime(std::time::SystemTime);

#[verifier::external_type_specification]
#[verifier::external_body]
pub struct ExSystemTimeError(std::time::SystemTimeError);

/// `SystemTime::now()`: the system clock's reading. Nothing is claimed of it.
#[verifier::external_body]
fn clock_now() -> (t: std::time::SystemTime) {
    std::time::SystemTime::now()
}

/// `SystemTime::duration_since(UNIX_EPOCH)`: how long after the Unix epoch
/// `t` lies, or an error when `t` lies before it. Nothing is claimed of the
/// result.
#[verifier::external_body]
fn since_unix_epoch(t: &std::time::SystemTime) -> (d: Result<std::time::Duration, std::time::SystemTimeError>) {
    t.duration_since(std::time::UNIX_EPOCH)
}

/// `Duration::as_secs`: the whole seconds of `d`. Nothing is claimed of them,
/// as a `Duration` is opaque here.
#[verifier::external_body]
fn whole_secs(d: &std::time::Duration) -> (s: u64) {
    d.as_secs()
}

/// Return the current time as Unix seconds; 0 when the system clock reads
/// before the epoch. Use in production call sites.
///
/// The value is the clock's: no clause states it.
pub fn current_unix_secs() -> u64 {
    let now = clock_now();
    match since_unix_epoch(&now) {
        Ok(d) => whole_secs(&d),
        Err(_) => 0,
    }
}

} // verus!
