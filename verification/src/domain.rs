//! Domain types shared by the data sources, the evaluation rules and the
//! presentation layer.
use vstd::prelude::*;

verus! {

/// Ferry vessel status and upcoming departures for a WSDOT route.
#[derive(Debug, Clone)]
pub struct FerryStatus {
    pub route: String,
    pub vessel_name: String,
    /// Estimated departure times as Unix timestamps.
    pub estimated_departures: Vec<u64>,
}

/// Trail or campsite suitability from external sources.
#[derive(Debug, Clone)]
pub struct TrailCondition {
    pub destination_name: String,
    pub suitability_summary: String,
    /// Unix timestamp of the last update.
    pub last_updated: u64,
}

/// Road closure or restriction status.
#[derive(Debug, Clone)]
pub struct RoadStatus {
    pub road_name: String,
    /// Human-readable status: "open", "closed", "restricted", etc.
    pub status: String,
    pub affected_segment: String,
    /// Unix timestamp of the last status update.
    pub timestamp: u64,
}

/// Which data signals are relevant for a given destination.
///
/// Controls both which source panels appear in the planning view and which
/// criteria checks are applied during evaluation. A signal set to `false` is
/// suppressed entirely for that destination, even if a threshold is set.
#[derive(Debug, Clone, Copy, PartialEq, Eq, Structural)]
pub struct RelevantSignals {
    /// Temperature, precipitation, wind. Always meaningful.
    pub weather: bool,
    /// River gauge: flooding and streamflow data.
    pub river: bool,
    /// Ferry schedule and vessel status.
    pub ferry: bool,
    /// Trail and campsite conditions.
    pub trail: bool,
    /// Road access and closure status.
    pub road: bool,
}

/// The value a signal takes when a destination does not mention it.
pub fn signal_default_true() -> (r: bool)
    ensures
        r,
{
    true
}

impl Default for RelevantSignals {
    /// Every signal is relevant.
    fn default() -> (r: Self)
        ensures
            r.weather && r.river && r.ferry && r.trail && r.road,
    {
        RelevantSignals { weather: true, river: true, ferry: true, trail: true, road: true }
    }
}

/// Result of evaluating a destination against current conditions.
///
/// States in priority order:
/// - `NoGo`: a hard criterion is exceeded: don't go.
/// - `Unknown`: no blocker confirmed but required data is absent or stale.
/// - `Caution`: all criteria met but one or more are near-miss.
/// - `Go`: all criteria met, all required data present and fresh.
#[derive(Debug, Clone)]
pub enum TripDecision {
    Go,
    Caution { warnings: Vec<String> },
    NoGo { reasons: Vec<String> },
    Unknown { missing: Vec<String> },
}

/// Mathematical model of a [`TripDecision`]: the state and its explanation lines.
pub enum DecisionModel {
    Go,
    Caution(Seq<Seq<char>>),
    NoGo(Seq<Seq<char>>),
    Unknown(Seq<Seq<char>>),
}

impl TripDecision {
    pub open spec fn model(&self) -> DecisionModel {
        match self {
            TripDecision::Go => DecisionModel::Go,
            TripDecision::Caution { warnings } => DecisionModel::Caution(warnings.deep_view()),
            TripDecision::NoGo { reasons } => DecisionModel::NoGo(reasons.deep_view()),
            TripDecision::Unknown { missing } => DecisionModel::Unknown(missing.deep_view()),
        }
    }
}

/// A single evaluated criterion, shown in the planning view.
#[derive(Debug, Clone)]
pub struct EvalFactor {
    /// Short label, e.g. "Temperature", "River level".
    pub name: String,
    /// Formatted actual value, e.g. "14.2 ft".
    pub actual: String,
    /// Formatted threshold, e.g. "≤ 12.0 ft".
    pub threshold: String,
    /// Human-readable verdict, e.g. "14.2 ft — 2.2 ft over limit".
    pub detail: String,
}

/// A criterion that could not be evaluated because the required data source
/// has no usable reading.
#[derive(Debug, Clone)]
pub struct UncheckedCriterion {
    /// Criterion label, e.g. "Min temperature".
    pub criterion: String,
    /// Which source is missing, e.g. "Weather (no data)".
    pub missing_source: String,
}

/// Per-source data age (seconds since last reading, or None if never received).
#[derive(Debug, Clone, Copy, PartialEq, Eq, Structural)]
pub struct SourceAge {
    pub weather_secs: Option<u64>,
    pub river_secs: Option<u64>,
    pub ferry_secs: Option<u64>,
    pub trail_secs: Option<u64>,
    pub road_secs: Option<u64>,
}

impl Default for SourceAge {
    /// No source has produced a reading.
    fn default() -> (r: Self)
        ensures
            r.weather_secs is None && r.river_secs is None && r.ferry_secs is None
                && r.trail_secs is None && r.road_secs is None,
    {
        SourceAge { weather_secs: None, river_secs: None, ferry_secs: None, trail_secs: None, road_secs: None }
    }
}

/// Full structured evaluation result for the planning view.
#[derive(Debug, Clone)]
pub struct EvaluationDetail {
    /// The recommendation.
    pub decision: TripDecision,
    /// Criteria that are currently blocking GO.
    pub blockers: Vec<EvalFactor>,
    /// Criteria that passed.
    pub passing: Vec<EvalFactor>,
    /// Criteria that could not be checked due to missing source data.
    pub unchecked: Vec<UncheckedCriterion>,
    /// Data freshness for each source, in seconds since last update.
    pub source_age_secs: SourceAge,
}

} // verus!
