//! Runtime configuration: the device loop, the display panel and the data
//! sources. Reading and parsing the TOML file happens outside the library.
use vstd::prelude::*;
use crate::domain::RelevantSignals;

verus! {

/// Top-level runtime configuration loaded from config.toml.
#[derive(Debug, Clone)]
pub struct Config {
    pub device: DeviceConfig,
    pub display: DisplayConfig,
}

/// Device display loop configuration: the loop fetches a pre-rendered PNG
/// from `image_url`, decodes it and pushes it to the display.
#[derive(Debug, Clone)]
pub struct DeviceConfig {
    /// URL of the pre-rendered display image served by the upstream renderer.
    pub image_url: String,
    /// How often to fetch and refresh the display, in seconds.
    pub refresh_interval_secs: u64,
}

/// The refresh interval used when the configuration does not give one.
pub fn default_refresh_secs() -> (r: u64)
    ensures
        r == 60,
{
    60
}

/// Display panel dimensions. Must match the connected hardware.
#[derive(Debug, Clone)]
pub struct DisplayConfig {
    /// Display width in pixels (800 for the Waveshare 7.5").
    pub width: u32,
    /// Display height in pixels (480 for the Waveshare 7.5").
    pub height: u32,
}

/// WSDOT ferry source settings.
#[derive(Debug, Clone)]
pub struct FerrySourceConfig {
    pub route_id: u32,
    pub route_description: Option<String>,
    pub wsdot_access_code: Option<String>,
}

/// WSDOT highway alert source settings.
#[derive(Debug, Clone)]
pub struct RoadSourceConfig {
    /// WSDOT route numbers to monitor, e.g. ["020", "005"].
    pub routes: Vec<String>,
    pub wsdot_access_code: Option<String>,
}

/// NPS trail alert source settings.
#[derive(Debug, Clone)]
pub struct TrailSourceConfig {
    pub park_code: String,
    pub nps_api_key: Option<String>,
}

/// A trip destination: its name, the signals that matter for it, and its
/// go/no-go criteria (`C`, whose thresholds are compared outside the library).
#[derive(Debug, Clone)]
pub struct Destination<C> {
    pub name: String,
    pub signals: RelevantSignals,
    pub criteria: C,
}

} // verus!
