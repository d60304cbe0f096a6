//! Platform-wide configuration.
//!
//! The surrounding application owns thread pools and I/O; this module
//! holds the configuration values those components are built from.

use vstd::prelude::*;

use crate::trusted::cpu_count;

verus! {

/// Geospatial processing configuration.
#[derive(Debug, Clone)]
pub struct GeoConfig {
    /// Default map projection.
    pub default_projection: String,
    /// Coordinate precision.
    pub precision: u8,
    /// Enable spatial indexing.
    pub spatial_index: bool,
}

/// Core intelligence platform configuration.
#[derive(Debug, Clone)]
pub struct PlatformConfig {
    /// Maximum concurrent processing threads.
    pub max_threads: usize,
    /// Data retention period in days.
    pub retention_days: u32,
    /// Enable machine-learning processing.
    pub ml_enabled: bool,
    /// Threat intelligence sources.
    pub threat_sources: Vec<String>,
    /// Geospatial processing configuration.
    pub geo_config: GeoConfig,
}

impl Default for PlatformConfig {
    /// Default configuration: one worker per CPU, a year of retention,
    /// machine learning on, and the three stock threat sources.
    fn default() -> (c: PlatformConfig)
        ensures
            c.max_threads >= 1,
            c.retention_days == 365,
            c.ml_enabled,
            c.threat_sources@.len() == 3,
            c.threat_sources@[0]@ == "misp"@,
            c.threat_sources@[1]@ == "otx"@,
            c.threat_sources@[2]@ == "virustotal"@,
            c.geo_config.default_projection@ == "WGS84"@,
            c.geo_config.precision == 6,
            c.geo_config.spatial_index,
    {
        let mut threat_sources: Vec<String> = Vec::new();
        threat_sources.push("misp".to_owned());
        threat_sources.push("otx".to_owned());
        threat_sources.push("virustotal".to_owned());
        PlatformConfig {
            max_threads: cpu_count(),
            retention_days: 365,
            ml_enabled: true,
            threat_sources,
            geo_config: GeoConfig {
                default_projection: "WGS84".to_owned(),
                precision: 6,
                spatial_index: true,
            },
        }
    }
}

} // verus!
