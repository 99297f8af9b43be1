//! Configuration values the core reads, and the small enumerations shared
//! with the surrounding pipeline.

use vstd::prelude::*;

use crate::detection::Severity;
use crate::fixed::SCALE;
use crate::fusion::FusionMethod;

verus! {

/// Settings of the analysis components.
#[derive(Debug, Clone, Copy, PartialEq, Eq, Structural)]
pub struct AnalysisConfig {
    pub entropy_window: usize,
    /// Z-score threshold in standard deviations, in micro-units.
    pub anomaly_threshold: u64,
    pub fft_size: usize,
    pub pattern_min_length: usize,
    pub gpu_enabled: bool,
    pub worker_threads: usize,
    pub multiscale_entropy: bool,
    pub entropy_scales: usize,
}

impl AnalysisConfig {
    /// A 1000-sample entropy window, a 3σ anomaly threshold, 2048-point
    /// transforms, 16-sample patterns, four workers and ten entropy scales.
    pub fn default_config() -> (r: AnalysisConfig)
        ensures
            r == (AnalysisConfig {
                entropy_window: 1000,
                anomaly_threshold: 3_000_000,
                fft_size: 2048,
                pattern_min_length: 16,
                gpu_enabled: false,
                worker_threads: 4,
                multiscale_entropy: true,
                entropy_scales: 10,
            }),
    {
        AnalysisConfig {
            entropy_window: 1000,
            anomaly_threshold: 3_000_000,
            fft_size: 2048,
            pattern_min_length: 16,
            gpu_enabled: false,
            worker_threads: 4,
            multiscale_entropy: true,
            entropy_scales: 10,
        }
    }
}

/// Settings of the detection orchestrator.
#[derive(Debug, Clone)]
pub struct DetectionConfig {
    /// Parts per million.
    pub min_confidence: u64,
    pub fusion_enabled: bool,
    pub fusion_method: FusionMethod,
    pub correlation_window_ms: u32,
    pub min_correlated_sensors: u32,
    pub classification_enabled: bool,
    pub alert_threshold: Severity,
}

impl DetectionConfig {
    /// Confidence 0.5, Dempster–Shafer fusion, a 2 s correlation window, two
    /// correlated sensors, classification on, alerts from medium severity.
    pub fn default_config() -> (r: DetectionConfig)
        ensures
            r.min_confidence == SCALE / 2,
            r.fusion_enabled,
            r.fusion_method == FusionMethod::DempsterShafer,
            r.correlation_window_ms == 2000,
            r.min_correlated_sensors == 2,
            r.classification_enabled,
            r.alert_threshold == Severity::Medium,
    {
        DetectionConfig {
            min_confidence: 500_000,
            fusion_enabled: true,
            fusion_method: FusionMethod::DempsterShafer,
            correlation_window_ms: 2000,
            min_correlated_sensors: 2,
            classification_enabled: true,
            alert_threshold: Severity::Medium,
        }
    }
}

/// A configuration value the core cannot use.
#[derive(Debug, Clone, Copy, PartialEq, Eq, Structural)]
pub enum ConfigError {
    UnknownFusionMethod,
}

/// The fusion method a configuration names: `Bayesian`, `DempsterShafer`
/// or `WeightedAverage`; any other name is rejected.
pub fn parse_fusion_method(name: &str) -> (r: Result<FusionMethod, ConfigError>)
    ensures
        name@ == "Bayesian"@ <==> r == Ok::<FusionMethod, ConfigError>(FusionMethod::Bayesian),
        name@ == "DempsterShafer"@ <==> r == Ok::<FusionMethod, ConfigError>(FusionMethod::DempsterShafer),
        name@ == "WeightedAverage"@ <==> r == Ok::<FusionMethod, ConfigError>(FusionMethod::WeightedAverage),
        (name@ != "Bayesian"@ && name@ != "DempsterShafer"@ && name@ != "WeightedAverage"@)
            <==> r == Err::<FusionMethod, ConfigError>(ConfigError::UnknownFusionMethod),
{
    broadcast use vstd::string::group_string_axioms;

    let given = name.to_owned();
    let bayesian = "Bayesian".to_string();
    let dempster_shafer = "DempsterShafer".to_string();
    let weighted = "WeightedAverage".to_string();
    proof {
        reveal_strlit("Bayesian");
        reveal_strlit("DempsterShafer");
        reveal_strlit("WeightedAverage");
        assert("Bayesian"@ != "DempsterShafer"@ && "Bayesian"@ != "WeightedAverage"@
            && "DempsterShafer"@ != "WeightedAverage"@) by {
            assert("Bayesian"@.len() != "DempsterShafer"@.len());
            assert("Bayesian"@.len() != "WeightedAverage"@.len());
            assert("DempsterShafer"@[0] != "WeightedAverage"@[0]);
        }
    }
    if given == bayesian {
        Ok(FusionMethod::Bayesian)
    } else if given == dempster_shafer {
        Ok(FusionMethod::DempsterShafer)
    } else if given == weighted {
        Ok(FusionMethod::WeightedAverage)
    } else {
        Err(ConfigError::UnknownFusionMethod)
    }
}

/// Display theme.
#[derive(Debug, Clone, Copy, PartialEq, Eq, Structural)]
pub enum Theme {
    Dark,
    Light,
    System,
}

/// Colour map for thermal images.
#[derive(Debug, Clone, Copy, PartialEq, Eq, Structural)]
pub enum Colormap {
    Inferno,
    Viridis,
    Plasma,
    Magma,
    Turbo,
    Grayscale,
}

/// Storage settings.
#[derive(Debug, Clone)]
pub struct DatabaseConfig {
    pub enabled: bool,
    pub path: String,
    pub max_size_mb: u64,
    pub retention_days: u32,
    pub flush_interval_secs: u64,
    pub compression: bool,
}

impl DatabaseConfig {
    /// Enabled, 1 GiB, 30 days of retention, flushed every 10 s, compressed.
    pub fn default_config() -> (r: DatabaseConfig)
        ensures
            r.enabled,
            r.path@ == "./data/glowbarn.db"@,
            r.max_size_mb == 1024,
            r.retention_days == 30,
            r.flush_interval_secs == 10,
            r.compression,
    {
        broadcast use vstd::string::group_string_axioms;

        DatabaseConfig {
            enabled: true,
            path: "./data/glowbarn.db".to_string(),
            max_size_mb: 1024,
            retention_days: 30,
            flush_interval_secs: 10,
            compression: true,
        }
    }
}

/// Kinds of event on the event bus.
#[derive(Debug, Clone, Copy, PartialEq, Eq, Structural)]
pub enum EventType {
    SensorReading,
    Detection,
    Alert,
    SystemStatus,
    Error,
}

/// Export encodings.
#[derive(Debug, Clone, Copy, PartialEq, Eq, Structural)]
pub enum ExportFormat {
    Json,
    Csv,
    Binary,
    InfluxLineProtocol,
}

/// Purposes a stored key serves.
#[derive(Debug, Clone, Copy, PartialEq, Eq, Structural)]
pub enum KeyType {
    DataEncryption,
    NetworkEncryption,
    SigningKey,
    APIKey,
    SessionKey,
}

/// Kinds of entry in the audit log.
#[derive(Debug, Clone, Copy, PartialEq, Eq, Structural)]
pub enum AuditEventType {
    Login,
    Logout,
    PasswordChange,
    DataAccess,
    DataExport,
    ConfigChange,
    SessionExpired,
    AuthFailure,
    EncryptionOperation,
    SystemStart,
    SystemStop,
}

} // verus!
