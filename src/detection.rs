//! Detection records and the fixed sensor-type to detection-kind table.

use vstd::prelude::*;

use crate::fixed::SCALE;
use crate::sensors::SensorType;

verus! {

/// What a detection is about.
#[derive(Debug, Clone, Copy, PartialEq, Eq, Structural)]
pub enum DetectionType {
    // Environmental
    ThermalAnomaly,
    TemperatureGradient,
    ColdSpot,
    HotSpot,
    // Acoustic
    InfrasoundEvent,
    UltrasonicEvent,
    EVP,
    UnexplainedSound,
    // Electromagnetic
    EMFSpike,
    EMFFluctuation,
    MagneticAnomaly,
    StaticDischarge,
    // Motion / vibration
    SeismicEvent,
    Vibration,
    Movement,
    // Radiation
    RadiationSpike,
    IonizationChange,
    // RF / electronic
    RFAnomaly,
    InterferencePattern,
    // Optical
    LightAnomaly,
    LaserInterruption,
    SpectrumAnomaly,
    // Random / quantum
    EntropyAnomaly,
    QRNGDeviation,
    // Multi-sensor
    CorrelatedAnomaly,
    SensorFusionEvent,
    // Unclassified
    Unknown,
}

/// Severity level, ordered from least to most severe.
#[derive(Debug, Clone, Copy, PartialEq, Eq, Structural, PartialOrd, Ord)]
pub enum Severity {
    Low,
    Medium,
    High,
    Critical,
}

/// The kind of detection a dominant sensor of the given type points to.
pub open spec fn spec_detection_kind(t: SensorType) -> DetectionType {
    match t {
        SensorType::ThermalArray | SensorType::ThermalImager => DetectionType::ThermalAnomaly,
        SensorType::Accelerometer | SensorType::Geophone => DetectionType::SeismicEvent,
        SensorType::EMFProbe | SensorType::FluxGate | SensorType::TriField => DetectionType::EMFSpike,
        SensorType::Infrasound => DetectionType::InfrasoundEvent,
        SensorType::Ultrasonic => DetectionType::UltrasonicEvent,
        SensorType::GeigerCounter | SensorType::Scintillator => DetectionType::RadiationSpike,
        SensorType::QRNG | SensorType::ThermalNoise => DetectionType::EntropyAnomaly,
        SensorType::SDRReceiver | SensorType::SpectrumAnalyzer => DetectionType::RFAnomaly,
        SensorType::LaserGrid => DetectionType::LaserInterruption,
        SensorType::StaticMeter => DetectionType::StaticDischarge,
        SensorType::IonCounter => DetectionType::IonizationChange,
        SensorType::Spectrometer | SensorType::LightMeter => DetectionType::LightAnomaly,
        _ => DetectionType::Unknown,
    }
}

pub fn detection_kind(t: SensorType) -> (r: DetectionType)
    ensures
        r == spec_detection_kind(t),
{
    match t {
        SensorType::ThermalArray | SensorType::ThermalImager => DetectionType::ThermalAnomaly,
        SensorType::Accelerometer | SensorType::Geophone => DetectionType::SeismicEvent,
        SensorType::EMFProbe | SensorType::FluxGate | SensorType::TriField => DetectionType::EMFSpike,
        SensorType::Infrasound => DetectionType::InfrasoundEvent,
        SensorType::Ultrasonic => DetectionType::UltrasonicEvent,
        SensorType::GeigerCounter | SensorType::Scintillator => DetectionType::RadiationSpike,
        SensorType::QRNG | SensorType::ThermalNoise => DetectionType::EntropyAnomaly,
        SensorType::SDRReceiver | SensorType::SpectrumAnalyzer => DetectionType::RFAnomaly,
        SensorType::LaserGrid => DetectionType::LaserInterruption,
        SensorType::StaticMeter => DetectionType::StaticDischarge,
        SensorType::IonCounter => DetectionType::IonizationChange,
        SensorType::Spectrometer | SensorType::LightMeter => DetectionType::LightAnomaly,
        _ => DetectionType::Unknown,
    }
}

/// Severity band of a confidence (parts per million): at least 0.9 is
/// critical, at least 0.7 high, at least 0.4 medium, anything lower low.
pub open spec fn spec_severity(confidence: u64) -> Severity {
    if confidence >= 900_000 {
        Severity::Critical
    } else if confidence >= 700_000 {
        Severity::High
    } else if confidence >= 400_000 {
        Severity::Medium
    } else {
        Severity::Low
    }
}

pub fn severity_for(confidence: u64) -> (r: Severity)
    ensures
        r == spec_severity(confidence),
{
    if confidence >= 900_000 {
        Severity::Critical
    } else if confidence >= 700_000 {
        Severity::High
    } else if confidence >= 400_000 {
        Severity::Medium
    } else {
        Severity::Low
    }
}

/// One sensor's evidence as it enters fusion: its identity, its type, the
/// mean of its window (micro-units) and its anomaly score (parts per
/// million).
#[derive(Debug, Clone)]
pub struct ScoredReading {
    pub sensor_id: String,
    pub sensor_type: SensorType,
    pub reading_value: i64,
    pub anomaly_score: u64,
}

/// One sensor's evidence as it stands in a fusion or correlation result.
#[derive(Debug, Clone)]
pub struct SensorContribution {
    pub sensor_id: String,
    pub sensor_type: SensorType,
    /// Reliability weight, parts per million.
    pub weight: u64,
    /// Micro-units.
    pub reading_value: i64,
    /// Parts per million.
    pub anomaly_score: u64,
}

/// Every score of the batch lies in `[0, 1]`.
pub open spec fn scores_valid(rs: Seq<ScoredReading>) -> bool {
    forall|i: int| 0 <= i < rs.len() ==> rs[i].anomaly_score <= SCALE
}

/// Index of the contribution with the highest anomaly score; among equal
/// scores the last one wins.
pub open spec fn dominant_index(s: Seq<SensorContribution>) -> int
    decreases s.len(),
{
    if s.len() <= 1 {
        0
    } else {
        let j = dominant_index(s.drop_last());
        if s.last().anomaly_score >= s[j].anomaly_score {
            s.len() - 1
        } else {
            j
        }
    }
}

/// The detection kind named by the dominant contribution, or `Unknown` for
/// an empty list.
pub open spec fn spec_kind_from_sensors(s: Seq<SensorContribution>) -> DetectionType {
    if s.len() == 0 {
        DetectionType::Unknown
    } else {
        spec_detection_kind(s[dominant_index(s)].sensor_type)
    }
}

/// The detection kind of the contribution with the highest anomaly score.
pub fn classify_from_sensors(sensors: &[SensorContribution]) -> (r: DetectionType)
    ensures
        r == spec_kind_from_sensors(sensors@),
{
    if sensors.len() == 0 {
        return DetectionType::Unknown;
    }
    let mut best: usize = 0;
    let mut i: usize = 1;
    while i < sensors.len()
        invariant
            1 <= i <= sensors@.len(),
            best as int == dominant_index(sensors@.subrange(0, i as int)),
            best < i,
        decreases sensors@.len() - i,
    {
        proof {
            let s = sensors@.subrange(0, i as int + 1);
            assert(s.drop_last() =~= sensors@.subrange(0, i as int));
        }
        if sensors[i].anomaly_score >= sensors[best].anomaly_score {
            best = i;
        }
        i = i + 1;
    }
    assert(sensors@.subrange(0, i as int) =~= sensors@);
    detection_kind(sensors[best].sensor_type)
}

/// The category an anomaly was assigned to.
#[derive(Debug, Clone)]
pub struct Classification {
    pub category: String,
    pub subcategory: Option<String>,
    /// Parts per million.
    pub confidence: u64,
    pub model_version: String,
}

/// The terminal record of one fusion and classification pass.
#[derive(Debug, Clone)]
pub struct Detection {
    pub id: String,
    /// Milliseconds since the Unix epoch.
    pub timestamp_ms: i64,
    pub detection_type: DetectionType,
    /// Parts per million.
    pub confidence: u64,
    pub severity: Severity,
    pub sensors: Vec<SensorContribution>,
    /// Parts per million; not bounded by one.
    pub entropy_deviation: i64,
    pub anomaly_count: usize,
    /// Parts per million.
    pub correlation_score: u64,
    pub classification: Option<Classification>,
    /// Micro-metres.
    pub location: Option<[i64; 3]>,
    pub data_window_start_ms: i64,
    pub data_window_end_ms: i64,
}

/// A fresh detection of the given kind and confidence, with its severity
/// band; `id` and `now_ms` come from the caller.
pub fn create_detection(
    id: String,
    now_ms: i64,
    detection_type: DetectionType,
    confidence: u64,
    sensors: Vec<SensorContribution>,
) -> (r: Detection)
    ensures
        r.id == id,
        r.timestamp_ms == now_ms,
        r.detection_type == detection_type,
        r.confidence == confidence,
        r.severity == spec_severity(confidence),
        r.sensors == sensors,
        r.entropy_deviation == 0,
        r.anomaly_count == 0,
        r.correlation_score == 0,
        r.classification is None,
        r.location is None,
        r.data_window_start_ms == now_ms,
        r.data_window_end_ms == now_ms,
{
    let severity = severity_for(confidence);
    Detection {
        id,
        timestamp_ms: now_ms,
        detection_type,
        confidence,
        severity,
        sensors,
        entropy_deviation: 0,
        anomaly_count: 0,
        correlation_score: 0,
        classification: None,
        location: None,
        data_window_start_ms: now_ms,
        data_window_end_ms: now_ms,
    }
}

} // verus!
