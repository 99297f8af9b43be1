//! Sensor identities and the fixed per-type tables consulted by fusion and
//! correlation.

use vstd::prelude::*;

use crate::fixed::SCALE;

verus! {

/// The kinds of measurement channel the engine understands.
#[derive(Debug, Clone, Copy, PartialEq, Eq, Structural, Hash)]
pub enum SensorType {
    // Thermal
    ThermalImager,
    ThermalArray,
    Thermistor,
    Pyrometer,
    // Seismic / vibration
    Geophone,
    Accelerometer,
    Seismograph,
    Piezoelectric,
    // Electromagnetic
    EMFProbe,
    TriField,
    GaussMeter,
    FluxGate,
    SQUIDMagnetometer,
    // Audio
    Ultrasonic,
    Infrasound,
    FullSpectrum,
    ParabolicMic,
    ContactMic,
    MicArray,
    // Environmental
    Barometer,
    Hygrometer,
    Anemometer,
    IonCounter,
    VOCSensor,
    ParticulateSensor,
    // Radiation
    GeigerCounter,
    Scintillator,
    NeutronDetector,
    DosimeterArray,
    // Optical
    LightMeter,
    UVSensor,
    IRDetector,
    Spectrometer,
    LiDAR,
    LaserGrid,
    NightVision,
    // Radio frequency
    SDRReceiver,
    SpectrumAnalyzer,
    WiFiScanner,
    EMIDetector,
    // Capacitive / electric
    CapacitiveSensor,
    StaticMeter,
    FieldMill,
    CurrentClamp,
    // Ionization
    IonChamber,
    CoronaDetector,
    PlasmaProbe,
    // Quantum / random
    QRNG,
    ThermalNoise,
    ShotNoise,
    ZenerDiode,
    // User-defined
    Custom(u32),
}

/// Operational status of a sensor.
#[derive(Debug, Clone, Copy, PartialEq, Eq, Structural)]
pub enum SensorStatus {
    Disconnected,
    Connecting,
    Connected,
    Calibrating,
    Active,
    Error,
    Maintenance,
}

/// Measurement mode of a tri-field meter.
#[derive(Debug, Clone, Copy, PartialEq, Eq, Structural)]
pub enum TriFieldMode {
    Magnetic,
    Electric,
    Radio,
}

/// Geiger–Müller tube models.
#[derive(Debug, Clone, Copy, PartialEq, Eq, Structural)]
pub enum GeigerTubeType {
    SBM20,
    SI29BG,
    LND712,
    J408Gamma,
    Custom,
}

/// Scintillation crystal materials.
#[derive(Debug, Clone, Copy, PartialEq, Eq, Structural)]
pub enum ScintillatorType {
    NaI,
    CsI,
    BGO,
    LaBr3,
    Plastic,
}

/// Wi-Fi bands a scanner listens on.
#[derive(Debug, Clone, Copy, PartialEq, Eq, Structural)]
pub struct WiFiBands {
    pub ghz_2_4: bool,
    pub ghz_5: bool,
    pub ghz_6: bool,
}

impl WiFiBands {
    /// 2.4 GHz and 5 GHz on, 6 GHz off.
    pub fn standard() -> (r: WiFiBands)
        ensures
            r.ghz_2_4 && r.ghz_5 && !r.ghz_6,
    {
        WiFiBands { ghz_2_4: true, ghz_5: true, ghz_6: false }
    }
}

/// Reliability weight (parts per million) of a sensor type that no table
/// entry names.
pub const DEFAULT_RELIABILITY: u64 = 500_000;

/// The fixed reliability table of the fusion engine, in parts per million.
pub open spec fn spec_default_reliability(t: SensorType) -> Option<u64> {
    match t {
        SensorType::ThermalImager => Some(850_000u64),
        SensorType::ThermalArray => Some(800_000u64),
        SensorType::Accelerometer => Some(750_000u64),
        SensorType::Geophone => Some(800_000u64),
        SensorType::EMFProbe => Some(700_000u64),
        SensorType::FluxGate => Some(850_000u64),
        SensorType::Infrasound => Some(750_000u64),
        SensorType::Ultrasonic => Some(750_000u64),
        SensorType::GeigerCounter => Some(900_000u64),
        SensorType::QRNG => Some(800_000u64),
        SensorType::SDRReceiver => Some(700_000u64),
        SensorType::LaserGrid => Some(950_000u64),
        _ => None,
    }
}

/// The sensor types that carry an entry in the fixed reliability table, in
/// table order.
pub fn reliability_table() -> (r: Vec<(SensorType, u64)>)
    ensures
        r@.len() == 12,
        forall|i: int| 0 <= i < r@.len() ==> spec_default_reliability(r@[i].0) == Some(r@[i].1),
        forall|i: int, j: int| 0 <= i < j < r@.len() ==> r@[i].0 != r@[j].0,
        forall|t: SensorType| spec_default_reliability(t) is Some
            ==> exists|i: int| 0 <= i < r@.len() && r@[i].0 == t,
{
    let r = vec![
        (SensorType::ThermalImager, 850_000u64),
        (SensorType::ThermalArray, 800_000u64),
        (SensorType::Accelerometer, 750_000u64),
        (SensorType::Geophone, 800_000u64),
        (SensorType::EMFProbe, 700_000u64),
        (SensorType::FluxGate, 850_000u64),
        (SensorType::Infrasound, 750_000u64),
        (SensorType::Ultrasonic, 750_000u64),
        (SensorType::GeigerCounter, 900_000u64),
        (SensorType::QRNG, 800_000u64),
        (SensorType::SDRReceiver, 700_000u64),
        (SensorType::LaserGrid, 950_000u64),
    ];
    proof {
        assert forall|t: SensorType| spec_default_reliability(t) is Some
            implies exists|i: int| 0 <= i < r@.len() && r@[i].0 == t by {
            match t {
                SensorType::ThermalImager => assert(r@[0].0 == t),
                SensorType::ThermalArray => assert(r@[1].0 == t),
                SensorType::Accelerometer => assert(r@[2].0 == t),
                SensorType::Geophone => assert(r@[3].0 == t),
                SensorType::EMFProbe => assert(r@[4].0 == t),
                SensorType::FluxGate => assert(r@[5].0 == t),
                SensorType::Infrasound => assert(r@[6].0 == t),
                SensorType::Ultrasonic => assert(r@[7].0 == t),
                SensorType::GeigerCounter => assert(r@[8].0 == t),
                SensorType::QRNG => assert(r@[9].0 == t),
                SensorType::SDRReceiver => assert(r@[10].0 == t),
                SensorType::LaserGrid => assert(r@[11].0 == t),
                _ => {},
            }
        }
    }
    r
}

/// Contribution weight (parts per million) the correlator attaches to an
/// entry of the given sensor type.
pub open spec fn spec_correlation_weight(t: SensorType) -> u64 {
    match t {
        SensorType::GeigerCounter | SensorType::LaserGrid => 950_000u64,
        SensorType::ThermalImager | SensorType::FluxGate => 850_000u64,
        SensorType::ThermalArray | SensorType::Geophone => 800_000u64,
        SensorType::Accelerometer | SensorType::Infrasound | SensorType::Ultrasonic => 750_000u64,
        SensorType::EMFProbe | SensorType::SDRReceiver => 700_000u64,
        _ => 600_000u64,
    }
}

pub fn correlation_weight(t: SensorType) -> (r: u64)
    ensures
        r == spec_correlation_weight(t),
        r <= SCALE,
{
    match t {
        SensorType::GeigerCounter | SensorType::LaserGrid => 950_000,
        SensorType::ThermalImager | SensorType::FluxGate => 850_000,
        SensorType::ThermalArray | SensorType::Geophone => 800_000,
        SensorType::Accelerometer | SensorType::Infrasound | SensorType::Ultrasonic => 750_000,
        SensorType::EMFProbe | SensorType::SDRReceiver => 700_000,
        _ => 600_000,
    }
}

} // verus!
