//! The detection orchestrator's decision for each incoming reading.

use vstd::prelude::*;

use crate::correlation::{
    active_sensors, all_hits, hit_contribution, keep_recent, spec_correlation_confidence, BufferedReading,
    SensorCorrelator, MIN_CORRELATED_SENSORS,
};
use crate::detection::{create_detection, spec_severity, Detection, DetectionType};
use crate::fixed::SCALE;
use crate::sensors::SensorType;
use crate::statistics::MAX_SAMPLE;

verus! {

/// Records a reading in the correlator and, when the readings buffered
/// within the correlation window now form a correlated burst, returns the
/// detection for it. `detection_id` names the detection that would be made;
/// `now_ms` is the current time.
pub fn process_reading(
    correlator: &mut SensorCorrelator,
    detection_id: String,
    sensor_id: String,
    sensor_type: SensorType,
    timestamp_ms: i64,
    value: i64,
    anomaly_score: u64,
    now_ms: i64,
) -> (r: Option<Detection>)
    requires
        old(correlator).wf(),
        anomaly_score <= SCALE,
        -MAX_SAMPLE <= value <= MAX_SAMPLE,
    ensures
        final(correlator).wf(),
        final(correlator).all_recent(now_ms - old(correlator).spec_buffer_duration()),
        final(correlator).spec_buffer_duration() == old(correlator).spec_buffer_duration(),
        final(correlator).spec_window() == old(correlator).spec_window(),
        final(correlator).spec_min_correlation() == old(correlator).spec_min_correlation(),
        ({
            let before = old(correlator).spec_buffers();
            let after = final(correlator).spec_buffers();
            let entry = BufferedReading { timestamp_ms, value, sensor_type, anomaly_score };
            let cutoff = now_ms - old(correlator).spec_buffer_duration();
            let known = exists|j: int| 0 <= j < before.len() && before[j].sensor_id@ == sensor_id@;
            &&& after.len() == if known { before.len() } else { before.len() + 1 }
            &&& forall|j: int| 0 <= j < before.len() ==> {
                &&& (#[trigger] after[j]).sensor_id == before[j].sensor_id
                &&& after[j].entries@ == keep_recent(
                    if before[j].sensor_id@ == sensor_id@ {
                        before[j].entries@.push(entry)
                    } else {
                        before[j].entries@
                    },
                    cutoff,
                )
            }
            &&& !known ==> after.last().sensor_id == sensor_id && after.last().entries@
                == keep_recent(seq![entry], cutoff)
        }),
        ({
            let bufs = final(correlator).spec_buffers();
            let start = now_ms - final(correlator).spec_window();
            let hs = all_hits(bufs, start);
            let active = active_sensors(bufs, start);
            let c = spec_correlation_confidence(hs, active);
            &&& r is Some <==> (active >= MIN_CORRELATED_SENSORS && c > final(correlator).spec_min_correlation())
            &&& r matches Some(d) ==> {
                &&& d.id == detection_id
                &&& d.timestamp_ms == now_ms
                &&& d.detection_type == DetectionType::CorrelatedAnomaly
                &&& d.confidence == c
                &&& d.severity == spec_severity(d.confidence)
                &&& d.sensors@ == hs.map_values(|h: (String, BufferedReading)| hit_contribution(h))
            }
        }),
{
    correlator.add_reading(sensor_id, sensor_type, timestamp_ms, value, anomaly_score, now_ms);
    match correlator.check_correlation(now_ms) {
        Some(ev) => Some(create_detection(
            detection_id,
            now_ms,
            DetectionType::CorrelatedAnomaly,
            ev.confidence,
            ev.sensors,
        )),
        None => None,
    }
}

} // verus!
