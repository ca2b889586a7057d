use mqtt2timescale::reading::{DecodeError, Metric};
use mqtt2timescale::store::{SensorRow, StoreModel};
use mqtt2timescale::timestamp::Timestamp;
use mqtt2timescale::writer::StepResult;
use mqtt2timescale::Envelope;

const ALL_METRICS: [Metric; 9] = [
    Metric::Temperature,
    Metric::Humidity,
    Metric::Battery,
    Metric::Pressure,
    Metric::Occupancy,
    Metric::Illuminance,
    Metric::BatteryLow,
    Metric::Voltage,
    Metric::WaterLeak,
];

fn store_with(names: &[(i32, &str)]) -> StoreModel {
    let sensors = names
        .iter()
        .map(|(id, name)| SensorRow { sensor_id: *id, name: name.as_bytes().to_vec() })
        .collect();
    StoreModel::new(sensors)
}

fn env(topic: &str, payload: &[u8]) -> Envelope {
    Envelope::new(topic.as_bytes().to_vec(), payload.to_vec())
}

fn t(secs: i64) -> Timestamp {
    Timestamp { secs, nanos: 0 }
}

#[test]
fn field_presence_maps_to_exactly_one_table() {
    let mut store = store_with(&[(7, "bedroom")]);
    let e = env(
        "bedroom",
        b"{\"temperature\": 21.5, \"last_seen\": \"2024-01-01T00:00:00Z\"}",
    );
    assert_eq!(store.process_envelope(&e, t(1000)), StepResult::Committed);
    for m in ALL_METRICS {
        let expected = if m == Metric::Temperature { 1 } else { 0 };
        assert_eq!(store.count_metric_rows(m), expected, "{m:?}");
    }
    let row = store.get_last_seen(7).unwrap();
    assert_eq!(row.last_seen, t(1704067200));
    assert_eq!(row.modified, t(1000));
}

#[test]
fn missing_freshness_field_writes_nothing() {
    let mut store = store_with(&[(7, "bedroom")]);
    let e = env("bedroom", b"{\"temperature\": 21.5}");
    assert_eq!(store.process_envelope(&e, t(0)), StepResult::SkippedMissingLastSeen);
    for m in ALL_METRICS {
        assert_eq!(store.count_metric_rows(m), 0);
    }
    assert!(store.get_last_seen(7).is_none());
}

#[test]
fn unknown_topic_is_a_no_op() {
    let mut store = store_with(&[(7, "bedroom")]);
    let e = env(
        "hallway",
        b"{\"temperature\": 21.5, \"last_seen\": \"2024-01-01T00:00:00Z\"}",
    );
    assert_eq!(store.process_envelope(&e, t(0)), StepResult::SkippedUnknownSensor);
    for m in ALL_METRICS {
        assert_eq!(store.count_metric_rows(m), 0);
    }
    // the writer goes on: the same store still commits a later envelope
    let e2 = env("bedroom", b"{\"humidity\": 40, \"last_seen\": \"2024-01-01T00:00:00Z\"}");
    assert_eq!(store.process_envelope(&e2, t(0)), StepResult::Committed);
    assert_eq!(store.count_metric_rows(Metric::Humidity), 1);
}

#[test]
fn decode_failure_halts_the_writer() {
    let mut store = store_with(&[(7, "bedroom")]);
    let envelopes = vec![
        env("bedroom", b"{\"humidity\": 40, \"last_seen\": \"2024-01-01T00:00:00Z\"}"),
        env("bedroom", &[0xff, 0x00]),
        env("bedroom", b"{\"pressure\": 990, \"last_seen\": \"2024-01-01T00:00:00Z\"}"),
    ];
    let nows = vec![t(1), t(2), t(3)];
    let halt = store.process_sequence(&envelopes, &nows);
    assert_eq!(halt, Some((1, StepResult::FatalDecode(DecodeError::InvalidEncoding))));
    // the first envelope committed, the failing one wrote nothing, and
    // the one behind it was never begun
    assert_eq!(store.count_metric_rows(Metric::Humidity), 1);
    assert_eq!(store.count_metric_rows(Metric::Pressure), 0);
}

#[test]
fn malformed_object_is_fatal_too() {
    let mut store = store_with(&[(7, "bedroom")]);
    let e = env("bedroom", b"{\"temperature\": oops}");
    assert_eq!(
        store.process_envelope(&e, t(0)),
        StepResult::FatalDecode(DecodeError::MalformedPayload)
    );
    for m in ALL_METRICS {
        assert_eq!(store.count_metric_rows(m), 0);
    }
}

#[test]
fn bad_timestamp_is_fatal_with_its_own_classification() {
    let mut store = store_with(&[(7, "bedroom")]);
    let e = env("bedroom", b"{\"temperature\": 1, \"last_seen\": \"2024-13-01T00:00:00Z\"}");
    match store.process_envelope(&e, t(0)) {
        StepResult::FatalTimestamp(_) => {}
        other => panic!("expected a timestamp failure, got {other:?}"),
    }
    for m in ALL_METRICS {
        assert_eq!(store.count_metric_rows(m), 0);
    }
}

#[test]
fn last_seen_is_upserted_not_appended() {
    let mut store = store_with(&[(7, "bedroom")]);
    let e1 = env("bedroom", b"{\"temperature\": 1, \"last_seen\": \"2024-01-01T00:00:00Z\"}");
    let e2 = env("bedroom", b"{\"temperature\": 2, \"last_seen\": \"2024-01-02T00:00:00Z\"}");
    assert_eq!(store.process_envelope(&e1, t(10)), StepResult::Committed);
    assert_eq!(store.process_envelope(&e2, t(20)), StepResult::Committed);
    assert_eq!(store.count_last_seen_rows(7), 1);
    let row = store.get_last_seen(7).unwrap();
    assert_eq!(row.last_seen, t(1704067200 + 86400));
    assert_eq!(row.modified, t(20));
    assert_eq!(store.count_metric_rows(Metric::Temperature), 2);
}

#[test]
fn envelopes_are_processed_in_order() {
    let mut store = store_with(&[(1, "a"), (2, "b")]);
    let envelopes = vec![
        env("a", b"{\"temperature\": 1, \"last_seen\": \"2024-01-01T00:00:00Z\"}"),
        env("b", b"{\"voltage\": 2, \"last_seen\": \"2024-01-01T00:00:00Z\"}"),
        env("a", b"{\"occupancy\": true, \"last_seen\": \"2024-01-01T00:00:00Z\"}"),
    ];
    let nows = vec![t(1), t(2), t(3)];
    assert_eq!(store.process_sequence(&envelopes, &nows), None);
    // the log shows one row per message, in submission order
    assert_eq!(store.metrics.len(), 3);
    assert_eq!(store.metrics[0].metric, Metric::Temperature);
    assert_eq!(store.metrics[0].sensor_id, 1);
    assert_eq!(store.metrics[0].time, t(1));
    assert_eq!(store.metrics[1].metric, Metric::Voltage);
    assert_eq!(store.metrics[1].sensor_id, 2);
    assert_eq!(store.metrics[1].time, t(2));
    assert_eq!(store.metrics[2].metric, Metric::Occupancy);
    assert_eq!(store.metrics[2].sensor_id, 1);
    assert_eq!(store.metrics[2].time, t(3));
}

#[test]
fn commit_is_atomic_over_all_present_fields() {
    let mut store = store_with(&[(7, "bedroom")]);
    let e = env(
        "bedroom",
        b"{\"temperature\": 21.5, \"humidity\": 40.5, \"battery\": 97, \
           \"last_seen\": \"2024-01-01T00:00:00Z\"}",
    );
    // a failed transaction leaves nothing behind: nothing was applied
    // before this commit, so every table is empty
    for m in ALL_METRICS {
        assert_eq!(store.count_metric_rows(m), 0);
    }
    assert!(store.get_last_seen(7).is_none());
    // the commit lands all three rows and the freshness upsert together
    assert_eq!(store.process_envelope(&e, t(5)), StepResult::Committed);
    assert_eq!(store.count_metric_rows(Metric::Temperature), 1);
    assert_eq!(store.count_metric_rows(Metric::Humidity), 1);
    assert_eq!(store.count_metric_rows(Metric::Battery), 1);
    assert_eq!(store.count_metric_rows(Metric::Pressure), 0);
    assert!(store.get_last_seen(7).is_some());
}

#[test]
fn metric_rows_of_one_message_follow_the_enumeration_order() {
    let mut store = store_with(&[(7, "bedroom")]);
    let e = env(
        "bedroom",
        b"{\"water_leak\": false, \"temperature\": 1, \"voltage\": 2, \
           \"last_seen\": \"2024-01-01T00:00:00Z\"}",
    );
    assert_eq!(store.process_envelope(&e, t(0)), StepResult::Committed);
    assert_eq!(store.metrics[0].metric, Metric::Temperature);
    assert_eq!(store.metrics[1].metric, Metric::Voltage);
    assert_eq!(store.metrics[2].metric, Metric::WaterLeak);
}
