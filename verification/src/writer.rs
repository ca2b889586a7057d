use vstd::prelude::*;

use crate::Envelope;
use crate::EnvelopeV;
use crate::json::{decode, spec_decode};
use crate::reading::{DecodeError, Metric, MetricWrite, MetricWriteV, TimestampError,
    metric_writes, spec_metric_writes};
use crate::store::{StoreModel, spec_lookup, spec_ls_upsert, spec_rows_of, LastSeenRow,
    MetricRowV, SensorRowV, lemma_lookup_characterisation};
use crate::timestamp::{Timestamp, parse_rfc3339, spec_parse_rfc3339};

verus! {

/// What the writer decides to do with one envelope.
#[derive(Debug)]
pub enum WriterOutcome {
    /// The topic names no sensor: release the transaction, move on.
    UnknownSensor,
    /// The reading carries no freshness field: warn, write nothing.
    MissingLastSeen,
    /// The payload did not decode: fatal to the writer.
    DecodeFailed(DecodeError),
    /// The freshness text resolves to no instant: fatal to the writer.
    BadTimestamp(TimestampError),
    /// One atomic transaction: the freshness upsert and these writes.
    Commit(CommitPlan),
}

/// The writes one message asks for, all bound to one sensor and one
/// reported instant.
#[derive(Debug)]
pub struct CommitPlan {
    pub sensor_id: i32,
    pub last_seen: Timestamp,
    pub rows: Vec<MetricWrite>,
}

pub struct CommitPlanV {
    pub sensor_id: i32,
    pub last_seen: Timestamp,
    pub rows: Seq<MetricWriteV>,
}

pub enum WriterOutcomeV {
    UnknownSensor,
    MissingLastSeen,
    DecodeFailed(DecodeError),
    BadTimestamp(TimestampError),
    Commit(CommitPlanV),
}

impl View for CommitPlan {
    type V = CommitPlanV;

    open spec fn view(&self) -> CommitPlanV {
        CommitPlanV {
            sensor_id: self.sensor_id,
            last_seen: self.last_seen,
            rows: self.rows@.map_values(|w: MetricWrite| w@),
        }
    }
}

impl View for WriterOutcome {
    type V = WriterOutcomeV;

    open spec fn view(&self) -> WriterOutcomeV {
        match self {
            WriterOutcome::UnknownSensor => WriterOutcomeV::UnknownSensor,
            WriterOutcome::MissingLastSeen => WriterOutcomeV::MissingLastSeen,
            WriterOutcome::DecodeFailed(e) => WriterOutcomeV::DecodeFailed(*e),
            WriterOutcome::BadTimestamp(e) => WriterOutcomeV::BadTimestamp(*e),
            WriterOutcome::Commit(p) => WriterOutcomeV::Commit(p@),
        }
    }
}

/// The writer's whole decision for one message, in order: an
/// unresolved topic is skipped; a payload that does not decode is
/// fatal; a reading without `last_seen` is skipped; freshness text
/// that resolves to no instant is fatal; otherwise the message
/// commits its present fields.
pub open spec fn spec_plan(lookup: Option<i32>, payload: Seq<u8>) -> WriterOutcomeV {
    match lookup {
        Option::None => WriterOutcomeV::UnknownSensor,
        Option::Some(id) => match spec_decode(payload) {
            Result::Err(e) => WriterOutcomeV::DecodeFailed(e),
            Result::Ok(rv) => match rv.last_seen {
                Option::None => WriterOutcomeV::MissingLastSeen,
                Option::Some(lsb) => match spec_parse_rfc3339(lsb) {
                    Option::None => WriterOutcomeV::BadTimestamp(TimestampError::NotATimestamp),
                    Option::Some(ts) => WriterOutcomeV::Commit(
                        CommitPlanV {
                            sensor_id: id,
                            last_seen: ts,
                            rows: spec_metric_writes(rv),
                        },
                    ),
                },
            },
        },
    }
}

/// Decide one message from the resolved topic and the raw payload,
/// exactly as `spec_plan` says.
pub fn plan_message(lookup: Option<i32>, payload: &[u8]) -> (r: WriterOutcome)
    ensures
        r@ == spec_plan(lookup, payload@),
{
    let id = match lookup {
        None => { return WriterOutcome::UnknownSensor; },
        Some(id) => id,
    };
    let reading = match decode(payload) {
        Err(e) => { return WriterOutcome::DecodeFailed(e); },
        Ok(rd) => rd,
    };
    let ts = match &reading.last_seen {
        None => { return WriterOutcome::MissingLastSeen; },
        Some(b) => match parse_rfc3339(b.as_slice()) {
            Err(e) => { return WriterOutcome::BadTimestamp(e); },
            Ok(t) => t,
        },
    };
    let rows = metric_writes(reading);
    WriterOutcome::Commit(CommitPlan { sensor_id: id, last_seen: ts, rows })
}

/// What one processed envelope came to, as the driver sees it.
#[derive(Clone, Copy, Debug, PartialEq, Eq, Structural)]
pub enum StepResult {
    Committed,
    SkippedUnknownSensor,
    SkippedMissingLastSeen,
    FatalDecode(DecodeError),
    FatalTimestamp(TimestampError),
}

/// The results that terminate the writer.
pub open spec fn spec_is_fatal(r: StepResult) -> bool {
    r is FatalDecode || r is FatalTimestamp
}

pub fn is_fatal(r: StepResult) -> (b: bool)
    ensures
        b == spec_is_fatal(r),
{
    match r {
        StepResult::FatalDecode(_) => true,
        StepResult::FatalTimestamp(_) => true,
        _ => false,
    }
}

/// The mutable half of the store: the metric log and the freshness
/// table, the only state a message may change.
pub struct StoreSnap {
    pub metrics: Seq<MetricRowV>,
    pub last_seen: Seq<LastSeenRow>,
}

/// One envelope against one snapshot: either every pending row and
/// the freshness upsert land together, or the snapshot stands
/// unchanged. No third outcome exists.
pub open spec fn spec_step(
    sensors: Seq<SensorRowV>,
    snap: StoreSnap,
    env: EnvelopeV,
    now: Timestamp,
) -> (StoreSnap, StepResult) {
    match spec_plan(spec_lookup(sensors, env.topic), env.payload) {
        WriterOutcomeV::UnknownSensor => (snap, StepResult::SkippedUnknownSensor),
        WriterOutcomeV::MissingLastSeen => (snap, StepResult::SkippedMissingLastSeen),
        WriterOutcomeV::DecodeFailed(e) => (snap, StepResult::FatalDecode(e)),
        WriterOutcomeV::BadTimestamp(e) => (snap, StepResult::FatalTimestamp(e)),
        WriterOutcomeV::Commit(c) => (
            StoreSnap {
                metrics: snap.metrics + spec_rows_of(c.rows, c.sensor_id, now),
                last_seen: spec_ls_upsert(snap.last_seen, c.sensor_id, c.last_seen, now),
            },
            StepResult::Committed,
        ),
    }
}

/// Envelopes processed strictly in order, each against the store the
/// previous one left, halting at the first fatal result.
pub open spec fn spec_run(
    sensors: Seq<SensorRowV>,
    snap: StoreSnap,
    envs: Seq<EnvelopeV>,
    nows: Seq<Timestamp>,
) -> (StoreSnap, Option<(int, StepResult)>)
    decreases envs.len(),
{
    if envs.len() == 0 {
        (snap, Option::None)
    } else {
        let (snap1, res) = spec_step(sensors, snap, envs[0], nows[0]);
        if spec_is_fatal(res) {
            (snap1, Option::Some((0int, res)))
        } else {
            let (snap2, halt) = spec_run(sensors, snap1, envs.drop_first(), nows.drop_first());
            match halt {
                Option::None => (snap2, Option::None),
                Option::Some(h) => (snap2, Option::Some((h.0 + 1, h.1))),
            }
        }
    }
}

impl StoreModel {
    /// The mutable half of this store.
    pub open spec fn snap(self) -> StoreSnap {
        StoreSnap { metrics: self.metrics_v(), last_seen: self.last_seen@ }
    }

    /// Process one envelope: resolve the topic, decide the message,
    /// and commit its plan atomically or leave the store untouched,
    /// exactly as `spec_step` says.
    pub fn process_envelope(&mut self, env: &Envelope, now: Timestamp) -> (r: StepResult)
        ensures
            final(self).sensors@ == old(self).sensors@,
            final(self).snap() == spec_step(old(self).sensors_v(), old(self).snap(), env@, now).0,
            r == spec_step(old(self).sensors_v(), old(self).snap(), env@, now).1,
    {
        let lookup = self.lookup_sensor(env.topic.as_slice());
        match plan_message(lookup, env.payload.as_slice()) {
            WriterOutcome::UnknownSensor => StepResult::SkippedUnknownSensor,
            WriterOutcome::MissingLastSeen => StepResult::SkippedMissingLastSeen,
            WriterOutcome::DecodeFailed(e) => StepResult::FatalDecode(e),
            WriterOutcome::BadTimestamp(e) => StepResult::FatalTimestamp(e),
            WriterOutcome::Commit(plan) => {
                let CommitPlan { sensor_id, last_seen, rows } = plan;
                self.upsert_last_seen(sensor_id, last_seen, now);
                self.append_metrics(sensor_id, now, rows);
                StepResult::Committed
            },
        }
    }

    /// Process envelopes from index `k` on, in order, stopping at the
    /// first fatal result, which is returned with its index.
    pub fn process_from(
        &mut self,
        envelopes: &Vec<Envelope>,
        nows: &Vec<Timestamp>,
        k: usize,
    ) -> (r: Option<(usize, StepResult)>)
        requires
            envelopes@.len() == nows@.len(),
            k <= envelopes@.len(),
        ensures
            final(self).sensors@ == old(self).sensors@,
            ({
                let (snap2, halt) = spec_run(
                    old(self).sensors_v(),
                    old(self).snap(),
                    envelopes@.map_values(|e: Envelope| e@).skip(k as int),
                    nows@.skip(k as int),
                );
                final(self).snap() == snap2 && match halt {
                    Option::None => r is None,
                    Option::Some(h) => r is Some && r->Some_0.0 == h.0 + k && r->Some_0.1 == h.1,
                }
            }),
        decreases envelopes@.len() - k,
    {
        let ghost envs_v = envelopes@.map_values(|e: Envelope| e@);
        if k == envelopes.len() {
            assert(envs_v.skip(k as int).len() == 0);
            return None;
        }
        assert(envs_v.skip(k as int)[0] == envelopes@[k as int]@);
        assert(envs_v.skip(k as int).drop_first() =~= envs_v.skip(k as int + 1));
        assert(nows@.skip(k as int)[0] == nows@[k as int]);
        assert(nows@.skip(k as int).drop_first() =~= nows@.skip(k as int + 1));
        let res = self.process_envelope(&envelopes[k], nows[k]);
        if is_fatal(res) {
            return Some((k, res));
        }
        self.process_from(envelopes, nows, k + 1)
    }

    /// Run the writer over a whole sequence of envelopes, paired with
    /// the instants at which each would be written.
    pub fn process_sequence(
        &mut self,
        envelopes: &Vec<Envelope>,
        nows: &Vec<Timestamp>,
    ) -> (r: Option<(usize, StepResult)>)
        requires
            envelopes@.len() == nows@.len(),
        ensures
            final(self).sensors@ == old(self).sensors@,
            ({
                let (snap2, halt) = spec_run(
                    old(self).sensors_v(),
                    old(self).snap(),
                    envelopes@.map_values(|e: Envelope| e@),
                    nows@,
                );
                final(self).snap() == snap2 && match halt {
                    Option::None => r is None,
                    Option::Some(h) => r is Some && r->Some_0.0 == h.0 && r->Some_0.1 == h.1,
                }
            }),
    {
        assert(envelopes@.map_values(|e: Envelope| e@).skip(0) =~= envelopes@.map_values(
            |e: Envelope| e@,
        ));
        assert(nows@.skip(0) =~= nows@);
        self.process_from(envelopes, nows, 0)
    }
}

// --- laws -----------------------------------------------------------------

/// Each transaction is atomic: a committed message adds exactly its
/// pending rows and its freshness upsert, and any other outcome
/// leaves the store exactly as it stood.
pub proof fn lemma_step_atomic(
    sensors: Seq<SensorRowV>,
    snap: StoreSnap,
    env: EnvelopeV,
    now: Timestamp,
)
    ensures
        ({
            let (snap2, res) = spec_step(sensors, snap, env, now);
            match spec_plan(spec_lookup(sensors, env.topic), env.payload) {
                WriterOutcomeV::Commit(c) => res == StepResult::Committed && snap2.metrics
                    == snap.metrics + spec_rows_of(c.rows, c.sensor_id, now) && snap2.last_seen
                    == spec_ls_upsert(snap.last_seen, c.sensor_id, c.last_seen, now),
                _ => res != StepResult::Committed && snap2 == snap,
            }
        }),
{
}

/// Ordering: a run over a concatenation is the first stretch run to
/// completion, then the second run from the store the first left; no
/// later envelope acts before every earlier one has committed or been
/// discarded.
#[verifier::spinoff_prover]
#[verifier::rlimit(100)]
pub proof fn lemma_run_sequential(
    sensors: Seq<SensorRowV>,
    snap: StoreSnap,
    envs1: Seq<EnvelopeV>,
    nows1: Seq<Timestamp>,
    envs2: Seq<EnvelopeV>,
    nows2: Seq<Timestamp>,
)
    requires
        envs1.len() == nows1.len(),
        spec_run(sensors, snap, envs1, nows1).1 is None,
    ensures
        ({
            let mid = spec_run(sensors, snap, envs1, nows1).0;
            let rest = spec_run(sensors, mid, envs2, nows2);
            let whole = spec_run(sensors, snap, envs1 + envs2, nows1 + nows2);
            whole.0 == rest.0 && whole.1 == (match rest.1 {
                Option::None => Option::<(int, StepResult)>::None,
                Option::Some(h) => Option::Some((h.0 + envs1.len(), h.1)),
            })
        }),
    decreases envs1.len(),
{
    if envs1.len() == 0 {
        assert(envs1 + envs2 =~= envs2);
        assert(nows1 + nows2 =~= nows2);
    } else {
        let (snap1, res) = spec_step(sensors, snap, envs1[0], nows1[0]);
        assert((envs1 + envs2)[0] == envs1[0]);
        assert((nows1 + nows2)[0] == nows1[0]);
        assert((envs1 + envs2).drop_first() =~= envs1.drop_first() + envs2);
        assert((nows1 + nows2).drop_first() =~= nows1.drop_first() + nows2);
        lemma_run_sequential(
            sensors,
            snap1,
            envs1.drop_first(),
            nows1.drop_first(),
            envs2,
            nows2,
        );
    }
}

/// An unknown topic is a no-op: when no sensor carries the envelope's
/// topic as its name, the step changes nothing and does not end the
/// writer.
pub proof fn lemma_unknown_topic_no_op(
    sensors: Seq<SensorRowV>,
    snap: StoreSnap,
    env: EnvelopeV,
    now: Timestamp,
)
    requires
        forall|i: int| 0 <= i < sensors.len() ==> sensors[i].name != env.topic,
    ensures
        spec_step(sensors, snap, env, now).0 == snap,
        spec_step(sensors, snap, env, now).1 == StepResult::SkippedUnknownSensor,
        !spec_is_fatal(spec_step(sensors, snap, env, now).1),
{
    lemma_lookup_characterisation(sensors, env.topic);
}

/// A reading without its freshness field writes nothing and does not
/// end the writer.
pub proof fn lemma_missing_freshness_no_write(
    sensors: Seq<SensorRowV>,
    snap: StoreSnap,
    env: EnvelopeV,
    now: Timestamp,
)
    requires
        spec_lookup(sensors, env.topic) is Some,
        spec_decode(env.payload) is Ok,
        spec_decode(env.payload)->Ok_0.last_seen is None,
    ensures
        spec_step(sensors, snap, env, now).0 == snap,
        spec_step(sensors, snap, env, now).1 == StepResult::SkippedMissingLastSeen,
        !spec_is_fatal(spec_step(sensors, snap, env, now).1),
{
}

/// A payload that does not decode ends the writer with a decode
/// classification, writes nothing for its message, and halts the run
/// at its own position.
pub proof fn lemma_decode_failure_halts(
    sensors: Seq<SensorRowV>,
    snap: StoreSnap,
    envs: Seq<EnvelopeV>,
    nows: Seq<Timestamp>,
)
    requires
        envs.len() > 0,
        envs.len() == nows.len(),
        spec_lookup(sensors, envs[0].topic) is Some,
        spec_decode(envs[0].payload) is Err,
    ensures
        spec_step(sensors, snap, envs[0], nows[0]).0 == snap,
        spec_step(sensors, snap, envs[0], nows[0]).1 == StepResult::FatalDecode(
            spec_decode(envs[0].payload)->Err_0,
        ),
        spec_is_fatal(spec_step(sensors, snap, envs[0], nows[0]).1),
        spec_run(sensors, snap, envs, nows).0 == snap,
        spec_run(sensors, snap, envs, nows).1 == Option::Some(
            (0int, StepResult::FatalDecode(spec_decode(envs[0].payload)->Err_0)),
        ),
{
}

/// Freshness text that resolves to no instant ends the writer the
/// same way, with a timestamp classification.
pub proof fn lemma_bad_timestamp_halts(
    sensors: Seq<SensorRowV>,
    snap: StoreSnap,
    env: EnvelopeV,
    now: Timestamp,
)
    requires
        spec_lookup(sensors, env.topic) is Some,
        spec_decode(env.payload) is Ok,
        spec_decode(env.payload)->Ok_0.last_seen is Some,
        spec_parse_rfc3339(spec_decode(env.payload)->Ok_0.last_seen->Some_0) is None,
    ensures
        spec_step(sensors, snap, env, now).0 == snap,
        spec_step(sensors, snap, env, now).1 == StepResult::FatalTimestamp(
            TimestampError::NotATimestamp,
        ),
        spec_is_fatal(spec_step(sensors, snap, env, now).1),
{
}

/// The number of pending writes bound for one metric table.
pub open spec fn spec_write_count(ws: Seq<MetricWriteV>, m: Metric) -> int
    decreases ws.len(),
{
    if ws.len() == 0 {
        0
    } else {
        (if ws[0].metric == m { 1int } else { 0int }) + spec_write_count(ws.drop_first(), m)
    }
}

broadcast proof fn lemma_write_count_push(ws: Seq<MetricWriteV>, w: MetricWriteV, m: Metric)
    ensures
        #[trigger] spec_write_count(ws.push(w), m) == spec_write_count(ws, m) + (if w.metric == m {
            1int
        } else {
            0int
        }),
    decreases ws.len(),
{
    if ws.len() == 0 {
        assert(ws.push(w)[0] == w);
        assert(ws.push(w).drop_first() =~= ws);
    } else {
        lemma_write_count_push(ws.drop_first(), w, m);
        assert(ws.push(w).drop_first() =~= ws.drop_first().push(w));
        assert(ws.push(w)[0] == ws[0]);
    }
}

/// Field-presence mapping: a reading asks for exactly one write into
/// the table of each present field, and none into any other table.
#[verifier::rlimit(100)]
pub proof fn lemma_field_presence_mapping(rv: crate::reading::ReadingV)
    ensures
        spec_write_count(spec_metric_writes(rv), Metric::Temperature) == (if rv.temperature
            is Some {
            1int
        } else {
            0int
        }),
        spec_write_count(spec_metric_writes(rv), Metric::Humidity) == (if rv.humidity is Some {
            1int
        } else {
            0int
        }),
        spec_write_count(spec_metric_writes(rv), Metric::Battery) == (if rv.battery is Some {
            1int
        } else {
            0int
        }),
        spec_write_count(spec_metric_writes(rv), Metric::Pressure) == (if rv.pressure is Some {
            1int
        } else {
            0int
        }),
        spec_write_count(spec_metric_writes(rv), Metric::Occupancy) == (if rv.occupancy is Some {
            1int
        } else {
            0int
        }),
        spec_write_count(spec_metric_writes(rv), Metric::Illuminance) == (if rv.illuminance
            is Some {
            1int
        } else {
            0int
        }),
        spec_write_count(spec_metric_writes(rv), Metric::BatteryLow) == (if rv.battery_low
            is Some {
            1int
        } else {
            0int
        }),
        spec_write_count(spec_metric_writes(rv), Metric::Voltage) == (if rv.voltage is Some {
            1int
        } else {
            0int
        }),
        spec_write_count(spec_metric_writes(rv), Metric::WaterLeak) == (if rv.water_leak is Some {
            1int
        } else {
            0int
        }),
{
    broadcast use lemma_write_count_push;

    assert(spec_write_count(Seq::<MetricWriteV>::empty(), Metric::Temperature) == 0);
}

proof fn lemma_metric_count_append(a: Seq<MetricRowV>, b: Seq<MetricRowV>, m: Metric)
    ensures
        crate::store::spec_metric_count(a + b, m) == crate::store::spec_metric_count(a, m)
            + crate::store::spec_metric_count(b, m),
    decreases a.len(),
{
    if a.len() == 0 {
        assert(a + b =~= b);
    } else {
        lemma_metric_count_append(a.drop_first(), b, m);
        assert((a + b).drop_first() =~= a.drop_first() + b);
        assert((a + b)[0] == a[0]);
    }
}

proof fn lemma_rows_of_count(ws: Seq<MetricWriteV>, sensor_id: i32, now: Timestamp, m: Metric)
    ensures
        crate::store::spec_metric_count(spec_rows_of(ws, sensor_id, now), m) == spec_write_count(
            ws,
            m,
        ),
    decreases ws.len(),
{
    if ws.len() == 0 {
        assert(spec_rows_of(ws, sensor_id, now) =~= Seq::<MetricRowV>::empty());
    } else {
        lemma_rows_of_count(ws.drop_first(), sensor_id, now, m);
        assert(spec_rows_of(ws, sensor_id, now).drop_first() =~= spec_rows_of(
            ws.drop_first(),
            sensor_id,
            now,
        ));
        assert(spec_rows_of(ws, sensor_id, now)[0].metric == ws[0].metric);
    }
}

/// A committed message grows each metric table by exactly its pending
/// writes for that table; any other outcome grows no table at all.
pub proof fn lemma_table_growth(
    sensors: Seq<SensorRowV>,
    snap: StoreSnap,
    env: EnvelopeV,
    now: Timestamp,
    m: Metric,
)
    ensures
        ({
            let (snap2, _res) = spec_step(sensors, snap, env, now);
            match spec_plan(spec_lookup(sensors, env.topic), env.payload) {
                WriterOutcomeV::Commit(c) => crate::store::spec_metric_count(snap2.metrics, m)
                    == crate::store::spec_metric_count(snap.metrics, m) + spec_write_count(
                    c.rows,
                    m,
                ),
                _ => crate::store::spec_metric_count(snap2.metrics, m)
                    == crate::store::spec_metric_count(snap.metrics, m),
            }
        }),
{
    match spec_plan(spec_lookup(sensors, env.topic), env.payload) {
        WriterOutcomeV::Commit(c) => {
            lemma_metric_count_append(snap.metrics, spec_rows_of(c.rows, c.sensor_id, now), m);
            lemma_rows_of_count(c.rows, c.sensor_id, now, m);
        },
        _ => {},
    }
}

} // verus!
