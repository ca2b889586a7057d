use vstd::prelude::*;

use crate::json::bytes_eq;
use crate::reading::{Metric, MetricValue, MetricValueV, MetricWrite, MetricWriteV};
use crate::timestamp::Timestamp;

verus! {

/// One row of the sensor directory: an identity for a bus topic.
#[derive(Clone, Debug)]
pub struct SensorRow {
    pub sensor_id: i32,
    pub name: Vec<u8>,
}

pub struct SensorRowV {
    pub sensor_id: i32,
    pub name: Seq<u8>,
}

impl View for SensorRow {
    type V = SensorRowV;

    open spec fn view(&self) -> SensorRowV {
        SensorRowV { sensor_id: self.sensor_id, name: self.name@ }
    }
}

/// One appended metric row: `(table, time, sensor_id, value)`.
#[derive(Clone, Debug)]
pub struct MetricRow {
    pub metric: Metric,
    pub time: Timestamp,
    pub sensor_id: i32,
    pub value: MetricValue,
}

pub struct MetricRowV {
    pub metric: Metric,
    pub time: Timestamp,
    pub sensor_id: i32,
    pub value: MetricValueV,
}

impl View for MetricRow {
    type V = MetricRowV;

    open spec fn view(&self) -> MetricRowV {
        MetricRowV {
            metric: self.metric,
            time: self.time,
            sensor_id: self.sensor_id,
            value: self.value@,
        }
    }
}

/// The per-sensor freshness marker: the reported instant and the
/// moment it was written.
#[derive(Clone, Copy, Debug, PartialEq, Eq, Structural)]
pub struct LastSeenRow {
    pub sensor_id: i32,
    pub last_seen: Timestamp,
    pub modified: Timestamp,
}

/// The relational store as the pipeline sees it: a sensor directory,
/// one append-only log of metric rows, and the upsertable freshness
/// table.
#[derive(Debug)]
pub struct StoreModel {
    pub sensors: Vec<SensorRow>,
    pub metrics: Vec<MetricRow>,
    pub last_seen: Vec<LastSeenRow>,
}

// --- lookups over the directory -------------------------------------------

/// The identity of the first directory row named `topic`.
pub open spec fn spec_lookup(sensors: Seq<SensorRowV>, topic: Seq<u8>) -> Option<i32>
    decreases sensors.len(),
{
    if sensors.len() == 0 {
        Option::None
    } else if sensors[0].name == topic {
        Option::Some(sensors[0].sensor_id)
    } else {
        spec_lookup(sensors.drop_first(), topic)
    }
}

/// A lookup succeeds exactly when some directory row carries the name.
pub proof fn lemma_lookup_characterisation(sensors: Seq<SensorRowV>, topic: Seq<u8>)
    ensures
        spec_lookup(sensors, topic) is Some <==> exists|k: int|
            0 <= k < sensors.len() && sensors[k].name == topic,
    decreases sensors.len(),
{
    if sensors.len() > 0 {
        lemma_lookup_characterisation(sensors.drop_first(), topic);
        if sensors[0].name == topic {
        } else {
            if spec_lookup(sensors.drop_first(), topic) is Some {
                let k = choose|k: int|
                    0 <= k < sensors.drop_first().len() && sensors.drop_first()[k].name == topic;
                assert(sensors[k + 1].name == topic);
            }
            if exists|k: int| 0 <= k < sensors.len() && sensors[k].name == topic {
                let k = choose|k: int| 0 <= k < sensors.len() && sensors[k].name == topic;
                assert(sensors.drop_first()[k - 1].name == topic);
            }
        }
    }
}

// --- the freshness table --------------------------------------------------

/// The first index holding `sensor_id`, or -1 when none does.
pub open spec fn spec_ls_find(s: Seq<LastSeenRow>, sensor_id: i32) -> int
    decreases s.len(),
{
    if s.len() == 0 {
        -1
    } else if s[0].sensor_id == sensor_id {
        0
    } else {
        let r = spec_ls_find(s.drop_first(), sensor_id);
        if r < 0 {
            -1
        } else {
            r + 1
        }
    }
}

/// The freshness row of `sensor_id`, if one stands in the table.
pub open spec fn spec_ls_get(s: Seq<LastSeenRow>, sensor_id: i32) -> Option<LastSeenRow> {
    if spec_ls_find(s, sensor_id) >= 0 {
        Option::Some(s[spec_ls_find(s, sensor_id)])
    } else {
        Option::None
    }
}

/// The table after insert-or-replace of `sensor_id`'s row.
pub open spec fn spec_ls_upsert(
    s: Seq<LastSeenRow>,
    sensor_id: i32,
    last_seen: Timestamp,
    modified: Timestamp,
) -> Seq<LastSeenRow> {
    let row = LastSeenRow { sensor_id, last_seen, modified };
    if spec_ls_find(s, sensor_id) >= 0 {
        s.update(spec_ls_find(s, sensor_id), row)
    } else {
        s.push(row)
    }
}

pub proof fn lemma_ls_find_bounds(s: Seq<LastSeenRow>, sensor_id: i32)
    ensures
        -1 <= spec_ls_find(s, sensor_id) < s.len(),
        spec_ls_find(s, sensor_id) >= 0 ==> s[spec_ls_find(s, sensor_id)].sensor_id == sensor_id,
        spec_ls_find(s, sensor_id) == -1 ==> forall|k: int|
            0 <= k < s.len() ==> s[k].sensor_id != sensor_id,
    decreases s.len(),
{
    if s.len() > 0 && s[0].sensor_id != sensor_id {
        lemma_ls_find_bounds(s.drop_first(), sensor_id);
        if spec_ls_find(s.drop_first(), sensor_id) == -1 {
            assert forall|k: int| 0 <= k < s.len() implies s[k].sensor_id != sensor_id by {
                if k > 0 {
                    assert(s.drop_first()[k - 1] == s[k]);
                }
            }
        }
    }
}

/// The number of rows carrying `sensor_id`.
pub open spec fn spec_ls_count(s: Seq<LastSeenRow>, sensor_id: i32) -> int
    decreases s.len(),
{
    if s.len() == 0 {
        0
    } else {
        (if s[0].sensor_id == sensor_id { 1int } else { 0int }) + spec_ls_count(
            s.drop_first(),
            sensor_id,
        )
    }
}

/// The number of rows in the log that belong to one metric table.
pub open spec fn spec_metric_count(s: Seq<MetricRowV>, m: Metric) -> int
    decreases s.len(),
{
    if s.len() == 0 {
        0
    } else {
        (if s[0].metric == m { 1int } else { 0int }) + spec_metric_count(s.drop_first(), m)
    }
}

/// The rows a commit appends: one per pending write, all carrying the
/// write instant and the sensor's identity, in the enumeration order.
pub open spec fn spec_rows_of(
    writes: Seq<MetricWriteV>,
    sensor_id: i32,
    now: Timestamp,
) -> Seq<MetricRowV> {
    writes.map_values(
        |w: MetricWriteV| MetricRowV { metric: w.metric, time: now, sensor_id, value: w.value },
    )
}

impl StoreModel {
    pub open spec fn sensors_v(self) -> Seq<SensorRowV> {
        self.sensors@.map_values(|r: SensorRow| r@)
    }

    pub open spec fn metrics_v(self) -> Seq<MetricRowV> {
        self.metrics@.map_values(|r: MetricRow| r@)
    }

    /// Well-formed: topics and freshness keys are unique.
    pub open spec fn wf(self) -> bool {
        &&& forall|i: int, j: int|
            0 <= i < j < self.sensors@.len() ==> self.sensors@[i]@.name != self.sensors@[j]@.name
        &&& forall|i: int, j: int|
            0 <= i < j < self.last_seen@.len() ==> self.last_seen@[i].sensor_id
                != self.last_seen@[j].sensor_id
    }

    /// A store with the given directory and no recorded rows.
    pub fn new(sensors: Vec<SensorRow>) -> (r: StoreModel)
        ensures
            r.sensors@ == sensors@,
            r.metrics@ == Seq::<MetricRow>::empty(),
            r.last_seen@ == Seq::<LastSeenRow>::empty(),
    {
        StoreModel { sensors, metrics: Vec::new(), last_seen: Vec::new() }
    }

    /// Resolve a topic to a sensor identity, as the directory has it.
    pub fn lookup_sensor(&self, topic: &[u8]) -> (r: Option<i32>)
        ensures
            r == spec_lookup(self.sensors_v(), topic@),
    {
        let n = self.sensors.len();
        let mut i: usize = 0;
        assert(self.sensors_v().skip(0) =~= self.sensors_v());
        while i < n
            invariant
                i <= n == self.sensors@.len(),
                spec_lookup(self.sensors_v(), topic@) == spec_lookup(
                    self.sensors_v().skip(i as int),
                    topic@,
                ),
            decreases n - i,
        {
            let ghost pre = self.sensors_v().skip(i as int);
            assert(pre[0] == self.sensors@[i as int]@);
            if bytes_eq(self.sensors[i].name.as_slice(), topic) {
                return Some(self.sensors[i].sensor_id);
            }
            i = i + 1;
            assert(pre.drop_first() =~= self.sensors_v().skip(i as int));
        }
        assert(self.sensors_v().skip(n as int).len() == 0);
        None
    }

    /// Insert or replace the freshness row of `sensor_id`.
    pub fn upsert_last_seen(&mut self, sensor_id: i32, last_seen: Timestamp, modified: Timestamp)
        ensures
            final(self).sensors@ == old(self).sensors@,
            final(self).metrics@ == old(self).metrics@,
            final(self).last_seen@ == spec_ls_upsert(
                old(self).last_seen@,
                sensor_id,
                last_seen,
                modified,
            ),
    {
        let row = LastSeenRow { sensor_id, last_seen, modified };
        let n = self.last_seen.len();
        let mut i: usize = 0;
        proof {
            lemma_ls_find_bounds(self.last_seen@, sensor_id);
        }
        while i < n
            invariant
                i <= n == self.last_seen@.len(),
                row == (LastSeenRow { sensor_id, last_seen, modified }),
                self.sensors@ == old(self).sensors@,
                self.metrics@ == old(self).metrics@,
                self.last_seen@ == old(self).last_seen@,
                forall|k: int| 0 <= k < i ==> self.last_seen@[k].sensor_id != sensor_id,
                spec_ls_find(self.last_seen@, sensor_id) >= 0 ==> spec_ls_find(
                    self.last_seen@,
                    sensor_id,
                ) >= i,
                -1 <= spec_ls_find(self.last_seen@, sensor_id) < n,
                spec_ls_find(self.last_seen@, sensor_id) >= 0 ==> self.last_seen@[spec_ls_find(
                    self.last_seen@,
                    sensor_id,
                )].sensor_id == sensor_id,
                spec_ls_find(self.last_seen@, sensor_id) == -1 ==> forall|k: int|
                    0 <= k < n ==> self.last_seen@[k].sensor_id != sensor_id,
            decreases n - i,
        {
            if self.last_seen[i].sensor_id == sensor_id {
                proof {
                    lemma_ls_find_first(self.last_seen@, sensor_id, i as int);
                }
                self.last_seen.set(i, row);
                return ;
            }
            i = i + 1;
        }
        proof {
            if spec_ls_find(self.last_seen@, sensor_id) >= 0 {
                assert(self.last_seen@[spec_ls_find(self.last_seen@, sensor_id)].sensor_id
                    == sensor_id);
                assert(false);
            }
        }
        self.last_seen.push(row);
    }

    /// Append one row per pending write, all at the same instant, in
    /// the order handed in.
    pub fn append_metrics(&mut self, sensor_id: i32, now: Timestamp, writes: Vec<MetricWrite>)
        ensures
            final(self).sensors@ == old(self).sensors@,
            final(self).last_seen@ == old(self).last_seen@,
            final(self).metrics_v() == old(self).metrics_v() + spec_rows_of(
                writes@.map_values(|w: MetricWrite| w@),
                sensor_id,
                now,
            ),
    {
        let ghost gw = writes@.map_values(|w: MetricWrite| w@);
        let mut ws = writes;
        assert(ws@.map_values(|w: MetricWrite| w@) =~= gw.skip(0));
        assert(self.metrics_v() + spec_rows_of(gw.take(0), sensor_id, now) =~= self.metrics_v());
        while ws.len() > 0
            invariant
                ws@.len() <= gw.len(),
                self.sensors@ == old(self).sensors@,
                self.last_seen@ == old(self).last_seen@,
                ws@.map_values(|w: MetricWrite| w@) == gw.skip(gw.len() - ws@.len()),
                self.metrics_v() == old(self).metrics_v() + spec_rows_of(
                    gw.take(gw.len() - ws@.len()),
                    sensor_id,
                    now,
                ),
            decreases ws@.len(),
        {
            let ghost k = gw.len() - ws@.len();
            let ghost prev = ws@;
            let ghost wsv = ws@.map_values(|w: MetricWrite| w@);
            let w = ws.remove(0);
            assert(ws@ =~= prev.drop_first());
            assert(w@ == wsv[0]);
            assert(w@ == gw[k as int]);
            let ghost pre = self.metrics_v();
            self.metrics.push(MetricRow { metric: w.metric, time: now, sensor_id, value: w.value });
            proof {
                assert(self.metrics_v() =~= pre.push(
                    MetricRowV {
                        metric: gw[k as int].metric,
                        time: now,
                        sensor_id,
                        value: gw[k as int].value,
                    },
                ));
                assert(self.metrics_v() =~= old(self).metrics_v() + spec_rows_of(
                    gw.take(k as int + 1),
                    sensor_id,
                    now,
                ));
                assert forall|j: int| 0 <= j < ws@.len() implies ws@.map_values(
                    |w: MetricWrite| w@,
                )[j] == #[trigger] gw.skip(k + 1)[j] by {
                    assert(ws@[j] == prev[j + 1]);
                    assert(ws@.map_values(|w: MetricWrite| w@)[j] == ws@[j]@);
                    assert(wsv[j + 1] == prev[j + 1]@);
                    assert(wsv[j + 1] == gw.skip(k)[j + 1]);
                    assert(gw.skip(k)[j + 1] == gw[k + 1 + j]);
                    assert(gw.skip(k + 1)[j] == gw[k + 1 + j]);
                }
                assert(ws@.map_values(|w: MetricWrite| w@) =~= gw.skip(k + 1));
            }
        }
        assert(gw.take(gw.len() as int) =~= gw);
    }

    /// How many rows the log holds for one metric table.
    pub fn count_metric_rows(&self, m: Metric) -> (r: usize)
        ensures
            r == spec_metric_count(self.metrics_v(), m),
    {
        let n = self.metrics.len();
        let mut count: usize = 0;
        let mut i: usize = 0;
        assert(self.metrics_v().skip(0) =~= self.metrics_v());
        while i < n
            invariant
                i <= n == self.metrics@.len(),
                count <= i,
                count + spec_metric_count(self.metrics_v().skip(i as int), m) == spec_metric_count(
                    self.metrics_v(),
                    m,
                ),
            decreases n - i,
        {
            let ghost pre = self.metrics_v().skip(i as int);
            assert(pre[0] == self.metrics@[i as int]@);
            if metric_eq(self.metrics[i].metric, m) {
                count = count + 1;
            }
            i = i + 1;
            assert(pre.drop_first() =~= self.metrics_v().skip(i as int));
        }
        assert(self.metrics_v().skip(n as int).len() == 0);
        count
    }

    /// How many freshness rows carry `sensor_id`.
    pub fn count_last_seen_rows(&self, sensor_id: i32) -> (r: usize)
        ensures
            r == spec_ls_count(self.last_seen@, sensor_id),
    {
        let n = self.last_seen.len();
        let mut count: usize = 0;
        let mut i: usize = 0;
        assert(self.last_seen@.skip(0) =~= self.last_seen@);
        while i < n
            invariant
                i <= n == self.last_seen@.len(),
                count <= i,
                count + spec_ls_count(self.last_seen@.skip(i as int), sensor_id) == spec_ls_count(
                    self.last_seen@,
                    sensor_id,
                ),
            decreases n - i,
        {
            let ghost pre = self.last_seen@.skip(i as int);
            assert(pre[0] == self.last_seen@[i as int]);
            if self.last_seen[i].sensor_id == sensor_id {
                count = count + 1;
            }
            i = i + 1;
            assert(pre.drop_first() =~= self.last_seen@.skip(i as int));
        }
        assert(self.last_seen@.skip(n as int).len() == 0);
        count
    }

    /// The freshness row of `sensor_id`, if one stands in the table.
    pub fn get_last_seen(&self, sensor_id: i32) -> (r: Option<LastSeenRow>)
        ensures
            r == spec_ls_get(self.last_seen@, sensor_id),
    {
        proof {
            lemma_ls_find_bounds(self.last_seen@, sensor_id);
        }
        let n = self.last_seen.len();
        let mut i: usize = 0;
        while i < n
            invariant
                i <= n == self.last_seen@.len(),
                forall|k: int| 0 <= k < i ==> self.last_seen@[k].sensor_id != sensor_id,
                -1 <= spec_ls_find(self.last_seen@, sensor_id) < n,
                spec_ls_find(self.last_seen@, sensor_id) >= 0 ==> spec_ls_find(
                    self.last_seen@,
                    sensor_id,
                ) >= i && self.last_seen@[spec_ls_find(self.last_seen@, sensor_id)].sensor_id
                    == sensor_id,
                spec_ls_find(self.last_seen@, sensor_id) == -1 ==> forall|k: int|
                    0 <= k < n ==> self.last_seen@[k].sensor_id != sensor_id,
            decreases n - i,
        {
            if self.last_seen[i].sensor_id == sensor_id {
                proof {
                    lemma_ls_find_first(self.last_seen@, sensor_id, i as int);
                }
                return Some(self.last_seen[i]);
            }
            i = i + 1;
        }
        proof {
            if spec_ls_find(self.last_seen@, sensor_id) >= 0 {
                assert(false);
            }
        }
        None
    }
}

fn metric_eq(a: Metric, b: Metric) -> (r: bool)
    ensures
        r == (a == b),
{
    a == b
}

/// When no earlier row carries the key, the first carrier is the find.
pub proof fn lemma_ls_find_first(s: Seq<LastSeenRow>, sensor_id: i32, i: int)
    requires
        0 <= i < s.len(),
        s[i].sensor_id == sensor_id,
        forall|k: int| 0 <= k < i ==> s[k].sensor_id != sensor_id,
    ensures
        spec_ls_find(s, sensor_id) == i,
    decreases i,
{
    if i > 0 {
        lemma_ls_find_first(s.drop_first(), sensor_id, i - 1);
    }
}

// --- laws of the freshness table ------------------------------------------

proof fn lemma_find_update_same(s: Seq<LastSeenRow>, row: LastSeenRow, f: int)
    requires
        0 <= f < s.len(),
        spec_ls_find(s, row.sensor_id) == f,
    ensures
        spec_ls_find(s.update(f, row), row.sensor_id) == f,
        s.update(f, row)[f] == row,
    decreases f,
{
    let id = row.sensor_id;
    if f == 0 {
        assert(s.update(0, row)[0] == row);
    } else {
        assert(s[0].sensor_id != id);
        assert(spec_ls_find(s.drop_first(), id) == f - 1);
        lemma_find_update_same(s.drop_first(), row, f - 1);
        assert(s.update(f, row).drop_first() =~= s.drop_first().update(f - 1, row));
        assert(s.update(f, row)[0] == s[0]);
    }
}

proof fn lemma_find_push(s: Seq<LastSeenRow>, row: LastSeenRow)
    requires
        spec_ls_find(s, row.sensor_id) == -1,
    ensures
        spec_ls_find(s.push(row), row.sensor_id) == s.len(),
        s.push(row)[s.len() as int] == row,
    decreases s.len(),
{
    let id = row.sensor_id;
    if s.len() == 0 {
        assert(s.push(row)[0] == row);
    } else {
        assert(s[0].sensor_id != id);
        lemma_ls_find_bounds(s.drop_first(), id);
        assert(spec_ls_find(s.drop_first(), id) == -1);
        lemma_find_push(s.drop_first(), row);
        assert(s.push(row).drop_first() =~= s.drop_first().push(row));
        assert(s.push(row)[0] == s[0]);
    }
}

proof fn lemma_count_update_same(s: Seq<LastSeenRow>, row: LastSeenRow, f: int)
    requires
        0 <= f < s.len(),
        s[f].sensor_id == row.sensor_id,
    ensures
        spec_ls_count(s.update(f, row), row.sensor_id) == spec_ls_count(s, row.sensor_id),
    decreases f,
{
    let id = row.sensor_id;
    if f == 0 {
        assert(s.update(0, row)[0] == row);
        assert(s.update(0, row).drop_first() =~= s.drop_first());
    } else {
        lemma_count_update_same(s.drop_first(), row, f - 1);
        assert(s.update(f, row).drop_first() =~= s.drop_first().update(f - 1, row));
        assert(s.update(f, row)[0] == s[0]);
    }
}

proof fn lemma_count_push(s: Seq<LastSeenRow>, row: LastSeenRow)
    ensures
        spec_ls_count(s.push(row), row.sensor_id) == spec_ls_count(s, row.sensor_id) + 1,
    decreases s.len(),
{
    let id = row.sensor_id;
    if s.len() == 0 {
        assert(s.push(row)[0] == row);
        assert(s.push(row).drop_first() =~= Seq::<LastSeenRow>::empty());
        assert(spec_ls_count(s.push(row).drop_first(), id) == 0);
        assert(spec_ls_count(s.push(row), id) == 1 + spec_ls_count(s.push(row).drop_first(), id));
    } else {
        lemma_count_push(s.drop_first(), row);
        assert(s.push(row).drop_first() =~= s.drop_first().push(row));
        assert(s.push(row)[0] == s[0]);
        assert(spec_ls_count(s.push(row), id) == (if s[0].sensor_id == id { 1int } else { 0int })
            + spec_ls_count(s.drop_first().push(row), id));
    }
}

proof fn lemma_count_nonneg(s: Seq<LastSeenRow>, sensor_id: i32)
    ensures
        spec_ls_count(s, sensor_id) >= 0,
    decreases s.len(),
{
    if s.len() > 0 {
        lemma_count_nonneg(s.drop_first(), sensor_id);
    }
}

proof fn lemma_count_zero_find(s: Seq<LastSeenRow>, sensor_id: i32)
    requires
        spec_ls_count(s, sensor_id) == 0,
    ensures
        spec_ls_find(s, sensor_id) == -1,
    decreases s.len(),
{
    if s.len() > 0 {
        lemma_count_nonneg(s.drop_first(), sensor_id);
        lemma_count_zero_find(s.drop_first(), sensor_id);
    }
}

/// After an upsert the table holds the upserted pair for that sensor,
/// and a sensor the table did not know gains exactly one row; a known
/// sensor's row is replaced, never duplicated.
pub proof fn lemma_upsert_replaces(
    s: Seq<LastSeenRow>,
    sensor_id: i32,
    last_seen: Timestamp,
    modified: Timestamp,
)
    ensures
        spec_ls_get(spec_ls_upsert(s, sensor_id, last_seen, modified), sensor_id)
            == Option::Some(LastSeenRow { sensor_id, last_seen, modified }),
        spec_ls_count(s, sensor_id) == 0 ==> spec_ls_count(
            spec_ls_upsert(s, sensor_id, last_seen, modified),
            sensor_id,
        ) == 1,
        spec_ls_count(s, sensor_id) > 0 ==> spec_ls_count(
            spec_ls_upsert(s, sensor_id, last_seen, modified),
            sensor_id,
        ) == spec_ls_count(s, sensor_id),
{
    let row = LastSeenRow { sensor_id, last_seen, modified };
    let f = spec_ls_find(s, sensor_id);
    lemma_ls_find_bounds(s, sensor_id);
    if f >= 0 {
        lemma_find_update_same(s, row, f);
        lemma_count_update_same(s, row, f);
        if spec_ls_count(s, sensor_id) == 0 {
            lemma_count_zero_find(s, sensor_id);
        }
    } else {
        lemma_find_push(s, row);
        lemma_count_push(s, row);
        if spec_ls_count(s, sensor_id) > 0 {
            lemma_count_pos_find(s, sensor_id);
        }
    }
}

proof fn lemma_count_pos_find(s: Seq<LastSeenRow>, sensor_id: i32)
    requires
        spec_ls_count(s, sensor_id) > 0,
    ensures
        spec_ls_find(s, sensor_id) >= 0,
    decreases s.len(),
{
    if s.len() > 0 && s[0].sensor_id != sensor_id {
        lemma_count_pos_find(s.drop_first(), sensor_id);
    }
    if s.len() > 0 {
        lemma_count_nonneg(s.drop_first(), sensor_id);
    }
}

/// Upserting the same sensor twice leaves its latest pair and, from an
/// empty slate for that sensor, exactly one row.
pub proof fn lemma_upsert_twice(
    s: Seq<LastSeenRow>,
    sensor_id: i32,
    t1: Timestamp,
    m1: Timestamp,
    t2: Timestamp,
    m2: Timestamp,
)
    ensures
        spec_ls_get(
            spec_ls_upsert(spec_ls_upsert(s, sensor_id, t1, m1), sensor_id, t2, m2),
            sensor_id,
        ) == Option::Some(LastSeenRow { sensor_id, last_seen: t2, modified: m2 }),
        spec_ls_count(s, sensor_id) == 0 ==> spec_ls_count(
            spec_ls_upsert(spec_ls_upsert(s, sensor_id, t1, m1), sensor_id, t2, m2),
            sensor_id,
        ) == 1,
{
    lemma_upsert_replaces(s, sensor_id, t1, m1);
    lemma_upsert_replaces(spec_ls_upsert(s, sensor_id, t1, m1), sensor_id, t2, m2);
}

} // verus!
