use vstd::prelude::*;

verus! {

/// Why a payload could not be decoded into a reading.
#[derive(Clone, Copy, Debug, PartialEq, Eq, Structural)]
pub enum DecodeError {
    /// The payload bytes are not valid UTF-8 text.
    InvalidEncoding,
    /// The payload text is not a well-formed object with the expected
    /// field types.
    MalformedPayload,
}

/// Why a freshness string could not be resolved to an absolute instant.
#[derive(Clone, Copy, Debug, PartialEq, Eq, Structural)]
pub enum TimestampError {
    /// The text is not an offset-qualified date-time, or names a civil
    /// time that does not exist on the calendar.
    NotATimestamp,
}

/// The literal text of a decimal number as it appeared in a payload.
///
/// Fractional sensor values (temperature, humidity, ...) are carried
/// through the pipeline as their exact source text; only the store
/// adapter at the edge turns them into a machine number.
#[derive(Clone, Debug)]
pub struct NumberLit {
    pub text: Vec<u8>,
}

impl View for NumberLit {
    type V = Seq<u8>;

    open spec fn view(&self) -> Seq<u8> {
        self.text@
    }
}

/// One decoded sensor reading. Every field is independently optional:
/// an absent field means "do not write that metric this round".
#[derive(Clone, Debug)]
pub struct SensorReading {
    pub battery_low: Option<bool>,
    pub battery: Option<NumberLit>,
    pub humidity: Option<NumberLit>,
    pub illuminance: Option<i32>,
    pub last_seen: Option<Vec<u8>>,
    pub occupancy: Option<bool>,
    pub pressure: Option<NumberLit>,
    pub temperature: Option<NumberLit>,
    pub voltage: Option<i32>,
    pub water_leak: Option<bool>,
}

/// The mathematical value of a reading: number literals and the
/// freshness string abstracted to byte sequences.
pub struct ReadingV {
    pub battery_low: Option<bool>,
    pub battery: Option<Seq<u8>>,
    pub humidity: Option<Seq<u8>>,
    pub illuminance: Option<i32>,
    pub last_seen: Option<Seq<u8>>,
    pub occupancy: Option<bool>,
    pub pressure: Option<Seq<u8>>,
    pub temperature: Option<Seq<u8>>,
    pub voltage: Option<i32>,
    pub water_leak: Option<bool>,
}

pub open spec fn view_opt_num(o: Option<NumberLit>) -> Option<Seq<u8>> {
    match o {
        Option::Some(n) => Option::Some(n@),
        Option::None => Option::None,
    }
}

pub open spec fn view_opt_bytes(o: Option<Vec<u8>>) -> Option<Seq<u8>> {
    match o {
        Option::Some(b) => Option::Some(b@),
        Option::None => Option::None,
    }
}

impl View for SensorReading {
    type V = ReadingV;

    open spec fn view(&self) -> ReadingV {
        ReadingV {
            battery_low: self.battery_low,
            battery: view_opt_num(self.battery),
            humidity: view_opt_num(self.humidity),
            illuminance: self.illuminance,
            last_seen: view_opt_bytes(self.last_seen),
            occupancy: self.occupancy,
            pressure: view_opt_num(self.pressure),
            temperature: view_opt_num(self.temperature),
            voltage: self.voltage,
            water_leak: self.water_leak,
        }
    }
}

impl SensorReading {
    /// A reading with every field absent: the decoding of `{}`.
    pub fn empty() -> (r: SensorReading)
        ensures
            r@ == empty_reading(),
    {
        SensorReading {
            battery_low: Option::None,
            battery: Option::None,
            humidity: Option::None,
            illuminance: Option::None,
            last_seen: Option::None,
            occupancy: Option::None,
            pressure: Option::None,
            temperature: Option::None,
            voltage: Option::None,
            water_leak: Option::None,
        }
    }
}

pub open spec fn empty_reading() -> ReadingV {
    ReadingV {
        battery_low: Option::None,
        battery: Option::None,
        humidity: Option::None,
        illuminance: Option::None,
        last_seen: Option::None,
        occupancy: Option::None,
        pressure: Option::None,
        temperature: Option::None,
        voltage: Option::None,
        water_leak: Option::None,
    }
}

/// Which fields a payload has named so far. A field set to null is
/// absent from the reading yet seen, so a second occurrence is still
/// a duplicate.
#[derive(Clone, Copy, Debug, PartialEq, Eq, Structural)]
pub struct FieldsSeen {
    pub battery_low: bool,
    pub battery: bool,
    pub humidity: bool,
    pub illuminance: bool,
    pub last_seen: bool,
    pub occupancy: bool,
    pub pressure: bool,
    pub temperature: bool,
    pub voltage: bool,
    pub water_leak: bool,
}

pub open spec fn no_fields_seen() -> FieldsSeen {
    FieldsSeen {
        battery_low: false,
        battery: false,
        humidity: false,
        illuminance: false,
        last_seen: false,
        occupancy: false,
        pressure: false,
        temperature: false,
        voltage: false,
        water_leak: false,
    }
}

impl FieldsSeen {
    /// The state before any field has been met.
    pub fn none() -> (r: FieldsSeen)
        ensures
            r == no_fields_seen(),
    {
        FieldsSeen {
            battery_low: false,
            battery: false,
            humidity: false,
            illuminance: false,
            last_seen: false,
            occupancy: false,
            pressure: false,
            temperature: false,
            voltage: false,
            water_leak: false,
        }
    }
}

/// The closed set of destination tables, one per measured quantity.
#[derive(Clone, Copy, Debug, PartialEq, Eq, Structural)]
pub enum Metric {
    Temperature,
    Humidity,
    Battery,
    Pressure,
    Occupancy,
    Illuminance,
    BatteryLow,
    Voltage,
    WaterLeak,
}

/// A value bound for a metric table, in the closed union of column
/// types: a flag, a decimal literal, or a machine integer.
#[derive(Clone, Debug)]
pub enum MetricValue {
    Flag(bool),
    Number(NumberLit),
    Count(i32),
}

/// The mathematical value of a `MetricValue`.
pub enum MetricValueV {
    Flag(bool),
    Number(Seq<u8>),
    Count(i32),
}

impl View for MetricValue {
    type V = MetricValueV;

    open spec fn view(&self) -> MetricValueV {
        match self {
            MetricValue::Flag(b) => MetricValueV::Flag(*b),
            MetricValue::Number(n) => MetricValueV::Number(n@),
            MetricValue::Count(i) => MetricValueV::Count(*i),
        }
    }
}

/// One pending insert of a message: which table, and which value.
#[derive(Clone, Debug)]
pub struct MetricWrite {
    pub metric: Metric,
    pub value: MetricValue,
}

pub struct MetricWriteV {
    pub metric: Metric,
    pub value: MetricValueV,
}

impl View for MetricWrite {
    type V = MetricWriteV;

    open spec fn view(&self) -> MetricWriteV {
        MetricWriteV { metric: self.metric, value: self.value@ }
    }
}

/// The writes a reading asks for, in the fixed enumeration order of
/// the metric set. Absent fields contribute nothing.
pub open spec fn spec_metric_writes(r: ReadingV) -> Seq<MetricWriteV> {
    let s0: Seq<MetricWriteV> = Seq::empty();
    let s1 = match r.temperature {
        Option::Some(n) => s0.push(
            MetricWriteV { metric: Metric::Temperature, value: MetricValueV::Number(n) },
        ),
        Option::None => s0,
    };
    let s2 = match r.humidity {
        Option::Some(n) => s1.push(
            MetricWriteV { metric: Metric::Humidity, value: MetricValueV::Number(n) },
        ),
        Option::None => s1,
    };
    let s3 = match r.battery {
        Option::Some(n) => s2.push(
            MetricWriteV { metric: Metric::Battery, value: MetricValueV::Number(n) },
        ),
        Option::None => s2,
    };
    let s4 = match r.pressure {
        Option::Some(n) => s3.push(
            MetricWriteV { metric: Metric::Pressure, value: MetricValueV::Number(n) },
        ),
        Option::None => s3,
    };
    let s5 = match r.occupancy {
        Option::Some(b) => s4.push(
            MetricWriteV { metric: Metric::Occupancy, value: MetricValueV::Flag(b) },
        ),
        Option::None => s4,
    };
    let s6 = match r.illuminance {
        Option::Some(i) => s5.push(
            MetricWriteV { metric: Metric::Illuminance, value: MetricValueV::Count(i) },
        ),
        Option::None => s5,
    };
    let s7 = match r.battery_low {
        Option::Some(b) => s6.push(
            MetricWriteV { metric: Metric::BatteryLow, value: MetricValueV::Flag(b) },
        ),
        Option::None => s6,
    };
    let s8 = match r.voltage {
        Option::Some(i) => s7.push(
            MetricWriteV { metric: Metric::Voltage, value: MetricValueV::Count(i) },
        ),
        Option::None => s7,
    };
    match r.water_leak {
        Option::Some(b) => s8.push(
            MetricWriteV { metric: Metric::WaterLeak, value: MetricValueV::Flag(b) },
        ),
        Option::None => s8,
    }
}

/// Turn a decoded reading into its pending writes, in the fixed
/// enumeration order. Consumes the reading; the freshness field takes
/// no part here.
pub fn metric_writes(r: SensorReading) -> (v: Vec<MetricWrite>)
    ensures
        v@.map_values(|w: MetricWrite| w@) == spec_metric_writes(r@),
{
    let ghost gr = r@;
    let mut v: Vec<MetricWrite> = Vec::new();
    assert(v@.map_values(|w: MetricWrite| w@) =~= Seq::<MetricWriteV>::empty());
    if let Option::Some(n) = r.temperature {
        let ghost pre = v@;
        v.push(MetricWrite { metric: Metric::Temperature, value: MetricValue::Number(n) });
        assert(v@.map_values(|w: MetricWrite| w@) =~= pre.map_values(|w: MetricWrite| w@).push(
            MetricWriteV { metric: Metric::Temperature, value: MetricValueV::Number(gr.temperature->Some_0) },
        ));
    }
    if let Option::Some(n) = r.humidity {
        let ghost pre = v@;
        v.push(MetricWrite { metric: Metric::Humidity, value: MetricValue::Number(n) });
        assert(v@.map_values(|w: MetricWrite| w@) =~= pre.map_values(|w: MetricWrite| w@).push(
            MetricWriteV { metric: Metric::Humidity, value: MetricValueV::Number(gr.humidity->Some_0) },
        ));
    }
    if let Option::Some(n) = r.battery {
        let ghost pre = v@;
        v.push(MetricWrite { metric: Metric::Battery, value: MetricValue::Number(n) });
        assert(v@.map_values(|w: MetricWrite| w@) =~= pre.map_values(|w: MetricWrite| w@).push(
            MetricWriteV { metric: Metric::Battery, value: MetricValueV::Number(gr.battery->Some_0) },
        ));
    }
    if let Option::Some(n) = r.pressure {
        let ghost pre = v@;
        v.push(MetricWrite { metric: Metric::Pressure, value: MetricValue::Number(n) });
        assert(v@.map_values(|w: MetricWrite| w@) =~= pre.map_values(|w: MetricWrite| w@).push(
            MetricWriteV { metric: Metric::Pressure, value: MetricValueV::Number(gr.pressure->Some_0) },
        ));
    }
    if let Option::Some(b) = r.occupancy {
        let ghost pre = v@;
        v.push(MetricWrite { metric: Metric::Occupancy, value: MetricValue::Flag(b) });
        assert(v@.map_values(|w: MetricWrite| w@) =~= pre.map_values(|w: MetricWrite| w@).push(
            MetricWriteV { metric: Metric::Occupancy, value: MetricValueV::Flag(b) },
        ));
    }
    if let Option::Some(i) = r.illuminance {
        let ghost pre = v@;
        v.push(MetricWrite { metric: Metric::Illuminance, value: MetricValue::Count(i) });
        assert(v@.map_values(|w: MetricWrite| w@) =~= pre.map_values(|w: MetricWrite| w@).push(
            MetricWriteV { metric: Metric::Illuminance, value: MetricValueV::Count(i) },
        ));
    }
    if let Option::Some(b) = r.battery_low {
        let ghost pre = v@;
        v.push(MetricWrite { metric: Metric::BatteryLow, value: MetricValue::Flag(b) });
        assert(v@.map_values(|w: MetricWrite| w@) =~= pre.map_values(|w: MetricWrite| w@).push(
            MetricWriteV { metric: Metric::BatteryLow, value: MetricValueV::Flag(b) },
        ));
    }
    if let Option::Some(i) = r.voltage {
        let ghost pre = v@;
        v.push(MetricWrite { metric: Metric::Voltage, value: MetricValue::Count(i) });
        assert(v@.map_values(|w: MetricWrite| w@) =~= pre.map_values(|w: MetricWrite| w@).push(
            MetricWriteV { metric: Metric::Voltage, value: MetricValueV::Count(i) },
        ));
    }
    if let Option::Some(b) = r.water_leak {
        let ghost pre = v@;
        v.push(MetricWrite { metric: Metric::WaterLeak, value: MetricValue::Flag(b) });
        assert(v@.map_values(|w: MetricWrite| w@) =~= pre.map_values(|w: MetricWrite| w@).push(
            MetricWriteV { metric: Metric::WaterLeak, value: MetricValueV::Flag(b) },
        ));
    }
    v
}

} // verus!
