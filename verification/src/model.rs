use vstd::prelude::*;
use crate::text::{decimal, decimal_string, digits_value, lemma_decimal_reads_back};

verus! {

/// A reading of one tag. `F32` carries the IEEE-754 bit pattern of the
/// single-precision value, so that the library never computes with floats.
#[derive(Clone, Copy, Debug, PartialEq, Eq, Structural)]
pub enum Value {
    U16(u16),
    I16(i16),
    U32(u32),
    I32(i32),
    F32(u32),
    Bool(bool),
}

/// Decimal notation of `n`, with a leading `-` when negative.
pub open spec fn signed_decimal(n: int) -> Seq<char> {
    if n < 0 {
        seq!['-'] + decimal((-n) as nat)
    } else {
        decimal(n as nat)
    }
}

/// How a value is written for people: integers in decimal, booleans as
/// `true` or `false`. A float's text is not the library's to write.
pub open spec fn value_text(v: Value) -> Option<Seq<char>> {
    match v {
        Value::U16(x) => Some(decimal(x as nat)),
        Value::I16(x) => Some(signed_decimal(x as int)),
        Value::U32(x) => Some(decimal(x as nat)),
        Value::I32(x) => Some(signed_decimal(x as int)),
        Value::F32(_) => None,
        Value::Bool(b) => Some(if b { "true"@ } else { "false"@ }),
    }
}

/// The number a signed decimal text reads as.
pub open spec fn signed_value(s: Seq<char>) -> int {
    if s.len() > 0 && s[0] == '-' {
        -digits_value(s.drop_first())
    } else {
        digits_value(s)
    }
}

/// The text of an integer reading reads back as its value (a leading `-`
/// only for negatives), booleans are written `true` and `false`, and only a
/// float has no text.
pub proof fn lemma_value_text_reads_back(v: Value)
    ensures
        match v {
            Value::U16(x) => value_text(v) matches Some(t) && signed_value(t) == x && t[0] != '-',
            Value::I16(x) => value_text(v) matches Some(t) && signed_value(t) == x && (t[0] == '-' <==> x < 0),
            Value::U32(x) => value_text(v) matches Some(t) && signed_value(t) == x && t[0] != '-',
            Value::I32(x) => value_text(v) matches Some(t) && signed_value(t) == x && (t[0] == '-' <==> x < 0),
            Value::Bool(b) => value_text(v) == Some(if b { "true"@ } else { "false"@ }),
            Value::F32(_) => value_text(v) is None,
        },
{
    let n: int = match v {
        Value::U16(x) => x as int,
        Value::I16(x) => x as int,
        Value::U32(x) => x as int,
        Value::I32(x) => x as int,
        _ => 0,
    };
    let m: nat = if n < 0 { (-n) as nat } else { n as nat };
    lemma_decimal_reads_back(m);
    assert('0' <= decimal(m)[0] <= '9');
    if n < 0 {
        let t = seq!['-'] + decimal(m);
        assert(t.drop_first() =~= decimal(m));
        assert(t[0] == '-');
    }
}

fn signed_decimal_string(n: i64) -> (r: String)
    requires
        n > i64::MIN,
    ensures
        r@ == signed_decimal(n as int),
{
    if n < 0 {
        let m: i64 = -n;
        let minus = String::from_str("-");
        proof { reveal_strlit("-"); }
        let r = minus.concat(decimal_string(m as u64).as_str());
        assert(r@ =~= seq!['-'] + decimal((-n) as nat));
        r
    } else {
        decimal_string(n as u64)
    }
}

impl Value {
    /// The value as people read it: integers in decimal, booleans as `true`
    /// or `false`; `None` for a float, whose text the host writes itself.
    pub fn text(&self) -> (r: Option<String>)
        ensures
            match r {
                Some(s) => value_text(*self) == Some(s@),
                None => value_text(*self) is None,
            },
    {
        match self {
            Value::U16(x) => Some(decimal_string(*x as u64)),
            Value::I16(x) => Some(signed_decimal_string(*x as i64)),
            Value::U32(x) => Some(decimal_string(*x as u64)),
            Value::I32(x) => Some(signed_decimal_string(*x as i64)),
            Value::F32(_) => None,
            Value::Bool(b) => Some(if *b { String::from_str("true") } else { String::from_str("false") }),
        }
    }
}

/// Quality of a sample; its code is its position (Good 0, Bad 1, Stale 2).
#[derive(Clone, Copy, Debug, PartialEq, Eq, Structural)]
pub enum Quality {
    Good,
    Bad,
    Stale,
}

/// The register layout of a tag.
#[derive(Clone, Copy, Debug, PartialEq, Eq, Structural)]
pub enum DataType {
    U16,
    I16,
    U32,
    I32,
    F32,
    Bool,
}

/// Order of the four bytes of a 32-bit quantity spread over two registers
/// `hi = AB`, `lo = CD`.
#[derive(Clone, Copy, Debug, PartialEq, Eq, Structural)]
pub enum ByteOrder {
    Abcd,
    Badc,
    Cdab,
    Dcba,
}

} // verus!

verus! {

pub type DeviceId = String;

pub type TagId = String;

/// Numeric code under which a quality is stored: its position in the enum.
pub open spec fn quality_code_spec(q: Quality) -> i32 {
    match q {
        Quality::Good => 0,
        Quality::Bad => 1,
        Quality::Stale => 2,
    }
}

/// The quality a stored code stands for; unknown codes read as `Stale`.
pub open spec fn quality_from_code_spec(code: i32) -> Quality {
    if code == 0 {
        Quality::Good
    } else if code == 1 {
        Quality::Bad
    } else {
        Quality::Stale
    }
}

impl Quality {
    /// The code this quality is stored under.
    pub fn code(self) -> (r: i32)
        ensures
            r == quality_code_spec(self),
    {
        match self {
            Quality::Good => 0,
            Quality::Bad => 1,
            Quality::Stale => 2,
        }
    }

    /// The quality a stored code stands for.
    pub fn from_code(code: i32) -> (r: Quality)
        ensures
            r == quality_from_code_spec(code),
    {
        if code == 0 {
            Quality::Good
        } else if code == 1 {
            Quality::Bad
        } else {
            Quality::Stale
        }
    }
}

/// Every quality reads back from its own code.
pub proof fn lemma_quality_code_roundtrip(q: Quality)
    ensures
        quality_from_code_spec(quality_code_spec(q)) == q,
{
}

/// One timestamped reading of a tag; `ts_ms` is Unix time in milliseconds.
#[derive(Debug)]
pub struct Sample {
    pub tag_id: TagId,
    pub ts_ms: i64,
    pub value: Value,
    pub quality: Quality,
}

impl Clone for Sample {
    fn clone(&self) -> (r: Self)
        ensures
            r == *self,
    {
        Sample { tag_id: self.tag_id.clone(), ts_ms: self.ts_ms, value: self.value, quality: self.quality }
    }
}

/// What the front end receives for one tag.
#[derive(Debug)]
pub struct TagUpdate {
    pub tag_id: TagId,
    pub ts_ms: i64,
    pub value: Value,
    pub unit: String,
    pub quality: Quality,
}

impl Clone for TagUpdate {
    fn clone(&self) -> (r: Self)
        ensures
            r == *self,
    {
        TagUpdate {
            tag_id: self.tag_id.clone(),
            ts_ms: self.ts_ms,
            value: self.value,
            unit: self.unit.clone(),
            quality: self.quality,
        }
    }
}

impl TagUpdate {
    /// The update that carries a sample: same tag, time, value and quality, no unit.
    pub fn from_sample(s: &Sample) -> (r: TagUpdate)
        ensures
            r.tag_id == s.tag_id,
            r.ts_ms == s.ts_ms,
            r.value == s.value,
            r.quality == s.quality,
            r.unit@ == Seq::<char>::empty(),
    {
        TagUpdate {
            tag_id: s.tag_id.clone(),
            ts_ms: s.ts_ms,
            value: s.value,
            unit: String::new(),
            quality: s.quality,
        }
    }
}

/// How a device is reached.
#[derive(Debug)]
#[allow(inconsistent_fields)]
pub enum TransportSpec {
    Tcp { host: String, port: u16 },
    Rtu { port: String, baud: u32, data_bits: u8, parity: String, stop_bits: u8 },
}

impl Clone for TransportSpec {
    fn clone(&self) -> (r: Self)
        ensures
            r == *self,
    {
        match self {
            TransportSpec::Tcp { host, port } => TransportSpec::Tcp { host: host.clone(), port: *port },
            TransportSpec::Rtu { port, baud, data_bits, parity, stop_bits } => TransportSpec::Rtu {
                port: port.clone(),
                baud: *baud,
                data_bits: *data_bits,
                parity: parity.clone(),
                stop_bits: *stop_bits,
            },
        }
    }
}

/// The protocol parameters that the library reads out of a device's or a
/// tag's parameter block (each present only when the block holds that key with
/// a value of the right kind), beside the block's own text, which is carried
/// through unchanged.
#[derive(Debug)]
pub struct ProtocolParams {
    pub address: Option<u64>,
    pub quantity: Option<u64>,
    pub function: Option<String>,
    pub slave_id: Option<u64>,
    pub text: String,
}

impl Clone for ProtocolParams {
    fn clone(&self) -> (r: Self)
        ensures
            r == *self,
    {
        ProtocolParams {
            address: self.address,
            quantity: self.quantity,
            function: match &self.function {
                Some(f) => Some(f.clone()),
                None => None,
            },
            slave_id: self.slave_id,
            text: self.text.clone(),
        }
    }
}

impl ProtocolParams {
    /// An empty parameter block, `{}`.
    pub fn empty() -> (r: ProtocolParams)
        ensures
            r.address is None,
            r.quantity is None,
            r.function is None,
            r.slave_id is None,
            r.text@ == "{}"@,
    {
        ProtocolParams { address: None, quantity: None, function: None, slave_id: None, text: String::from_str("{}") }
    }
}

/// A field device.
#[derive(Debug)]
pub struct Device {
    pub id: DeviceId,
    pub name: String,
    pub enabled: bool,
    pub protocol: String,
    pub transport: TransportSpec,
    pub protocol_params: ProtocolParams,
    pub poll_interval_ms: u64,
    pub timeout_ms: u64,
}

impl Clone for Device {
    fn clone(&self) -> (r: Self)
        ensures
            r == *self,
    {
        Device {
            id: self.id.clone(),
            name: self.name.clone(),
            enabled: self.enabled,
            protocol: self.protocol.clone(),
            transport: self.transport.clone(),
            protocol_params: self.protocol_params.clone(),
            poll_interval_ms: self.poll_interval_ms,
            timeout_ms: self.timeout_ms,
        }
    }
}

impl Default for Device {
    /// Device "default": a Modbus TCP device at 127.0.0.1:502, enabled,
    /// polled every second with a one second timeout.
    fn default() -> (r: Self)
        ensures
            r.id@ == "default"@,
            r.name@ == "Default"@,
            r.enabled,
            r.protocol@ == "modbus"@,
            r.transport matches TransportSpec::Tcp { host, port } && host@ == "127.0.0.1"@ && port == 502,
            r.protocol_params.address is None,
            r.protocol_params.quantity is None,
            r.protocol_params.function is None,
            r.protocol_params.slave_id is None,
            r.protocol_params.text@ == "{}"@,
            r.poll_interval_ms == 1000,
            r.timeout_ms == 1000,
    {
        Device {
            id: String::from_str("default"),
            name: String::from_str("Default"),
            enabled: true,
            protocol: String::from_str("modbus"),
            transport: TransportSpec::Tcp { host: String::from_str("127.0.0.1"), port: 502 },
            protocol_params: ProtocolParams::empty(),
            poll_interval_ms: 1000,
            timeout_ms: 1000,
        }
    }
}

/// IEEE-754 double bit pattern of 1.0.
pub const F64_ONE_BITS: u64 = 0x3FF0_0000_0000_0000;

/// A data point of a device. `scale_bits` and `offset_bits` are the bit
/// patterns of the double-precision scale and offset applied to 32-bit floats.
#[derive(Debug)]
pub struct Tag {
    pub id: TagId,
    pub device_id: DeviceId,
    pub name: String,
    pub enabled: bool,
    pub data_type: DataType,
    pub byte_order: ByteOrder,
    pub scale_bits: u64,
    pub offset_bits: u64,
    pub unit: String,
    pub writable: bool,
    pub protocol_params: ProtocolParams,
}

impl Clone for Tag {
    fn clone(&self) -> (r: Self)
        ensures
            r == *self,
    {
        Tag {
            id: self.id.clone(),
            device_id: self.device_id.clone(),
            name: self.name.clone(),
            enabled: self.enabled,
            data_type: self.data_type,
            byte_order: self.byte_order,
            scale_bits: self.scale_bits,
            offset_bits: self.offset_bits,
            unit: self.unit.clone(),
            writable: self.writable,
            protocol_params: self.protocol_params.clone(),
        }
    }
}

impl Default for Tag {
    /// Tag "default/t" of device "default": an enabled, read-only U16 in
    /// ABCD order, scale 1, offset 0, no unit.
    fn default() -> (r: Self)
        ensures
            r.id@ == "default/t"@,
            r.device_id@ == "default"@,
            r.name@ == "Default"@,
            r.enabled,
            r.data_type == DataType::U16,
            r.byte_order == ByteOrder::Abcd,
            r.scale_bits == F64_ONE_BITS,
            r.offset_bits == 0,
            r.unit@ == Seq::<char>::empty(),
            !r.writable,
            r.protocol_params.address is None,
            r.protocol_params.quantity is None,
            r.protocol_params.function is None,
            r.protocol_params.slave_id is None,
            r.protocol_params.text@ == "{}"@,
    {
        Tag {
            id: String::from_str("default/t"),
            device_id: String::from_str("default"),
            name: String::from_str("Default"),
            enabled: true,
            data_type: DataType::U16,
            byte_order: ByteOrder::Abcd,
            scale_bits: F64_ONE_BITS,
            offset_bits: 0,
            unit: String::new(),
            writable: false,
            protocol_params: ProtocolParams::empty(),
        }
    }
}

/// Connection state of a device as the front end sees it.
#[derive(Debug)]
pub struct DeviceState {
    pub device_id: DeviceId,
    pub online: bool,
    pub error_count: u64,
    pub last_error: Option<String>,
    pub last_poll_at_ms: Option<i64>,
}

impl Clone for DeviceState {
    fn clone(&self) -> (r: Self)
        ensures
            r == *self,
    {
        DeviceState {
            device_id: self.device_id.clone(),
            online: self.online,
            error_count: self.error_count,
            last_error: match &self.last_error {
                Some(e) => Some(e.clone()),
                None => None,
            },
            last_poll_at_ms: self.last_poll_at_ms,
        }
    }
}

/// A copy of each sample, in order.
pub fn clone_samples(samples: &Vec<Sample>) -> (r: Vec<Sample>)
    ensures
        r@ == samples@,
{
    let mut r: Vec<Sample> = Vec::new();
    let n = samples.len();
    let mut i: usize = 0;
    while i < n
        invariant
            n == samples@.len(),
            0 <= i <= n,
            r@ == samples@.take(i as int),
        decreases n - i,
    {
        r.push(samples[i].clone());
        assert(r@ =~= samples@.take(i + 1));
        i += 1;
    }
    assert(samples@.take(n as int) =~= samples@);
    r
}

/// Whether the runtime runs, and the state of each configured device.
#[derive(Debug)]
pub struct RuntimeStatus {
    pub running: bool,
    pub devices: Vec<DeviceState>,
}

#[derive(Debug)]
pub struct ProjectRuntime {
    pub default_poll_interval_ms: u64,
}

#[derive(Debug)]
pub struct ProjectStorage {
    pub history_sampling_ms: u64,
    pub trend_max_points: u32,
}

/// A project; `path` is its directory, set once it is on disk.
#[derive(Debug)]
pub struct Project {
    pub name: String,
    pub version: u32,
    pub path: Option<String>,
    pub runtime: ProjectRuntime,
    pub storage: ProjectStorage,
}

impl Clone for ProjectRuntime {
    fn clone(&self) -> (r: Self)
        ensures
            r == *self,
    {
        ProjectRuntime { default_poll_interval_ms: self.default_poll_interval_ms }
    }
}

impl Clone for ProjectStorage {
    fn clone(&self) -> (r: Self)
        ensures
            r == *self,
    {
        ProjectStorage { history_sampling_ms: self.history_sampling_ms, trend_max_points: self.trend_max_points }
    }
}

impl Clone for Project {
    fn clone(&self) -> (r: Self)
        ensures
            r == *self,
    {
        Project {
            name: self.name.clone(),
            version: self.version,
            path: match &self.path {
                Some(p) => Some(p.clone()),
                None => None,
            },
            runtime: self.runtime.clone(),
            storage: self.storage.clone(),
        }
    }
}

impl Default for Project {
    /// The new, unsaved project "新工程", schema version 1, polling and
    /// sampling every second, at most 2000 trend points.
    fn default() -> (r: Self)
        ensures
            r.name@ == "新工程"@,
            r.version == 1,
            r.path is None,
            r.runtime.default_poll_interval_ms == 1000,
            r.storage.history_sampling_ms == 1000,
            r.storage.trend_max_points == 2000,
    {
        Project {
            name: String::from_str("新工程"),
            version: 1,
            path: None,
            runtime: ProjectRuntime { default_poll_interval_ms: 1000 },
            storage: ProjectStorage { history_sampling_ms: 1000, trend_max_points: 2000 },
        }
    }
}

/// A line of the operation log; `ts_ms` is Unix time in milliseconds.
#[derive(Debug)]
pub struct LogEntry {
    pub ts_ms: i64,
    pub level: String,
    pub message: String,
}

impl Clone for LogEntry {
    fn clone(&self) -> (r: Self)
        ensures
            r == *self,
    {
        LogEntry { ts_ms: self.ts_ms, level: self.level.clone(), message: self.message.clone() }
    }
}

} // verus!
