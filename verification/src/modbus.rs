use vstd::prelude::*;
use crate::decoder::{decode_registers, decoded};
use crate::error::SourceError;
use crate::model::{ByteOrder, DataType, DeviceId, ProtocolParams, Quality, Sample, Tag, Value};
use crate::source::{PollOutcome, SourceHealth, WriteRequest};

verus! {

/// The low 16 bits of a parameter (a register address or count).
pub open spec fn low16(x: u64) -> u16 {
    (x % 0x1_0000) as u16
}

/// Which Modbus read serves a tag, and where.
#[derive(Debug)]
pub enum ReadPlan {
    Holding { address: u16, quantity: u16 },
    Input { address: u16, quantity: u16 },
    Coil { address: u16, quantity: u16 },
    Discrete { address: u16, quantity: u16 },
    Unknown { function: String },
}

/// The read a tag's parameters ask for: function `read_holding` (the
/// default), `read_input`, `read_coil` or `read_discrete`, at `address`
/// (default 0), over `quantity` registers (default 1); coils and discrete
/// inputs are read one at a time.
pub open spec fn read_plan_spec(p: ProtocolParams) -> ReadPlan {
    let address = low16(match p.address { Some(a) => a, None => 0 });
    let quantity = low16(match p.quantity { Some(q) => q, None => 1 });
    match p.function {
        None => ReadPlan::Holding { address, quantity },
        Some(f) => if f@ == "read_holding"@ {
            ReadPlan::Holding { address, quantity }
        } else if f@ == "read_input"@ {
            ReadPlan::Input { address, quantity }
        } else if f@ == "read_coil"@ {
            ReadPlan::Coil { address, quantity: 1 }
        } else if f@ == "read_discrete"@ {
            ReadPlan::Discrete { address, quantity: 1 }
        } else {
            ReadPlan::Unknown { function: f }
        },
    }
}

/// Every register read (holding, the default, or input) starts at the
/// tag's `address` parameter and spans its `quantity` parameter, each taken
/// modulo 2^16 (address 0 and quantity 1 when absent), whichever of the two
/// functions is named; coils and discrete inputs are read one at the
/// address; any other function is refused by name.
pub proof fn lemma_read_plan_params(p: ProtocolParams)
    ensures
        ({
            let a: int = match p.address { Some(a) => a as int, None => 0 };
            let q: int = match p.quantity { Some(q) => q as int, None => 1 };
            &&& p.function is None ==> (read_plan_spec(p) matches ReadPlan::Holding { address, quantity } && address
                as int == a % 65536 && quantity as int == q % 65536)
            &&& p.function matches Some(f) ==> {
                &&& f@ == "read_holding"@ ==> (read_plan_spec(p) matches ReadPlan::Holding { address, quantity }
                    && address as int == a % 65536 && quantity as int == q % 65536)
                &&& f@ == "read_input"@ ==> (read_plan_spec(p) matches ReadPlan::Input { address, quantity }
                    && address as int == a % 65536 && quantity as int == q % 65536)
                &&& f@ == "read_coil"@ ==> (read_plan_spec(p) matches ReadPlan::Coil { address, quantity }
                    && address as int == a % 65536 && quantity == 1)
                &&& f@ == "read_discrete"@ ==> (read_plan_spec(p) matches ReadPlan::Discrete { address, quantity }
                    && address as int == a % 65536 && quantity == 1)
                &&& (f@ != "read_holding"@ && f@ != "read_input"@ && f@ != "read_coil"@ && f@ != "read_discrete"@)
                    ==> (read_plan_spec(p) matches ReadPlan::Unknown { function } && function == f)
            }
        }),
{
    reveal_strlit("read_holding");
    reveal_strlit("read_input");
    reveal_strlit("read_coil");
    reveal_strlit("read_discrete");
    assert("read_holding"@.len() == 12 && "read_input"@.len() == 10);
    assert("read_coil"@.len() == 9 && "read_discrete"@.len() == 13);
    let a: u64 = match p.address { Some(a) => a, None => 0 };
    let q: u64 = match p.quantity { Some(q) => q, None => 1 };
    assert(low16(a) as int == a % 65536);
    assert(low16(q) as int == q % 65536);
}

/// Naming `read_input` in place of `read_holding` changes only the kind of
/// register read, not where or how much is read.
pub proof fn lemma_input_like_holding(p: ProtocolParams, f: String, g: String)
    requires
        f@ == "read_holding"@,
        g@ == "read_input"@,
    ensures
        ({
            let h = read_plan_spec(ProtocolParams { function: Some(f), ..p });
            let i = read_plan_spec(ProtocolParams { function: Some(g), ..p });
            h matches ReadPlan::Holding { address: a1, quantity: q1 } && i matches ReadPlan::Input { address: a2, quantity: q2 }
                && a1 == a2 && q1 == q2
        }),
{
    lemma_read_plan_params(ProtocolParams { function: Some(f), ..p });
    lemma_read_plan_params(ProtocolParams { function: Some(g), ..p });
}

/// The read that serves a tag with parameters `params`.
pub fn read_plan(params: &ProtocolParams) -> (r: ReadPlan)
    ensures
        r == read_plan_spec(*params),
{
    let address = (match params.address { Some(a) => a, None => 0 } % 0x1_0000) as u16;
    let quantity = (match params.quantity { Some(q) => q, None => 1 } % 0x1_0000) as u16;
    match &params.function {
        None => ReadPlan::Holding { address, quantity },
        Some(f) => {
            if *f == String::from_str("read_holding") {
                ReadPlan::Holding { address, quantity }
            } else if *f == String::from_str("read_input") {
                ReadPlan::Input { address, quantity }
            } else if *f == String::from_str("read_coil") {
                ReadPlan::Coil { address, quantity: 1 }
            } else if *f == String::from_str("read_discrete") {
                ReadPlan::Discrete { address, quantity: 1 }
            } else {
                ReadPlan::Unknown { function: f.clone() }
            }
        },
    }
}

/// The reading of a tag from the registers a holding or input read returned;
/// too few registers for the tag's type is a protocol error. A 32-bit float
/// is its raw bit pattern, before scaling.
pub fn reading_from_registers(data_type: DataType, byte_order: ByteOrder, registers: &[u16]) -> (r: Result<Value, SourceError>)
    ensures
        decoded(registers@, data_type, byte_order) matches Some(v) ==> r == Ok::<Value, SourceError>(v),
        decoded(registers@, data_type, byte_order) is None ==> (r matches Err(SourceError::Protocol(m)) && m@
            == "decode failed"@),
{
    match decode_registers(registers, data_type, byte_order) {
        Some(v) => Ok(v),
        None => Err(SourceError::Protocol(String::from_str("decode failed"))),
    }
}

/// The reading of a coil (`discrete` false) or discrete input (`discrete`
/// true) from the bits a read returned: the first bit, or a protocol error
/// when none came back.
pub fn reading_from_bits(bits: &[bool], discrete: bool) -> (r: Result<Value, SourceError>)
    ensures
        bits@.len() > 0 ==> r == Ok::<Value, SourceError>(Value::Bool(bits@[0])),
        bits@.len() == 0 && !discrete ==> (r matches Err(SourceError::Protocol(m)) && m@ == "coil decode failed"@),
        bits@.len() == 0 && discrete ==> (r matches Err(SourceError::Protocol(m)) && m@
            == "discrete decode failed"@),
{
    if bits.len() > 0 {
        Ok(Value::Bool(bits[0]))
    } else if discrete {
        Err(SourceError::Protocol(String::from_str("discrete decode failed")))
    } else {
        Err(SourceError::Protocol(String::from_str("coil decode failed")))
    }
}

/// The error for a tag whose read function is not known.
pub fn unknown_function_error(function: &String) -> (r: SourceError)
    ensures
        r matches SourceError::Protocol(m) && m@ == "unknown function: "@ + function@,
{
    SourceError::Protocol(String::from_str("unknown function: ").concat(function.as_str()))
}

/// The sample a poll records for `tag` at `ts_ms`: a good sample of the
/// reading, or a bad one holding `false` when the reading failed.
pub open spec fn sample_of(tag: Tag, ts_ms: i64, reading: Result<Value, SourceError>) -> Sample {
    match reading {
        Ok(v) => Sample { tag_id: tag.id, ts_ms, value: v, quality: Quality::Good },
        Err(_) => Sample { tag_id: tag.id, ts_ms, value: Value::Bool(false), quality: Quality::Bad },
    }
}

/// The sample a poll records for `tag` at `ts_ms`: a good sample of the
/// reading, or a bad one holding `false` when the reading failed.
pub fn sample_from_reading(tag: &Tag, ts_ms: i64, reading: &Result<Value, SourceError>) -> (r: Sample)
    ensures
        r == sample_of(*tag, ts_ms, *reading),
{
    match reading {
        Ok(v) => Sample { tag_id: tag.id.clone(), ts_ms, value: *v, quality: Quality::Good },
        Err(_) => Sample { tag_id: tag.id.clone(), ts_ms, value: Value::Bool(false), quality: Quality::Bad },
    }
}

/// What reading one tag gave: when it was read, and the reading (an error
/// when its reply could not be decoded).
#[derive(Debug)]
pub struct TagRead {
    pub ts_ms: i64,
    pub reading: Result<Value, SourceError>,
}

/// The outcome of one poll of device `device_id` from the reads of `tags`,
/// made in order: the first read that failed outright fails the poll with
/// its error (the reads after it are not made); otherwise one sample per
/// tag, in order.
pub fn poll_outcome(device_id: &DeviceId, tags: &Vec<Tag>, reads: Vec<Result<TagRead, SourceError>>) -> (r: Result<
    PollOutcome,
    SourceError,
>)
    requires
        reads@.len() <= tags@.len(),
    ensures
        match r {
            Err(e) => exists|i: int|
                0 <= i < reads@.len() && reads@[i] == Err::<TagRead, SourceError>(e) && forall|j: int|
                    0 <= j < i ==> (#[trigger] reads@[j]) is Ok,
            Ok(o) => {
                &&& o.device_id == *device_id
                &&& o.samples@.len() == reads@.len()
                &&& forall|i: int|
                    0 <= i < reads@.len() ==> (#[trigger] reads@[i]) is Ok && o.samples@[i] == sample_of(
                        tags@[i],
                        reads@[i]->Ok_0.ts_ms,
                        reads@[i]->Ok_0.reading,
                    )
            },
        },
{
    let n = reads.len();
    let mut samples: Vec<Sample> = Vec::new();
    let mut i: usize = 0;
    while i < n
        invariant
            n == reads@.len(),
            n <= tags@.len(),
            0 <= i <= n,
            samples@.len() == i,
            forall|j: int|
                0 <= j < i ==> (#[trigger] reads@[j]) is Ok && samples@[j] == sample_of(
                    tags@[j],
                    reads@[j]->Ok_0.ts_ms,
                    reads@[j]->Ok_0.reading,
                ),
        decreases n - i,
    {
        match &reads[i] {
            Ok(t) => {
                let s = sample_from_reading(&tags[i], t.ts_ms, &t.reading);
                samples.push(s);
            },
            Err(e) => {
                let e2 = e.clone();
                assert(reads@[i as int] == Err::<TagRead, SourceError>(e2));
                return Err(e2);
            },
        }
        i += 1;
    }
    Ok(PollOutcome { samples, device_id: device_id.clone() })
}

/// A single Modbus write.
#[allow(inconsistent_fields)]
#[derive(Clone, Copy, Debug, PartialEq, Eq, Structural)]
pub enum WriteOp {
    Register { address: u16, value: u16 },
    Coil { address: u16, value: bool },
}

/// The register image of a signed 16-bit value (two's complement).
pub open spec fn unsigned16(v: i16) -> u16 {
    if v >= 0 { v as u16 } else { (v + 0x1_0000) as u16 }
}

/// A register written for a 16-bit value reads back as that value: the
/// register of a `U16` is the value, and that of an `I16` decodes as `I16`
/// to the value again.
pub proof fn lemma_write_reads_back(v: i16, order: ByteOrder)
    ensures
        decoded(seq![unsigned16(v)], DataType::I16, order) == Some(Value::I16(v)),
        unsigned16(v) as int == (if v < 0 { v + 0x1_0000 } else { v as int }),
{
    assert(seq![unsigned16(v)][0] == unsigned16(v));
}

/// The write that stores `req.value` at the tag's `address` (default 0):
/// 16-bit values to a holding register, booleans to a coil; 32-bit values
/// cannot be written.
pub fn write_plan(req: &WriteRequest) -> (r: Result<WriteOp, SourceError>)
    ensures
        ({
            let address = low16(match req.tag.protocol_params.address { Some(a) => a, None => 0 });
            match req.value {
                Value::U16(v) => r == Ok::<WriteOp, SourceError>(WriteOp::Register { address, value: v }),
                Value::I16(v) => r == Ok::<WriteOp, SourceError>(WriteOp::Register { address, value: unsigned16(v) }),
                Value::Bool(b) => r == Ok::<WriteOp, SourceError>(WriteOp::Coil { address, value: b }),
                _ => r matches Err(SourceError::Protocol(m)) && m@ == "32-bit write NYI"@,
            }
        }),
{
    let address = (match req.tag.protocol_params.address { Some(a) => a, None => 0 } % 0x1_0000) as u16;
    match req.value {
        Value::U16(v) => Ok(WriteOp::Register { address, value: v }),
        Value::I16(v) => {
            let u = v as u16;
            assert(u == unsigned16(v)) by (bit_vector)
                requires u == v as u16;
            Ok(WriteOp::Register { address, value: u })
        },
        Value::Bool(b) => Ok(WriteOp::Coil { address, value: b }),
        _ => Err(SourceError::Protocol(String::from_str("32-bit write NYI"))),
    }
}

/// The read a health check makes: one holding register at address 0.
pub fn health_probe() -> (r: ReadPlan)
    ensures
        r == (ReadPlan::Holding { address: 0, quantity: 1 }),
{
    ReadPlan::Holding { address: 0, quantity: 1 }
}

/// The health that the outcome of the probe read shows: connected when it
/// succeeded, else disconnected with the error's text as the reason.
pub fn health_from_probe(probe: &Result<Vec<u16>, SourceError>) -> (r: SourceHealth)
    ensures
        probe is Ok ==> r is Connected,
        probe matches Err(e) ==> (r matches SourceHealth::Disconnected { reason } && reason@ == e.text()),
{
    match probe {
        Ok(_) => SourceHealth::Connected,
        Err(e) => SourceHealth::Disconnected { reason: e.message() },
    }
}

} // verus!
