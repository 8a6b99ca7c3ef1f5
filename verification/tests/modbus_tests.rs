use hc_host::error::SourceError;
use hc_host::model::{ByteOrder, DataType, Device, ProtocolParams, Quality, Tag, TransportSpec, Value};
use hc_host::modbus::{
    health_from_probe, health_probe, poll_outcome, read_plan, reading_from_bits, reading_from_registers, sample_from_reading,
    unknown_function_error, write_plan, ReadPlan, TagRead, WriteOp,
};
use hc_host::source::{SourceHealth, WriteRequest};
use hc_host::transport::{connect_plan, ConnectPlan, DataBits, Parity, StopBits};

fn params(function: Option<&str>, address: Option<u64>, quantity: Option<u64>) -> ProtocolParams {
    ProtocolParams {
        address,
        quantity,
        function: function.map(|f| f.to_string()),
        slave_id: None,
        text: "{}".into(),
    }
}

#[test]
fn read_plan_defaults_to_holding_register_zero() {
    match read_plan(&ProtocolParams::empty()) {
        ReadPlan::Holding { address, quantity } => {
            assert_eq!(address, 0);
            assert_eq!(quantity, 1);
        }
        _ => panic!("expected a holding read"),
    }
}

#[test]
fn read_plan_functions() {
    assert!(matches!(read_plan(&params(Some("read_holding"), Some(100), Some(2))), ReadPlan::Holding { address: 100, quantity: 2 }));
    assert!(matches!(read_plan(&params(Some("read_input"), Some(70000), None)), ReadPlan::Input { address: 4464, quantity: 1 }));
    assert!(matches!(read_plan(&params(Some("read_coil"), Some(200), Some(9))), ReadPlan::Coil { address: 200, quantity: 1 }));
    assert!(matches!(read_plan(&params(Some("read_discrete"), None, None)), ReadPlan::Discrete { address: 0, quantity: 1 }));
    match read_plan(&params(Some("write_single"), None, None)) {
        ReadPlan::Unknown { function } => assert_eq!(function, "write_single"),
        _ => panic!("expected an unknown function"),
    }
}

#[test]
fn readings() {
    assert_eq!(reading_from_registers(DataType::U16, ByteOrder::Abcd, &[42]).unwrap(), Value::U16(42));
    match reading_from_registers(DataType::U32, ByteOrder::Abcd, &[42]) {
        Err(SourceError::Protocol(m)) => assert_eq!(m, "decode failed"),
        _ => panic!("expected a decode failure"),
    }
    assert_eq!(reading_from_bits(&[true, false], false).unwrap(), Value::Bool(true));
    match reading_from_bits(&[], false) {
        Err(SourceError::Protocol(m)) => assert_eq!(m, "coil decode failed"),
        _ => panic!("expected a coil failure"),
    }
    match reading_from_bits(&[], true) {
        Err(SourceError::Protocol(m)) => assert_eq!(m, "discrete decode failed"),
        _ => panic!("expected a discrete failure"),
    }
    match unknown_function_error(&"foo".to_string()) {
        SourceError::Protocol(m) => assert_eq!(m, "unknown function: foo"),
        _ => panic!("expected a protocol error"),
    }
}

#[test]
fn samples_from_readings() {
    let tag = Tag { id: "d/t".into(), ..Default::default() };
    let good = sample_from_reading(&tag, 5, &Ok(Value::I16(-2)));
    assert_eq!(good.tag_id, "d/t");
    assert_eq!(good.ts_ms, 5);
    assert_eq!(good.value, Value::I16(-2));
    assert_eq!(good.quality, Quality::Good);
    let bad = sample_from_reading(&tag, 6, &Err(SourceError::Protocol("decode failed".into())));
    assert_eq!(bad.value, Value::Bool(false));
    assert_eq!(bad.quality, Quality::Bad);
}

#[test]
fn write_plans() {
    let tag = Tag { protocol_params: params(None, Some(7), None), ..Default::default() };
    let w = |value| write_plan(&WriteRequest { tag: tag.clone(), value });
    assert_eq!(w(Value::U16(100)).unwrap(), WriteOp::Register { address: 7, value: 100 });
    assert_eq!(w(Value::I16(-1)).unwrap(), WriteOp::Register { address: 7, value: 0xFFFF });
    assert_eq!(w(Value::Bool(true)).unwrap(), WriteOp::Coil { address: 7, value: true });
    match w(Value::U32(1)) {
        Err(e) => assert_eq!(e.message(), "Protocol error: 32-bit write NYI"),
        Ok(_) => panic!("32-bit writes are not supported"),
    }
    assert!(w(Value::F32(0)).is_err());
    assert!(w(Value::I32(0)).is_err());
}

#[test]
fn health_checks() {
    assert!(matches!(health_probe(), ReadPlan::Holding { address: 0, quantity: 1 }));
    assert!(matches!(health_from_probe(&Ok(vec![1])), SourceHealth::Connected));
    match health_from_probe(&Err(SourceError::Comm("holding: timeout".into()))) {
        SourceHealth::Disconnected { reason } => assert_eq!(reason, "Communication error: holding: timeout"),
        SourceHealth::Connected => panic!("expected disconnected"),
    }
}

#[test]
fn connect_plans() {
    match connect_plan(&Device::default()) {
        ConnectPlan::Tcp { address } => assert_eq!(address, "127.0.0.1:502"),
        _ => panic!("expected TCP"),
    }
    let mut d = Device::default();
    d.transport = TransportSpec::Rtu { port: "COM3".into(), baud: 9600, data_bits: 7, parity: "even".into(), stop_bits: 2 };
    d.protocol_params.slave_id = Some(258);
    match connect_plan(&d) {
        ConnectPlan::Rtu { port, baud, data_bits, parity, stop_bits, timeout_ms, slave } => {
            assert_eq!(port, "COM3");
            assert_eq!(baud, 9600);
            assert_eq!(data_bits, DataBits::Seven);
            assert_eq!(parity, Parity::Even);
            assert_eq!(stop_bits, StopBits::Two);
            assert_eq!(timeout_ms, 1000);
            assert_eq!(slave, 2);
        }
        _ => panic!("expected RTU"),
    }
    d.transport = TransportSpec::Rtu { port: "COM1".into(), baud: 19200, data_bits: 9, parity: "mark".into(), stop_bits: 3 };
    d.protocol_params.slave_id = None;
    match connect_plan(&d) {
        ConnectPlan::Rtu { data_bits, parity, stop_bits, slave, .. } => {
            assert_eq!(data_bits, DataBits::Eight);
            assert_eq!(parity, Parity::Disabled);
            assert_eq!(stop_bits, StopBits::One);
            assert_eq!(slave, 1);
        }
        _ => panic!("expected RTU"),
    }
}

fn tags3() -> Vec<Tag> {
    ["d/a", "d/b", "d/c"].iter().map(|id| Tag { id: (*id).into(), ..Default::default() }).collect()
}

#[test]
fn poll_outcome_gives_one_sample_per_tag_in_order() {
    let reads = vec![
        Ok(TagRead { ts_ms: 1, reading: Ok(Value::U16(7)) }),
        Ok(TagRead { ts_ms: 2, reading: Err(SourceError::Protocol("short reply".into())) }),
        Ok(TagRead { ts_ms: 3, reading: Ok(Value::Bool(true)) }),
    ];
    let o = poll_outcome(&"d".to_string(), &tags3(), reads).unwrap();
    assert_eq!(o.device_id, "d");
    assert_eq!(o.samples.len(), 3);
    assert_eq!(o.samples[0].tag_id, "d/a");
    assert_eq!(o.samples[0].value, Value::U16(7));
    assert_eq!(o.samples[0].quality, Quality::Good);
    assert_eq!(o.samples[1].tag_id, "d/b");
    assert_eq!(o.samples[1].ts_ms, 2);
    assert_eq!(o.samples[1].quality, Quality::Bad);
    assert_eq!(o.samples[2].value, Value::Bool(true));
}

#[test]
fn failed_read_aborts_the_poll() {
    let reads = vec![
        Ok(TagRead { ts_ms: 1, reading: Ok(Value::U16(7)) }),
        Err(SourceError::Timeout("no reply".into())),
    ];
    match poll_outcome(&"d".to_string(), &tags3(), reads) {
        Err(e) => assert_eq!(e.message(), "Timeout: no reply"),
        Ok(_) => panic!("expected the read's error"),
    }
    assert!(poll_outcome(&"d".to_string(), &tags3(), vec![]).unwrap().samples.is_empty());
}
