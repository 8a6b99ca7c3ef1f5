use hc_host::error::{IpcError, SourceError};
use hc_host::model::{ByteOrder, DataType, Device, Project, Quality, Sample, Tag, TagUpdate, TransportSpec, Value, F64_ONE_BITS};

#[test]
fn test_project_default() {
    let p = Project::default();
    assert_eq!(p.name, "新工程");
    assert_eq!(p.version, 1);
    assert_eq!(p.runtime.default_poll_interval_ms, 1000);
}

#[test]
fn test_sample_into_tag_update() {
    let s = Sample {
        tag_id: "dev/t".into(),
        ts_ms: 1_725_000_000_000,
        value: Value::F32(25.5f32.to_bits()),
        quality: Quality::Good,
    };
    let u: TagUpdate = TagUpdate::from_sample(&s);
    assert_eq!(u.tag_id, "dev/t");
    assert_eq!(u.value, Value::F32(25.5f32.to_bits()));
    assert_eq!(u.ts_ms, s.ts_ms);
    assert_eq!(u.quality, Quality::Good);
    assert_eq!(u.unit, "");
}

#[test]
fn test_quality_ordering() {
    assert_eq!(Quality::Good as i32, 0);
    assert_eq!(Quality::Bad as i32, 1);
    assert_eq!(Quality::Stale as i32, 2);
}

#[test]
fn quality_codes_round_trip() {
    for q in [Quality::Good, Quality::Bad, Quality::Stale] {
        assert_eq!(q.code(), q as i32);
        assert_eq!(Quality::from_code(q.code()), q);
    }
    assert_eq!(Quality::from_code(7), Quality::Stale);
    assert_eq!(Quality::from_code(-1), Quality::Stale);
}

#[test]
fn test_device_default() {
    let d = Device::default();
    assert_eq!(d.id, "default");
    assert!(d.enabled);
    assert_eq!(d.protocol, "modbus");
    assert_eq!(d.poll_interval_ms, 1000);
    assert_eq!(d.timeout_ms, 1000);
    match &d.transport {
        TransportSpec::Tcp { host, port } => {
            assert_eq!(host, "127.0.0.1");
            assert_eq!(*port, 502);
        }
        TransportSpec::Rtu { .. } => panic!("default device is TCP"),
    }
    assert_eq!(d.protocol_params.text, "{}");
}

#[test]
fn test_tag_default() {
    let t = Tag::default();
    assert_eq!(t.data_type, DataType::U16);
    assert_eq!(t.byte_order, ByteOrder::Abcd);
    assert_eq!(t.id, "default/t");
    assert_eq!(t.device_id, "default");
    assert_eq!(f64::from_bits(t.scale_bits), 1.0);
    assert_eq!(f64::from_bits(t.offset_bits), 0.0);
    assert_eq!(F64_ONE_BITS, 1.0f64.to_bits());
    assert!(!t.writable);
}

#[test]
fn source_error_messages() {
    assert_eq!(SourceError::Connection("x".into()).message(), "Connection failed: x");
    assert_eq!(SourceError::Comm("simulated".into()).message(), "Communication error: simulated");
    assert_eq!(SourceError::Protocol("p".into()).message(), "Protocol error: p");
    assert_eq!(SourceError::Timeout("t".into()).message(), "Timeout: t");
    assert_eq!(SourceError::Write("w".into()).message(), "Write failed: w");
    assert_eq!(SourceError::NotConnected.message(), "Not connected");
}

#[test]
fn ipc_error_messages() {
    assert_eq!(IpcError::NotFound("d".into()).message(), "Not found: d");
    assert_eq!(IpcError::Validation("v".into()).message(), "Validation error: v");
    assert_eq!(IpcError::Runtime("r".into()).message(), "Runtime error: r");
    assert_eq!(IpcError::Internal("i".into()).message(), "Internal error: i");
}

#[test]
fn test_value_display() {
    assert_eq!(Value::U16(42).text().as_deref(), Some("42"));
    assert_eq!(Value::Bool(true).text().as_deref(), Some("true"));
    // a float's text is written by the host, not the library
    assert_eq!(Value::F32(3.14f32.to_bits()).text(), None);
}

#[test]
fn value_text_of_every_integer_width() {
    assert_eq!(Value::U16(0).text().as_deref(), Some("0"));
    assert_eq!(Value::I16(-10).text().as_deref(), Some("-10"));
    assert_eq!(Value::I16(i16::MIN).text().as_deref(), Some("-32768"));
    assert_eq!(Value::U32(u32::MAX).text().as_deref(), Some("4294967295"));
    assert_eq!(Value::I32(i32::MIN).text().as_deref(), Some("-2147483648"));
    assert_eq!(Value::I32(7).text().as_deref(), Some("7"));
    assert_eq!(Value::Bool(false).text().as_deref(), Some("false"));
}
