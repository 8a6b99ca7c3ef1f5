use hc_host::error::SourceError;
use hc_host::fake::FakeSource;
use hc_host::model::{Device, Quality, Tag, Value};
use hc_host::source::{PollRequest, SourceHealth, WriteRequest};

#[test]
fn test_fake_poll() {
    let dev = Device { id: "d".into(), ..Default::default() };
    let mut src = FakeSource::open(&dev).unwrap();
    src.set_value("d/t", Value::F32(42.0f32.to_bits()));
    let r = src
        .poll(&PollRequest { tags: vec![Tag { id: "d/t".into(), ..Default::default() }] })
        .unwrap();
    assert_eq!(r.samples[0].value, Value::F32(42.0f32.to_bits()));
}

#[test]
fn test_fake_fail() {
    let dev = Device { id: "f".into(), ..Default::default() };
    let mut src = FakeSource::open(&dev).unwrap();
    src.set_fail(true);
    assert!(src.poll(&PollRequest { tags: vec![] }).is_err());
}

#[test]
fn test_fake_write() {
    let dev = Device { id: "w".into(), ..Default::default() };
    let mut src = FakeSource::open(&dev).unwrap();
    let tag = Tag { id: "w/t".into(), ..Default::default() };
    src.write(&WriteRequest { tag: tag.clone(), value: Value::U16(100) }).unwrap();
    let r = src.poll(&PollRequest { tags: vec![tag] }).unwrap();
    assert_eq!(r.samples[0].value, Value::U16(100));
}

#[test]
fn unknown_tags_read_false_and_good() {
    let src = FakeSource::new("x");
    let r = src
        .poll(&PollRequest {
            tags: vec![Tag { id: "x/a".into(), ..Default::default() }, Tag { id: "x/b".into(), ..Default::default() }],
        })
        .unwrap();
    assert_eq!(r.device_id, "x");
    assert_eq!(r.samples.len(), 2);
    assert_eq!(r.samples[0].tag_id, "x/a");
    assert_eq!(r.samples[1].tag_id, "x/b");
    assert_eq!(r.samples[1].value, Value::Bool(false));
    assert_eq!(r.samples[1].quality, Quality::Good);
}

#[test]
fn latest_write_wins_and_others_stay() {
    let mut src = FakeSource::new("x");
    src.set_value("x/a", Value::U16(1));
    src.set_value("x/b", Value::U16(2));
    src.set_value("x/a", Value::I16(-3));
    let r = src
        .poll(&PollRequest {
            tags: vec![Tag { id: "x/a".into(), ..Default::default() }, Tag { id: "x/b".into(), ..Default::default() }],
        })
        .unwrap();
    assert_eq!(r.samples[0].value, Value::I16(-3));
    assert_eq!(r.samples[1].value, Value::U16(2));
}

#[test]
fn failing_source_reports_simulated() {
    let mut src = FakeSource::new("x");
    assert!(matches!(src.health(), SourceHealth::Connected));
    src.set_fail(true);
    match src.poll(&PollRequest { tags: vec![] }) {
        Err(SourceError::Comm(m)) => assert_eq!(m, "simulated"),
        _ => panic!("expected a communication error"),
    }
    match src.health() {
        SourceHealth::Disconnected { reason } => assert_eq!(reason, "simulated"),
        SourceHealth::Connected => panic!("expected disconnected"),
    }
    src.set_fail(false);
    assert!(src.poll(&PollRequest { tags: vec![] }).is_ok());
}
