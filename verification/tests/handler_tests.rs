use hc_host::event::Event;
use hc_host::handlers::{route_event, tag_update_channel, UiEmit};
use hc_host::model::{DeviceState, LogEntry, Quality, Sample, TagUpdate, Value};
use hc_host::pacing::{LogPacer, StateDebouncer, DEVICE_STATE_DEBOUNCE_MS, LOG_INTERVAL_MS};
use hc_host::throttle::UpdateThrottle;

fn sample(tag: &str, v: u16) -> Sample {
    Sample { tag_id: tag.into(), ts_ms: 10, value: Value::U16(v), quality: Quality::Good }
}

fn state(id: &str, online: bool) -> DeviceState {
    DeviceState { device_id: id.into(), online, error_count: 0, last_error: None, last_poll_at_ms: None }
}

fn line(msg: &str) -> LogEntry {
    LogEntry { ts_ms: 1, level: "info".into(), message: msg.into() }
}

#[test]
fn poll_success_feeds_throttle() {
    let mut t = UpdateThrottle::new();
    let mut s = StateDebouncer::new();
    let mut l = LogPacer::new();
    let r = route_event(&mut t, &mut s, &mut l, Event::PollSucceeded("d".into(), vec![sample("d/a", 1), sample("d/b", 2)]), 0);
    assert!(r.emit.is_none());
    assert!(r.warning.is_none());
    let b = t.tick_at(150).unwrap();
    assert_eq!(b.len(), 2);
    assert_eq!(b[0].tag_id, "d/a");
    assert_eq!(b[0].unit, "");
    assert_eq!(b[1].value, Value::U16(2));
}

#[test]
fn dropped_updates_are_reported_once() {
    let mut t = UpdateThrottle::new();
    let mut s = StateDebouncer::new();
    let mut l = LogPacer::new();
    for i in 0..100u16 {
        t.push(TagUpdate { tag_id: format!("d/t{i}"), ts_ms: 0, value: Value::U16(i), unit: String::new(), quality: Quality::Good });
    }
    t.tick_at(150);
    let r = route_event(&mut t, &mut s, &mut l, Event::PollSucceeded("d".into(), vec![]), 1000);
    assert_eq!(r.warning.as_deref(), Some("IPC throttle dropped 36 updates"));
    match r.emit {
        Some(e @ UiEmit::Log(_)) => {
            assert_eq!(e.channel(), "log");
            let UiEmit::Log(entry) = e else { unreachable!() };
            assert_eq!(entry.level, "warn");
            assert_eq!(entry.ts_ms, 1000);
            assert_eq!(entry.message, "IPC throttle dropped 36 updates");
        }
        _ => panic!("expected a warning line"),
    }
    let r = route_event(&mut t, &mut s, &mut l, Event::PollSucceeded("d".into(), vec![]), 2000);
    assert!(r.emit.is_none());
    assert!(r.warning.is_none());
}

#[test]
fn device_events_become_device_states() {
    let mut t = UpdateThrottle::new();
    let mut s = StateDebouncer::new();
    let mut l = LogPacer::new();
    match route_event(&mut t, &mut s, &mut l, Event::PollFailed("d".into(), "boom".into()), 0).emit {
        Some(e @ UiEmit::DeviceState(_)) => {
            assert_eq!(e.channel(), "device-state");
            if let UiEmit::DeviceState(st) = e {
                assert_eq!(st.device_id, "d");
                assert!(!st.online);
                assert_eq!(st.error_count, 1);
                assert_eq!(st.last_error.as_deref(), Some("boom"));
                assert!(st.last_poll_at_ms.is_none());
            }
        }
        _ => panic!("expected a device state"),
    }
    match route_event(&mut t, &mut s, &mut l, Event::ConnectionStateChanged("d".into(), true), 600).emit {
        Some(UiEmit::DeviceState(st)) => {
            assert!(st.online);
            assert_eq!(st.error_count, 0);
            assert!(st.last_error.is_none());
        }
        _ => panic!("expected a device state"),
    }
    let ds = DeviceState { device_id: "x".into(), online: true, error_count: 3, last_error: None, last_poll_at_ms: Some(4) };
    match route_event(&mut t, &mut s, &mut l, Event::DeviceStatus(ds), 600).emit {
        Some(UiEmit::DeviceState(st)) => assert_eq!(st.error_count, 3),
        _ => panic!("expected a device state"),
    }
}

#[test]
fn log_lines_pass_through() {
    let mut t = UpdateThrottle::new();
    let mut s = StateDebouncer::new();
    let mut l = LogPacer::new();
    let entry = LogEntry { ts_ms: 1, level: "i".into(), message: "test".into() };
    match route_event(&mut t, &mut s, &mut l, Event::Log(entry), 0).emit {
        Some(e @ UiEmit::Log(_)) => {
            assert_eq!(e.channel(), "log");
            if let UiEmit::Log(x) = e {
                assert_eq!(x.message, "test");
            }
        }
        _ => panic!("expected a log line"),
    }
    assert_eq!(tag_update_channel(), "tag-update");
}

#[test]
fn device_states_are_debounced_per_device() {
    assert_eq!(DEVICE_STATE_DEBOUNCE_MS, 500);
    let mut t = UpdateThrottle::new();
    let mut s = StateDebouncer::new();
    let mut l = LogPacer::new();
    let first = route_event(&mut t, &mut s, &mut l, Event::PollFailed("d".into(), "e1".into()), 1000);
    assert!(matches!(first.emit, Some(UiEmit::DeviceState(_))));
    // within the window: held back
    let r = route_event(&mut t, &mut s, &mut l, Event::ConnectionStateChanged("d".into(), false), 1100);
    assert!(r.emit.is_none());
    let r = route_event(&mut t, &mut s, &mut l, Event::PollFailed("d".into(), "e2".into()), 1200);
    assert!(r.emit.is_none());
    // another device is not held by the first one's window
    let r = route_event(&mut t, &mut s, &mut l, Event::ConnectionStateChanged("other".into(), true), 1200);
    assert!(matches!(r.emit, Some(UiEmit::DeviceState(_))));
    // not due yet
    assert!(s.flush(1499).is_empty());
    // due: only the newest held state goes out
    let out = s.flush(1500);
    assert_eq!(out.len(), 1);
    assert_eq!(out[0].device_id, "d");
    assert_eq!(out[0].last_error.as_deref(), Some("e2"));
    // nothing is held any more, and the window starts again
    assert!(s.flush(5000).is_empty());
    assert!(s.offer(state("d", true), 1900).is_none());
    assert_eq!(s.offer(state("d", false), 2000).map(|x| x.online), Some(false));
}

#[test]
fn log_lines_are_paced_in_order() {
    assert_eq!(LOG_INTERVAL_MS, 200);
    let mut l = LogPacer::new();
    assert_eq!(l.offer(line("a"), 0).map(|e| e.message), Some("a".to_string()));
    assert!(l.offer(line("b"), 50).is_none());
    assert!(l.offer(line("c"), 60).is_none());
    assert!(l.flush(199).is_none());
    assert_eq!(l.flush(200).map(|e| e.message), Some("b".to_string()));
    assert!(l.flush(350).is_none());
    assert_eq!(l.flush(400).map(|e| e.message), Some("c".to_string()));
    assert!(l.flush(1000).is_none());
    // a line offered while others wait never jumps the queue
    assert!(l.offer(line("d"), 1000).is_some());
    assert!(l.offer(line("e"), 1100).is_none());
    assert!(l.offer(line("f"), 1400).is_none());
    assert_eq!(l.flush(1400).map(|e| e.message), Some("e".to_string()));
    assert_eq!(l.flush(1600).map(|e| e.message), Some("f".to_string()));
}
