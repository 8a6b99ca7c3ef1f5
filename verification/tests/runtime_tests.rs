use hc_host::event::Event;
use hc_host::error::SourceError;
use hc_host::fake::FakeSource;
use hc_host::model::{Device, Tag};
use hc_host::runtime::{backoff_after, poll_request, poll_round, RuntimeState, FIRST_BACKOFF_MS, MAX_BACKOFF_MS};

#[test]
fn test_start_stop() {
    let mut r = RuntimeState::new();
    r.set_devices(vec![Device { id: "d".into(), enabled: true, ..Default::default() }], vec![]);
    r.start(None);
    assert!(r.is_running());
    r.stop();
    assert!(!r.is_running());
}

#[test]
fn test_filtered_start() {
    let mut r = RuntimeState::new();
    r.set_devices(
        vec![
            Device { id: "a".into(), enabled: true, ..Default::default() },
            Device { id: "b".into(), enabled: true, ..Default::default() },
        ],
        vec![],
    );
    r.start(Some(vec!["a".into()]));
    assert!(r.has_runner("a"));
    assert!(!r.has_runner("b"));
    let stopped = r.stop();
    assert_eq!(stopped, vec!["a".to_string()]);
    assert!(!r.has_runner("a"));
}

#[test]
fn test_event_delivery() {
    let mut r = RuntimeState::new();
    r.set_devices(
        vec![Device { id: "ed".into(), enabled: true, ..Default::default() }],
        vec![Tag { id: "ed/t".into(), device_id: "ed".into(), enabled: true, ..Default::default() }],
    );
    let (bus, mut rx) = tokio::sync::broadcast::channel::<Event>(1024);
    let launched = r.start(None);
    assert_eq!(launched.len(), 1);
    let entry = &launched[0];
    let source = FakeSource::open(&entry.device).unwrap();
    let req = poll_request(&entry.tags).unwrap();
    let outcome = source.poll(&req).unwrap();
    let round = poll_round(&entry.device.id, 0, Ok(outcome.samples));
    assert!(matches!(round.events[0], Event::PollSucceeded(_, _)));
    assert!(matches!(round.events[1], Event::ConnectionStateChanged(_, true)));
    assert_eq!(round.back_off_ms, 0);
    assert_eq!(round.failures, 0);
    for event in round.events {
        bus.send(event).unwrap();
    }
    assert!(matches!(rx.try_recv(), Ok(Event::PollSucceeded(id, s)) if id == "ed" && s.len() == 1));
}

#[test]
fn start_skips_disabled_and_running_devices() {
    let mut r = RuntimeState::new();
    r.set_devices(
        vec![
            Device { id: "a".into(), enabled: true, ..Default::default() },
            Device { id: "off".into(), enabled: false, ..Default::default() },
        ],
        vec![],
    );
    assert_eq!(r.start(None).len(), 1);
    assert!(r.start(None).is_empty());
    assert!(!r.has_runner("off"));
}

#[test]
fn set_devices_groups_tags_and_replaces_devices() {
    let mut r = RuntimeState::new();
    let tags = vec![
        Tag { id: "a/1".into(), device_id: "a".into(), ..Default::default() },
        Tag { id: "b/1".into(), device_id: "b".into(), ..Default::default() },
        Tag { id: "a/2".into(), device_id: "a".into(), enabled: false, ..Default::default() },
    ];
    r.set_devices(
        vec![
            Device { id: "a".into(), ..Default::default() },
            Device { id: "b".into(), ..Default::default() },
        ],
        tags,
    );
    r.set_devices(vec![Device { id: "a".into(), name: "renamed".into(), ..Default::default() }], vec![]);
    let status = r.status();
    assert!(!status.running);
    assert_eq!(status.devices.len(), 2);
    assert_eq!(status.devices[0].device_id, "a");
    assert!(status.devices[0].online);
    assert_eq!(status.devices[0].error_count, 0);
    let launched = r.start(None);
    assert_eq!(launched.len(), 2);
    assert_eq!(launched[0].device.name, "renamed");
    assert!(launched[0].tags.is_empty());
    assert_eq!(launched[1].tags.len(), 1);
    assert_eq!(launched[1].tags[0].id, "b/1");
}

#[test]
fn poll_request_takes_enabled_tags() {
    let tags = vec![
        Tag { id: "a/1".into(), enabled: false, ..Default::default() },
        Tag { id: "a/2".into(), ..Default::default() },
    ];
    let req = poll_request(&tags).unwrap();
    assert_eq!(req.tags.len(), 1);
    assert_eq!(req.tags[0].id, "a/2");
    assert!(poll_request(&vec![Tag { enabled: false, ..Default::default() }]).is_none());
}

#[test]
fn failed_poll_round() {
    let round = poll_round(&"d".to_string(), 0, Err(SourceError::Comm("simulated".into())));
    match &round.events[0] {
        Event::PollFailed(id, m) => {
            assert_eq!(id, "d");
            assert_eq!(m, "Communication error: simulated");
        }
        _ => panic!("expected PollFailed"),
    }
    assert!(matches!(round.events[1], Event::ConnectionStateChanged(_, false)));
    assert_eq!(round.back_off_ms, FIRST_BACKOFF_MS);
    assert_eq!(round.failures, 1);
    assert_eq!(round.hook_status, Err("Communication error: simulated".to_string()));
    let again = poll_round(&"d".to_string(), round.failures, Err(SourceError::NotConnected));
    assert_eq!(again.back_off_ms, 2 * FIRST_BACKOFF_MS);
    assert_eq!(again.failures, 2);
    let recovered = poll_round(&"d".to_string(), again.failures, Ok(vec![]));
    assert_eq!(recovered.failures, 0);
    assert_eq!(recovered.back_off_ms, 0);
    assert!(recovered.hook_status.is_ok());
}

#[test]
fn backoff_grows_to_its_cap() {
    assert_eq!(backoff_after(0), 0);
    assert_eq!(backoff_after(1), 1000);
    assert_eq!(backoff_after(2), 2000);
    assert_eq!(backoff_after(5), 16000);
    assert_eq!(backoff_after(6), MAX_BACKOFF_MS);
    assert_eq!(backoff_after(u32::MAX), MAX_BACKOFF_MS);
}
