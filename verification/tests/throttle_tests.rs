use hc_host::model::{Quality, TagUpdate, Value};
use hc_host::throttle::{UpdateThrottle, CHANNEL_MAX};

fn make(tag_id: &str, v: f32) -> TagUpdate {
    make_value(tag_id, Value::F32(v.to_bits()), Quality::Good)
}

fn make_value(tag_id: &str, value: Value, quality: Quality) -> TagUpdate {
    TagUpdate { tag_id: tag_id.into(), ts_ms: 1_725_000_000_000, value, unit: "C".into(), quality }
}

#[test]
fn test_batch() {
    let mut t = UpdateThrottle::new();
    t.push(make("d/t", 25.0));
    t.push(make("d/t2", 30.0));
    let b = t.tick_at(150);
    assert!(b.is_some());
    assert_eq!(b.unwrap().len(), 2);
}

#[test]
fn test_dedupe() {
    let mut t = UpdateThrottle::new();
    t.push(make("d/t", 25.0));
    t.tick_at(150);
    t.push(make("d/t", 25.0));
    assert!(t.tick_at(300).is_none());
    t.push(make("d/t", 26.0));
    assert!(t.tick_at(450).is_some());
}

#[test]
fn test_overlimit() {
    let mut t = UpdateThrottle::new();
    for i in 0..100 {
        t.push(make(&format!("d/t{i}"), i as f32));
    }
    let b = t.tick_at(150);
    assert!(b.unwrap().len() <= CHANNEL_MAX);
    assert!(t.dropped_count() > 0);
}

#[test]
fn overlimit_keeps_newest_and_counts_exactly() {
    let mut t = UpdateThrottle::new();
    for i in 0..100 {
        t.push(make(&format!("d/t{i}"), i as f32));
    }
    let b = t.tick_at(150).unwrap();
    assert_eq!(b.len(), 64);
    assert_eq!(b[0].tag_id, "d/t36");
    assert_eq!(b[63].tag_id, "d/t99");
    assert_eq!(t.dropped_count(), 36);
    assert_eq!(t.dropped_count(), 0);
}

#[test]
fn nothing_before_batch_interval() {
    let mut t = UpdateThrottle::new();
    t.push(make("d/t", 25.0));
    assert!(t.tick_at(99).is_none());
    let b = t.tick_at(100).unwrap();
    assert_eq!(b.len(), 1);
    assert!(t.tick_at(1000).is_none());
}

#[test]
fn fresh_throttle_by_clock_emits_nothing() {
    let mut t = UpdateThrottle::new();
    assert!(!t.drop_count_would_overflow());
    assert!(t.tick().is_none());
}

#[test]
fn tick_by_the_real_clock() {
    let start = std::time::Instant::now();
    let mut t = UpdateThrottle::new();
    t.push(make("d/t", 25.0));
    assert!(t.tick().is_none());
    while start.elapsed() < std::time::Duration::from_millis(150) {
        std::hint::spin_loop();
    }
    let b = t.tick().unwrap();
    assert_eq!(b.len(), 1);
    t.push(make("d/t", 26.0));
    assert!(t.tick().is_none());
    let again = std::time::Instant::now();
    while again.elapsed() < std::time::Duration::from_millis(150) {
        std::hint::spin_loop();
    }
    assert_eq!(t.tick().unwrap().len(), 1);
}

#[test]
fn batches_are_spaced_by_the_interval() {
    let mut t = UpdateThrottle::new();
    t.push(make("d/t", 1.0));
    assert!(t.tick_at(150).is_some());
    t.push(make("d/t", 2.0));
    assert!(t.tick_at(200).is_none());
    assert!(t.tick_at(249).is_none());
    assert!(t.tick_at(250).is_some());
    t.push(make("d/t", 2.0));
    assert!(t.tick_at(400).is_none());
    t.push(make("d/t", 3.0));
    assert!(t.tick_at(450).is_none());
    assert!(t.tick_at(500).is_some());
}

#[test]
fn later_push_replaces_pending_update() {
    let mut t = UpdateThrottle::new();
    t.push(make("d/t", 1.0));
    t.push(make("d/u", 2.0));
    t.push(make("d/t", 3.0));
    let b = t.tick_at(150).unwrap();
    assert_eq!(b.len(), 2);
    assert_eq!(b[0].tag_id, "d/u");
    assert_eq!(b[1].tag_id, "d/t");
    assert_eq!(b[1].value, Value::F32(3.0f32.to_bits()));
}

#[test]
fn quality_change_is_emitted() {
    let mut t = UpdateThrottle::new();
    t.push(make_value("d/t", Value::U16(5), Quality::Good));
    assert!(t.tick_at(150).is_some());
    t.push(make_value("d/t", Value::U16(5), Quality::Bad));
    assert!(t.tick_at(300).is_some());
}

#[test]
fn same_number_in_other_width_is_unchanged() {
    let mut t = UpdateThrottle::new();
    t.push(make_value("d/t", Value::U16(5), Quality::Good));
    assert!(t.tick_at(150).is_some());
    t.push(make_value("d/t", Value::U32(5), Quality::Good));
    assert!(t.tick_at(300).is_none());
    t.push(make_value("d/t", Value::I32(5), Quality::Good));
    assert!(t.tick_at(450).is_none());
    t.push(make_value("d/t", Value::F32(5.0f32.to_bits()), Quality::Good));
    assert!(t.tick_at(600).is_some());
}

#[test]
fn float_zeros_and_non_finite_compare_alike() {
    let mut t = UpdateThrottle::new();
    t.push(make("d/t", 0.0));
    assert!(t.tick_at(150).is_some());
    t.push(make("d/t", -0.0));
    assert!(t.tick_at(300).is_none());
    t.push(make("d/t", f32::NAN));
    assert!(t.tick_at(450).is_some());
    t.push(make("d/t", f32::INFINITY));
    assert!(t.tick_at(600).is_none());
}

#[test]
fn unchanged_update_left_out_of_mixed_batch() {
    let mut t = UpdateThrottle::default();
    t.push(make("d/t", 25.0));
    assert!(t.tick_at(150).is_some());
    t.push(make("d/t", 25.0));
    t.push(make("d/u", 1.0));
    let b = t.tick_at(300).unwrap();
    assert_eq!(b.len(), 1);
    assert_eq!(b[0].tag_id, "d/u");
}

#[test]
fn a_clock_that_goes_back_never_brings_batches_closer() {
    let mut t = UpdateThrottle::new();
    t.push(make("d/t", 1.0));
    assert!(t.tick_at(1000).is_some());
    t.push(make("d/t", 2.0));
    // an earlier reading counts as no time passed
    assert!(t.tick_at(10).is_none());
    assert!(t.tick_at(1099).is_none());
    assert_eq!(t.tick_at(1100).unwrap()[0].value, Value::F32(2.0f32.to_bits()));
}
