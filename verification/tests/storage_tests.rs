use hc_host::model::{Quality, Sample, Value};
use hc_host::storage::{downsample, history_db_path, join_path, project_dir_name, trend_sql, DEVICES_FILE, PROJECT_FILE, TAGS_FILE};
use hc_host::text::decimal_string;

fn samples(n: i64) -> Vec<Sample> {
    (0..n)
        .map(|i| Sample {
            tag_id: "d/t".into(),
            ts_ms: 1_725_000_000_000 + i * 10,
            value: Value::F32((i as f32).to_bits()),
            quality: Quality::Good,
        })
        .collect()
}

#[test]
fn test_history_db_path() {
    assert_eq!(history_db_path("/p"), "/p/history.db");
}

#[test]
fn history_path_edge_cases() {
    assert_eq!(history_db_path("/p/"), "/p/history.db");
    assert_eq!(history_db_path(""), "history.db");
    assert_eq!(join_path("a", "b", "/"), "a/b");
}

#[test]
fn join_path_follows_the_separator() {
    assert_eq!(join_path("a", "b", "\\"), "a\\b");
    assert_eq!(join_path("C:\\p", "x", "\\"), "C:\\p\\x");
    assert_eq!(join_path("C:\\p\\", "x", "\\"), "C:\\p\\x");
    assert_eq!(join_path("C:", "x", "\\"), "C:x");
    assert_eq!(join_path("a/", "x", "\\"), "a/x");
    assert_eq!(join_path("", "x", "\\"), "x");
    assert_eq!(join_path("C:", "x", "/"), "C:/x");
    assert_eq!(join_path("a\\", "x", "/"), "a\\/x");
}

#[test]
fn test_downsample() {
    let r = downsample(samples(100), 10);
    assert!(r.len() <= 10 && !r.is_empty());
}

#[test]
fn downsample_takes_every_step_from_first() {
    let r = downsample(samples(100), 10);
    assert_eq!(r.len(), 10);
    assert_eq!(r[0].ts_ms, 1_725_000_000_000);
    assert_eq!(r[1].ts_ms, 1_725_000_000_100);
    let r = downsample(samples(150), 100);
    assert_eq!(r.len(), 75);
    let r = downsample(samples(250), 100);
    assert_eq!(r.len(), 84);
    assert_eq!(r[83].ts_ms, 1_725_000_000_000 + 249 * 10);
    let r = downsample(samples(3), 2);
    assert_eq!(r.len(), 2);
    assert_eq!(r[0].ts_ms, 1_725_000_000_000);
    assert_eq!(r[1].ts_ms, 1_725_000_000_020);
    assert_eq!(downsample(samples(5), 0).len(), 5);
    assert_eq!(downsample(samples(5), 5).len(), 5);
    assert!(downsample(samples(0), 3).is_empty());
}

#[test]
fn project_names() {
    assert_eq!(project_dir_name("plant"), "plant.hcproj");
    assert_eq!(PROJECT_FILE, "project.toml");
    assert_eq!(DEVICES_FILE, "devices.toml");
    assert_eq!(TAGS_FILE, "tags.toml");
}

#[test]
fn trend_queries() {
    assert_eq!(
        trend_sql(1),
        "SELECT tag_id, ts, value, quality FROM samples WHERE tag_id IN (?1) AND ts >= ?2 AND ts <= ?3 ORDER BY ts ASC"
    );
    assert_eq!(
        trend_sql(3),
        "SELECT tag_id, ts, value, quality FROM samples WHERE tag_id IN (?1,?2,?3) AND ts >= ?4 AND ts <= ?5 ORDER BY ts ASC"
    );
    assert_eq!(
        trend_sql(0),
        "SELECT tag_id, ts, value, quality FROM samples WHERE tag_id IN () AND ts >= ?1 AND ts <= ?2 ORDER BY ts ASC"
    );
}

#[test]
fn decimal_notation() {
    assert_eq!(decimal_string(0), "0");
    assert_eq!(decimal_string(7), "7");
    assert_eq!(decimal_string(1024), "1024");
    assert_eq!(decimal_string(u64::MAX), u64::MAX.to_string());
}
