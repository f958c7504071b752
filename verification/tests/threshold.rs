use std::collections::HashMap;

use chitta::synthesis::threshold::check_threshold;
use chitta::synthesis::{Cluster, ThresholdConfig};
use chitta::time::Timestamp;

fn new_id() -> u128 {
    uuid::Uuid::now_v7().as_u128()
}

fn make_source_times(ids: &[u128], times: &[Timestamp]) -> HashMap<u128, Timestamp> {
    ids.iter().copied().zip(times.iter().copied()).collect()
}

fn utc(year: i32, month: u32, day: u32) -> Timestamp {
    let secs = chrono::NaiveDate::from_ymd_opt(year, month, day)
        .unwrap()
        .and_hms_opt(0, 0, 0)
        .unwrap()
        .and_utc()
        .timestamp();
    Timestamp { secs, nanos: 0 }
}

fn make_cluster(source_ids: Vec<u128>) -> Cluster {
    Cluster {
        representative_claim: "test claim".into(),
        memory_type: "trait".into(),
        source_ids,
    }
}

#[test]
fn threshold_below_size() {
    let ids: Vec<u128> = (0..4).map(|_| new_id()).collect();
    let now = utc(2026, 5, 11);
    let times: Vec<Timestamp> = vec![
        utc(2026, 5, 1),
        utc(2026, 5, 2),
        utc(2026, 5, 3),
        utc(2026, 5, 4),
    ];
    let cluster = make_cluster(ids.clone());
    let source_times = make_source_times(&ids, &times);

    assert!(
        !check_threshold(&cluster, &source_times, now, &ThresholdConfig::default()),
        "4 sources should fail size>=5"
    );
}

#[test]
fn threshold_exactly_at_size() {
    let ids: Vec<u128> = (0..5).map(|_| new_id()).collect();
    let now = utc(2026, 5, 11);
    let times: Vec<Timestamp> = vec![
        utc(2026, 5, 1),
        utc(2026, 5, 2),
        utc(2026, 5, 3),
        utc(2026, 5, 4),
        utc(2026, 5, 5),
    ];
    let cluster = make_cluster(ids.clone());
    let source_times = make_source_times(&ids, &times);

    assert!(
        check_threshold(&cluster, &source_times, now, &ThresholdConfig::default()),
        "exactly 5 sources across 5 days with recent data should pass"
    );
}

#[test]
fn threshold_fails_distinct_days() {
    let ids: Vec<u128> = (0..5).map(|_| new_id()).collect();
    let now = utc(2026, 5, 11);
    let same_day = utc(2026, 5, 10);
    let times = vec![same_day; 5];
    let cluster = make_cluster(ids.clone());
    let source_times = make_source_times(&ids, &times);

    assert!(
        !check_threshold(&cluster, &source_times, now, &ThresholdConfig::default()),
        "all sources on same day should fail distinct_days>=2"
    );
}

#[test]
fn threshold_fails_recency() {
    let ids: Vec<u128> = (0..5).map(|_| new_id()).collect();
    let now = utc(2026, 5, 11);
    let times: Vec<Timestamp> = vec![
        utc(2025, 1, 1),
        utc(2025, 1, 2),
        utc(2025, 1, 3),
        utc(2025, 1, 4),
        utc(2025, 1, 5),
    ];
    let cluster = make_cluster(ids.clone());
    let source_times = make_source_times(&ids, &times);

    assert!(
        !check_threshold(&cluster, &source_times, now, &ThresholdConfig::default()),
        "all sources older than 90 days should fail recency check"
    );
}

#[test]
fn threshold_happy_path() {
    let ids: Vec<u128> = (0..7).map(|_| new_id()).collect();
    let now = utc(2026, 5, 11);
    let times: Vec<Timestamp> = vec![
        utc(2025, 12, 1),
        utc(2025, 12, 15),
        utc(2026, 1, 10),
        utc(2026, 3, 5),
        utc(2026, 4, 20),
        utc(2026, 5, 1),
        utc(2026, 5, 10),
    ];
    let cluster = make_cluster(ids.clone());
    let source_times = make_source_times(&ids, &times);

    assert!(
        check_threshold(&cluster, &source_times, now, &ThresholdConfig::default()),
        "7 sources across many days with recent entries should pass all checks"
    );
}

#[test]
fn threshold_recency_at_the_edge() {
    let now = Timestamp { secs: 100 * 86_400 + 5, nanos: 7 };
    let config = ThresholdConfig {
        min_cluster_size: 1,
        min_distinct_days: 1,
        max_source_age_days: 90,
    };
    let passes = |secs: i64, nanos: u32| {
        let times = make_source_times(&[1], &[Timestamp { secs, nanos }]);
        check_threshold(&make_cluster(vec![1]), &times, now, &config)
    };
    assert!(passes(10 * 86_400 + 5, 7));
    assert!(!passes(10 * 86_400 + 5, 6));
    assert!(passes(10 * 86_400 + 6, 0));
}

#[test]
fn threshold_counts_days_before_the_epoch() {
    let now = Timestamp { secs: 0, nanos: 0 };
    let config = ThresholdConfig {
        min_cluster_size: 2,
        min_distinct_days: 2,
        max_source_age_days: 90,
    };
    let at = |a: i64, b: i64| {
        let times = make_source_times(
            &[1, 2],
            &[Timestamp { secs: a, nanos: 0 }, Timestamp { secs: b, nanos: 0 }],
        );
        check_threshold(&make_cluster(vec![1, 2]), &times, now, &config)
    };
    assert!(at(-1, 0), "a second before the epoch is another day");
    assert!(!at(-1, -86_400));
    assert!(at(-86_401, -86_400));
}

#[test]
fn threshold_counts_unknown_sources_by_number_only() {
    let now = utc(2026, 5, 11);
    let times = make_source_times(&[1, 2], &[utc(2026, 5, 1), utc(2026, 5, 2)]);
    let cluster = make_cluster(vec![1, 2, 3, 4, 5]);
    assert!(check_threshold(
        &cluster,
        &times,
        now,
        &ThresholdConfig::default()
    ));
    let one_known = make_source_times(&[1], &[utc(2026, 5, 1)]);
    assert!(!check_threshold(
        &cluster,
        &one_known,
        now,
        &ThresholdConfig::default()
    ));
}

#[test]
fn thresholds_can_be_overridden() {
    let default = ThresholdConfig::default();
    assert_eq!(ThresholdConfig::with_overrides(None, None, None), default);
    let config = ThresholdConfig::with_overrides(Some(3), None, Some(-1));
    assert_eq!(config.min_cluster_size, 3);
    assert_eq!(config.min_distinct_days, 2);
    assert_eq!(config.max_source_age_days, -1);
}

#[test]
fn looser_thresholds_pass_more() {
    let ids: Vec<u128> = (1..=3).collect();
    let times = make_source_times(
        &ids,
        &[utc(2026, 5, 1), utc(2026, 5, 2), utc(2026, 5, 3)],
    );
    let now = utc(2026, 5, 11);
    let strict = ThresholdConfig {
        min_cluster_size: 4,
        min_distinct_days: 3,
        max_source_age_days: 30,
    };
    let loose = ThresholdConfig {
        min_cluster_size: 3,
        ..strict
    };
    assert!(!check_threshold(&make_cluster(ids.clone()), &times, now, &strict));
    assert!(check_threshold(&make_cluster(ids), &times, now, &loose));
}

#[test]
fn more_sources_never_hurt() {
    let ids: Vec<u128> = (1..=4).collect();
    let times = make_source_times(
        &ids,
        &[utc(2026, 5, 1), utc(2026, 5, 2), utc(2026, 5, 3), utc(2020, 1, 1)],
    );
    let now = utc(2026, 5, 11);
    let config = ThresholdConfig {
        min_cluster_size: 3,
        min_distinct_days: 3,
        max_source_age_days: 30,
    };
    let mut sources = vec![1, 2, 3];
    assert!(check_threshold(&make_cluster(sources.clone()), &times, now, &config));
    sources.push(4);
    assert!(check_threshold(&make_cluster(sources.clone()), &times, now, &config));
    sources.push(99);
    assert!(check_threshold(&make_cluster(sources), &times, now, &config));
}
