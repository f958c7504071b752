use chitta::consolidated::{
    age_seconds, decay_seconds, is_active, is_consolidated, rank, CONSOLIDATED_TYPES,
    HALF_LIFE_DAYS,
};
use chitta::db::MemoryRow;
use chitta::facets::Facets;
use chitta::time::Timestamp;

fn utc(year: i32, month: u32, day: u32) -> Timestamp {
    let secs = chrono::NaiveDate::from_ymd_opt(year, month, day)
        .unwrap()
        .and_hms_opt(0, 0, 0)
        .unwrap()
        .and_utc()
        .timestamp();
    Timestamp { secs, nanos: 0 }
}

fn after_days(t: Timestamp, days: i64) -> Timestamp {
    Timestamp {
        secs: t.secs + days * 86_400,
        nanos: t.nanos,
    }
}

/// The confidence after the decay whose length the library gives.
fn effective_score(
    confidence: f32,
    last_reinforced_at: Option<Timestamp>,
    record_time: Timestamp,
    now: Timestamp,
) -> f32 {
    let days = decay_seconds(last_reinforced_at, record_time, now) as f32 / 86_400.0;
    confidence * 0.5_f32.powf(days / HALF_LIFE_DAYS as f32)
}

fn row(id: u128) -> MemoryRow {
    MemoryRow {
        id,
        profile: "josh".into(),
        content: format!("row {id}"),
        event_time: utc(2026, 1, 1),
        record_time: utc(2026, 1, 1),
        idempotency_key: format!("key-{id}"),
        source: None,
        memory_type: "trait".into(),
        tags: vec![],
        external_refs: None,
        metadata: None,
        facets: Facets::default(),
        superseded_by: None,
        confidence: None,
        reinforcement_count: 0,
        last_reinforced_at: None,
        invalidated_at: None,
    }
}

#[test]
fn consolidated_types_recognized() {
    assert!(is_consolidated("trait"));
    assert!(is_consolidated("value"));
    assert!(is_consolidated("pattern"));
    assert!(is_consolidated("preference"));
    assert!(is_consolidated("mental_model"));
}

#[test]
fn non_consolidated_types_rejected() {
    assert!(!is_consolidated("observation"));
    assert!(!is_consolidated("decision"));
    assert!(!is_consolidated("episode"));
    assert!(!is_consolidated(""));
}

#[test]
fn every_listed_type_is_consolidated() {
    assert_eq!(CONSOLIDATED_TYPES.len(), 5);
    for t in CONSOLIDATED_TYPES {
        assert!(is_consolidated(t));
    }
}

#[test]
fn consolidated_day_zero_equals_confidence() {
    let now = utc(2026, 5, 8);
    let score = effective_score(0.80, None, now, now);
    assert!(
        (score - 0.80).abs() < 1e-6,
        "day-0 score should equal confidence, got {score}"
    );
}

#[test]
fn consolidated_half_life_day_halves_confidence() {
    let record = utc(2026, 1, 1);
    let now = after_days(record, 180);
    let score = effective_score(0.80, None, record, now);
    let expected = 0.40;
    assert!(
        (score - expected).abs() < 1e-4,
        "at half-life, score should be ~{expected}, got {score}"
    );
}

#[test]
fn consolidated_year_plus_still_nonzero() {
    let record = utc(2025, 1, 1);
    let now = utc(2026, 5, 8);
    let score = effective_score(0.90, None, record, now);
    assert!(score > 0.0, "score should be nonzero even after 1+ year");
    assert!(
        score < 0.20,
        "score should be small after 1+ year, got {score}"
    );
}

#[test]
fn consolidated_null_last_reinforced_falls_back_to_record_time() {
    let record = utc(2026, 1, 1);
    let now = utc(2026, 7, 1);
    let score_with_none = effective_score(0.70, None, record, now);
    let score_with_record = effective_score(0.70, Some(record), record, now);
    assert!(
        (score_with_none - score_with_record).abs() < 1e-6,
        "None should fall back to record_time"
    );
}

#[test]
fn consolidated_last_reinforced_resets_decay_anchor() {
    let record = utc(2025, 1, 1);
    let reinforced = utc(2026, 5, 1);
    let now = utc(2026, 5, 8);
    let score = effective_score(0.80, Some(reinforced), record, now);
    assert!(
        score > 0.75,
        "recent reinforcement should keep score high, got {score}"
    );
}

#[test]
fn consolidated_agree_bumped_confidence_flows_through() {
    let now = utc(2026, 5, 8);
    let base = effective_score(0.70, Some(now), now, now);
    let agreed = effective_score(0.75, Some(now), now, now);
    assert!(
        agreed > base,
        "agree-bumped confidence ({agreed}) should exceed base ({base})"
    );
    assert!((agreed - 0.75).abs() < 1e-6);
}

#[test]
fn consolidated_disagree_dropped_confidence_flows_through() {
    let now = utc(2026, 5, 8);
    let base = effective_score(0.70, Some(now), now, now);
    let disagreed = effective_score(0.60, Some(now), now, now);
    assert!(
        disagreed < base,
        "disagree-dropped confidence ({disagreed}) should be below base ({base})"
    );
    assert!((disagreed - 0.60).abs() < 1e-6);
}

#[test]
fn consolidated_zero_confidence_stays_zero() {
    let record = utc(2026, 1, 1);
    let now = utc(2026, 5, 8);
    let score = effective_score(0.0, None, record, now);
    assert!((score - 0.0).abs() < 1e-6);
}

#[test]
fn age_counts_whole_seconds_and_never_below_zero() {
    let t = |secs: i64, nanos: u32| Timestamp { secs, nanos };
    assert_eq!(age_seconds(t(10, 0), t(15, 0)), 5);
    assert_eq!(age_seconds(t(10, 900), t(15, 100)), 4);
    assert_eq!(age_seconds(t(10, 100), t(15, 900)), 5);
    assert_eq!(age_seconds(t(15, 0), t(10, 0)), 0);
    assert_eq!(age_seconds(t(10, 5), t(10, 4)), 0);
    assert_eq!(age_seconds(t(i64::MIN, 0), t(i64::MAX, 0)), u64::MAX);
}

#[test]
fn superseded_and_invalidated_rows_are_not_active() {
    assert!(is_active(&row(1)));
    let mut superseded = row(2);
    superseded.superseded_by = Some(9);
    assert!(!is_active(&superseded));
    let mut invalidated = row(3);
    invalidated.invalidated_at = Some(utc(2026, 1, 2));
    assert!(!is_active(&invalidated));
}

fn ids(ranked: &[(u32, MemoryRow)]) -> Vec<u128> {
    ranked.iter().map(|(_, r)| r.id).collect()
}

#[test]
fn rank_puts_higher_scores_first() {
    let rows = vec![row(1), row(2), row(3), row(4)];
    let scores = [0.2f32, 0.9, -0.0, 0.5].map(f32::to_bits);
    let ranked = rank(rows, &scores);
    assert_eq!(ids(&ranked), vec![2, 4, 1, 3]);
    assert_eq!(ranked[0].0, 0.9f32.to_bits());
    assert_eq!(ranked[0].1.content, "row 2");
}

#[test]
fn rank_breaks_ties_by_reinforcement_then_recording_then_id() {
    let mut reinforced_early = row(40);
    reinforced_early.last_reinforced_at = Some(utc(2026, 2, 1));
    let mut reinforced_late = row(50);
    reinforced_late.last_reinforced_at = Some(utc(2026, 3, 1));
    let mut recorded_late = row(30);
    recorded_late.record_time = utc(2026, 1, 5);
    let rows = vec![row(20), row(10), recorded_late, reinforced_early, reinforced_late];
    let scores = [0.5f32.to_bits(); 5];
    let ranked = rank(rows, &scores);
    assert_eq!(ids(&ranked), vec![30, 10, 20, 50, 40]);
}

#[test]
fn rank_holds_what_is_not_a_number_level_with_everything() {
    let rows = vec![row(1), row(2), row(3)];
    let scores = [f32::NAN, f32::NEG_INFINITY, 0.0].map(f32::to_bits);
    assert_eq!(ids(&rank(rows, &scores)), vec![1, 3, 2]);
    let rows = vec![row(2), row(1)];
    let scores = [f32::NAN, 1.0].map(f32::to_bits);
    assert_eq!(ids(&rank(rows, &scores)), vec![1, 2]);
}
