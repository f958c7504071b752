use chitta::error::ChittaError;
use chitta::facets::Facets;
use chitta::json::Json;
use chitta::migrate::{
    build_export_query, data_line, format_err, plan_seed, seed_row, seed_row_as, shows_progress,
    tally, validate_row, MigrateRow, SeedOutcome, SeedTally, SEED_TAG,
};
use chitta::time::Timestamp;

fn text(s: &str) -> Json {
    Json::Text(s.to_string())
}

fn obj(members: Vec<(&str, Json)>) -> Json {
    Json::Object(
        members
            .into_iter()
            .map(|(k, v)| (k.to_string(), v))
            .collect(),
    )
}

fn make_row() -> MigrateRow {
    MigrateRow {
        id: None,
        profile: "josh".into(),
        content: "test content".into(),
        event_time: None,
        record_time: None,
        idempotency_key: Some("test-key".into()),
        source: None,
        memory_type: Some("observation".into()),
        tags: None,
        external_refs: None,
        metadata: None,
        facets: Facets::default(),
        confidence: None,
        derivations: None,
    }
}

#[test]
fn valid_observation_passes() {
    assert!(validate_row(&make_row()).is_ok());
}

#[test]
fn valid_decision_passes() {
    let mut row = make_row();
    row.memory_type = Some("decision".into());
    row.metadata = Some(obj(vec![
        ("rationale", text("chose X for speed")),
        (
            "rejected_alternatives",
            Json::Array(vec![text("Y was slower")]),
        ),
    ]));
    assert!(validate_row(&row).is_ok());
}

#[test]
fn decision_without_rationale_rejected() {
    let mut row = make_row();
    row.memory_type = Some("decision".into());
    row.metadata = Some(obj(vec![]));
    let err = validate_row(&row).unwrap_err();
    assert!(err.contains("rationale"), "error mentions rationale: {err}");
}

#[test]
fn episode_without_derivations_rejected() {
    let mut row = make_row();
    row.memory_type = Some("episode".into());
    let err = validate_row(&row).unwrap_err();
    assert!(
        err.contains("derivation"),
        "error mentions derivations: {err}"
    );
}

#[test]
fn empty_content_rejected() {
    let mut row = make_row();
    row.content = "".into();
    assert!(validate_row(&row).is_err());
}

#[test]
fn missing_type_counts_as_observation() {
    let mut row = make_row();
    row.memory_type = None;
    assert!(validate_row(&row).is_ok());
    assert_eq!(
        seed_row_as(&row, 1, Timestamp { secs: 0, nanos: 0 }).memory_type,
        "observation"
    );
}

#[test]
fn refusals_read_as_one_line() {
    let mut row = make_row();
    row.content = "".into();
    assert_eq!(
        validate_row(&row),
        Err("[content] length >= 1 — next: Pass non-empty content.".to_string())
    );
    let e = ChittaError::Internal("boom".into());
    assert_eq!(
        format_err(&e),
        "[?] internal invariant: boom — next: Report this as a fault of the server."
    );
}

#[test]
fn rows_are_sorted_out() {
    let mut bad = make_row();
    bad.profile = "".into();
    let mut worse = make_row();
    worse.memory_type = Some("bogus".into());
    let plan = plan_seed(&[make_row(), bad, make_row(), worse]);
    assert_eq!(plan.accepted, vec![0, 2]);
    assert_eq!(plan.rejected.len(), 2);
    assert_eq!(plan.rejected[0].0, 1);
    assert!(plan.rejected[0].1.starts_with("[profile]"));
    assert_eq!(plan.rejected[1].0, 3);
    assert!(plan.rejected[1].1.starts_with("[memory_type]"));
}

#[test]
fn seeded_rows_are_tagged_once() {
    let now = Timestamp { secs: 9, nanos: 0 };
    let mut row = make_row();
    assert_eq!(seed_row_as(&row, 1, now).tags, vec![SEED_TAG]);
    row.tags = Some(vec!["a".into(), SEED_TAG.into(), "b".into()]);
    assert_eq!(seed_row_as(&row, 1, now).tags, vec!["a", SEED_TAG, "b"]);
    row.tags = Some(vec!["a".into()]);
    assert_eq!(seed_row_as(&row, 1, now).tags, vec!["a", SEED_TAG]);
}

#[test]
fn seeded_rows_fill_in_what_is_missing() {
    let now = Timestamp { secs: 9, nanos: 0 };
    let then = Timestamp { secs: 3, nanos: 0 };
    let mut row = make_row();
    row.idempotency_key = None;
    let seeded = seed_row_as(&row, 0x20, now);
    assert_eq!(seeded.id, 0x20);
    assert_eq!(
        seeded.idempotency_key,
        "seed-00000000-0000-0000-0000-000000000020"
    );
    assert_eq!(seeded.event_time, now);
    assert_eq!(seeded.record_time, now);

    row.id = Some(0x30);
    row.event_time = Some(then);
    row.record_time = Some(then);
    let seeded = seed_row(&row, now);
    assert_eq!(seeded.id, 0x30);
    assert_eq!(
        seeded.idempotency_key,
        "seed-00000000-0000-0000-0000-000000000030"
    );
    assert_eq!(seeded.event_time, then);
    assert_eq!(seeded.record_time, then);
}

#[test]
fn blank_lines_and_comments_hold_no_data() {
    assert_eq!(data_line("  {\"a\": 1}  "), Some("{\"a\": 1}"));
    assert_eq!(data_line("   "), None);
    assert_eq!(data_line(""), None);
    assert_eq!(data_line("  # comment"), None);
    assert_eq!(data_line("x # not a comment"), Some("x # not a comment"));
}

fn columns(names: &[&str]) -> Vec<String> {
    names.iter().map(|n| n.to_string()).collect()
}

#[test]
fn export_of_a_bare_store() {
    assert_eq!(
        build_export_query(&columns(&["id", "profile", "content"])),
        "SELECT (json_build_object('id', id, 'profile', profile, 'content', content, \
         'idempotency_key', 'seed-' || id::text, 'source', source, \
         'memory_type', 'observation'::text, 'tags', COALESCE(tags, '{}')))::text as row_json \
         FROM memories ORDER BY id"
    );
}

#[test]
fn export_of_an_older_store() {
    let query = build_export_query(&columns(&["created_at", "metadata"]));
    assert!(query.contains("'event_time', created_at, 'record_time', created_at"));
    assert!(query.contains("'metadata', metadata"));
    assert!(query.ends_with("FROM memories ORDER BY created_at"));
}

#[test]
fn export_of_a_current_store() {
    let query = build_export_query(&columns(&[
        "event_time",
        "record_time",
        "created_at",
        "idempotency_key",
        "memory_type",
        "external_refs",
        "metadata",
        "applies_to_domains",
        "applies_to_skills",
        "applies_to_projects",
        "applies_to_situations",
        "confidence",
        "invalidated_at",
    ]));
    assert_eq!(
        query,
        "SELECT (json_build_object('id', id, 'profile', profile, 'content', content, \
         'event_time', event_time, 'record_time', record_time, \
         'idempotency_key', idempotency_key, 'source', source, \
         'memory_type', COALESCE(memory_type, 'observation'), 'tags', COALESCE(tags, '{}'), \
         'external_refs', external_refs, 'metadata', metadata, \
         'applies_to_domains', applies_to_domains, 'applies_to_skills', applies_to_skills, \
         'applies_to_projects', applies_to_projects, \
         'applies_to_situations', applies_to_situations, 'confidence', confidence))::text \
         as row_json FROM memories WHERE invalidated_at IS NULL ORDER BY record_time"
    );
}

#[test]
fn outcomes_are_counted_once_each() {
    let outcomes = [
        SeedOutcome::Inserted,
        SeedOutcome::Failed,
        SeedOutcome::Inserted,
        SeedOutcome::Replayed,
    ];
    assert_eq!(
        tally(&outcomes),
        SeedTally {
            inserted: 2,
            replayed: 1,
            errors: 1
        }
    );
    assert!(shows_progress(50));
    assert!(shows_progress(100));
    assert!(!shows_progress(51));
}
