use chitta::db::{MemoryRow, ReflectRunRow};
use chitta::error::ChittaError;
use chitta::facets::Facets;
use chitta::json::{Json, Number};
use chitta::synthesis::disagree::find_disagree_targets;
use chitta::time::Timestamp;
use chitta::tools::get_profile::{self, GetProfileArgs};
use chitta::tools::record_feedback::{
    self, concurrent_change, delta, make_correction_row, make_correction_row_as,
    make_feedback_row, make_feedback_row_as, update_sql, FeedbackKind, RecordFeedbackArgs,
};
use chitta::tools::reflect_status::{
    self, summary_json, survey, DateRange, DisagreeFlagged, ReflectStatusArgs,
};
use chitta::tools::reflect_summary::{self, ReflectSummaryArgs};
use chitta::tools::store::{
    self, check_args_at, make_row, make_row_as, parse_links, row_to_output, StoreArgs,
};
use chitta::tools::supersede::{self, SupersedeArgs};
use chitta::tools::survey::{SurveyAction, SurveyEvent, SurveyReport};
use chitta::tools::validate::DerivationInput;

const ID: u128 = 0x019e0725_aab3_7160_905b_a150603d16d9;
const ID_TEXT: &str = "019e0725-aab3-7160-905b-a150603d16d9";

fn text(s: &str) -> Json {
    Json::Text(s.to_string())
}

fn at(secs: i64) -> Timestamp {
    Timestamp { secs, nanos: 0 }
}

fn row(id: u128, memory_type: &str) -> MemoryRow {
    MemoryRow {
        id,
        profile: "josh".into(),
        content: format!("content {id}"),
        event_time: at(1_000),
        record_time: at(1_000),
        idempotency_key: format!("key-{id}"),
        source: None,
        memory_type: memory_type.into(),
        tags: vec![],
        external_refs: None,
        metadata: None,
        facets: Facets::default(),
        superseded_by: None,
        confidence: Some(0.5f32.to_bits()),
        reinforcement_count: 0,
        last_reinforced_at: None,
        invalidated_at: None,
    }
}

fn argument(e: &ChittaError) -> String {
    match e {
        ChittaError::InvalidArgument { argument, .. } => argument.clone(),
        other => panic!("expected InvalidArgument, got: {other:?}"),
    }
}

// ---- record_feedback ----------------------------------------------------------

fn feedback(kind: FeedbackKind, correction: Option<&str>) -> RecordFeedbackArgs {
    RecordFeedbackArgs {
        profile: "josh".into(),
        memory_id: ID_TEXT.into(),
        kind,
        correction: correction.map(str::to_string),
    }
}

#[test]
fn feedback_arguments_are_checked_in_turn() {
    let ok = feedback(FeedbackKind::Disagree, Some("prefers Vim"));
    assert_eq!(record_feedback::check_args(&ok), Ok(ID));

    let mut bad = feedback(FeedbackKind::Agree, Some("x"));
    bad.profile = "has space".into();
    bad.memory_id = "nope".into();
    assert_eq!(argument(&record_feedback::check_args(&bad).unwrap_err()), "profile");
    bad.profile = "josh".into();
    assert_eq!(argument(&record_feedback::check_args(&bad).unwrap_err()), "memory_id");
    bad.memory_id = ID_TEXT.into();
    let e = record_feedback::check_args(&bad).unwrap_err();
    assert_eq!(argument(&e), "correction");
    assert!(e.data().received.is_none());

    let empty = feedback(FeedbackKind::Disagree, Some(""));
    assert_eq!(argument(&record_feedback::check_args(&empty).unwrap_err()), "content");
    let e = record_feedback::check_args_parsed(&ok, Err("why".into())).unwrap_err();
    assert!(e.data().next_action.ends_with("why"));
}

#[test]
fn feedback_on_raw_memory_refused() {
    let e = record_feedback::check_target(&Some(row(1, "observation"))).unwrap_err();
    assert_eq!(argument(&e), "memory_id");
    assert_eq!(e.data().received, Some(text("observation")));
    assert!(e.data().constraint.ends_with("got 'observation'"));
}

#[test]
fn feedback_on_superseded_memory_refused() {
    let mut superseded = row(1, "trait");
    superseded.superseded_by = Some(2);
    let e = record_feedback::check_target(&Some(superseded)).unwrap_err();
    assert_eq!(argument(&e), "memory_id");
}

#[test]
fn feedback_on_missing_or_invalidated_memory_not_found() {
    let mut invalidated = row(1, "trait");
    invalidated.invalidated_at = Some(at(2_000));
    for target in [None, Some(invalidated)] {
        match record_feedback::check_target(&target).unwrap_err() {
            ChittaError::NotFound { kind, .. } => assert_eq!(kind, "memory"),
            other => panic!("expected NotFound, got: {other:?}"),
        }
    }
    assert_eq!(record_feedback::check_target(&Some(row(1, "trait"))), Ok(()));
}

#[test]
fn agreement_raises_and_reinforces() {
    let sql = update_sql(FeedbackKind::Agree);
    assert!(sql.contains("LEAST(COALESCE(confidence, 0.5) + $3, 1.0)"));
    assert!(sql.contains("reinforcement_count = reinforcement_count + 1"));
    assert!(sql.contains("last_reinforced_at = $4"));
    assert_eq!(f32::from_bits(delta(FeedbackKind::Agree)), 0.05);
}

#[test]
fn disagreement_lowers_and_does_not_count() {
    let sql = update_sql(FeedbackKind::Disagree);
    assert!(sql.contains("GREATEST(COALESCE(confidence, 0.5) - $3, 0.0)"));
    assert!(sql.contains("reinforcement_count = reinforcement_count,"));
    assert!(sql.contains("last_reinforced_at = $4"));
    assert!(sql.ends_with("RETURNING confidence"));
    assert_eq!(f32::from_bits(delta(FeedbackKind::Disagree)), 0.10);
}

#[test]
fn concurrent_change_asks_for_another_try() {
    let e = concurrent_change();
    assert_eq!(argument(&e), "memory_id");
    assert_eq!(e.data().next_action, "Retry the operation.");
}

#[test]
fn disagreement_is_found_by_synthesis() {
    let facets = Facets {
        domains: vec!["rust".into()],
        ..Default::default()
    };
    let r = make_feedback_row_as(FeedbackKind::Disagree, ID, "josh", facets.clone(), at(5), 9);
    assert_eq!(r.id, 9);
    assert_eq!(r.content, format!("Feedback: disagree with memory {ID_TEXT}"));
    assert_eq!(r.tags, vec!["feedback", "disagree"]);
    assert_eq!(
        r.idempotency_key,
        "feedback-josh-00000000-0000-0000-0000-000000000009"
    );
    assert_eq!(r.source.as_deref(), Some("record_feedback"));
    assert_eq!(r.memory_type, "observation");
    assert_eq!(r.facets, facets);
    assert_eq!(find_disagree_targets(&[r]), vec![ID]);
}

#[test]
fn agreement_is_not_taken_for_disagreement() {
    let r = make_feedback_row(FeedbackKind::Agree, ID, "josh", Facets::default(), at(5));
    assert_eq!(r.tags, vec!["feedback", "agree"]);
    assert!(find_disagree_targets(&[r]).is_empty());
}

#[test]
fn correction_keeps_its_words_and_names_the_memory() {
    let r = make_correction_row_as("prefers Vim", ID, "josh", Facets::default(), at(5), 9);
    assert_eq!(r.content, "prefers Vim");
    assert_eq!(
        r.tags,
        vec!["correction".to_string(), format!("contradicts:{ID_TEXT}")]
    );
    assert_eq!(
        r.idempotency_key,
        format!("correction-{ID_TEXT}-00000000-0000-0000-0000-000000000009")
    );
    let other = make_correction_row("prefers Vim", ID, "josh", Facets::default(), at(5));
    assert_ne!(other.idempotency_key, r.idempotency_key);
    assert!(find_disagree_targets(&[r, other]).is_empty());
}

// ---- supersede_memory -----------------------------------------------------------

fn supersede_args() -> SupersedeArgs {
    SupersedeArgs {
        profile: "josh".into(),
        old_id: ID_TEXT.into(),
        new_id: "019e0725-aab3-7160-905b-a150603d16da".into(),
        reason: "contradicted".into(),
    }
}

#[test]
fn supersede_arguments_are_checked_in_turn() {
    assert_eq!(supersede::check_args(&supersede_args()), Ok((ID, ID + 1)));

    let mut args = supersede_args();
    args.reason = " \t\n".into();
    let e = supersede::check_args(&args).unwrap_err();
    assert_eq!(argument(&e), "reason");
    assert!(e.data().received.is_none());
    args.new_id = "x".into();
    assert_eq!(argument(&supersede::check_args(&args).unwrap_err()), "new_id");
    args.old_id = "y".into();
    let e = supersede::check_args(&args).unwrap_err();
    assert_eq!(argument(&e), "old_id");
    assert_eq!(e.data().received, Some(text("y")));
    args.profile = "".into();
    assert_eq!(argument(&supersede::check_args(&args).unwrap_err()), "profile");
    assert_eq!(
        supersede::check_args_parsed(&supersede_args(), Some(1), Some(2)),
        Ok((1, 2))
    );
}

#[test]
fn old_memory_must_exist_and_hold() {
    let args = supersede_args();
    let e = supersede::check_old(&args, ID, &None).unwrap_err();
    assert_eq!(
        e.data().next_action,
        format!("old_id {ID_TEXT} not found in profile 'josh'. Check the id and profile.")
    );
    let mut old = row(ID, "trait");
    assert_eq!(supersede::check_old(&args, ID, &Some(old.copy())), Ok(()));
    old.superseded_by = Some(0x20);
    let e = supersede::check_old(&args, ID, &Some(old)).unwrap_err();
    assert_eq!(argument(&e), "old_id");
    assert_eq!(
        e.data().next_action,
        format!(
            "Memory {ID_TEXT} is already superseded by 00000000-0000-0000-0000-000000000020."
        )
    );
}

#[test]
fn new_memory_must_exist() {
    let args = supersede_args();
    assert_eq!(supersede::check_new(&args, ID, true), Ok(()));
    let e = supersede::check_new(&args, ID, false).unwrap_err();
    assert_eq!(
        e.data().next_action,
        format!(
            "new_id {ID_TEXT} not found in profile 'josh'. \
             Store the new memory first, then call supersede_memory."
        )
    );
}

// ---- store_memory -----------------------------------------------------------------

fn store_args() -> StoreArgs {
    StoreArgs {
        profile: "josh".into(),
        content: "  verbatim \u{1F600}\n".into(),
        idempotency_key: "k".into(),
        event_time: None,
        tags: None,
        metadata: None,
        memory_type: None,
        external_refs: None,
        facets: Facets::default(),
        confidence: None,
        source: None,
        derivations: None,
    }
}

fn derivation(source_id: &str) -> DerivationInput {
    DerivationInput {
        source_id: source_id.into(),
        derivation_type: "synthesised_from".into(),
    }
}

#[test]
fn plain_memory_is_stored_verbatim_as_an_observation() {
    let args = store_args();
    assert_eq!(store::check_args(&args), Ok(()));
    let r = make_row_as(&args, 5, at(77));
    assert_eq!(r.id, 5);
    assert_eq!(r.content, "  verbatim \u{1F600}\n");
    assert_eq!(r.memory_type, "observation");
    assert_eq!(r.event_time, at(77));
    assert_eq!(r.record_time, at(77));
    assert!(r.tags.is_empty());
    assert_eq!(r.reinforcement_count, 0);
    assert_ne!(make_row(&args, at(77)).id, make_row(&args, at(77)).id);
}

#[test]
fn full_memory_keeps_everything() {
    let mut args = store_args();
    args.event_time = Some(at(50));
    args.tags = Some(vec!["a".into(), "b".into()]);
    args.metadata = Some(Json::Object(vec![("k".into(), Json::Array(vec![Json::Null]))]));
    args.memory_type = Some("trait".into());
    args.external_refs = Some(Json::Array(vec![]));
    args.facets.skills = vec!["review".into()];
    args.confidence = Some(0.8f32.to_bits());
    args.source = Some("codex".into());
    assert_eq!(check_args_at(&args, at(77)), Ok(()));
    let r = make_row_as(&args, 5, at(77));
    assert_eq!(r.event_time, at(50));
    assert_eq!(r.tags, vec!["a", "b"]);
    assert_eq!(r.metadata, args.metadata);
    assert_eq!(r.memory_type, "trait");
    assert_eq!(r.external_refs, args.external_refs);
    assert_eq!(r.facets, args.facets);
    assert_eq!(r.confidence, args.confidence);
    assert_eq!(r.source, args.source);
    let out = row_to_output(r, true);
    assert!(out.idempotent_replay);
    assert_eq!(out.id, 5);
    assert_eq!(out.content, args.content);
}

#[test]
fn store_refuses_by_the_first_broken_rule() {
    let refuse = |change: &dyn Fn(&mut StoreArgs)| {
        let mut args = store_args();
        change(&mut args);
        argument(&check_args_at(&args, at(1_000)).unwrap_err())
    };
    assert_eq!(refuse(&|a| a.profile = "!".into()), "profile");
    assert_eq!(refuse(&|a| a.content = "".into()), "content");
    assert_eq!(refuse(&|a| a.idempotency_key = "".into()), "idempotency_key");
    assert_eq!(refuse(&|a| a.event_time = Some(at(-1))), "event_time");
    assert_eq!(
        refuse(&|a| a.event_time = Some(at(1_001 + 365 * 86_400))),
        "event_time"
    );
    assert_eq!(refuse(&|a| a.tags = Some(vec!["".into()])), "tags");
    assert_eq!(refuse(&|a| a.memory_type = Some("bogus".into())), "memory_type");
    assert_eq!(refuse(&|a| a.external_refs = Some(Json::Null)), "external_refs");
    assert_eq!(refuse(&|a| a.memory_type = Some("episode".into())), "derivations");
    assert_eq!(refuse(&|a| a.memory_type = Some("decision".into())), "metadata");
    assert_eq!(
        refuse(&|a| {
            a.content = "".into();
            a.tags = Some(vec!["".into()]);
        }),
        "content"
    );
}

#[test]
fn episodes_are_linked_to_their_sources() {
    let mut args = store_args();
    args.memory_type = Some("episode".into());
    args.derivations = Some(vec![derivation(ID_TEXT), derivation(ID_TEXT)]);
    assert_eq!(check_args_at(&args, at(0)), Ok(()));
    let links = parse_links(args.derivations.as_deref().unwrap()).unwrap();
    assert_eq!(
        links,
        vec![
            (ID, "synthesised_from".to_string()),
            (ID, "synthesised_from".to_string())
        ]
    );
    assert_eq!(parse_links(&[]), Some(vec![]));
    assert_eq!(parse_links(&[derivation(ID_TEXT), derivation("x")]), None);
}

// ---- get_profile ------------------------------------------------------------------

#[test]
fn profile_shows_the_best_thirty() {
    let rows: Vec<MemoryRow> = (0..40).map(|i| row(i, "trait")).collect();
    let scores: Vec<u32> = (0..40).map(|i| (i as f32 / 40.0).to_bits()).collect();
    let out = get_profile::assemble("josh".into(), rows, &scores);
    assert_eq!(out.profile, "josh");
    assert_eq!(out.total_candidates, 40);
    assert!(out.truncated);
    assert_eq!(out.entries.len(), 30);
    let ids: Vec<u128> = out.entries.iter().map(|e| e.id).collect();
    assert_eq!(ids, (10..40).rev().collect::<Vec<u128>>());
    assert_eq!(out.entries[0].effective_score, (39.0f32 / 40.0).to_bits());
    assert_eq!(out.entries[0].content, "content 39");
    assert_eq!(out.entries[0].confidence, 0.5f32.to_bits());
}

#[test]
fn empty_profile_is_empty() {
    let out = get_profile::assemble("josh".into(), vec![], &[]);
    assert!(out.entries.is_empty());
    assert_eq!(out.total_candidates, 0);
    assert!(!out.truncated);
    let mut unset = row(1, "trait");
    unset.confidence = None;
    let out = get_profile::assemble("josh".into(), vec![unset], &[0]);
    assert_eq!(out.entries[0].confidence, 0.0f32.to_bits());
}

#[test]
fn tools_check_the_profile() {
    let bad = "no spaces please".to_string();
    assert!(get_profile::check_args(&GetProfileArgs { profile: "josh".into() }).is_ok());
    assert!(get_profile::check_args(&GetProfileArgs { profile: bad.clone() }).is_err());
    assert!(reflect_status::check_args(&ReflectStatusArgs { profile: bad.clone() }).is_err());
    let e = reflect_summary::check_args(&ReflectSummaryArgs { profile: bad }).unwrap_err();
    assert_eq!(e.data().tool, "reflect_summary");
}

// ---- reflect_status ---------------------------------------------------------------

#[test]
fn survey_counts_ranges_and_flags() {
    let mut a = row(1, "observation");
    a.record_time = at(30);
    a.facets.domains = vec!["rust".into()];
    let mut b = row(2, "episode");
    b.record_time = at(10);
    b.facets.situations = vec!["debugging".into()];
    let mut c = row(3, "observation");
    c.record_time = at(20);
    c.content = "é".repeat(200);
    c.tags = vec!["feedback".into(), "disagree".into()];
    let s = survey(&[a, b, c]);
    assert_eq!(
        s.counts,
        vec![("episode".to_string(), 1), ("observation".to_string(), 2)]
    );
    assert_eq!(s.total, 3);
    assert_eq!(s.counts.iter().map(|c| c.1).sum::<usize>(), s.total);
    assert_eq!(
        s.date_range,
        Some(DateRange {
            earliest: at(10),
            latest: at(30)
        })
    );
    assert_eq!(s.facets.domains, vec!["rust"]);
    assert_eq!(s.facets.situations, vec!["debugging"]);
    assert_eq!(
        s.disagree_flagged,
        vec![DisagreeFlagged {
            memory_id: 3,
            content_snippet: "é".repeat(120),
            record_time: at(20),
        }]
    );
    let n = |n: u64| Json::Number(Number::PosInt(n));
    assert_eq!(
        summary_json(&s),
        Json::Object(vec![
            (
                "counts".into(),
                Json::Object(vec![("episode".into(), n(1)), ("observation".into(), n(2))])
            ),
            ("total".into(), n(3)),
            ("disagree_flagged_count".into(), n(1)),
        ])
    );
}

#[test]
fn survey_of_nothing() {
    let s = survey(&[]);
    assert!(s.counts.is_empty());
    assert_eq!(s.total, 0);
    assert!(s.date_range.is_none());
    assert!(s.disagree_flagged.is_empty());
    assert!(s.facets.is_empty());
}

fn report(since: Option<Timestamp>, last_run_id: Option<u128>, rows: &[MemoryRow]) -> SurveyReport {
    SurveyReport {
        profile: "josh".into(),
        since,
        last_run_id,
        survey: survey(rows),
        run_id: 3,
    }
}

#[test]
fn outputs_show_the_survey() {
    let mut r = row(1, "observation");
    r.facets.skills = vec!["review".into()];
    r.facets.situations = vec!["debugging".into()];
    let rows = [r];
    let out = reflect_status::make_output(report(Some(at(1)), Some(2), &rows));
    assert_eq!(out.total, 1);
    assert_eq!(out.since, Some(at(1)));
    assert_eq!(out.last_run_id, Some(2));
    assert_eq!(out.run_id, 3);
    assert_eq!(out.distinct_skills, vec!["review"]);
    assert_eq!(out.distinct_situations, vec!["debugging"]);
    let out = reflect_summary::make_output(report(None, None, &rows));
    assert_eq!(out.counts, vec![("observation".to_string(), 1)]);
    assert_eq!(out.distinct_skills, vec!["review"]);
}

fn run_row(id: u128, secs: i64) -> ReflectRunRow {
    ReflectRunRow {
        id,
        profile: "josh".into(),
        started_at: at(secs),
        completed_at: Some(at(secs + 1)),
        rows_scanned: 0,
        summary: None,
    }
}

#[test]
fn status_records_one_run_and_the_next_follows_it() {
    let args = || ReflectStatusArgs {
        profile: "josh".into(),
    };
    let (call, action) = reflect_status::begin(args()).unwrap();
    assert_eq!(action, SurveyAction::FindLastRun("josh".into()));
    let (call, action) = call.step(SurveyEvent::LastRun(None));
    assert_eq!(action, Some(SurveyAction::Fetch("josh".into(), None)));
    let rows = vec![row(1, "observation"), row(2, "decision")];
    let (call, action) = call.step(SurveyEvent::Fetched(rows));
    match action {
        Some(SurveyAction::Record(record)) => {
            assert_eq!(record.profile, "josh");
            assert_eq!(record.rows, 2);
            assert_eq!(record.kind, Some("status"));
            let members = match record.summary {
                Json::Object(members) => members,
                other => panic!("{other:?}"),
            };
            let names: Vec<&str> = members.iter().map(|(k, _)| k.as_str()).collect();
            assert_eq!(names, vec!["counts", "total", "disagree_flagged_count"]);
        }
        other => panic!("{other:?}"),
    }
    let (call, action) = call.step(SurveyEvent::Recorded(run_row(7, 50)));
    let first = match action {
        Some(SurveyAction::Return(report)) => reflect_status::make_output(report),
        other => panic!("{other:?}"),
    };
    assert_eq!(first.last_run_id, None);
    assert_eq!(first.total, 2);
    assert_eq!(first.run_id, 7);
    assert_eq!(call.step(SurveyEvent::Recorded(run_row(8, 60))).1, None);

    let (call, _) = reflect_status::begin(args()).unwrap();
    let (call, action) = call.step(SurveyEvent::LastRun(Some(run_row(7, 50))));
    assert_eq!(action, Some(SurveyAction::Fetch("josh".into(), Some(at(51)))));
    let (call, _) = call.step(SurveyEvent::Fetched(vec![]));
    match call.step(SurveyEvent::Recorded(run_row(9, 70))).1 {
        Some(SurveyAction::Return(second)) => {
            assert_eq!(second.last_run_id, Some(first.run_id));
            assert_eq!(second.since, Some(at(51)));
            assert_eq!(second.survey.total, 0);
            assert_eq!(second.run_id, 9);
        }
        other => panic!("{other:?}"),
    }
}

#[test]
fn summary_records_a_run_of_no_kind() {
    let (call, _) = reflect_summary::begin(ReflectSummaryArgs {
        profile: "josh".into(),
    })
    .unwrap();
    let (call, action) = call.step(SurveyEvent::Fetched(vec![]));
    assert_eq!(action, None);
    let (call, _) = call.step(SurveyEvent::LastRun(None));
    match call.step(SurveyEvent::Fetched(vec![])).1 {
        Some(SurveyAction::Record(record)) => assert_eq!(record.kind, None),
        other => panic!("{other:?}"),
    }
    let bad = ReflectSummaryArgs {
        profile: "".into(),
    };
    assert!(reflect_summary::begin(bad).is_err());
    let bad = ReflectStatusArgs {
        profile: "".into(),
    };
    assert!(reflect_status::begin(bad).is_err());
}
