use chitta::db::MemoryRow;
use chitta::error::ChittaError;
use chitta::facets::Facets;
use chitta::ingest::{
    AnchorMatch, IngestAction, IngestEvent, IngestItem, IngestRun,
};
use chitta::migrate::{after_validation, plan_seed, MigrateRow, SeedStep};
use chitta::synthesis::emission::{
    plan_emission, Emission, EmissionAction, EmissionEvent, EmissionPlan,
};
use chitta::synthesis::{Cluster, Contradiction};
use chitta::time::Timestamp;
use chitta::tools::record_feedback::{
    FeedbackAction, FeedbackCall, FeedbackEvent, FeedbackKind, RecordFeedbackArgs,
    AGREE_DELTA, DISAGREE_DELTA,
};
use chitta::tools::store::{StoreAction, StoreArgs, StoreCall, StoreEvent};
use chitta::tools::supersede::{
    SupersedeAction, SupersedeArgs, SupersedeCall, SupersedeEvent, SupersedeOutput,
};
use chitta::tools::validate::DerivationInput;

const ID: u128 = 0x019e0725_aab3_7160_905b_a150603d16d9;
const ID_TEXT: &str = "019e0725-aab3-7160-905b-a150603d16d9";
const OTHER: u128 = 0x019e0725_aab3_7160_905b_a150603d16da;
const OTHER_TEXT: &str = "019e0725-aab3-7160-905b-a150603d16da";

fn at(secs: i64) -> Timestamp {
    Timestamp { secs, nanos: 0 }
}

fn row(id: u128, memory_type: &str) -> MemoryRow {
    MemoryRow {
        id,
        profile: "josh".into(),
        content: "what was there".into(),
        event_time: at(1_000),
        record_time: at(1_000),
        idempotency_key: "key".into(),
        source: None,
        memory_type: memory_type.into(),
        tags: vec![],
        external_refs: None,
        metadata: None,
        facets: Facets {
            domains: vec!["rust".into()],
            ..Facets::default()
        },
        superseded_by: None,
        confidence: None,
        reinforcement_count: 0,
        last_reinforced_at: None,
        invalidated_at: None,
    }
}

// ---- store_memory -----------------------------------------------------------------

fn store_args() -> StoreArgs {
    StoreArgs {
        profile: "josh".into(),
        content: "a new memory".into(),
        idempotency_key: "key".into(),
        event_time: None,
        tags: Some(vec!["a".into()]),
        metadata: None,
        memory_type: None,
        external_refs: None,
        facets: Facets::default(),
        confidence: None,
        source: None,
        derivations: None,
    }
}

fn derived(source_id: &str) -> Option<Vec<DerivationInput>> {
    Some(vec![DerivationInput {
        source_id: source_id.into(),
        derivation_type: "synthesised_from".into(),
    }])
}

#[test]
fn store_looks_up_embeds_inserts_and_returns() {
    let (mut call, first) = StoreCall::begin(store_args()).unwrap();
    assert_eq!(first, StoreAction::LookUp("josh".into(), "key".into()));
    assert_eq!(
        call.step(StoreEvent::LookedUp(None)),
        Some(StoreAction::Embed("a new memory".into()))
    );
    let inserted = match call.step(StoreEvent::Embedded(at(5))) {
        Some(StoreAction::Insert(row, links)) => {
            assert!(links.is_empty());
            row
        }
        other => panic!("expected an insert, got: {other:?}"),
    };
    assert_eq!(inserted.content, "a new memory");
    assert_eq!(inserted.memory_type, "observation");
    assert_eq!(inserted.record_time, at(5));
    assert_eq!(inserted.event_time, at(5));
    let id = inserted.id;
    match call.step(StoreEvent::Inserted(inserted, false)) {
        Some(StoreAction::Return(out)) => {
            assert_eq!(out.id, id);
            assert_eq!(out.content, "a new memory");
            assert_eq!(out.tags, vec!["a".to_string()]);
            assert!(!out.idempotent_replay);
        }
        other => panic!("expected the answer, got: {other:?}"),
    }
    assert_eq!(call.step(StoreEvent::LookedUp(None)), None);
}

#[test]
fn store_replays_a_known_key_without_inserting() {
    let (mut call, _) = StoreCall::begin(store_args()).unwrap();
    match call.step(StoreEvent::LookedUp(Some(row(ID, "observation")))) {
        Some(StoreAction::Return(out)) => {
            assert_eq!(out.id, ID);
            assert_eq!(out.content, "what was there");
            assert!(out.idempotent_replay);
        }
        other => panic!("expected the answer, got: {other:?}"),
    }
    assert_eq!(call.step(StoreEvent::Embedded(at(5))), None);
}

#[test]
fn store_that_loses_a_race_returns_the_winner() {
    let (mut call, _) = StoreCall::begin(store_args()).unwrap();
    call.step(StoreEvent::LookedUp(None));
    call.step(StoreEvent::Embedded(at(5)));
    match call.step(StoreEvent::Inserted(row(ID, "observation"), true)) {
        Some(StoreAction::Return(out)) => {
            assert_eq!(out.id, ID);
            assert!(out.idempotent_replay);
        }
        other => panic!("expected the answer, got: {other:?}"),
    }
}

#[test]
fn store_refuses_before_looking_anything_up() {
    let args = StoreArgs {
        content: "".into(),
        ..store_args()
    };
    assert!(matches!(
        StoreCall::begin(args),
        Err(ChittaError::InvalidArgument { argument, .. }) if argument == "content"
    ));
    let late = StoreArgs {
        event_time: Some(at(366 * 86_400)),
        ..store_args()
    };
    assert!(StoreCall::begin_at(late, at(0)).is_err());
}

#[test]
fn store_links_an_episode_to_its_sources() {
    let args = StoreArgs {
        memory_type: Some("episode".into()),
        derivations: derived(ID_TEXT),
        ..store_args()
    };
    let (mut call, _) = StoreCall::begin(args).unwrap();
    call.step(StoreEvent::LookedUp(None));
    match call.step(StoreEvent::Embedded(at(5))) {
        Some(StoreAction::Insert(_, links)) => {
            assert_eq!(links, vec![(ID, "synthesised_from".to_string())]);
        }
        other => panic!("expected an insert, got: {other:?}"),
    }
}

#[test]
fn store_gives_up_on_a_link_to_no_uuid() {
    let args = StoreArgs {
        derivations: derived("nonsense"),
        ..store_args()
    };
    let (mut call, _) = StoreCall::begin(args).unwrap();
    call.step(StoreEvent::LookedUp(None));
    assert_eq!(
        call.step(StoreEvent::Embedded(at(5))),
        Some(StoreAction::GiveUp)
    );
}

// ---- record_feedback --------------------------------------------------------------

fn feedback_args(kind: FeedbackKind, correction: Option<&str>) -> RecordFeedbackArgs {
    RecordFeedbackArgs {
        profile: "josh".into(),
        memory_id: ID_TEXT.into(),
        kind,
        correction: correction.map(String::from),
    }
}

#[test]
fn agreement_updates_records_and_commits() {
    let (mut call, first) =
        FeedbackCall::begin(feedback_args(FeedbackKind::Agree, None)).unwrap();
    assert_eq!(first, FeedbackAction::Lock("josh".into(), ID));
    match call.step(FeedbackEvent::Locked(Some(row(ID, "trait")), at(9))) {
        Some(FeedbackAction::Update(sql, change, time)) => {
            assert!(sql.starts_with("UPDATE memories SET confidence = LEAST("));
            assert_eq!(change, AGREE_DELTA);
            assert_eq!(time, at(9));
        }
        other => panic!("expected an update, got: {other:?}"),
    }
    let confidence = 0.55f32.to_bits();
    let feedback_id = match call.step(FeedbackEvent::Updated(Some(confidence))) {
        Some(FeedbackAction::InsertFeedback(row)) => {
            assert_eq!(row.tags, vec!["feedback".to_string(), "agree".to_string()]);
            assert_eq!(row.facets.domains, vec!["rust".to_string()]);
            assert_eq!(row.record_time, at(9));
            row.id
        }
        other => panic!("expected an insert, got: {other:?}"),
    };
    assert_eq!(call.step(FeedbackEvent::Inserted), Some(FeedbackAction::Commit));
    match call.step(FeedbackEvent::Committed) {
        Some(FeedbackAction::Return(out)) => {
            assert_eq!(out.memory_id, ID);
            assert_eq!(out.new_confidence, confidence);
            assert_eq!(out.kind, FeedbackKind::Agree);
            assert_eq!(out.feedback_row_id, feedback_id);
            assert_eq!(out.correction_row_id, None);
        }
        other => panic!("expected the answer, got: {other:?}"),
    }
    assert_eq!(call.step(FeedbackEvent::Committed), None);
}

#[test]
fn disagreement_with_correction_writes_both_rows() {
    let args = feedback_args(FeedbackKind::Disagree, Some("Actually Josh prefers Vim over Emacs"));
    let (mut call, first) = FeedbackCall::begin(args).unwrap();
    assert_eq!(
        first,
        FeedbackAction::Embed("Actually Josh prefers Vim over Emacs".into())
    );
    assert_eq!(
        call.step(FeedbackEvent::Embedded),
        Some(FeedbackAction::Lock("josh".into(), ID))
    );
    match call.step(FeedbackEvent::Locked(Some(row(ID, "trait")), at(9))) {
        Some(FeedbackAction::Update(_, change, _)) => assert_eq!(change, DISAGREE_DELTA),
        other => panic!("expected an update, got: {other:?}"),
    }
    let feedback_id = match call.step(FeedbackEvent::Updated(Some(0.6f32.to_bits()))) {
        Some(FeedbackAction::InsertFeedback(row)) => row.id,
        other => panic!("expected an insert, got: {other:?}"),
    };
    let correction_id = match call.step(FeedbackEvent::Inserted) {
        Some(FeedbackAction::InsertCorrection(row)) => {
            assert_eq!(row.content, "Actually Josh prefers Vim over Emacs");
            assert_eq!(
                row.tags,
                vec!["correction".to_string(), format!("contradicts:{ID_TEXT}")]
            );
            row.id
        }
        other => panic!("expected an insert, got: {other:?}"),
    };
    assert_ne!(feedback_id, correction_id);
    assert_eq!(call.step(FeedbackEvent::Inserted), Some(FeedbackAction::Commit));
    match call.step(FeedbackEvent::Committed) {
        Some(FeedbackAction::Return(out)) => {
            assert_eq!(out.feedback_row_id, feedback_id);
            assert_eq!(out.correction_row_id, Some(correction_id));
        }
        other => panic!("expected the answer, got: {other:?}"),
    }
}

#[test]
fn refused_feedback_commits_nothing() {
    let withdrawn = MemoryRow {
        invalidated_at: Some(at(2)),
        ..row(ID, "trait")
    };
    let superseded = MemoryRow {
        superseded_by: Some(OTHER),
        ..row(ID, "trait")
    };
    for target in [None, Some(withdrawn), Some(superseded), Some(row(ID, "observation"))] {
        let (mut call, _) =
            FeedbackCall::begin(feedback_args(FeedbackKind::Agree, None)).unwrap();
        assert!(matches!(
            call.step(FeedbackEvent::Locked(target, at(9))),
            Some(FeedbackAction::Refuse(_))
        ));
        assert_eq!(call.step(FeedbackEvent::Updated(Some(0))), None);
    }
}

#[test]
fn feedback_on_a_memory_that_changed_meanwhile_is_refused() {
    let (mut call, _) = FeedbackCall::begin(feedback_args(FeedbackKind::Agree, None)).unwrap();
    call.step(FeedbackEvent::Locked(Some(row(ID, "trait")), at(9)));
    assert!(matches!(
        call.step(FeedbackEvent::Updated(None)),
        Some(FeedbackAction::Refuse(ChittaError::InvalidArgument { constraint, .. }))
            if constraint == "target memory was modified concurrently"
    ));
}

#[test]
fn feedback_arguments_are_refused_at_once() {
    assert!(FeedbackCall::begin(feedback_args(FeedbackKind::Agree, Some("no"))).is_err());
    let nowhere = RecordFeedbackArgs {
        memory_id: "nonsense".into(),
        ..feedback_args(FeedbackKind::Agree, None)
    };
    assert!(FeedbackCall::begin(nowhere).is_err());
    let given = feedback_args(FeedbackKind::Agree, None);
    let (_, first) = FeedbackCall::begin_parsed(given, Ok(OTHER)).unwrap();
    assert_eq!(first, FeedbackAction::Lock("josh".into(), OTHER));
}

// ---- supersede_memory -------------------------------------------------------------

fn supersede_args() -> SupersedeArgs {
    SupersedeArgs {
        profile: "josh".into(),
        old_id: ID_TEXT.into(),
        new_id: OTHER_TEXT.into(),
        reason: "a better one".into(),
    }
}

#[test]
fn supersede_finds_both_and_links_them() {
    let (mut call, first) = SupersedeCall::begin(supersede_args()).unwrap();
    assert_eq!(first, SupersedeAction::Find("josh".into(), ID));
    assert_eq!(
        call.step(SupersedeEvent::Found(Some(row(ID, "trait")))),
        Some(SupersedeAction::Find("josh".into(), OTHER))
    );
    assert_eq!(
        call.step(SupersedeEvent::Found(Some(row(OTHER, "trait")))),
        Some(SupersedeAction::Supersede(ID, OTHER))
    );
    assert_eq!(
        call.step(SupersedeEvent::Superseded(7)),
        Some(SupersedeAction::Return(SupersedeOutput {
            old_id: ID,
            new_id: OTHER,
            derivation_id: 7,
        }))
    );
    assert_eq!(call.step(SupersedeEvent::Superseded(7)), None);
}

#[test]
fn supersede_refuses_what_is_missing_or_superseded() {
    let superseded = MemoryRow {
        superseded_by: Some(OTHER),
        ..row(ID, "trait")
    };
    for old in [None, Some(superseded)] {
        let (mut call, _) = SupersedeCall::begin(supersede_args()).unwrap();
        assert!(matches!(
            call.step(SupersedeEvent::Found(old)),
            Some(SupersedeAction::Refuse(_))
        ));
        assert_eq!(call.step(SupersedeEvent::Found(None)), None);
    }
    let (mut call, _) = SupersedeCall::begin(supersede_args()).unwrap();
    call.step(SupersedeEvent::Found(Some(row(ID, "trait"))));
    assert!(matches!(
        call.step(SupersedeEvent::Found(None)),
        Some(SupersedeAction::Refuse(ChittaError::NotFound { .. }))
    ));
    assert!(SupersedeCall::begin_parsed(supersede_args(), Some(ID), None).is_err());
}

// ---- emission ---------------------------------------------------------------------

fn tabs() -> Cluster {
    Cluster {
        representative_claim: "Josh prefers tabs".into(),
        memory_type: "preference".into(),
        source_ids: vec![1, 2, 3, 4, 5],
    }
}

fn against_spaces() -> Contradiction {
    Contradiction {
        existing_id: ID,
        existing_claim: "Josh prefers spaces".into(),
        shift_description: "changed his mind".into(),
    }
}

#[test]
fn contradiction_decides_how_a_cluster_is_emitted() {
    match plan_emission(&tabs(), None, "josh", at(3), Facets::default()) {
        EmissionPlan::Plain(row, links) => {
            assert_eq!(row.content, "Josh prefers tabs");
            assert_eq!(links.len(), 5);
        }
        other => panic!("expected a plain emission, got: {other:?}"),
    }
    match plan_emission(&tabs(), Some(against_spaces()), "josh", at(3), Facets::default()) {
        EmissionPlan::Superseding(emission, EmissionAction::Emit(row, _)) => {
            assert_eq!(row.profile, "josh");
            assert_eq!(
                emission.step(EmissionEvent::Emitted(row, false)).1,
                Some(EmissionAction::Find(ID))
            );
        }
        other => panic!("expected a supersession, got: {other:?}"),
    }
}

fn emission() -> (Emission, EmissionAction) {
    Emission::begin(
        tabs(),
        against_spaces(),
        "josh".into(),
        at(3),
        Facets::default(),
    )
}

#[test]
fn emission_supersedes_and_records() {
    let (emission, first) = emission();
    let new_row = match first {
        EmissionAction::Emit(row, links) => {
            assert_eq!(row.content, "Josh prefers tabs");
            assert_eq!(links.len(), 5);
            row
        }
        other => panic!("expected a row, got: {other:?}"),
    };
    let new_id = new_row.id;
    let (emission, action) = emission.step(EmissionEvent::Emitted(new_row, false));
    assert_eq!(action, Some(EmissionAction::Find(ID)));
    let (emission, action) = emission.step(EmissionEvent::Found(Some(row(ID, "preference"))));
    assert_eq!(action, Some(EmissionAction::Supersede(ID, new_id)));
    let (emission, action) = emission.step(EmissionEvent::Superseded);
    let meta_id = match action {
        Some(EmissionAction::Record(row, links)) => {
            assert_eq!(
                row.content,
                "Josh shifted from 'Josh prefers spaces' to 'Josh prefers tabs' — changed his mind"
            );
            assert_eq!(
                links,
                vec![
                    (ID, "supersession_of".to_string()),
                    (new_id, "supersession_to".to_string()),
                ]
            );
            row.id
        }
        other => panic!("expected a record, got: {other:?}"),
    };
    let (emission, action) = emission.step(EmissionEvent::Recorded(false));
    match action {
        Some(EmissionAction::Finish(result)) => {
            assert_eq!(result.new_row.id, new_id);
            assert_eq!(result.superseded_id, ID);
            assert_eq!(result.meta_row_id, meta_id);
            assert!(!result.idempotent_replay);
        }
        other => panic!("expected the result, got: {other:?}"),
    }
    assert_eq!(emission.step(EmissionEvent::Superseded).1, None);
}

#[test]
fn emission_again_is_a_replay_and_marks_nothing() {
    let (emission, _) = emission();
    let (emission, _) = emission.step(EmissionEvent::Emitted(row(OTHER, "preference"), true));
    let superseded = MemoryRow {
        superseded_by: Some(OTHER),
        ..row(ID, "preference")
    };
    let (emission, action) = emission.step(EmissionEvent::Found(Some(superseded)));
    assert!(matches!(action, Some(EmissionAction::Record(_, _))));
    match emission.step(EmissionEvent::Recorded(true)).1 {
        Some(EmissionAction::Finish(result)) => {
            assert_eq!(result.new_row.id, OTHER);
            assert!(result.idempotent_replay);
        }
        other => panic!("expected the result, got: {other:?}"),
    }
}

// ---- ingest -----------------------------------------------------------------------

const FIRST: &str = "The configuration uses port 3100 for the server.";
const SECOND: &str = "We decided to keep the cache on disk.";
const THIRD: &str = "The parser failed on empty input files.";

fn item() -> IngestItem {
    IngestItem {
        id: 1,
        text: format!("{FIRST}\n{SECOND}\nToo short.\n{THIRD}"),
        project: Some("proj".into()),
        profile: "josh".into(),
        source: "hook:post".into(),
    }
}

fn matched(similarity: f32, memory_type: &'static str) -> Vec<AnchorMatch> {
    vec![AnchorMatch {
        similarity: similarity.to_bits(),
        memory_type,
    }]
}

#[test]
fn ingest_goes_through_all_chunks() {
    let (mut run, first) = IngestRun::begin(item());
    assert_eq!(first, IngestAction::Embed(FIRST.into()));
    assert_eq!(
        run.step(IngestEvent::NotEmbedded),
        Some(IngestAction::Embed(SECOND.into()))
    );
    match run.step(IngestEvent::Embedded(matched(0.9, "decision"), at(4))) {
        Some(IngestAction::Insert(row)) => {
            assert_eq!(row.content, SECOND);
            assert_eq!(row.memory_type, "decision");
            assert_eq!(row.profile, "josh");
            assert_eq!(row.record_time, at(4));
        }
        other => panic!("expected an insert, got: {other:?}"),
    }
    assert_eq!(run.step(IngestEvent::NotEmbedded), None);
    assert_eq!(
        run.step(IngestEvent::Inserted(false)),
        Some(IngestAction::Embed(THIRD.into()))
    );
    assert_eq!(
        run.step(IngestEvent::Embedded(matched(0.1, "decision"), at(4))),
        Some(IngestAction::Finish(1))
    );
    assert_eq!(run.step(IngestEvent::NotEmbedded), None);
}

#[test]
fn ingest_counts_no_replay_and_no_failure() {
    let (mut run, _) = IngestRun::begin(item());
    run.step(IngestEvent::Embedded(matched(0.9, "decision"), at(4)));
    run.step(IngestEvent::Inserted(true));
    run.step(IngestEvent::Embedded(matched(0.9, "decision"), at(4)));
    run.step(IngestEvent::NotInserted);
    run.step(IngestEvent::Embedded(matched(0.9, "decision"), at(4)));
    assert_eq!(
        run.step(IngestEvent::Inserted(false)),
        Some(IngestAction::Finish(1))
    );
}

#[test]
fn ingest_of_nothing_stops_at_once() {
    let empty = IngestItem {
        text: "ok".into(),
        ..item()
    };
    assert_eq!(IngestRun::begin(empty).1, IngestAction::Finish(0));
}

// ---- seed -------------------------------------------------------------------------

fn seed(content: &str) -> MigrateRow {
    MigrateRow {
        id: None,
        profile: "josh".into(),
        content: content.into(),
        event_time: None,
        record_time: None,
        idempotency_key: None,
        source: None,
        memory_type: None,
        tags: None,
        external_refs: None,
        metadata: None,
        facets: Facets::default(),
        confidence: None,
        derivations: None,
    }
}

#[test]
fn seed_writes_only_accepted_rows_and_nothing_in_a_dry_run() {
    let good = plan_seed(&[seed("something")]);
    let bad = plan_seed(&[seed("")]);
    assert_eq!(after_validation(&good, true), SeedStep::DryRunOver);
    assert_eq!(after_validation(&bad, true), SeedStep::DryRunOver);
    assert_eq!(after_validation(&bad, false), SeedStep::NothingToWrite);
    assert_eq!(after_validation(&good, false), SeedStep::Write);
}
