use chitta::error::ChittaError;
use chitta::json::Json;
use chitta::validators::{
    episode_derivations, validate_decision_metadata, DerivationInput, DECISION_ERROR_MSG,
};

const T: &str = "store_memory";

fn text(s: &str) -> Json {
    Json::Text(s.to_string())
}

fn texts(items: &[&str]) -> Json {
    Json::Array(items.iter().map(|s| text(s)).collect())
}

fn obj(members: Vec<(&str, Json)>) -> Json {
    Json::Object(
        members
            .into_iter()
            .map(|(k, v)| (k.to_string(), v))
            .collect(),
    )
}

#[test]
fn non_decision_type_passes() {
    assert!(validate_decision_metadata(T, "observation", &None).is_ok());
    assert!(validate_decision_metadata(T, "episode", &None).is_ok());
    assert!(validate_decision_metadata(T, "trait", &None).is_ok());
}

#[test]
fn validators_decision_missing_metadata_rejected() {
    let err = validate_decision_metadata(T, "decision", &None).unwrap_err();
    let data = err.data();
    assert_eq!(data.argument.as_deref(), Some("metadata"));
    assert!(data.constraint.contains("rationale"));
    assert!(data.next_action.contains("observation"));
}

#[test]
fn decision_non_object_metadata_rejected() {
    let meta = Some(text("just a string"));
    let err = validate_decision_metadata(T, "decision", &meta).unwrap_err();
    assert_eq!(err.data().argument.as_deref(), Some("metadata"));
}

#[test]
fn validators_decision_missing_rationale_rejected() {
    let meta = Some(obj(vec![("rejected_alternatives", texts(&["option B"]))]));
    let err = validate_decision_metadata(T, "decision", &meta).unwrap_err();
    assert_eq!(err.data().argument.as_deref(), Some("metadata.rationale"));
}

#[test]
fn validators_decision_empty_rationale_rejected() {
    let meta = Some(obj(vec![
        ("rationale", text("")),
        ("rejected_alternatives", texts(&["option B"])),
    ]));
    let err = validate_decision_metadata(T, "decision", &meta).unwrap_err();
    assert_eq!(err.data().argument.as_deref(), Some("metadata.rationale"));
}

#[test]
fn validators_decision_missing_alternatives_rejected() {
    let meta = Some(obj(vec![("rationale", text("good reason"))]));
    let err = validate_decision_metadata(T, "decision", &meta).unwrap_err();
    assert_eq!(
        err.data().argument.as_deref(),
        Some("metadata.rejected_alternatives")
    );
}

#[test]
fn validators_decision_empty_alternatives_rejected() {
    let meta = Some(obj(vec![
        ("rationale", text("good reason")),
        ("rejected_alternatives", texts(&[])),
    ]));
    let err = validate_decision_metadata(T, "decision", &meta).unwrap_err();
    assert_eq!(
        err.data().argument.as_deref(),
        Some("metadata.rejected_alternatives")
    );
}

#[test]
fn decision_happy_path() {
    let meta = Some(obj(vec![
        ("rationale", text("chose X because of Y")),
        ("rejected_alternatives", texts(&["option A was too slow"])),
    ]));
    assert!(validate_decision_metadata(T, "decision", &meta).is_ok());
}

#[test]
fn decision_multiple_alternatives_ok() {
    let meta = Some(obj(vec![
        ("rationale", text("chose X")),
        ("rejected_alternatives", texts(&["A", "B", "C"])),
    ]));
    assert!(validate_decision_metadata(T, "decision", &meta).is_ok());
}

#[test]
fn decision_refusals_show_what_was_received() {
    let refuse = |meta: Option<Json>| {
        validate_decision_metadata(T, "decision", &meta)
            .unwrap_err()
            .data()
    };
    assert_eq!(refuse(None).received, Some(Json::Null));
    assert_eq!(refuse(Some(text("x"))).received, Some(text("x")));
    assert_eq!(refuse(Some(obj(vec![]))).received, Some(Json::Null));
    assert_eq!(
        refuse(Some(obj(vec![("rationale", Json::Bool(false))]))).received,
        Some(Json::Bool(false))
    );
    let data = refuse(Some(obj(vec![
        ("rationale", text("r")),
        ("rejected_alternatives", text("A")),
    ])));
    assert_eq!(data.received, Some(text("A")));
    assert_eq!(data.constraint, DECISION_ERROR_MSG);
    assert_eq!(data.next_action, DECISION_ERROR_MSG);
}

#[test]
fn first_entry_of_a_key_counts() {
    let meta = Some(obj(vec![
        ("rationale", text("r")),
        ("rationale", text("")),
        ("rejected_alternatives", texts(&["A"])),
    ]));
    assert!(validate_decision_metadata(T, "decision", &meta).is_ok());
}

// ---- As callers see it ----------------------------------------------------

#[test]
fn episode_derivation_validation_rejects_missing() {
    let r = episode_derivations("store_memory", "episode", &None);
    assert!(r.is_err());
    let err = r.unwrap_err();
    match &err {
        ChittaError::InvalidArgument { next_action, .. } => {
            assert!(
                next_action.contains("episode memory requires at least one entry in derivations"),
                "expected prescribed error text, got: {next_action}"
            );
        }
        other => panic!("expected InvalidArgument, got: {other:?}"),
    }
}

#[test]
fn episode_derivation_validation_rejects_empty() {
    let r = episode_derivations("store_memory", "episode", &Some(vec![]));
    assert!(r.is_err());
    let err = r.unwrap_err();
    match &err {
        ChittaError::InvalidArgument { next_action, .. } => {
            assert!(
                next_action.contains("Either supply derivations, or use memory_type=observation"),
                "expected prescribed error text, got: {next_action}"
            );
        }
        other => panic!("expected InvalidArgument, got: {other:?}"),
    }
}

#[test]
fn episode_derivation_validation_accepts_valid() {
    let derivs = Some(vec![DerivationInput {
        source_id: "019e0725-aab3-7160-905b-a150603d16d9".to_string(),
        derivation_type: "synthesised_from".to_string(),
    }]);
    assert!(episode_derivations("store_memory", "episode", &derivs).is_ok());
}

#[test]
fn contract_decision_missing_metadata_rejected() {
    let r = validate_decision_metadata("store_memory", "decision", &None);
    assert!(r.is_err());
    let err = r.unwrap_err();
    match &err {
        ChittaError::InvalidArgument {
            argument,
            next_action,
            ..
        } => {
            assert_eq!(argument, "metadata");
            assert!(
                next_action.contains("observation"),
                "next_action should mention demoting to observation"
            );
            assert!(
                next_action.contains("yojana"),
                "next_action should mention routing to yojana"
            );
        }
        other => panic!("expected InvalidArgument, got: {other:?}"),
    }
}

#[test]
fn contract_decision_missing_rationale_rejected() {
    let meta = Some(obj(vec![("rejected_alternatives", texts(&["B"]))]));
    let r = validate_decision_metadata("store_memory", "decision", &meta);
    assert!(r.is_err());
    match r.unwrap_err() {
        ChittaError::InvalidArgument { argument, .. } => {
            assert_eq!(argument, "metadata.rationale");
        }
        other => panic!("expected InvalidArgument, got: {other:?}"),
    }
}

#[test]
fn contract_decision_empty_rationale_rejected() {
    let meta = Some(obj(vec![
        ("rationale", text("")),
        ("rejected_alternatives", texts(&["B"])),
    ]));
    let r = validate_decision_metadata("store_memory", "decision", &meta);
    assert!(r.is_err());
    match r.unwrap_err() {
        ChittaError::InvalidArgument { argument, .. } => {
            assert_eq!(argument, "metadata.rationale");
        }
        other => panic!("expected InvalidArgument, got: {other:?}"),
    }
}

#[test]
fn contract_decision_empty_alternatives_rejected() {
    let meta = Some(obj(vec![
        ("rationale", text("good reason")),
        ("rejected_alternatives", texts(&[])),
    ]));
    let r = validate_decision_metadata("store_memory", "decision", &meta);
    assert!(r.is_err());
    match r.unwrap_err() {
        ChittaError::InvalidArgument { argument, .. } => {
            assert_eq!(argument, "metadata.rejected_alternatives");
        }
        other => panic!("expected InvalidArgument, got: {other:?}"),
    }
}

#[test]
fn contract_decision_missing_alternatives_rejected() {
    let meta = Some(obj(vec![("rationale", text("good reason"))]));
    let r = validate_decision_metadata("store_memory", "decision", &meta);
    assert!(r.is_err());
    match r.unwrap_err() {
        ChittaError::InvalidArgument { argument, .. } => {
            assert_eq!(argument, "metadata.rejected_alternatives");
        }
        other => panic!("expected InvalidArgument, got: {other:?}"),
    }
}

#[test]
fn decision_happy_path_accepted() {
    let meta = Some(obj(vec![
        ("rationale", text("chose X because of Y")),
        ("rejected_alternatives", texts(&["option A was too slow"])),
    ]));
    assert!(validate_decision_metadata("store_memory", "decision", &meta).is_ok());
}
