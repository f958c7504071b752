use chitta::error::{codes, ChittaError};
use chitta::json::{Json, Number};

fn variants() -> Vec<ChittaError> {
    vec![
        ChittaError::MissingConfig {
            name: "DATABASE_URL",
            next_action: "set it".to_string(),
        },
        ChittaError::InvalidArgument {
            tool: "store_memory",
            argument: "profile".to_string(),
            constraint: "1-128 chars".to_string(),
            received: Some(Json::Text(String::new())),
            next_action: "pass a profile".to_string(),
        },
        ChittaError::ContentTooLong {
            tool: "store_memory",
            token_count: 9001,
        },
        ChittaError::NotFound {
            tool: "get_memory",
            kind: "memory",
            next_action: "verify id".to_string(),
        },
        ChittaError::Embedding {
            tool: "store_memory",
            message: "ort error".to_string(),
            next_action: "restart".to_string(),
        },
        ChittaError::Db(sqlx::Error::PoolTimedOut.to_string()),
        ChittaError::Db("connection reset".to_string()),
        ChittaError::Migrate("drift".to_string()),
        ChittaError::Internal("unexpected".to_string()),
    ]
}

#[test]
fn every_error_variant_serializes_with_contract_fields() {
    for e in &variants() {
        let data = e.data();
        assert!(!data.tool.is_empty(), "empty `tool` for {e:?}");
        assert!(!data.constraint.is_empty(), "empty `constraint` for {e:?}");
        assert!(!data.next_action.is_empty(), "empty `next_action` for {e:?}");

        let code = e.code();
        assert!(
            code == codes::INVALID_PARAMS || code == codes::INTERNAL_ERROR,
            "unexpected code {code} for {e:?}"
        );
    }
}

#[test]
fn error_data_skip_serializes_none_fields() {
    let e = ChittaError::NotFound {
        tool: "get_memory",
        kind: "memory",
        next_action: "verify id".to_string(),
    };
    // `argument` and `received` are None for NotFound.
    assert!(e.data().argument.is_none());
    assert!(e.data().received.is_none());
}

#[test]
fn codes_by_whose_fault_it_is() {
    let expected = [
        codes::INVALID_PARAMS,
        codes::INVALID_PARAMS,
        codes::INVALID_PARAMS,
        codes::INVALID_PARAMS,
        codes::INTERNAL_ERROR,
        codes::INTERNAL_ERROR,
        codes::INTERNAL_ERROR,
        codes::INTERNAL_ERROR,
        codes::INTERNAL_ERROR,
    ];
    for (e, code) in variants().iter().zip(expected) {
        assert_eq!(e.code(), code, "{e:?}");
        assert!(!e.message().is_empty());
    }
    assert_eq!(codes::INVALID_PARAMS, -32602);
    assert_eq!(codes::INTERNAL_ERROR, -32603);
}

#[test]
fn content_too_long_says_how_long_it_may_be() {
    let e = ChittaError::ContentTooLong {
        tool: "store_memory",
        token_count: 9001,
    };
    let data = e.data();
    assert!(data.next_action.contains("7500"));
    assert_eq!(data.received, Some(Json::Number(Number::PosInt(9001))));
    assert_eq!(e.message(), "store_memory: content too long: 9001 tokens");
}

#[test]
fn messages_in_one_line() {
    let all: Vec<String> = variants().iter().map(|e| e.message()).collect();
    assert_eq!(all[0], "missing configuration: DATABASE_URL");
    assert_eq!(
        all[1],
        "store_memory: invalid argument `profile`: 1-128 chars"
    );
    assert_eq!(all[3], "get_memory: memory not found");
    assert_eq!(all[4], "store_memory: embedding failed: ort error");
    assert_eq!(all[6], "database error: connection reset");
    assert_eq!(all[7], "migration error: drift");
    assert_eq!(all[8], "internal error: unexpected");
}

#[test]
fn invalid_argument_is_reported_as_it_is() {
    let data = variants()[1].data();
    assert_eq!(data.tool, "store_memory");
    assert_eq!(data.argument.as_deref(), Some("profile"));
    assert_eq!(data.constraint, "1-128 chars");
    assert_eq!(data.received, Some(Json::Text(String::new())));
    assert_eq!(data.next_action, "pass a profile");
}
