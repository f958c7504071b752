use chitta::error::ChittaError;
use chitta::json::{Json, Number};
use chitta::time::Timestamp;
use chitta::tools::search::RefFilter;
use chitta::tools::validate::{
    content_byte_length, content_non_empty, episode_derivations, event_time, event_time_at,
    external_refs, idempotency_key, k, max_tokens, memory_type, memory_types, min_similarity,
    parse_uuid, parsed_uuid, profile, ref_filter, tags, DerivationInput, MAX_CONTENT_BYTES, MAX_K,
    VALID_MEMORY_TYPES, VALID_REF_KINDS,
};

fn text(s: &str) -> Json {
    Json::Text(s.to_string())
}

fn obj(members: Vec<(&str, Json)>) -> Json {
    Json::Object(
        members
            .into_iter()
            .map(|(k, v)| (k.to_string(), v))
            .collect(),
    )
}

fn at(t: chrono::DateTime<chrono::Utc>) -> Timestamp {
    Timestamp {
        secs: t.timestamp(),
        nanos: t.timestamp_subsec_nanos(),
    }
}

fn received(e: ChittaError) -> Option<Json> {
    e.data().received
}

fn deriv(source_id: &str, dtype: &str) -> DerivationInput {
    DerivationInput {
        source_id: source_id.to_string(),
        derivation_type: dtype.to_string(),
    }
}

#[test]
fn profile_rules() {
    assert!(profile("t", "default").is_ok());
    assert!(profile("t", "alpha_beta-1").is_ok());
    assert!(profile("t", "").is_err());
    assert!(profile("t", "has space").is_err());
    assert!(profile("t", &"a".repeat(129)).is_err());
}

#[test]
fn profile_edges() {
    assert!(profile("t", &"a".repeat(128)).is_ok());
    assert!(profile("t", "é").is_err());
    let e = profile("t", "has space").unwrap_err();
    assert_eq!(
        e,
        ChittaError::InvalidArgument {
            tool: "t",
            argument: "profile".to_string(),
            constraint: "1-128 chars, [a-zA-Z0-9_-]+ only".to_string(),
            received: Some(text("has space")),
            next_action:
                "Pass a non-empty profile of ≤128 ASCII letters, digits, underscores, or hyphens."
                    .to_string(),
        }
    );
}

#[test]
fn idempotency_key_rules() {
    assert!(idempotency_key("t", "key-1").is_ok());
    assert!(idempotency_key("t", "").is_err());
    assert!(idempotency_key("t", "has\ncontrol").is_err());
    // 128 four-byte code points = 512 bytes: the rule counts characters.
    let multibyte: String = "😀".repeat(128);
    assert_eq!(multibyte.chars().count(), 128);
    assert!(idempotency_key("t", &multibyte).is_ok());
    let too_long: String = "😀".repeat(129);
    assert!(idempotency_key("t", &too_long).is_err());
}

#[test]
fn control_characters_are_those_of_char() {
    for n in (0u32..0x300).chain(0x2000..0x2040) {
        let c = char::from_u32(n).unwrap();
        let key = format!("a{c}b");
        assert_eq!(idempotency_key("t", &key).is_err(), c.is_control(), "{n:#x}");
        let allowed = c.is_ascii_alphanumeric() || c == '_' || c == '-';
        assert_eq!(profile("t", &key).is_ok(), allowed, "{n:#x}");
    }
}

#[test]
fn k_rules() {
    assert!(k("t", 1).is_ok());
    assert!(k("t", MAX_K).is_ok());
    assert!(k("t", 0).is_err());
    assert!(k("t", -5).is_err());
    assert!(k("t", MAX_K + 1).is_err());
}

#[test]
fn k_shows_what_was_received() {
    assert_eq!(
        received(k("t", -5).unwrap_err()),
        Some(Json::Number(Number::NegInt(-5)))
    );
    assert_eq!(
        received(k("t", 201).unwrap_err()),
        Some(Json::Number(Number::PosInt(201)))
    );
}

#[test]
fn min_similarity_rules() {
    let check = |value: f32| min_similarity("t", value.to_bits());
    assert!(check(0.0).is_ok());
    assert!(check(0.5).is_ok());
    assert!(check(1.0).is_ok());
    assert!(check(-0.01).is_err());
    assert!(check(1.01).is_err());
    assert!(check(f32::NAN).is_err());
    assert!(check(f32::INFINITY).is_err());
}

#[test]
fn min_similarity_edges() {
    assert!(min_similarity("t", (-0.0f32).to_bits()).is_ok());
    assert!(min_similarity("t", f32::MIN_POSITIVE.to_bits()).is_ok());
    assert!(min_similarity("t", 1.0f32.next_up().to_bits()).is_err());
    assert!(min_similarity("t", (-f32::MIN_POSITIVE).to_bits()).is_err());
    assert_eq!(
        received(min_similarity("t", 1.5f32.to_bits()).unwrap_err()),
        Some(Json::Number(Number::Single(1.5f32.to_bits())))
    );
    assert_eq!(
        received(min_similarity("t", f32::NAN.to_bits()).unwrap_err()),
        Some(Json::Null)
    );
}

#[test]
fn max_tokens_rules() {
    assert!(max_tokens("t", 1).is_ok());
    assert!(max_tokens("t", u64::MAX).is_ok());
    assert!(max_tokens("t", 0).is_err());
}

#[test]
fn event_time_rules() {
    let pre_epoch = chrono::NaiveDate::from_ymd_opt(1969, 6, 20)
        .unwrap()
        .and_hms_opt(0, 0, 0)
        .unwrap()
        .and_utc();
    assert!(event_time("t", at(pre_epoch)).is_err());
    let now = chrono::Utc::now();
    assert!(event_time("t", at(now)).is_ok());
    let too_far = now + chrono::Duration::days(400);
    assert!(event_time("t", at(too_far)).is_err());
}

#[test]
fn event_time_shows_the_time_in_words() {
    let e = event_time("t", Timestamp { secs: -1, nanos: 0 }).unwrap_err();
    assert_eq!(received(e), Some(text("1969-12-31T23:59:59+00:00")));
}

#[test]
fn first_year_is_accepted_whatever_the_clock_shows() {
    let t = |secs: i64| Timestamp { secs, nanos: 0 };
    assert!(event_time("t", t(0)).is_ok());
    assert!(event_time("t", t(365 * 86_400 - 1)).is_ok());
    assert!(event_time_at("t", t(365 * 86_400 - 1), t(0), Json::Null).is_ok());
    assert!(event_time_at("t", t(365 * 86_400 + 1), t(0), Json::Null).is_err());
}

#[test]
fn event_time_edges() {
    let now = Timestamp { secs: 1_000, nanos: 7 };
    let year = 365 * 86_400;
    let check = |secs: i64, nanos: u32| {
        event_time_at("t", Timestamp { secs, nanos }, now, Json::Null).is_ok()
    };
    assert!(check(0, 0));
    assert!(!check(-1, 999_999_999));
    assert!(check(1_000 + year, 7));
    assert!(!check(1_000 + year, 8));
    assert!(!check(1_001 + year, 0));
    assert!(!check(i64::MAX, 0));
    let e = event_time_at("t", Timestamp { secs: -1, nanos: 0 }, now, text("then")).unwrap_err();
    assert_eq!(e.data().constraint, "ISO-8601 timestamp >= 1970-01-01T00:00:00Z");
    assert_eq!(e.data().received, Some(text("then")));
}

#[test]
fn tag_rules() {
    assert!(tags("t", &[]).is_ok());
    assert!(tags("t", &["a".to_string(), "b".to_string()]).is_ok());
    let too_many: Vec<String> = (0..33).map(|i| format!("t{i}")).collect();
    assert!(tags("t", &too_many).is_err());
    assert!(tags("t", &["".to_string()]).is_err());
    assert!(tags("t", &["x".repeat(65)]).is_err());
}

#[test]
fn tag_refusals_say_which_tag() {
    let too_many: Vec<String> = (0..33).map(|i| format!("t{i}")).collect();
    assert_eq!(
        received(tags("t", &too_many).unwrap_err()),
        Some(obj(vec![("count", Json::Number(Number::PosInt(33)))]))
    );
    let e = tags("t", &["ok".to_string(), "é".repeat(65), String::new()]).unwrap_err();
    assert_eq!(
        received(e),
        Some(obj(vec![
            ("index", Json::Number(Number::PosInt(1))),
            ("length", Json::Number(Number::PosInt(65))),
        ]))
    );
    assert!(tags("t", &["é".repeat(64)]).is_ok());
}

#[test]
fn content_byte_length_accepts_normal_input() {
    let normal = "hello world";
    let result = content_byte_length("test_tool", normal);
    assert!(result.is_ok());
}

#[test]
fn content_byte_length_rejects_huge_input() {
    let huge = "x".repeat(5 * 1024 * 1024); // 5 MB
    let result = content_byte_length("test_tool", &huge);
    assert!(result.is_err());
    // Confirm the error message surfaces the actual byte count.
    let err_msg = result.unwrap_err().message();
    assert!(
        err_msg.contains("content"),
        "error message should mention the argument: {err_msg}"
    );
}

#[test]
fn content_byte_length_accepts_exactly_at_limit() {
    let at_limit = "x".repeat(MAX_CONTENT_BYTES);
    assert!(content_byte_length("test_tool", &at_limit).is_ok());
}

#[test]
fn content_byte_length_rejects_one_byte_over_limit() {
    let over = "x".repeat(MAX_CONTENT_BYTES + 1);
    assert!(content_byte_length("test_tool", &over).is_err());
}

#[test]
fn content_byte_length_says_how_long_it_is() {
    let over = "x".repeat(MAX_CONTENT_BYTES + 1);
    let data = content_byte_length("t", &over).unwrap_err().data();
    assert_eq!(data.constraint, "content must be at most 4194304 bytes");
    assert_eq!(data.received, Some(Json::Number(Number::PosInt(4194305))));
    assert_eq!(
        data.next_action,
        "Reduce content size. Current: 4194305 bytes, limit: 4194304 bytes. \
         Split into multiple memories if needed."
    );
}

#[test]
fn content_must_not_be_empty() {
    assert!(content_non_empty("t", " ").is_ok());
    let e = content_non_empty("t", "").unwrap_err();
    assert_eq!(e.data().constraint, "length >= 1");
    assert_eq!(received(e), Some(text("")));
}

#[test]
fn memory_type_rules() {
    for valid in VALID_MEMORY_TYPES {
        assert!(memory_type("t", valid).is_ok(), "{valid} should be valid");
    }
    assert!(memory_type("t", "bogus").is_err());
    assert!(memory_type("t", "Memory").is_err());
    assert!(memory_type("t", "").is_err());
}

#[test]
fn memory_type_refusal_lists_the_types() {
    let data = memory_type("t", "bogus").unwrap_err().data();
    assert_eq!(
        data.constraint,
        format!("one of: {}", VALID_MEMORY_TYPES.join(", "))
    );
    assert_eq!(
        data.next_action,
        format!("Use one of: {}", VALID_MEMORY_TYPES.join(", "))
    );
}

#[test]
fn memory_types_rules() {
    assert!(memory_types("t", &["observation".into(), "decision".into()]).is_ok());
    assert!(memory_types("t", &["observation".into(), "bogus".into()]).is_err());
    assert!(memory_types("t", &[]).is_ok());
}

#[test]
fn memory_types_refuse_the_first_that_is_none() {
    let e = memory_types("t", &["trait".into(), "x".into(), "y".into()]).unwrap_err();
    assert_eq!(received(e), Some(text("x")));
}

#[test]
fn external_refs_valid() {
    let v = Json::Array(vec![obj(vec![
        ("kind", text("file")),
        ("ref", text("src/main.rs")),
    ])]);
    assert!(external_refs("t", &v).is_ok());

    let multi = Json::Array(vec![
        obj(vec![("kind", text("file")), ("ref", text("a.rs"))]),
        obj(vec![("kind", text("commit")), ("ref", text("abc123"))]),
        obj(vec![
            ("kind", text("url")),
            ("ref", text("https://example.com")),
        ]),
    ]);
    assert!(external_refs("t", &multi).is_ok());

    assert!(external_refs("t", &Json::Array(vec![])).is_ok());
}

#[test]
fn external_refs_not_array() {
    let one = obj(vec![("kind", text("file")), ("ref", text("x"))]);
    assert!(external_refs("t", &one).is_err());
    assert!(external_refs("t", &text("string")).is_err());
}

#[test]
fn external_refs_bad_element() {
    assert!(external_refs("t", &Json::Array(vec![text("not an object")])).is_err());
    let no_ref = obj(vec![("kind", text("file"))]);
    assert!(external_refs("t", &Json::Array(vec![no_ref])).is_err());
    let no_kind = obj(vec![("ref", text("x"))]);
    assert!(external_refs("t", &Json::Array(vec![no_kind])).is_err());
}

#[test]
fn external_refs_invalid_kind() {
    let bogus = obj(vec![("kind", text("bogus")), ("ref", text("x"))]);
    assert!(external_refs("t", &Json::Array(vec![bogus])).is_err());
}

#[test]
fn external_refs_empty_ref() {
    let empty = obj(vec![("kind", text("file")), ("ref", text(""))]);
    assert!(external_refs("t", &Json::Array(vec![empty])).is_err());
}

#[test]
fn external_refs_refusals_one_by_one() {
    let good = || obj(vec![("kind", text("url")), ("ref", text("u"))]);
    let refuse = |entry: Json| {
        external_refs("t", &Json::Array(vec![good(), entry]))
            .unwrap_err()
            .data()
    };
    let index = || ("index", Json::Number(Number::PosInt(1)));

    let data = external_refs("t", &Json::Bool(true)).unwrap_err().data();
    assert_eq!(data.constraint, "must be a JSON array");
    assert_eq!(data.received, Some(obj(vec![("type", text("bool"))])));

    let data = refuse(Json::Null);
    assert_eq!(
        data.received,
        Some(obj(vec![index(), ("type", text("null"))]))
    );
    let data = refuse(obj(vec![("kind", Json::Null), ("ref", text("x"))]));
    assert_eq!(
        data.constraint,
        "each element must have a string \"kind\" field"
    );
    assert_eq!(
        data.next_action,
        format!(
            "Add a \"kind\" field. Valid kinds: {}",
            VALID_REF_KINDS.join(", ")
        )
    );
    let data = refuse(obj(vec![("kind", text("bogus")), ("ref", text("x"))]));
    assert_eq!(
        data.received,
        Some(obj(vec![index(), ("kind", text("bogus"))]))
    );
    let data = refuse(obj(vec![("kind", text("file")), ("ref", Json::Bool(true))]));
    assert_eq!(
        data.constraint,
        "each element must have a non-empty string \"ref\" field"
    );
    assert_eq!(data.received, Some(obj(vec![index()])));
    let data = refuse(obj(vec![("kind", text("file")), ("ref", text(""))]));
    assert_eq!(data.constraint, "\"ref\" must be non-empty");
}

#[test]
fn ref_filter_rules() {
    let filter = |kind: &str, value: Option<&str>| RefFilter {
        kind: kind.to_string(),
        ref_value: value.map(str::to_string),
    };
    for kind in VALID_REF_KINDS {
        assert!(ref_filter("t", &filter(kind, None)).is_ok());
        assert!(ref_filter("t", &filter(kind, Some("x"))).is_ok());
    }
    let e = ref_filter("t", &filter("bogus", Some(""))).unwrap_err();
    assert_eq!(e.data().argument.as_deref(), Some("ref_filter.kind"));
    let e = ref_filter("t", &filter("file", Some(""))).unwrap_err();
    assert_eq!(e.data().argument.as_deref(), Some("ref_filter.ref"));
}

#[test]
fn episode_derivations_rejects_none() {
    let r = episode_derivations("t", "episode", &None);
    assert!(r.is_err());
    let msg = r.unwrap_err().message();
    assert!(msg.contains("derivations"), "{msg}");
}

#[test]
fn episode_derivations_rejects_empty() {
    let r = episode_derivations("t", "episode", &Some(vec![]));
    assert!(r.is_err());
}

#[test]
fn episode_derivations_happy_path() {
    let valid_uuid = "019e0725-aab3-7160-905b-a150603d16d9";
    let derivs = Some(vec![deriv(valid_uuid, "synthesised_from")]);
    assert!(episode_derivations("t", "episode", &derivs).is_ok());
}

#[test]
fn episode_derivations_multiple() {
    let u1 = "019e0725-aab3-7160-905b-a150603d16d9";
    let u2 = "019e0725-aab3-7160-905b-a150603d16da";
    let derivs = Some(vec![
        deriv(u1, "synthesised_from"),
        deriv(u2, "synthesised_from"),
    ]);
    assert!(episode_derivations("t", "episode", &derivs).is_ok());
}

#[test]
fn episode_derivations_invalid_uuid() {
    let derivs = Some(vec![deriv("not-a-uuid", "synthesised_from")]);
    assert!(episode_derivations("t", "episode", &derivs).is_err());
}

#[test]
fn episode_derivations_empty_type() {
    let valid_uuid = "019e0725-aab3-7160-905b-a150603d16d9";
    let derivs = Some(vec![deriv(valid_uuid, "")]);
    assert!(episode_derivations("t", "episode", &derivs).is_err());
}

#[test]
fn non_episode_ignores_derivations() {
    assert!(episode_derivations("t", "observation", &None).is_ok());
    assert!(episode_derivations("t", "observation", &Some(vec![])).is_ok());
    assert!(episode_derivations("t", "decision", &None).is_ok());
}

#[test]
fn episode_refusals_say_which_derivation() {
    let good = "019e0725-aab3-7160-905b-a150603d16d9";
    let derivs = Some(vec![deriv(good, "a"), deriv("nope", "")]);
    let data = episode_derivations("t", "episode", &derivs).unwrap_err().data();
    assert_eq!(data.constraint, "source_id must be a valid UUID");
    assert_eq!(
        data.received,
        Some(obj(vec![
            ("index", Json::Number(Number::PosInt(1))),
            ("source_id", text("nope")),
        ]))
    );
    let derivs = Some(vec![deriv(good, "")]);
    let data = episode_derivations("t", "episode", &derivs).unwrap_err().data();
    assert_eq!(data.constraint, "derivation_type must be non-empty");
    assert_eq!(
        received(episode_derivations("t", "episode", &None).unwrap_err()),
        Some(Json::Null)
    );
    assert_eq!(
        received(episode_derivations("t", "episode", &Some(vec![])).unwrap_err()),
        Some(Json::Array(vec![]))
    );
}

#[test]
fn uuids_parse_in_every_form() {
    let id = 0x019e0725_aab3_7160_905b_a150603d16d9_u128;
    for form in [
        "019e0725-aab3-7160-905b-a150603d16d9",
        "019E0725AAB37160905BA150603D16D9",
        "{019e0725-aab3-7160-905b-a150603d16d9}",
        "urn:uuid:019e0725-aab3-7160-905b-a150603d16d9",
    ] {
        assert_eq!(parse_uuid("t", "id", form).unwrap(), id);
    }
}

#[test]
fn uuid_refusal_carries_the_parser_words() {
    let words = uuid::Uuid::parse_str("not-a-uuid").unwrap_err().to_string();
    let data = parse_uuid("t", "memory_id", "not-a-uuid").unwrap_err().data();
    assert_eq!(data.argument.as_deref(), Some("memory_id"));
    assert_eq!(data.constraint, "valid UUID");
    assert_eq!(data.received, Some(text("not-a-uuid")));
    assert_eq!(
        data.next_action,
        format!("Pass a valid UUID string. Parse error: {words}")
    );
    let data = parsed_uuid("t", "id", "x", Err("too short".to_string()))
        .unwrap_err()
        .data();
    assert_eq!(
        data.next_action,
        "Pass a valid UUID string. Parse error: too short"
    );
    assert_eq!(parsed_uuid("t", "id", "x", Ok(5)).unwrap(), 5);
}
