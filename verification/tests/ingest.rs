use chitta::ingest::{
    answer, build_tags, classify, default_profile, default_source, ends_with_sentence_boundary,
    is_narration, key_from_digest, make_idempotency_key, make_ingested_row, memory_type_for,
    opens_as_narration, plan_chunks, split_chunks, take_in, take_in_as, AnchorMatch, IngestItem,
    IngestRequest, SendOutcome, ANCHOR_PHRASES, MIN_ANCHOR_SIMILARITY,
};
use chitta::json::Json;
use chitta::time::Timestamp;

fn request(text: &str) -> IngestRequest {
    IngestRequest {
        text: text.to_string(),
        project: Some("proj".to_string()),
        profile: default_profile(),
        source: default_source(),
    }
}

#[test]
fn split_basic_chunks() {
    let text = "First sentence. Second sentence. Third.";
    let result = split_chunks(text);
    assert_eq!(result, vec!["First sentence. Second sentence. Third."]);
}

#[test]
fn split_chunks_by_blank_lines() {
    let text = "First paragraph here.\n\nSecond paragraph here.";
    let result = split_chunks(text);
    assert_eq!(
        result,
        vec!["First paragraph here.", "Second paragraph here."]
    );
}

#[test]
fn split_chunks_skips_code_fences() {
    let text = "Before code.\n```\nlet x = 1;\n```\nAfter code.";
    let result = split_chunks(text);
    assert_eq!(result, vec!["Before code.", "After code."]);
}

#[test]
fn narration_detected() {
    assert!(is_narration("Let me check the file now."));
    assert!(is_narration("I'll now read the configuration."));
    assert!(!is_narration("The configuration uses port 3100."));
}

#[test]
fn idempotency_key_stable() {
    let k1 = make_idempotency_key("hello", Some("proj"), "hook:post");
    let k2 = make_idempotency_key("hello", Some("proj"), "hook:post");
    assert_eq!(k1, k2);

    let k3 = make_idempotency_key("hello", Some("other"), "hook:post");
    assert_ne!(k1, k3);
}

#[test]
fn url_not_split() {
    let text = "Visit https://example.com/path.html for more.";
    assert!(!ends_with_sentence_boundary(
        "https://example.com/path.html"
    ));
    let result = split_chunks(text);
    assert_eq!(result.len(), 1);
}

#[test]
fn version_not_split() {
    let text = "Using version v1.2.3. It works well.";
    let result = split_chunks(text);
    assert_eq!(result.len(), 1);
}

#[test]
fn sentence_boundaries() {
    assert!(ends_with_sentence_boundary("It works. "));
    assert!(ends_with_sentence_boundary("It works.\t"));
    assert!(ends_with_sentence_boundary("Does it work?"));
    assert!(ends_with_sentence_boundary("It works!  "));
    assert!(!ends_with_sentence_boundary("It works"));
    assert!(!ends_with_sentence_boundary(""));
    assert!(!ends_with_sentence_boundary("   "));
    assert!(!ends_with_sentence_boundary("see src/main.rs."));
    assert!(!ends_with_sentence_boundary("as of v1.2."));
    assert!(ends_with_sentence_boundary("v1.2.3 came out."));
}

#[test]
fn lines_join_until_a_sentence_ends() {
    assert_eq!(
        split_chunks("  one\r\ntwo three.\nfour\n\n\nfive"),
        vec!["one two three.", "four", "five"]
    );
    assert_eq!(split_chunks(""), Vec::<String>::new());
    assert_eq!(split_chunks("\n\n  \n"), Vec::<String>::new());
}

#[test]
fn fence_ends_a_chunk_and_hides_its_lines() {
    let with = split_chunks("alpha\n```rust\nbeta.\n\ngamma\n```\ndelta");
    let without = split_chunks("alpha\n```rust\n```\ndelta");
    assert_eq!(with, without);
    assert_eq!(with, vec!["alpha", "delta"]);
    assert_eq!(split_chunks("alpha\n```\nnever closed"), vec!["alpha"]);
}

#[test]
fn blank_line_parts_texts() {
    let parts = [
        "",
        "one line",
        "ends in a return\r",
        "two\nlines",
        "line\n",
        "```\ncode\n```\nafter",
        "Done. \n\nMore",
    ];
    for a in parts {
        for b in parts {
            let mut both = split_chunks(a);
            both.extend(split_chunks(b));
            assert_eq!(split_chunks(&format!("{a}\n\n{b}")), both);
        }
    }
    assert_eq!(split_chunks("```\n\nhidden"), Vec::<String>::new());
}

#[test]
fn chunks_have_no_outer_white_space() {
    for chunk in split_chunks("  a \n\t b\n\n   c.  \n") {
        assert!(!chunk.is_empty());
        assert_eq!(chunk, chunk.trim());
    }
}

#[test]
fn narration_openings() {
    assert!(opens_as_narration("okay, done"));
    assert!(opens_as_narration("first, let me look"));
    assert!(!opens_as_narration("Okay, done"));
    assert!(is_narration("OKAY, done"));
    assert!(!is_narration("letter me "));
}

#[test]
fn key_is_the_digest_in_hexadecimal() {
    assert_eq!(
        make_idempotency_key("hello", Some("proj"), "hook:post"),
        "ingest:ccffe954f1090bcad78576f0e9b65d408da126df8c08b2eb368736b2f0675d20"
    );
    assert_eq!(
        make_idempotency_key("hello", None, "hook:post"),
        "ingest:1c8fe2c15c7c0e18a52820eba29d5175ef829febe1b59c519278448b1723f293"
    );
    assert_eq!(key_from_digest(&[0x00, 0x0f, 0xa7, 0xff]), "ingest:000fa7ff");
}

#[test]
fn tags_name_project_and_source() {
    assert_eq!(
        build_tags(Some("p"), "hook:post"),
        vec!["auto-extracted", "project:p", "source:hook:post"]
    );
    assert_eq!(
        build_tags(None, "cli"),
        vec!["auto-extracted", "source:cli"]
    );
}

#[test]
fn empty_and_oversized_texts_are_refused() {
    let refused = take_in(request("")).unwrap_err();
    assert_eq!(refused.status, 400);
    assert_eq!(
        refused.body.get("error"),
        Some(&Json::Text("text must be non-empty".to_string()))
    );

    let big = "x".repeat(1_000_001);
    let refused = take_in(request(&big)).unwrap_err();
    assert_eq!(refused.status, 400);
    assert_eq!(
        refused.body.get("error"),
        Some(&Json::Text("text exceeds 1MB limit".to_string()))
    );

    assert!(take_in(request(&"x".repeat(1_000_000))).is_ok());
}

#[test]
fn request_becomes_an_item() {
    let item = take_in_as(request("some text"), 42).unwrap();
    assert_eq!(
        item,
        IngestItem {
            id: 42,
            text: "some text".to_string(),
            project: Some("proj".to_string()),
            profile: "chitta".to_string(),
            source: "hook:post".to_string(),
        }
    );
}

#[test]
fn two_requests_get_two_identifiers() {
    let a = take_in(request("a")).unwrap();
    let b = take_in(request("a")).unwrap();
    assert_ne!(a.id, b.id);
}

#[test]
fn answers_by_what_became_of_the_item() {
    let id = 0x019e0725_aab3_7160_905b_a150603d16d9_u128;
    let sent = answer(SendOutcome::Sent, id);
    assert_eq!(sent.status, 202);
    assert_eq!(sent.body.get("queued"), Some(&Json::Bool(true)));
    assert_eq!(
        sent.body.get("queue_id"),
        Some(&Json::Text(
            "019e0725-aab3-7160-905b-a150603d16d9".to_string()
        ))
    );
    assert_eq!(answer(SendOutcome::Full, id).status, 503);
    assert_eq!(
        answer(SendOutcome::Full, id).body.get("error"),
        Some(&Json::Text("ingest queue full, try again later".to_string()))
    );
    assert_eq!(answer(SendOutcome::Closed, id).status, 500);
    assert_eq!(
        answer(SendOutcome::Closed, id).body.get("error"),
        Some(&Json::Text("ingest worker not running".to_string()))
    );
}

#[test]
fn plan_drops_short_narrating_and_repeated_chunks() {
    let text = "Too short.\n\
                Let me check the configuration file now.\n\
                The configuration uses port 3100.\n\
                The configuration uses port 3100.\n\
                The database listens on port 5432.";
    let plan = plan_chunks(text, Some("proj"), "hook:post");
    let contents: Vec<&str> = plan.iter().map(|c| c.content.as_str()).collect();
    assert_eq!(
        contents,
        vec![
            "The configuration uses port 3100.",
            "The database listens on port 5432."
        ]
    );
    assert_ne!(plan[0].key, plan[1].key);
    assert_eq!(
        plan[0].key,
        make_idempotency_key(
            "The configuration uses port 3100.",
            Some("proj"),
            "hook:post"
        )
    );
}

#[test]
fn plan_measures_bytes() {
    // Ten characters of two bytes each.
    assert_eq!(plan_chunks("éééééééééé", None, "s").len(), 1);
    assert_eq!(plan_chunks("ééééééééé", None, "s").len(), 0);
}

fn matched(similarity: f32, memory_type: &'static str) -> AnchorMatch {
    AnchorMatch {
        similarity: similarity.to_bits(),
        memory_type,
    }
}

#[test]
fn best_anchor_decides_the_type() {
    let matches = [
        matched(0.3, "observation"),
        matched(0.7, "decision"),
        matched(0.7, "trait"),
        matched(-0.9, "value"),
    ];
    assert_eq!(classify(&matches), ("decision", 0.7f32.to_bits()));
    assert_eq!(memory_type_for(&matches), Some("decision"));
}

#[test]
fn unlike_every_anchor_is_dropped() {
    assert_eq!(classify(&[]), ("observation", 0));
    assert_eq!(memory_type_for(&[]), None);
    assert_eq!(memory_type_for(&[matched(0.44, "decision")]), None);
    assert_eq!(memory_type_for(&[matched(f32::NAN, "decision")]), None);
    assert_eq!(memory_type_for(&[matched(0.45, "decision")]), Some("decision"));
    assert_eq!(MIN_ANCHOR_SIMILARITY, 0.45f32.to_bits());
}

#[test]
fn anchors_stand_for_decisions_and_observations() {
    let decisions = ANCHOR_PHRASES
        .iter()
        .filter(|(_, t)| *t == "decision")
        .count();
    assert_eq!(decisions, 2);
    assert_eq!(ANCHOR_PHRASES.len(), 6);
}

#[test]
fn planned_chunk_becomes_a_row() {
    let now = Timestamp { secs: 1_750_000_000, nanos: 5 };
    let item = take_in_as(request("The configuration uses port 3100."), 1).unwrap();
    let plan = plan_chunks(&item.text, item.project.as_deref(), &item.source);
    let row = make_ingested_row(&item, &plan[0], "observation", 7, now);
    assert_eq!(row.id, 7);
    assert_eq!(row.profile, "chitta");
    assert_eq!(row.content, "The configuration uses port 3100.");
    assert_eq!(row.event_time, now);
    assert_eq!(row.record_time, now);
    assert_eq!(row.idempotency_key, plan[0].key);
    assert_eq!(row.source.as_deref(), Some("hook:post"));
    assert_eq!(row.memory_type, "observation");
    assert_eq!(
        row.tags,
        vec!["auto-extracted", "project:proj", "source:hook:post"]
    );
    assert!(row.metadata.is_none());
    assert!(row.confidence.is_none());
    assert!(row.facets.is_empty());
}

#[test]
fn narration_is_narration_in_any_case() {
    for s in ["Let me see", "I'll now look", "First, Let Me check", "no narration", "Okay, so 1+1"] {
        let plain = is_narration(s);
        assert_eq!(is_narration(&s.to_ascii_uppercase()), plain);
        assert_eq!(is_narration(&s.to_ascii_lowercase()), plain);
    }
    assert!(is_narration("FIRST, LET ME CHECK"));
    assert!(!is_narration("NO NARRATION"));
}
