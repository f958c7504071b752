use chitta::db::MemoryRow;
use chitta::error::ChittaError;
use chitta::facets::Facets;
use chitta::json::Json;
use chitta::synthesis::clustering::{
    cluster_candidates, cluster_user_prompt, parse_cluster_response, ClusterStep, RawCluster,
};
use chitta::synthesis::contradiction::{
    contradiction_user_prompt, detect_contradiction, parse_contradiction_response,
    ContradictionStep, RawContradiction,
};
use chitta::synthesis::disagree::find_disagree_targets;
use chitta::synthesis::emission::{
    emission_confidence, emission_confidence_bits, emit_consolidated, emit_consolidated_as,
    EmissionAction, EmissionPlan,
    must_supersede, record_supersession, record_supersession_as, reflect_idempotency_key,
    reflect_key_from_digest, reflect_key_material, supersession_result,
};
use chitta::synthesis::extraction::{
    extract_candidates, parse_response, user_prompt, RawCandidate,
};
use chitta::synthesis::run::{
    cluster_facets, missing_targets, pre_filter_existing, source_times, with_targets, SynthesisRun,
};
use chitta::synthesis::writing::{ClusterWriting, WritingAction, WritingEvent};
use chitta::synthesis::{
    json_text, strip_markdown_fences, Candidate, Cluster, Contradiction, ExtractionStats,
    ThresholdConfig,
};
use chitta::time::Timestamp;

fn new_id() -> u128 {
    uuid::Uuid::now_v7().as_u128()
}

fn day(n: i64) -> Timestamp {
    Timestamp {
        secs: 1_770_000_000 + n * 86_400,
        nanos: 0,
    }
}

fn make_row(id: u128, content: &str, memory_type: &str) -> MemoryRow {
    MemoryRow {
        id,
        profile: "josh".into(),
        content: content.into(),
        event_time: day(0),
        record_time: day(0),
        idempotency_key: format!("test-{id}"),
        source: None,
        memory_type: memory_type.into(),
        tags: vec![],
        external_refs: None,
        metadata: None,
        facets: Facets::default(),
        superseded_by: None,
        confidence: None,
        reinforcement_count: 0,
        last_reinforced_at: None,
        invalidated_at: None,
    }
}

fn make_consolidated_row(id: u128, content: &str, memory_type: &str) -> MemoryRow {
    let mut row = make_row(id, content, memory_type);
    row.source = Some("reflect".into());
    row.tags = vec!["reflect".into(), "synthesised".into()];
    row.confidence = Some(0.75f32.to_bits());
    row
}

fn raw(memory_type: &str, claim: &str) -> RawCandidate {
    RawCandidate {
        memory_type: memory_type.into(),
        claim: claim.into(),
    }
}

fn candidate(memory_type: &str, claim: &str, source_id: u128) -> Candidate {
    Candidate {
        memory_type: memory_type.into(),
        claim: claim.into(),
        source_id,
    }
}

fn raw_cluster(claim: &str, memory_type: &str, members: &[usize]) -> RawCluster {
    RawCluster {
        representative_claim: claim.into(),
        memory_type: memory_type.into(),
        member_indices: members.to_vec(),
    }
}

fn cluster(claim: &str, source_ids: Vec<u128>) -> Cluster {
    Cluster {
        representative_claim: claim.into(),
        memory_type: "preference".into(),
        source_ids,
    }
}

fn memory_ref(value: &str) -> Json {
    Json::Object(vec![
        ("kind".into(), Json::Text("memory".into())),
        ("ref".into(), Json::Text(value.into())),
    ])
}

fn text_of(id: u128) -> String {
    uuid::Uuid::from_u128(id).to_string()
}

// ---- Extraction -------------------------------------------------------------

#[test]
fn extraction_zero_candidates() {
    let id = new_id();
    let result = extract_candidates(vec![parse_response(Ok(vec![]), id)]);
    assert!(result.candidates.is_empty());
    assert_eq!(result.rows_scanned, 1);
    assert_eq!(result.rows_skipped, 1);
    assert_eq!(result.extraction_errors, 0);
}

#[test]
fn extraction_one_candidate() {
    let id = new_id();
    let reply = vec![raw("preference", "Josh prefers Vim as his primary editor")];
    let result = extract_candidates(vec![parse_response(Ok(reply), id)]);
    assert_eq!(result.candidates.len(), 1);
    assert_eq!(result.candidates[0].memory_type, "preference");
    assert_eq!(
        result.candidates[0].claim,
        "Josh prefers Vim as his primary editor"
    );
    assert_eq!(result.candidates[0].source_id, id);
}

#[test]
fn extraction_multiple_candidates_from_one_row() {
    let id = new_id();
    let reply = vec![
        raw("value", "Josh values simplicity in design"),
        raw("preference", "Josh prefers Rust as his primary language"),
        raw("pattern", "Josh reviews PRs thoroughly before merging"),
    ];
    let result = extract_candidates(vec![parse_response(Ok(reply), id)]);
    assert_eq!(result.candidates.len(), 3);
    assert_eq!(result.candidates[0].memory_type, "value");
    assert_eq!(result.candidates[1].memory_type, "preference");
    assert_eq!(result.candidates[2].memory_type, "pattern");
    assert!(result.candidates.iter().all(|c| c.source_id == id));
}

#[test]
fn extraction_malformed_response_skipped_gracefully() {
    let id1 = new_id();
    let id2 = new_id();
    let result = extract_candidates(vec![
        parse_response(Err("expected value".into()), id1),
        parse_response(Ok(vec![raw("trait", "Josh is pragmatic")]), id2),
    ]);
    assert_eq!(result.candidates.len(), 1);
    assert_eq!(result.candidates[0].source_id, id2);
    assert_eq!(result.extraction_errors, 1);
}

#[test]
fn extraction_invalid_memory_type_filtered_out() {
    let id = new_id();
    let reply = vec![
        raw("preference", "valid claim"),
        raw("observation", "wrong type, should be filtered"),
        raw("trait", "another valid claim"),
    ];
    let result = extract_candidates(vec![parse_response(Ok(reply), id)]);
    assert_eq!(result.candidates.len(), 2);
    assert_eq!(result.candidates[0].memory_type, "preference");
    assert_eq!(result.candidates[1].memory_type, "trait");
}

fn read_candidates(response: &str) -> Vec<RawCandidate> {
    let value: serde_json::Value = serde_json::from_str(json_text(response)).unwrap();
    value
        .as_array()
        .unwrap()
        .iter()
        .map(|c| raw(c["memory_type"].as_str().unwrap(), c["claim"].as_str().unwrap()))
        .collect()
}

#[test]
fn extraction_markdown_fences_stripped() {
    let id = new_id();
    let response =
        "```json\n[{\"memory_type\": \"preference\", \"claim\": \"Josh likes TDD\"}]\n```";
    let result = extract_candidates(vec![parse_response(Ok(read_candidates(response)), id)]);
    assert_eq!(result.candidates.len(), 1);
    assert_eq!(result.candidates, vec![candidate("preference", "Josh likes TDD", id)]);

    let inside = "[{\"memory_type\": \"preference\", \"claim\": \"Josh likes TDD\"}]";
    assert_eq!(json_text(&format!("```json\n{inside}\n```")), inside);
    assert_eq!(json_text(&format!("  ```\n{inside}\n```  \n")), inside);
    assert_eq!(json_text(inside), inside);
}

#[test]
fn extraction_empty_claim_filtered_out() {
    let id = new_id();
    let reply = vec![raw("trait", ""), raw("value", "real claim")];
    let result = extract_candidates(vec![parse_response(Ok(reply), id)]);
    assert_eq!(result.candidates.len(), 1);
    assert_eq!(result.candidates[0].claim, "real claim");
}

#[test]
fn extraction_multiple_rows_accumulate_candidates() {
    let id1 = new_id();
    let id2 = new_id();
    let result = extract_candidates(vec![
        parse_response(Ok(vec![raw("trait", "claim from row 1")]), id1),
        parse_response(Ok(vec![raw("value", "claim from row 2")]), id2),
    ]);
    assert_eq!(result.candidates.len(), 2);
    assert_eq!(result.candidates[0].source_id, id1);
    assert_eq!(result.candidates[1].source_id, id2);
}

#[test]
fn extraction_llm_error_skipped_gracefully() {
    let id1 = new_id();
    let result = extract_candidates(vec![
        parse_response(Ok(vec![raw("trait", "first claim")]), id1),
        Err(ChittaError::Internal("no more mock responses".into())),
    ]);
    assert_eq!(result.candidates.len(), 1);
    assert_eq!(result.candidates[0].source_id, id1);
    assert_eq!(result.extraction_errors, 1);
    assert_eq!(result.rows_skipped, 0);
    assert_eq!(result.rows_scanned, 2);
}

#[test]
fn unparseable_reply_is_an_internal_error() {
    assert_eq!(
        parse_response(Err("eof".into()), 1),
        Err(ChittaError::Internal(
            "LLM returned unparseable JSON: eof".into()
        ))
    );
}

#[test]
fn fences_are_stripped_once() {
    assert_eq!(strip_markdown_fences("```json[]```"), "[]");
    assert_eq!(strip_markdown_fences("```"), "");
    assert_eq!(strip_markdown_fences(" [] "), "[]");
    assert_eq!(strip_markdown_fences("``````"), "");
    assert_eq!(strip_markdown_fences("[]```"), "[]");
}

#[test]
fn raw_memory_is_shown_with_type_tags_and_content() {
    let mut row = make_row(1, "went for a walk", "observation");
    row.tags = vec!["a".into(), "b".into()];
    assert_eq!(
        user_prompt(&row),
        "Memory type: observation\nTags: a, b\nContent:\nwent for a walk"
    );
}

// ---- Clustering -------------------------------------------------------------

#[test]
fn cluster_empty_candidates() {
    assert_eq!(cluster_candidates(&[]), ClusterStep::Done(vec![]));
    let result = parse_cluster_response(Ok(vec![]), &[]).unwrap();
    assert!(result.is_empty());
}

#[test]
fn language_model_is_asked_where_there_are_candidates() {
    let candidates = vec![candidate("trait", "Josh is pragmatic", 1)];
    assert_eq!(
        cluster_candidates(&candidates),
        ClusterStep::Ask("Candidates:\n[0] (trait) Josh is pragmatic".into())
    );
}

#[test]
fn cluster_groups_similar_claims() {
    let ids: Vec<u128> = (0..6).map(|_| new_id()).collect();
    let candidates = vec![
        candidate("preference", "Josh prefers Rust", ids[0]),
        candidate("preference", "Josh likes Rust for systems", ids[1]),
        candidate("preference", "Josh chooses Rust", ids[2]),
        candidate("value", "Josh values simplicity", ids[3]),
        candidate("value", "Josh prefers simple designs", ids[4]),
        candidate("value", "Josh avoids complexity", ids[5]),
    ];
    let reply = vec![
        raw_cluster(
            "Josh prefers Rust for systems programming",
            "preference",
            &[0, 1, 2],
        ),
        raw_cluster("Josh values simplicity in design", "value", &[3, 4, 5]),
    ];
    let clusters = parse_cluster_response(Ok(reply), &candidates).unwrap();
    assert_eq!(clusters.len(), 2);
    assert_eq!(
        clusters[0].representative_claim,
        "Josh prefers Rust for systems programming"
    );
    assert_eq!(clusters[0].memory_type, "preference");
    assert_eq!(clusters[0].source_ids.len(), 3);
    assert_eq!(clusters[1].memory_type, "value");
}

#[test]
fn cluster_deduplicates_source_ids() {
    let id = new_id();
    let candidates = vec![
        candidate("trait", "claim A", id),
        candidate("trait", "claim B", id),
    ];
    let reply = vec![raw_cluster("merged claim", "trait", &[0, 1])];
    let clusters = parse_cluster_response(Ok(reply), &candidates).unwrap();
    assert_eq!(clusters.len(), 1);
    assert_eq!(
        clusters[0].source_ids.len(),
        1,
        "same source_id should be deduplicated"
    );
}

#[test]
fn cluster_rejects_out_of_range_index() {
    let candidates = vec![candidate("trait", "a claim", new_id())];
    let reply = vec![raw_cluster("a claim", "trait", &[0, 5])];
    let clusters = parse_cluster_response(Ok(reply), &candidates).unwrap();
    assert!(
        clusters.is_empty(),
        "cluster with out-of-range index should be skipped"
    );
}

#[test]
fn cluster_rejects_duplicate_index_across_clusters() {
    let ids: Vec<u128> = (0..3).map(|_| new_id()).collect();
    let candidates = vec![
        candidate("trait", "claim A", ids[0]),
        candidate("trait", "claim B", ids[1]),
        candidate("value", "claim C", ids[2]),
    ];
    let reply = vec![
        raw_cluster("cluster 1", "trait", &[0, 1]),
        raw_cluster("cluster 2", "value", &[1, 2]),
    ];
    let clusters = parse_cluster_response(Ok(reply), &candidates).unwrap();
    assert_eq!(
        clusters.len(),
        1,
        "second cluster reusing index 1 should be skipped"
    );
    assert_eq!(clusters[0].representative_claim, "cluster 1");
}

#[test]
fn cluster_filters_invalid_memory_type() {
    let candidates = vec![candidate("trait", "a claim", new_id())];
    let reply = vec![raw_cluster("a claim", "observation", &[0])];
    let clusters = parse_cluster_response(Ok(reply), &candidates).unwrap();
    assert!(
        clusters.is_empty(),
        "observation is not a valid consolidated type"
    );
}

#[test]
fn members_of_a_refused_cluster_stay_taken() {
    let candidates = vec![
        candidate("trait", "A", 1),
        candidate("trait", "B", 2),
        candidate("trait", "C", 3),
    ];
    let reply = vec![
        raw_cluster("broken", "trait", &[0, 9, 1]),
        raw_cluster("needs the first", "trait", &[0]),
        raw_cluster("needs the others", "trait", &[2, 1]),
    ];
    let clusters = parse_cluster_response(Ok(reply), &candidates).unwrap();
    assert_eq!(clusters.len(), 1);
    assert_eq!(clusters[0].representative_claim, "needs the others");
    assert_eq!(clusters[0].source_ids, vec![3, 2]);
}

#[test]
fn clusters_of_invalid_type_or_without_claim_take_nothing() {
    let candidates = vec![candidate("trait", "A", 1)];
    let reply = vec![
        raw_cluster("x", "episode", &[0]),
        raw_cluster("", "trait", &[0]),
        raw_cluster("empty", "trait", &[]),
        raw_cluster("twice", "trait", &[0, 0]),
    ];
    assert!(parse_cluster_response(Ok(reply), &candidates)
        .unwrap()
        .is_empty());
    let reply = vec![
        raw_cluster("x", "episode", &[0]),
        raw_cluster("taken", "trait", &[0]),
    ];
    assert_eq!(
        parse_cluster_response(Ok(reply), &candidates).unwrap().len(),
        1
    );
}

#[test]
fn unparseable_clusters_are_an_internal_error() {
    assert_eq!(
        parse_cluster_response(Err("eof".into()), &[]),
        Err(ChittaError::Internal(
            "LLM returned unparseable cluster JSON: eof".into()
        ))
    );
}

#[test]
fn candidates_are_shown_under_numbers() {
    let candidates = vec![
        candidate("trait", "is pragmatic", 1),
        candidate("value", "simplicity", 2),
    ];
    assert_eq!(
        cluster_user_prompt(&candidates),
        "Candidates:\n[0] (trait) is pragmatic\n[1] (value) simplicity"
    );
    assert_eq!(cluster_user_prompt(&[]), "Candidates:");
}

// ---- Contradiction ------------------------------------------------------------

fn finding(index: Option<usize>, shift: Option<&str>) -> Result<RawContradiction, String> {
    Ok(RawContradiction {
        contradicts_index: index,
        shift: shift.map(String::from),
    })
}

#[test]
fn contradiction_detected() {
    let existing_id = new_id();
    let existing = vec![make_consolidated_row(
        existing_id,
        "Josh prefers tabs over spaces",
        "preference",
    )];
    let result = parse_contradiction_response(
        finding(Some(0), Some("switched from tabs to spaces")),
        &existing,
    )
    .unwrap();
    let c = result.expect("should detect contradiction");
    assert_eq!(c.existing_id, existing_id);
    assert_eq!(c.existing_claim, "Josh prefers tabs over spaces");
    assert_eq!(c.shift_description, "switched from tabs to spaces");
}

#[test]
fn no_contradiction() {
    let existing = vec![make_consolidated_row(
        new_id(),
        "Josh prefers Rust",
        "preference",
    )];
    let result = parse_contradiction_response(finding(None, None), &existing).unwrap();
    assert!(result.is_none());
}

#[test]
fn contradiction_empty_existing() {
    assert_eq!(
        detect_contradiction("claim", &[]),
        ContradictionStep::Done(None)
    );
    let result = parse_contradiction_response(finding(Some(0), None), &[]).unwrap();
    assert!(result.is_none(), "no existing rows → no contradiction");
}

#[test]
fn language_model_is_asked_where_there_are_memories() {
    let existing = vec![make_consolidated_row(1, "Josh prefers spaces", "preference")];
    assert_eq!(
        detect_contradiction("Josh prefers tabs", &existing),
        ContradictionStep::Ask(contradiction_user_prompt("Josh prefers tabs", &existing))
    );
}

#[test]
fn contradiction_out_of_range_index() {
    let existing = vec![make_consolidated_row(
        new_id(),
        "Josh prefers Rust",
        "preference",
    )];
    let result = parse_contradiction_response(finding(Some(5), Some("bogus")), &existing).unwrap();
    assert!(
        result.is_none(),
        "out-of-range index should be treated as no contradiction"
    );
}

#[test]
fn contradiction_multiple_existing_picks_correct() {
    let id0 = new_id();
    let id1 = new_id();
    let id2 = new_id();
    let existing = vec![
        make_consolidated_row(id0, "Josh prefers Vim", "preference"),
        make_consolidated_row(id1, "Josh dislikes meetings", "preference"),
        make_consolidated_row(id2, "Josh values simplicity", "value"),
    ];
    let result = parse_contradiction_response(
        finding(Some(1), Some("now enjoys collaborative meetings")),
        &existing,
    )
    .unwrap();
    let c = result.expect("should detect contradiction");
    assert_eq!(c.existing_id, id1);
    assert_eq!(c.existing_claim, "Josh dislikes meetings");
}

#[test]
fn contradiction_missing_shift_gets_default() {
    let id = new_id();
    let existing = vec![make_consolidated_row(id, "Josh prefers tabs", "preference")];
    let c = parse_contradiction_response(finding(Some(0), None), &existing)
        .unwrap()
        .unwrap();
    assert!(c.shift_description.contains("Josh prefers tabs"));
    assert_eq!(
        c.shift_description,
        "Changed from 'Josh prefers tabs' to a new position"
    );
}

#[test]
fn unparseable_finding_is_an_internal_error() {
    assert_eq!(
        parse_contradiction_response(Err("eof".into()), &[]),
        Err(ChittaError::Internal(
            "LLM returned unparseable contradiction JSON: eof".into()
        ))
    );
}

#[test]
fn existing_memories_are_shown_before_the_claim() {
    let existing = vec![make_consolidated_row(1, "prefers tabs", "preference")];
    assert_eq!(
        contradiction_user_prompt("prefers spaces", &existing),
        "Existing consolidated memories:\n[0] (preference) prefers tabs\n\nNew claim: prefers spaces"
    );
}

// ---- Disagreement -------------------------------------------------------------

#[test]
fn disagree_targets_extracted() {
    let target_id = new_id();
    let mut row = make_row(new_id(), "Feedback: disagree with memory", "observation");
    row.tags = vec!["feedback".into(), "disagree".into()];
    row.external_refs = Some(Json::Array(vec![memory_ref(&text_of(target_id))]));

    let targets = find_disagree_targets(&[row]);
    assert_eq!(targets.len(), 1);
    assert_eq!(targets[0], target_id);
}

#[test]
fn non_disagree_rows_ignored() {
    let mut row = make_row(new_id(), "some observation", "observation");
    row.tags = vec!["feedback".into(), "agree".into()];
    row.external_refs = Some(Json::Array(vec![memory_ref(&text_of(new_id()))]));

    let targets = find_disagree_targets(&[row]);
    assert!(targets.is_empty());
}

#[test]
fn disagree_without_refs_skipped() {
    let mut row = make_row(new_id(), "disagree but no refs", "observation");
    row.tags = vec!["feedback".into(), "disagree".into()];

    let targets = find_disagree_targets(&[row]);
    assert!(targets.is_empty());
}

#[test]
fn first_memory_reference_counts() {
    let mut row = make_row(1, "x", "observation");
    row.tags = vec!["disagree".into(), "feedback".into(), "other".into()];
    row.external_refs = Some(Json::Array(vec![
        Json::Null,
        Json::Object(vec![("kind".into(), Json::Text("url".into()))]),
        memory_ref("no uuid"),
        memory_ref(&text_of(7)),
        memory_ref(&text_of(8)),
    ]));
    assert_eq!(find_disagree_targets(&[row]), vec![7]);
}

// ---- Emission -----------------------------------------------------------------

fn confidence(cluster_size: usize) -> f32 {
    emission_confidence(cluster_size) as f32 / 100.0
}

#[test]
fn confidence_at_min_cluster() {
    assert!((confidence(5) - 0.75).abs() < 1e-6);
}

#[test]
fn confidence_scales_with_size() {
    assert!((confidence(6) - 0.80).abs() < 1e-6);
    assert!((confidence(7) - 0.85).abs() < 1e-6);
}

#[test]
fn confidence_caps_at_090() {
    assert!((confidence(8) - 0.90).abs() < 1e-6);
    assert!((confidence(20) - 0.90).abs() < 1e-6);
}

#[test]
fn confidence_bits_are_those_of_the_formula() {
    for n in 0..40usize {
        let expected = (0.50 + 0.05 * n as f32).min(0.90);
        assert_eq!(f32::from_bits(emission_confidence_bits(n)), expected, "{n}");
    }
    assert_eq!(emission_confidence(usize::MAX), 90);
}

#[test]
fn key_names_claim_and_sorted_sources() {
    let a = 0x019e0725_aab3_7160_905b_a150603d16d9_u128;
    let b = 0x019e0725_aab3_7160_905b_a150603d16da_u128;
    let c = cluster("Josh prefers Rust", vec![b, a]);
    assert_eq!(
        reflect_key_material(&c),
        "reflect:Josh prefers Rust:019e0725-aab3-7160-905b-a150603d16d9,019e0725-aab3-7160-905b-a150603d16da"
    );
    assert_eq!(
        reflect_idempotency_key(&c),
        "reflect-b3c36aadc66ccc683c3b8e821437ea8f"
    );
    let digest: Vec<u8> = (0..32).collect();
    assert_eq!(
        reflect_key_from_digest(&digest),
        "reflect-000102030405060708090a0b0c0d0e0f"
    );
}

#[test]
fn key_ignores_the_order_of_sources() {
    let one = cluster("claim", vec![3, 1, 2, u128::MAX]);
    let other = cluster("claim", vec![u128::MAX, 2, 3, 1]);
    assert_eq!(reflect_idempotency_key(&one), reflect_idempotency_key(&other));
    let more = cluster("claim", vec![1, 2, 3]);
    assert_ne!(reflect_idempotency_key(&one), reflect_idempotency_key(&more));
    let reworded = cluster("claim!", vec![3, 1, 2, u128::MAX]);
    assert_ne!(
        reflect_idempotency_key(&one),
        reflect_idempotency_key(&reworded)
    );
}

#[test]
fn cluster_becomes_a_consolidated_row() {
    let c = cluster("Josh prefers Rust", vec![5, 4, 3, 2, 1]);
    let facets = Facets {
        domains: vec!["rust".into()],
        ..Default::default()
    };
    let (row, links) = emit_consolidated_as(&c, "josh", day(3), facets.clone(), 77);
    assert_eq!(row.id, 77);
    assert_eq!(row.profile, "josh");
    assert_eq!(row.content, "Josh prefers Rust");
    assert_eq!(row.event_time, day(3));
    assert_eq!(row.record_time, day(3));
    assert_eq!(row.idempotency_key, reflect_idempotency_key(&c));
    assert_eq!(row.source.as_deref(), Some("reflect"));
    assert_eq!(row.memory_type, "preference");
    assert_eq!(row.tags, vec!["reflect", "synthesised"]);
    assert_eq!(row.facets, facets);
    assert_eq!(row.confidence, Some(0.75f32.to_bits()));
    assert_eq!(
        links,
        vec![5, 4, 3, 2, 1]
            .into_iter()
            .map(|id| (id, "synthesised_from".to_string()))
            .collect::<Vec<(u128, String)>>()
    );
    let (other, _) = emit_consolidated(&c, "josh", day(3), facets);
    assert_eq!(other.idempotency_key, row.idempotency_key);
    assert_ne!(other.id, row.id);
}

#[test]
fn supersession_is_recorded_as_a_mental_model() {
    let c = cluster("Josh prefers spaces", vec![1, 2, 3, 4, 5, 6]);
    let contradiction = Contradiction {
        existing_id: 0x10,
        existing_claim: "Josh prefers tabs".into(),
        shift_description: "switched editors".into(),
    };
    let (row, links) = record_supersession_as(
        &c,
        &contradiction,
        0x20,
        "josh",
        day(1),
        Facets::default(),
        0x30,
    );
    assert_eq!(row.id, 0x30);
    assert_eq!(
        row.content,
        "Josh shifted from 'Josh prefers tabs' to 'Josh prefers spaces' — switched editors"
    );
    assert_eq!(
        row.idempotency_key,
        "reflect-meta-00000000-0000-0000-0000-000000000010-00000000-0000-0000-0000-000000000020"
    );
    assert_eq!(row.memory_type, "mental_model");
    assert_eq!(row.tags, vec!["reflect", "synthesised", "supersession"]);
    assert_eq!(row.confidence, Some(0.80f32.to_bits()));
    assert_eq!(
        links,
        vec![
            (0x10, "supersession_of".to_string()),
            (0x20, "supersession_to".to_string())
        ]
    );
    let (again, _) =
        record_supersession(&c, &contradiction, 0x20, "josh", day(1), Facets::default());
    assert_eq!(again.idempotency_key, row.idempotency_key);
}

#[test]
fn already_superseded_is_not_superseded_again() {
    assert!(must_supersede(&None));
    let mut row = make_consolidated_row(1, "x", "trait");
    assert!(must_supersede(&Some(row.copy())));
    row.superseded_by = Some(2);
    assert!(!must_supersede(&Some(row)));
}

#[test]
fn supersession_replays_only_as_a_whole() {
    for bits in 0..8u8 {
        let (a, b, c) = (bits & 1 == 1, bits & 2 == 2, bits & 4 == 4);
        let r = supersession_result(make_consolidated_row(1, "x", "trait"), 2, 3, a, b, c);
        assert_eq!(r.idempotent_replay, bits == 7);
        assert_eq!(r.superseded_id, 2);
        assert_eq!(r.meta_row_id, 3);
        assert_eq!(r.new_row.id, 1);
    }
}

// ---- Pre-filtering --------------------------------------------------------------

fn cosine_similarity(a: &[f32], b: &[f32]) -> f32 {
    let dot: f32 = a.iter().zip(b.iter()).map(|(x, y)| x * y).sum();
    let norm_a: f32 = a.iter().map(|x| x * x).sum::<f32>().sqrt();
    let norm_b: f32 = b.iter().map(|x| x * x).sum::<f32>().sqrt();
    if norm_a == 0.0 || norm_b == 0.0 {
        return 0.0;
    }
    dot / (norm_a * norm_b)
}

fn filtered<'a>(
    claim: &[f32],
    rows: &[(&'a str, Option<Vec<f32>>)],
    top_k: usize,
) -> Vec<&'a str> {
    let similarities: Vec<Option<u32>> = rows
        .iter()
        .map(|(_, e)| e.as_ref().map(|e| cosine_similarity(claim, e).to_bits()))
        .collect();
    pre_filter_existing(&similarities, top_k)
        .into_iter()
        .map(|i| rows[i].0)
        .collect()
}

#[test]
fn pre_filter_returns_top_k_most_similar() {
    let claim = vec![1.0, 0.0, 0.0];
    let rows = vec![
        ("orthogonal", Some(vec![0.0, 1.0, 0.0])),
        ("very similar", Some(vec![0.9, 0.1, 0.0])),
        ("somewhat similar", Some(vec![0.5, 0.5, 0.0])),
    ];
    let filtered = filtered(&claim, &rows, 2);
    assert_eq!(filtered.len(), 2);
    assert_eq!(filtered[0], "very similar");
    assert_eq!(filtered[1], "somewhat similar");
}

#[test]
fn pre_filter_includes_unembedded_rows_as_fallback() {
    let claim = vec![1.0, 0.0, 0.0];
    let rows = vec![
        ("no embedding", None),
        ("has embedding", Some(vec![1.0, 0.0, 0.0])),
    ];
    let filtered = filtered(&claim, &rows, 10);
    assert_eq!(filtered.len(), 2);
    assert_eq!(filtered[0], "has embedding");
    assert_eq!(filtered[1], "no embedding");
}

#[test]
fn pre_filter_returns_all_when_fewer_than_k() {
    let claim = vec![1.0, 0.0, 0.0];
    let rows = vec![
        ("a", Some(vec![1.0, 0.0, 0.0])),
        ("b", Some(vec![0.5, 0.5, 0.0])),
    ];
    let filtered = filtered(&claim, &rows, 10);
    assert_eq!(filtered.len(), 2);
}

#[test]
fn pre_filter_keeps_equal_rows_in_order() {
    let same = Some(0.5f32.to_bits());
    assert_eq!(
        pre_filter_existing(&[same, None, same, same], 2),
        vec![0, 2, 1]
    );
    assert_eq!(pre_filter_existing(&[], 2), Vec::<usize>::new());
}

// ---- The run --------------------------------------------------------------------

fn stats() -> ExtractionStats {
    ExtractionStats {
        candidates: vec![],
        rows_scanned: 12,
        rows_skipped: 2,
        extraction_errors: 1,
    }
}

fn raw_rows(n: u128) -> Vec<MemoryRow> {
    (1..=n)
        .map(|id| {
            let mut row = make_row(id, "raw", "observation");
            row.record_time = day((id % 3) as i64);
            row
        })
        .collect()
}

#[test]
fn disagreed_memories_are_looked_up_once() {
    let feedback = |target: u128| {
        let mut row = make_row(new_id(), "Feedback: disagree", "observation");
        row.tags = vec!["feedback".into(), "disagree".into()];
        row.external_refs = Some(Json::Array(vec![memory_ref(&text_of(target))]));
        row
    };
    let rows = vec![feedback(9), feedback(8), feedback(9), feedback(7)];
    let existing = vec![make_consolidated_row(8, "known", "trait")];
    assert_eq!(missing_targets(&rows, &existing), vec![9, 7]);

    let mut gone = make_consolidated_row(7, "gone", "trait");
    gone.superseded_by = Some(1);
    let looked_up = vec![make_consolidated_row(9, "found", "trait"), gone];
    let all = with_targets(existing, &looked_up);
    let ids: Vec<u128> = all.iter().map(|r| r.id).collect();
    assert_eq!(ids, vec![8, 9]);
}

#[test]
fn source_times_keep_the_last_row_of_an_id() {
    let mut rows = raw_rows(2);
    let mut again = make_row(1, "again", "observation");
    again.record_time = day(9);
    rows.push(again);
    let times = source_times(&rows);
    assert_eq!(times.get(&1), Some(&day(9)));
    assert_eq!(times.get(&2), Some(&day(2)));
    assert_eq!(times.get(&3), None);
}

#[test]
fn cluster_has_the_facets_of_its_sources() {
    let mut rows = raw_rows(3);
    rows[0].facets.domains = vec!["rust".into(), "go".into()];
    rows[1].facets.domains = vec!["rust".into()];
    rows[1].facets.skills = vec!["review".into()];
    rows[2].facets.projects = vec!["other".into()];
    let facets = cluster_facets(&cluster("c", vec![2, 1, 99]), &rows);
    assert_eq!(facets.domains, vec!["go", "rust"]);
    assert_eq!(facets.skills, vec!["review"]);
    assert!(facets.projects.is_empty());
}

#[test]
fn two_clusters_cannot_supersede_the_same_memory() {
    let rows = raw_rows(10);
    let clusters = vec![
        cluster("first", vec![1, 2, 3, 4, 5]),
        cluster("too small", vec![1]),
        cluster("second", vec![6, 7, 8, 9, 10]),
    ];
    let existing = vec![
        make_consolidated_row(100, "old", "preference"),
        make_consolidated_row(101, "other", "preference"),
    ];
    let mut run = SynthesisRun::new(
        clusters,
        existing,
        &rows,
        day(5),
        ThresholdConfig::default(),
        &stats(),
    );

    assert_eq!(run.next_cluster(), Some(0));
    assert_eq!(run.cluster(0).representative_claim, "first");
    let offered = run.active_existing();
    assert_eq!(offered.len(), 2);
    run.record_emission(Some(100));

    assert_eq!(run.next_cluster(), Some(2));
    let offered: Vec<u128> = run.active_existing().iter().map(|r| r.id).collect();
    assert_eq!(offered, vec![101]);
    assert!(run.is_offered(101));
    assert!(!run.is_offered(100));
    assert!(!run.is_offered(102));
    run.record_emission(None);

    assert_eq!(run.next_cluster(), None);
    let result = run.finish();
    assert_eq!(result.clusters_formed, 3);
    assert_eq!(result.clusters_emitted, 2);
    assert_eq!(result.supersessions, 1);
    assert_eq!(result.rows_scanned, 12);
    assert_eq!(result.rows_skipped, 2);
    assert_eq!(result.extraction_errors, 1);
}

// ---- Writing a cluster ----------------------------------------------------------------------

fn writing_run() -> (SynthesisRun, Vec<MemoryRow>) {
    let mut rows = raw_rows(5);
    rows[1].facets.domains = vec!["rust".into()];
    let existing = vec![
        make_consolidated_row(100, "likes tabs", "preference"),
        make_consolidated_row(101, "reviews early", "pattern"),
        make_consolidated_row(102, "writes tests", "pattern"),
    ];
    let run = SynthesisRun::new(
        vec![cluster("likes spaces", vec![1, 2, 3, 4, 5])],
        existing,
        &rows,
        day(5),
        ThresholdConfig::default(),
        &stats(),
    );
    (run, rows)
}

fn bits(similarity: f32) -> Option<u32> {
    Some(similarity.to_bits())
}

#[test]
fn cluster_takes_the_place_of_what_it_contradicts() {
    let (run, rows) = writing_run();
    let (writing, action) = ClusterWriting::begin(&run, 0, &rows, "josh");
    assert_eq!(
        action,
        WritingAction::Compare("likes spaces".into(), vec![100, 101, 102])
    );

    let similarities = vec![bits(0.1), bits(0.9), None];
    let (writing, action) = writing.step(WritingEvent::Compared(similarities));
    let shown = "Existing consolidated memories:\n[0] (pattern) reviews early\n\
                 [1] (preference) likes tabs\n[2] (pattern) writes tests\n\n\
                 New claim: likes spaces";
    assert_eq!(action, Some(WritingAction::Ask(shown.into())));

    let (writing, action) = writing.step(WritingEvent::Answered(Ok(RawContradiction {
        contradicts_index: Some(1),
        shift: None,
    })));
    match action {
        Some(WritingAction::Write(EmissionPlan::Superseding(_, EmissionAction::Emit(row, links)))) => {
            assert_eq!(row.content, "likes spaces");
            assert_eq!(row.profile, "josh");
            assert_eq!(row.event_time, day(5));
            assert_eq!(row.facets.domains, vec!["rust"]);
            assert_eq!(links.len(), 5);
        }
        other => panic!("{other:?}"),
    }

    let (writing, action) = writing.step(WritingEvent::Written);
    assert_eq!(action, Some(WritingAction::Return(Some(100))));
    assert!(run.is_offered(100));
    assert_eq!(writing.step(WritingEvent::Written).1, None);
}

#[test]
fn only_the_nearest_are_shown() {
    let rows = raw_rows(5);
    let existing: Vec<MemoryRow> = (0..13)
        .map(|i| make_consolidated_row(100 + i, &format!("claim {i}"), "trait"))
        .collect();
    let run = SynthesisRun::new(
        vec![cluster("c", vec![1, 2, 3, 4, 5])],
        existing,
        &rows,
        day(5),
        ThresholdConfig::default(),
        &stats(),
    );
    let (writing, _) = ClusterWriting::begin(&run, 0, &rows, "josh");
    let similarities: Vec<Option<u32>> = (0..13)
        .map(|i| if i == 0 { None } else { bits(i as f32 / 100.0) })
        .collect();
    match writing.step(WritingEvent::Compared(similarities)).1 {
        Some(WritingAction::Ask(shown)) => {
            assert!(shown.contains("[0] (trait) claim 12\n"));
            assert!(shown.contains("[9] (trait) claim 3\n"));
            assert!(shown.contains("[10] (trait) claim 0\n"));
            assert!(!shown.contains("claim 2\n"));
            assert!(!shown.contains("claim 1\n"));
        }
        other => panic!("{other:?}"),
    }
}

#[test]
fn cluster_without_rivals_is_inserted() {
    let rows = raw_rows(5);
    let run = SynthesisRun::new(
        vec![cluster("c", vec![1, 2, 3, 4, 5])],
        vec![],
        &rows,
        day(5),
        ThresholdConfig::default(),
        &stats(),
    );
    let (writing, action) = ClusterWriting::begin(&run, 0, &rows, "josh");
    assert_eq!(action, WritingAction::Compare("c".into(), vec![]));
    let (writing, action) = writing.step(WritingEvent::Compared(vec![]));
    match action {
        Some(WritingAction::Write(EmissionPlan::Plain(row, _))) => assert_eq!(row.content, "c"),
        other => panic!("{other:?}"),
    }
    let (_, action) = writing.step(WritingEvent::Written);
    assert_eq!(action, Some(WritingAction::Return(None)));
}

#[test]
fn unreadable_finding_is_refused() {
    let (run, rows) = writing_run();
    let (writing, _) = ClusterWriting::begin(&run, 0, &rows, "josh");
    let (writing, _) = writing.step(WritingEvent::Compared(vec![None, None, None]));
    let (writing, action) = writing.step(WritingEvent::Answered(Err("no JSON".into())));
    assert_eq!(
        action,
        Some(WritingAction::Refuse(ChittaError::Internal(
            "LLM returned unparseable contradiction JSON: no JSON".into()
        )))
    );
    assert_eq!(writing.step(WritingEvent::Written).1, None);
}

#[test]
fn writing_ignores_what_comes_out_of_turn() {
    let (run, rows) = writing_run();
    let (writing, _) = ClusterWriting::begin(&run, 0, &rows, "josh");
    let (writing, action) = writing.step(WritingEvent::Written);
    assert_eq!(action, None);
    let (writing, action) = writing.step(WritingEvent::Compared(vec![None]));
    assert_eq!(action, None);
    let (_, action) = writing.step(WritingEvent::Compared(vec![None, None, None]));
    assert!(matches!(action, Some(WritingAction::Ask(_))));
}

#[test]
fn run_without_clusters_is_over_at_once() {
    let mut run = SynthesisRun::new(
        vec![],
        vec![],
        &[],
        day(0),
        ThresholdConfig::default(),
        &stats(),
    );
    assert_eq!(run.next_cluster(), None);
    assert_eq!(run.next_cluster(), None);
    assert_eq!(run.finish().clusters_emitted, 0);
}
