use chitta::db::{
    count_sql, derivation_statement, ef_search, ef_search_statement, fetch_limit, hydration_order,
    is_unique_violation, search_sql, supersede_statements, survey_since, synthesis_since,
    uses_recency, Bind, InsertAction, InsertCall,
    InsertEvent, MemoryRow, ReflectRunRow, SearchParams,
};
use chitta::error::ChittaError;
use chitta::facets::Facets;
use chitta::hybrid::{
    rerank_hits, stamp_hits, Hit, HybridAction, HybridEvent, HybridSearch, HybridSearchParams,
};
use chitta::json::Json;
use chitta::order::order_by_score;
use chitta::retrieval::{
    after_fusion, candidate_limit, collect_ranks, dense_params, keep_similar, lookup_bits, runs_sparse_leg,
    select_hits, top_scored, FusionStep, Ranks,
};
use chitta::time::Timestamp;

fn rrf_score(k: u32, ranks: &[usize]) -> f32 {
    ranks.iter().map(|&r| 1.0 / (k as f32 + r as f32)).sum()
}

#[test]
fn rrf_formula_basic() {
    // Document at rank 0 in two legs with k=60.
    let score = rrf_score(60, &[0, 0]);
    let expected = 2.0 / 60.0;
    assert!((score - expected).abs() < 1e-6);
}

#[test]
fn rrf_formula_different_ranks() {
    // Rank 0 in dense, rank 5 in FTS, k=60.
    let score = rrf_score(60, &[0, 5]);
    let expected = 1.0 / 60.0 + 1.0 / 65.0;
    assert!((score - expected).abs() < 1e-6);
}

#[test]
fn rrf_single_leg_identity() {
    // Document in only one leg should still get a score.
    let score = rrf_score(60, &[3]);
    let expected = 1.0 / 63.0;
    assert!((score - expected).abs() < 1e-6);
}

#[test]
fn rrf_higher_rank_beats_lower() {
    // Doc at rank 0 in one leg should outscore doc at rank 10 in one leg.
    let score_top = rrf_score(60, &[0]);
    let score_bottom = rrf_score(60, &[10]);
    assert!(score_top > score_bottom);
}

#[test]
fn rrf_two_legs_beats_one() {
    // Doc in two legs (both at rank 5) should outscore doc in one leg at rank 0.
    let two_legs = rrf_score(60, &[5, 5]);
    let one_leg = rrf_score(60, &[0]);
    assert!(two_legs > one_leg);
}

#[test]
fn ranks_of_all_legs_are_collected() {
    let legs = vec![vec![10, 20, 30], vec![], vec![30, 40, 10]];
    let ranks = |id: u128, ranks: &[usize]| Ranks {
        id,
        ranks: ranks.to_vec(),
    };
    assert_eq!(
        collect_ranks(&legs),
        vec![
            ranks(10, &[0, 2]),
            ranks(20, &[1]),
            ranks(30, &[2, 0]),
            ranks(40, &[1]),
        ]
    );
    assert_eq!(collect_ranks(&[]), vec![]);
}

#[test]
fn fusion_ranks_what_both_legs_found_first() {
    let legs = vec![vec![1, 2, 3], vec![3, 4]];
    let fused = collect_ranks(&legs);
    let scores: Vec<u32> = fused
        .iter()
        .map(|r| rrf_score(60, &r.ranks).to_bits())
        .collect();
    let best: Vec<u128> = top_scored(&scores, 2).into_iter().map(|i| fused[i].id).collect();
    assert_eq!(best, vec![3, 1]);
}

#[test]
fn top_scores_come_in_order() {
    let bits = |v: &[f32]| v.iter().map(|x| x.to_bits()).collect::<Vec<u32>>();
    assert_eq!(top_scored(&bits(&[0.1, 0.9, 0.5, 0.9]), 3), vec![1, 3, 2]);
    assert_eq!(top_scored(&bits(&[0.1]), 5), vec![0]);
    assert_eq!(top_scored(&[], 5), Vec::<usize>::new());
    assert_eq!(top_scored(&bits(&[0.1, 0.2]), 0), Vec::<usize>::new());
}

#[test]
fn order_is_that_of_numbers() {
    let values = [
        3.5f32,
        -2.0,
        0.0,
        -0.0,
        f32::INFINITY,
        f32::NEG_INFINITY,
        f32::MIN_POSITIVE,
        -1e-45,
        1e-45,
        1e30,
        -1e30,
    ];
    let bits: Vec<u32> = values.iter().map(|v| v.to_bits()).collect();
    let order = order_by_score(&bits);
    let mut expected: Vec<usize> = (0..values.len()).collect();
    expected.sort_by(|&a, &b| values[b].partial_cmp(&values[a]).unwrap());
    assert_eq!(order, expected);
}

#[test]
fn what_is_not_a_number_keeps_its_place() {
    let bits = |v: &[f32]| v.iter().map(|x| x.to_bits()).collect::<Vec<u32>>();
    assert_eq!(order_by_score(&bits(&[f32::NAN, 1.0])), vec![0, 1]);
    assert_eq!(order_by_score(&bits(&[1.0, f32::NAN])), vec![0, 1]);
    assert_eq!(order_by_score(&bits(&[0.5, f32::NAN, 0.5, f32::NAN])), vec![0, 1, 2, 3]);
    let mut mixed = order_by_score(&bits(&[1.0, f32::NAN, 2.0]));
    mixed.sort();
    assert_eq!(mixed, vec![0, 1, 2]);
}

#[test]
fn similarity_floor() {
    let bits = |v: &[f32]| v.iter().map(|x| x.to_bits()).collect::<Vec<u32>>();
    let s = bits(&[0.9, 0.2, f32::NAN, 0.5]);
    assert_eq!(keep_similar(&s, 0.5f32.to_bits()), vec![0, 3]);
    assert_eq!(keep_similar(&s, 0.0f32.to_bits()), vec![0, 1, 2, 3]);
    assert_eq!(keep_similar(&s, (-1.0f32).to_bits()), vec![0, 1, 2, 3]);
    assert_eq!(keep_similar(&s, f32::NAN.to_bits()), vec![0, 1, 2, 3]);
}

#[test]
fn stamps_come_from_the_last_entry() {
    let entries = [(1u128, 10u32), (2, 20), (1, 30)];
    assert_eq!(lookup_bits(&entries, 1), 30);
    assert_eq!(lookup_bits(&entries, 2), 20);
    assert_eq!(lookup_bits(&entries, 3), 0.0f32.to_bits());
}

#[test]
fn hydrated_rows_follow_the_ids_that_were_asked_for() {
    assert_eq!(
        hydration_order(&[30, 10, 99, 20], &[10, 20, 30]),
        vec![1, 3, 0, 2]
    );
    assert_eq!(hydration_order(&[], &[1]), Vec::<usize>::new());
}

fn search() -> SearchParams {
    SearchParams {
        profile: "josh".into(),
        k: 10,
        tags: vec!["a".into()],
        memory_types: vec!["trait".into()],
        min_similarity: 0.25f32.to_bits(),
        recency_weight: 0.0f32.to_bits(),
        exclude_invalidated: true,
        exclude_superseded: false,
        ref_filter: Some(Json::Null),
        facets: Facets {
            domains: vec!["rust".into()],
            skills: vec!["review".into()],
            projects: vec!["chitta".into()],
            situations: vec!["debugging".into()],
        },
    }
}

fn texts(s: &str) -> Bind {
    Bind::Texts(vec![s.to_string()])
}

#[test]
fn count_is_bound_to_the_restrictions() {
    let count = search().count_statement();
    assert_eq!(count.sql, count_sql());
    assert_eq!(
        count.binds,
        vec![
            Bind::Text("josh".into()),
            texts("a"),
            texts("trait"),
            Bind::Flag(true),
            Bind::Flag(false),
            Bind::Json(Some(Json::Null)),
            texts("rust"),
            texts("review"),
            texts("chitta"),
            texts("debugging"),
        ]
    );
}

#[test]
fn total_ignores_the_query() {
    let other = SearchParams {
        k: 3,
        min_similarity: 0.9f32.to_bits(),
        recency_weight: 1.0f32.to_bits(),
        ..search()
    };
    assert_eq!(search().count_statement(), other.count_statement());
    assert_ne!(search().search_statement(), other.search_statement());
}

#[test]
fn search_is_bound_to_its_parameters() {
    let statement = search().search_statement();
    assert_eq!(statement.sql, search_sql());
    assert_eq!(
        statement.binds,
        vec![
            Bind::Text("josh".into()),
            Bind::Query,
            texts("a"),
            Bind::Single(0.25f32.to_bits()),
            Bind::Integer(10),
            texts("trait"),
            Bind::Flag(true),
            Bind::Flag(false),
            Bind::Json(Some(Json::Null)),
            texts("rust"),
            texts("review"),
            texts("chitta"),
            texts("debugging"),
        ]
    );
    let recent = SearchParams {
        recency_weight: 0.5f32.to_bits(),
        ..search()
    };
    assert_eq!(recent.search_statement().binds[4], Bind::Integer(20));
}

#[test]
fn hits_are_bounded_and_ranked() {
    let scores = [0.2f32, 0.9, 0.5].map(f32::to_bits);
    assert_eq!(select_hits(&scores, 2, true), vec![1, 2]);
    assert_eq!(select_hits(&scores, 2, false), vec![0, 1, 2]);
    assert_eq!(select_hits(&[], 2, false), Vec::<usize>::new());
}

#[test]
fn sparse_leg_needs_terms_and_candidates() {
    assert!(runs_sparse_leg(true, 1, 1));
    assert!(!runs_sparse_leg(false, 1, 1));
    assert!(!runs_sparse_leg(true, 0, 1));
    assert!(!runs_sparse_leg(true, 1, 0));
}

#[test]
fn fusion_fetches_the_best_or_stops() {
    let fused = collect_ranks(&[vec![1, 2, 3], vec![3]]);
    let scores = [0.1f32, 0.2, 0.3].map(f32::to_bits);
    assert_eq!(
        after_fusion(&fused, &scores, 2),
        FusionStep::Hydrate(vec![(3, scores[2]), (2, scores[1])])
    );
    assert_eq!(after_fusion(&fused, &scores, 0), FusionStep::NothingFound);
    assert_eq!(after_fusion(&[], &[], 2), FusionStep::NothingFound);
}

#[test]
fn breadth_of_a_semantic_query() {
    assert_eq!(ef_search(1), 200);
    assert_eq!(ef_search(-7), 200);
    assert_eq!(ef_search(50), 200);
    assert_eq!(ef_search(51), 204);
    assert_eq!(ef_search(249), 996);
    assert_eq!(ef_search(250), 1000);
    assert_eq!(ef_search(i64::MAX), 1000);
    assert_eq!(ef_search_statement(51), "set local hnsw.ef_search = 204");
}

#[test]
fn recency_doubles_what_is_fetched() {
    assert_eq!(fetch_limit(10, false), 10);
    assert_eq!(fetch_limit(10, true), 20);
    assert_eq!(candidate_limit(10, 5), 50);
    assert!(uses_recency(0.1f32.to_bits()));
    assert!(!uses_recency(0.0f32.to_bits()));
    assert!(!uses_recency((-0.1f32).to_bits()));
    assert!(!uses_recency(f32::NAN.to_bits()));
}

#[test]
fn search_queries_filter_by_facets() {
    let count = count_sql();
    assert!(count.starts_with("SELECT count(*)::bigint FROM memories WHERE profile = $1"));
    assert!(count.ends_with(&Facets::sql_filter_clauses(7)));
    let search = search_sql();
    assert!(search.contains(&Facets::sql_filter_clauses(10)));
    assert!(search.ends_with(" ORDER BY embedding <=> $2 LIMIT $5"));
}

fn row(id: u128) -> MemoryRow {
    let t = Timestamp { secs: 0, nanos: 0 };
    MemoryRow {
        id,
        profile: "p".into(),
        content: "c".into(),
        event_time: t,
        record_time: t,
        idempotency_key: "k".into(),
        source: None,
        memory_type: "observation".into(),
        tags: vec![],
        external_refs: None,
        metadata: None,
        facets: Facets::default(),
        superseded_by: None,
        confidence: None,
        reinforcement_count: 0,
        last_reinforced_at: None,
        invalidated_at: None,
    }
}

fn links() -> Vec<(u128, String)> {
    vec![(7, "synthesised_from".into()), (8, "supersedes".into())]
}

#[test]
fn conflicting_insert_returns_what_is_there() {
    let call = InsertCall::begin(&row(1), links());
    let (call, action) = call.step(InsertEvent::NotInserted(Some("23505".into())));
    assert_eq!(action, Some(InsertAction::Find("p".into(), "k".into())));
    let (call, action) = call.step(InsertEvent::Found(Some(row(2))));
    assert_eq!(action, Some(InsertAction::Return(row(2), true)));
    assert_eq!(call.step(InsertEvent::Linked).1, None);
}

#[test]
fn conflict_without_a_row_is_a_fault() {
    let call = InsertCall::begin(&row(1), vec![]);
    let (call, _) = call.step(InsertEvent::NotInserted(Some("23505".into())));
    assert_eq!(
        call.step(InsertEvent::Found(None)).1,
        Some(InsertAction::Refuse(ChittaError::Internal(
            "unique violation without recoverable row".into()
        )))
    );
}

#[test]
fn other_errors_of_the_store_are_handed_on() {
    for code in [Some("23503".to_string()), None] {
        let call = InsertCall::begin(&row(1), links());
        assert_eq!(
            call.step(InsertEvent::NotInserted(code)).1,
            Some(InsertAction::HandOn)
        );
    }
}

#[test]
fn insert_is_committed_with_all_its_links() {
    let call = InsertCall::begin(&row(1), links());
    let (call, action) = call.step(InsertEvent::Inserted(row(1)));
    assert_eq!(
        action,
        Some(InsertAction::Link(1, 7, "synthesised_from".into()))
    );
    let (call, action) = call.step(InsertEvent::Linked);
    assert_eq!(action, Some(InsertAction::Link(1, 8, "supersedes".into())));
    let (call, action) = call.step(InsertEvent::Linked);
    assert_eq!(action, Some(InsertAction::Commit));
    let (_, action) = call.step(InsertEvent::Committed);
    assert_eq!(action, Some(InsertAction::Return(row(1), false)));

    let (call, action) = InsertCall::begin(&row(1), vec![]).step(InsertEvent::Inserted(row(1)));
    assert_eq!(action, Some(InsertAction::Commit));
    assert_eq!(call.step(InsertEvent::Linked).1, None);
}

#[test]
fn unique_violations_by_their_code() {
    assert!(is_unique_violation(Some("23505")));
    assert!(!is_unique_violation(Some("23503")));
    assert!(!is_unique_violation(None));
}

#[test]
fn runs_say_since_when_to_look() {
    let started = Timestamp { secs: 1, nanos: 0 };
    let completed = Timestamp { secs: 2, nanos: 0 };
    let run = Some(ReflectRunRow {
        id: 1,
        profile: "p".into(),
        started_at: started,
        completed_at: Some(completed),
        rows_scanned: 3,
        summary: None,
    });
    assert_eq!(survey_since(&run), Some(completed));
    assert_eq!(synthesis_since(&run), Some(started));
    assert_eq!(survey_since(&None), None);
    assert_eq!(synthesis_since(&None), None);
}

#[test]
fn supersession_marks_and_links() {
    let (mark, link) = supersede_statements(1, 2);
    assert_eq!(mark.sql, "UPDATE memories SET superseded_by = $1 WHERE id = $2");
    assert_eq!(mark.binds, vec![Bind::Id(2), Bind::Id(1)]);
    assert_eq!(
        link.sql,
        "INSERT INTO derivations (derived_id, source_id, derivation_type) VALUES ($1, $2, $3) \
         RETURNING id, derived_id, source_id, derivation_type, created_at"
    );
    assert_eq!(
        link.binds,
        vec![Bind::Id(2), Bind::Id(1), Bind::Text("supersedes".into())]
    );
    assert_eq!(link, derivation_statement(2, 1, "supersedes"));
}

// ---- Hybrid search ----------------------------------------------------------------------------

fn searched() -> SearchParams {
    SearchParams {
        profile: "josh".into(),
        k: 2,
        tags: vec!["a".into()],
        memory_types: vec!["trait".into()],
        min_similarity: 0.5f32.to_bits(),
        recency_weight: 0.25f32.to_bits(),
        exclude_invalidated: true,
        exclude_superseded: false,
        ref_filter: Some(Json::Bool(true)),
        facets: Facets {
            domains: vec!["rust".into()],
            ..Facets::default()
        },
    }
}

fn hybrid(sparse: bool, weighted: bool) -> HybridSearchParams {
    HybridSearchParams {
        search: searched(),
        per_result: 5,
        sparse,
        query_terms: 3,
        weighted,
    }
}

fn hit(id: u128, similarity: f32, score: f32) -> Hit {
    Hit {
        id,
        similarity: similarity.to_bits(),
        score: score.to_bits(),
    }
}

fn entries(v: &[(u128, f32)]) -> Vec<(u128, u32)> {
    v.iter().map(|(id, x)| (*id, x.to_bits())).collect()
}

#[test]
fn dense_leg_drops_floor_and_recency_and_keeps_filters() {
    let dense = dense_params(&searched(), 5);
    let expected = SearchParams {
        k: 10,
        min_similarity: 0.0f32.to_bits(),
        recency_weight: 0.0f32.to_bits(),
        ..searched()
    };
    assert_eq!(dense, expected);
}

#[test]
fn hits_are_stamped_with_similarity_and_score() {
    let dense = entries(&[(1, 0.9), (2, 0.8)]);
    let ranked = entries(&[(2, 0.3), (1, 0.2)]);
    assert_eq!(
        stamp_hits(&[2, 1, 3], &dense, &ranked),
        vec![hit(2, 0.8, 0.3), hit(1, 0.9, 0.2), hit(3, 0.0, 0.0)]
    );
}

#[test]
fn reranking_replaces_scores_and_sorts() {
    let hits = [hit(1, 0.9, 0.3), hit(2, 0.8, 0.2), hit(3, 0.7, 0.1)];
    let scores = [0.1f32, 0.5, 0.1].map(f32::to_bits);
    assert_eq!(
        rerank_hits(&hits, &scores),
        vec![hit(2, 0.8, 0.5), hit(1, 0.9, 0.1), hit(3, 0.7, 0.1)]
    );
}

#[test]
fn hybrid_search_goes_through_all_steps() {
    let (search, action) = HybridSearch::begin(hybrid(true, true));
    assert_eq!(action, HybridAction::SearchDense(dense_params(&searched(), 5)));

    let dense = entries(&[(1, 0.9), (2, 0.6), (3, 0.4)]);
    let (search, action) = search.step(HybridEvent::DenseFound(dense, 42));
    assert_eq!(action, Some(HybridAction::ScoreSparse(vec![1, 2, 3])));

    let docs = entries(&[(1, 0.1), (3, 0.7)]);
    let (search, action) = search.step(HybridEvent::SparseScored(docs));
    let ranks = match action {
        Some(HybridAction::Fuse(ranks)) => ranks,
        other => panic!("{other:?}"),
    };
    let of = |id: u128, ranks: Vec<usize>| Ranks { id, ranks };
    assert_eq!(
        ranks,
        vec![of(1, vec![0, 1]), of(2, vec![1]), of(3, vec![2, 0])]
    );

    let fused: Vec<u32> = ranks
        .iter()
        .map(|r| rrf_score(60, &r.ranks).to_bits())
        .collect();
    let (search, action) = search.step(HybridEvent::Fused(fused));
    assert_eq!(action, Some(HybridAction::Hydrate(vec![1, 3])));

    let (search, action) = search.step(HybridEvent::Hydrated(vec![1, 3]));
    let boost = match action {
        Some(HybridAction::Boost(hits)) => hits,
        other => panic!("{other:?}"),
    };
    assert_eq!(
        boost,
        vec![
            hit(1, 0.9, rrf_score(60, &[0, 1])),
            hit(3, 0.4, rrf_score(60, &[2, 0])),
        ]
    );

    let scores = [0.1f32, 0.2].map(f32::to_bits).to_vec();
    let (search, action) = search.step(HybridEvent::Boosted(scores));
    assert_eq!(
        action,
        Some(HybridAction::Weigh(vec![hit(3, 0.4, 0.2), hit(1, 0.9, 0.1)]))
    );

    let scores = [0.2f32, 0.3].map(f32::to_bits).to_vec();
    let (search, action) = search.step(HybridEvent::Weighed(scores));
    assert_eq!(action, Some(HybridAction::Return(vec![hit(1, 0.9, 0.3)], 42)));
    assert_eq!(search.step(HybridEvent::SparseFailed).1, None);
}

#[test]
fn hybrid_search_leaves_out_what_does_not_count() {
    let mut params = hybrid(false, false);
    params.search.recency_weight = 0;
    params.search.min_similarity = 0;
    let (search, _) = HybridSearch::begin(params);
    let (search, action) = search.step(HybridEvent::DenseFound(entries(&[(1, 0.9)]), 1));
    assert!(matches!(action, Some(HybridAction::Fuse(_))));
    let (search, action) = search.step(HybridEvent::Fused(vec![]));
    assert_eq!(action, None);
    let (search, _) = search.step(HybridEvent::Fused(vec![0.5f32.to_bits()]));
    let (_, action) = search.step(HybridEvent::Hydrated(vec![1]));
    assert_eq!(action, Some(HybridAction::Return(vec![hit(1, 0.9, 0.5)], 1)));
}

#[test]
fn hybrid_search_goes_on_without_the_sparse_leg() {
    let (search, _) = HybridSearch::begin(hybrid(true, false));
    let (search, _) = search.step(HybridEvent::DenseFound(entries(&[(1, 0.9), (2, 0.8)]), 2));
    match search.step(HybridEvent::SparseFailed).1 {
        Some(HybridAction::Fuse(ranks)) => {
            assert_eq!(ranks.len(), 2);
            assert_eq!(ranks[1].ranks, vec![1]);
        }
        other => panic!("{other:?}"),
    }
}

#[test]
fn hybrid_search_that_finds_nothing() {
    let (search, _) = HybridSearch::begin(hybrid(true, true));
    let (search, action) = search.step(HybridEvent::DenseFound(vec![], 7));
    assert_eq!(action, Some(HybridAction::Fuse(vec![])));
    let (_, action) = search.step(HybridEvent::Fused(vec![]));
    assert_eq!(action, Some(HybridAction::Return(vec![], 7)));
}
