//! A hybrid search, one step at a time: the legs rank their candidates, the ranks
//! are fused, the best memories are fetched and ranked anew, and those that are
//! not similar enough are left out.

use vstd::prelude::*;

use crate::db::{uses_recency, SearchParams, SearchParamsView};
use crate::floats;
use crate::ids::MemoryId;
use crate::order::{self, order_by_score};
use crate::retrieval::{
    self, after_fusion, collect_ranks, dense_params, keep_similar, lookup_bits, runs_sparse_leg,
    FusionStep, Ranks,
};

verus! {

// ---- What is searched for -------------------------------------------------------------

/// What a hybrid search asks for.
#[derive(Debug, PartialEq, Eq)]
pub struct HybridSearchParams {
    /// What is searched for, how many hits are wanted, and what they must meet.
    pub search: SearchParams,
    /// How many candidates each leg fetches for each hit.
    pub per_result: i64,
    /// Whether the sparse leg is enabled.
    pub sparse: bool,
    /// How many sparse terms the query has.
    pub query_terms: usize,
    /// Whether some types have weights of their own.
    pub weighted: bool,
}

/// What a [`HybridSearchParams`] stands for.
pub struct HybridParamsView {
    pub search: SearchParamsView,
    pub per_result: i64,
    pub sparse: bool,
    pub query_terms: usize,
    pub weighted: bool,
}

impl View for HybridSearchParams {
    type V = HybridParamsView;

    open spec fn view(&self) -> HybridParamsView {
        HybridParamsView {
            search: self.search@,
            per_result: self.per_result,
            sparse: self.sparse,
            query_terms: self.query_terms,
            weighted: self.weighted,
        }
    }
}

/// How many memories are fetched at most for `k` hits. A negative `k` sets no
/// bound.
pub open spec fn most(k: i64) -> usize {
    if 0 <= k <= usize::MAX {
        k as usize
    } else {
        usize::MAX
    }
}

fn most_of(k: i64) -> (r: usize)
    ensures
        r == most(k),
{
    if k < 0 || k as u64 > usize::MAX as u64 {
        usize::MAX
    } else {
        k as usize
    }
}

// ---- Hits -------------------------------------------------------------------------------

/// A memory that was found. Similarity and score are given by their bits.
#[derive(Clone, Copy, Debug, PartialEq, Eq, Structural)]
pub struct Hit {
    pub id: MemoryId,
    pub similarity: u32,
    pub score: u32,
}

/// The identifiers of entries.
pub open spec fn ids_in(entries: Seq<(MemoryId, u32)>) -> Seq<MemoryId> {
    entries.map_values(|e: (MemoryId, u32)| e.0)
}

fn ids_of(entries: &[(MemoryId, u32)]) -> (r: Vec<MemoryId>)
    ensures
        r@ == ids_in(entries@),
{
    let mut r: Vec<MemoryId> = Vec::new();
    for i in 0..entries.len()
        invariant
            r@ == ids_in(entries@).take(i as int),
    {
        r.push(entries[i].0);
        assert(r@ =~= ids_in(entries@).take(i + 1));
    }
    assert(r@ =~= ids_in(entries@));
    r
}

/// The bits of entries.
pub open spec fn bits_in(entries: Seq<(MemoryId, u32)>) -> Seq<u32> {
    entries.map_values(|e: (MemoryId, u32)| e.1)
}

/// The identifiers of entries in the given order.
pub open spec fn ids_in_order(entries: Seq<(MemoryId, u32)>, order: Seq<usize>) -> Seq<MemoryId> {
    order.map_values(|i: usize| entries[i as int].0)
}

fn ids_by_score(entries: &[(MemoryId, u32)]) -> (r: Vec<MemoryId>)
    ensures
        exists|order: Seq<usize>|
            {
                &&& #[trigger] order::is_stable_order(order::descending(bits_in(entries@)), order)
                &&& r@ == ids_in_order(entries@, order)
            },
{
    let mut bits: Vec<u32> = Vec::new();
    for i in 0..entries.len()
        invariant
            bits@ == bits_in(entries@).take(i as int),
    {
        bits.push(entries[i].1);
        assert(bits@ =~= bits_in(entries@).take(i + 1));
    }
    assert(bits@ =~= bits_in(entries@));
    let order = order_by_score(bits.as_slice());
    let mut r: Vec<MemoryId> = Vec::new();
    for i in 0..order.len()
        invariant
            order@.len() == entries@.len(),
            forall|j: int| 0 <= j < order@.len() ==> #[trigger] order@[j] < entries@.len(),
            r@ == ids_in_order(entries@, order@).take(i as int),
    {
        r.push(entries[order[i]].0);
        assert(r@ =~= ids_in_order(entries@, order@).take(i + 1));
    }
    assert(r@ =~= ids_in_order(entries@, order@));
    r
}

/// The memories with the given identifiers as hits: each with the similarity that
/// the dense leg found, and the score that fusion gave it.
pub open spec fn stamped(
    ids: Seq<MemoryId>,
    dense: Seq<(MemoryId, u32)>,
    ranked: Seq<(MemoryId, u32)>,
) -> Seq<Hit> {
    ids.map_values(
        |id: MemoryId|
            Hit {
                id,
                similarity: retrieval::bits_for(dense, id),
                score: retrieval::bits_for(ranked, id),
            },
    )
}

/// The memories with the given identifiers as hits: `dense` holds the similarities
/// that the dense leg found, `ranked` the scores that fusion gave. What has none
/// gets zero.
pub fn stamp_hits(
    ids: &[MemoryId],
    dense: &[(MemoryId, u32)],
    ranked: &[(MemoryId, u32)],
) -> (r: Vec<Hit>)
    ensures
        r@ == stamped(ids@, dense@, ranked@),
{
    let mut r: Vec<Hit> = Vec::new();
    for i in 0..ids.len()
        invariant
            r@ == stamped(ids@, dense@, ranked@).take(i as int),
    {
        let id: MemoryId = ids[i];
        r.push(Hit { id, similarity: lookup_bits(dense, id), score: lookup_bits(ranked, id) });
        assert(r@ =~= stamped(ids@, dense@, ranked@).take(i + 1));
    }
    assert(r@ =~= stamped(ids@, dense@, ranked@));
    r
}

/// The hits at the given positions.
pub open spec fn hits_at(hits: Seq<Hit>, at: Seq<usize>) -> Seq<Hit> {
    at.map_values(|i: usize| hits[i as int])
}

fn pick_hits(hits: &[Hit], at: &[usize]) -> (r: Vec<Hit>)
    requires
        forall|i: int| 0 <= i < at@.len() ==> #[trigger] at@[i] < hits@.len(),
    ensures
        r@ == hits_at(hits@, at@),
{
    let mut r: Vec<Hit> = Vec::new();
    for i in 0..at.len()
        invariant
            forall|i: int| 0 <= i < at@.len() ==> #[trigger] at@[i] < hits@.len(),
            r@ == hits_at(hits@, at@).take(i as int),
    {
        r.push(hits[at[i]]);
        assert(r@ =~= hits_at(hits@, at@).take(i + 1));
    }
    assert(r@ =~= hits_at(hits@, at@));
    r
}

/// The hits with the given scores in place of their own.
pub open spec fn rescored(hits: Seq<Hit>, scores: Seq<u32>) -> Seq<Hit> {
    Seq::new(hits.len(), |i: int| Hit { score: scores[i], ..hits[i] })
}

/// Whether `after` are the hits with the given scores, in the given order, highest
/// score first.
pub open spec fn is_reranking(
    before: Seq<Hit>,
    scores: Seq<u32>,
    after: Seq<Hit>,
    order: Seq<usize>,
) -> bool {
    &&& order::is_stable_order(order::descending(scores), order)
    &&& after == hits_at(rescored(before, scores), order)
}

/// The hits with the given scores in place of their own, highest score first.
pub fn rerank_hits(hits: &[Hit], scores: &[u32]) -> (r: Vec<Hit>)
    requires
        hits@.len() == scores@.len(),
    ensures
        exists|order: Seq<usize>| #[trigger] is_reranking(hits@, scores@, r@, order),
{
    let mut fresh: Vec<Hit> = Vec::new();
    for i in 0..hits.len()
        invariant
            hits@.len() == scores@.len(),
            fresh@ == rescored(hits@, scores@).take(i as int),
    {
        let h: Hit = hits[i];
        fresh.push(Hit { id: h.id, similarity: h.similarity, score: scores[i] });
        assert(fresh@ =~= rescored(hits@, scores@).take(i + 1));
    }
    assert(fresh@ =~= rescored(hits@, scores@));
    let order = order_by_score(scores);
    let r = pick_hits(fresh.as_slice(), order.as_slice());
    assert(is_reranking(hits@, scores@, r@, order@));
    r
}

/// The similarities of hits.
pub open spec fn similarities(hits: Seq<Hit>) -> Seq<u32> {
    hits.map_values(|h: Hit| h.similarity)
}

/// The hits that are similar enough, in order.
pub open spec fn above_floor(hits: Seq<Hit>, floor: u32) -> Seq<Hit> {
    hits_at(hits, retrieval::passing(similarities(hits), floor))
}

proof fn lemma_passing_is_in_range(values: Seq<u32>, floor: u32)
    requires
        values.len() <= usize::MAX,
    ensures
        forall|i: int|
            0 <= i < retrieval::passing(values, floor).len() ==> {
                let at = #[trigger] retrieval::passing(values, floor)[i];
                at < values.len() && retrieval::similar_enough(values[at as int], floor)
            },
        retrieval::passing(values, floor).len() <= values.len(),
    decreases values.len(),
{
    if values.len() > 0 {
        lemma_passing_is_in_range(values.drop_last(), floor);
        let before = retrieval::passing(values.drop_last(), floor);
        assert forall|i: int| 0 <= i < retrieval::passing(values, floor).len() implies {
            let at = #[trigger] retrieval::passing(values, floor)[i];
            at < values.len() && retrieval::similar_enough(values[at as int], floor)
        } by {
            if i < before.len() {
                assert(retrieval::passing(values, floor)[i] == before[i]);
            }
        }
    }
}

fn drop_dissimilar(hits: &[Hit], floor: u32) -> (r: Vec<Hit>)
    ensures
        r@ == above_floor(hits@, floor),
{
    let mut values: Vec<u32> = Vec::new();
    for i in 0..hits.len()
        invariant
            values@ == similarities(hits@).take(i as int),
    {
        values.push(hits[i].similarity);
        assert(values@ =~= similarities(hits@).take(i + 1));
    }
    assert(values@ =~= similarities(hits@));
    assert(values@.len() == values.len());
    let kept = keep_similar(values.as_slice(), floor);
    proof {
        lemma_passing_is_in_range(values@, floor);
    }
    pick_hits(hits, kept.as_slice())
}

// ---- The search ---------------------------------------------------------------------------

/// Where a hybrid search stands.
#[derive(Debug, PartialEq, Eq)]
pub enum HybridStage {
    /// It waits for the candidates of the dense leg.
    Searching,
    /// It waits for the sparse scores of the candidates that the dense leg found.
    Comparing(Vec<(MemoryId, u32)>),
    /// It waits for the scores of the fused ranks.
    Fusing(Vec<(MemoryId, u32)>, Vec<Ranks>),
    /// It waits for the memories with the highest scores.
    Hydrating(Vec<(MemoryId, u32)>, Vec<(MemoryId, u32)>),
    /// It waits for the scores of the hits with regard to their age.
    Boosting(Vec<Hit>),
    /// It waits for the scores of the hits with regard to their types.
    Weighing(Vec<Hit>),
    /// It is done.
    Done,
}

/// What a [`HybridStage`] stands for.
pub enum HybridStageView {
    Searching,
    Comparing(Seq<(MemoryId, u32)>),
    Fusing(Seq<(MemoryId, u32)>, Seq<(MemoryId, Seq<usize>)>),
    Hydrating(Seq<(MemoryId, u32)>, Seq<(MemoryId, u32)>),
    Boosting(Seq<Hit>),
    Weighing(Seq<Hit>),
    Done,
}

impl View for HybridStage {
    type V = HybridStageView;

    open spec fn view(&self) -> HybridStageView {
        match self {
            HybridStage::Searching => HybridStageView::Searching,
            HybridStage::Comparing(dense) => HybridStageView::Comparing(dense@),
            HybridStage::Fusing(dense, ranks) => HybridStageView::Fusing(
                dense@,
                retrieval::rank_views(ranks@),
            ),
            HybridStage::Hydrating(dense, ranked) => HybridStageView::Hydrating(dense@, ranked@),
            HybridStage::Boosting(hits) => HybridStageView::Boosting(hits@),
            HybridStage::Weighing(hits) => HybridStageView::Weighing(hits@),
            HybridStage::Done => HybridStageView::Done,
        }
    }
}

/// What happened.
#[derive(Debug, PartialEq, Eq)]
pub enum HybridEvent {
    /// The dense leg found the candidates with the given similarities, nearest
    /// first, of so many rows in all.
    DenseFound(Vec<(MemoryId, u32)>, i64),
    /// The candidates that have a sparse embedding have the given scores.
    SparseScored(Vec<(MemoryId, u32)>),
    /// The sparse embeddings could not be had.
    SparseFailed,
    /// The memories whose ranks were given have these scores, in order.
    Fused(Vec<u32>),
    /// The memories with these identifiers were fetched, in this order.
    Hydrated(Vec<MemoryId>),
    /// The hits have these scores with regard to their age, in order.
    Boosted(Vec<u32>),
    /// The hits have these scores with regard to their types, in order.
    Weighed(Vec<u32>),
}

/// What to do next.
#[derive(Debug, PartialEq, Eq)]
pub enum HybridAction {
    /// Search by the embedding of the query.
    SearchDense(SearchParams),
    /// Score the sparse embeddings of these memories.
    ScoreSparse(Vec<MemoryId>),
    /// Score each memory by its ranks.
    Fuse(Vec<Ranks>),
    /// Fetch the memories with these identifiers, in this order.
    Hydrate(Vec<MemoryId>),
    /// Score the hits with regard to their age.
    Boost(Vec<Hit>),
    /// Score the hits with regard to their types.
    Weigh(Vec<Hit>),
    /// Return the hits, of so many rows in all.
    Return(Vec<Hit>, i64),
}

/// What a [`HybridAction`] stands for.
pub enum HybridActionView {
    SearchDense(SearchParamsView),
    ScoreSparse(Seq<MemoryId>),
    Fuse(Seq<(MemoryId, Seq<usize>)>),
    Hydrate(Seq<MemoryId>),
    Boost(Seq<Hit>),
    Weigh(Seq<Hit>),
    Return(Seq<Hit>, i64),
}

impl View for HybridAction {
    type V = HybridActionView;

    open spec fn view(&self) -> HybridActionView {
        match self {
            HybridAction::SearchDense(p) => HybridActionView::SearchDense(p@),
            HybridAction::ScoreSparse(ids) => HybridActionView::ScoreSparse(ids@),
            HybridAction::Fuse(ranks) => HybridActionView::Fuse(retrieval::rank_views(ranks@)),
            HybridAction::Hydrate(ids) => HybridActionView::Hydrate(ids@),
            HybridAction::Boost(hits) => HybridActionView::Boost(hits@),
            HybridAction::Weigh(hits) => HybridActionView::Weigh(hits@),
            HybridAction::Return(hits, total) => HybridActionView::Return(hits@, *total),
        }
    }
}

/// What an action, if any, stands for.
pub open spec fn action_view(action: Option<HybridAction>) -> Option<HybridActionView> {
    match action {
        Some(a) => Some(a@),
        None => None,
    }
}

/// A hybrid search under way.
#[derive(Debug, PartialEq, Eq)]
pub struct HybridSearch {
    params: HybridSearchParams,
    total: i64,
    stage: HybridStage,
}

/// What a [`HybridSearch`] stands for.
pub struct HybridView {
    pub params: HybridParamsView,
    /// How many rows the search ranges over, once the dense leg has said so.
    pub total: i64,
    pub stage: HybridStageView,
}

impl View for HybridSearch {
    type V = HybridView;

    closed spec fn view(&self) -> HybridView {
        HybridView { params: self.params@, total: self.total, stage: self.stage@ }
    }
}

/// Whether the search goes on to fuse the given legs.
pub open spec fn goes_on_to_fuse(
    before: HybridView,
    dense: Seq<(MemoryId, u32)>,
    legs: Seq<Seq<MemoryId>>,
    after: HybridView,
    action: Option<HybridActionView>,
) -> bool {
    let ranks = retrieval::ranks_of_all(legs);
    &&& after == (HybridView { stage: HybridStageView::Fusing(dense, ranks), ..before })
    &&& action == Some(HybridActionView::Fuse(ranks))
}

/// Whether the search goes on to fetch the memories with the highest scores, or, where
/// there is none to fetch, returns nothing.
pub open spec fn goes_on_to_hydrate(
    before: HybridView,
    dense: Seq<(MemoryId, u32)>,
    ranks: Seq<(MemoryId, Seq<usize>)>,
    scores: Seq<u32>,
    after: HybridView,
    action: Option<HybridActionView>,
) -> bool {
    let k = most(before.params.search.k);
    if k == 0 || ranks.len() == 0 {
        &&& after == (HybridView { stage: HybridStageView::Done, ..before })
        &&& action == Some(HybridActionView::Return(Seq::empty(), before.total))
    } else {
        exists|ranked: Seq<(MemoryId, u32)>, order: Seq<usize>|
            {
                &&& #[trigger] retrieval::is_ranked(ranked, ranks, scores, k as int, order)
                &&& after == (HybridView {
                    stage: HybridStageView::Hydrating(dense, ranked),
                    ..before
                })
                &&& action == Some(HybridActionView::Hydrate(ids_in(ranked)))
            }
    }
}

/// Whether the search returns those of the hits that are similar enough.
pub open spec fn goes_on_to_return(
    before: HybridView,
    hits: Seq<Hit>,
    after: HybridView,
    action: Option<HybridActionView>,
) -> bool {
    &&& after == (HybridView { stage: HybridStageView::Done, ..before })
    &&& action == Some(
        HybridActionView::Return(
            above_floor(hits, before.params.search.min_similarity),
            before.total,
        ),
    )
}

/// Whether the search goes on to weigh the hits by their types, where types have
/// weights, and otherwise returns.
pub open spec fn goes_on_to_weigh(
    before: HybridView,
    hits: Seq<Hit>,
    after: HybridView,
    action: Option<HybridActionView>,
) -> bool {
    if before.params.weighted {
        &&& after == (HybridView { stage: HybridStageView::Weighing(hits), ..before })
        &&& action == Some(HybridActionView::Weigh(hits))
    } else {
        goes_on_to_return(before, hits, after, action)
    }
}

/// Whether the search goes on to rank the hits by their age, where recency weighs,
/// and otherwise by their types.
pub open spec fn goes_on_to_rank(
    before: HybridView,
    hits: Seq<Hit>,
    after: HybridView,
    action: Option<HybridActionView>,
) -> bool {
    if floats::place(before.params.search.recency_weight) > 0 {
        &&& after == (HybridView { stage: HybridStageView::Boosting(hits), ..before })
        &&& action == Some(HybridActionView::Boost(hits))
    } else {
        goes_on_to_weigh(before, hits, after, action)
    }
}

/// Whether the search, on the event, goes on as it should: to the state `after`,
/// with the given action. The candidates of the dense leg are ranked a second time
/// by the sparse leg, where it runs; the ranks are fused; the memories with the
/// highest scores are fetched; these are ranked by recency, then by type, where
/// either counts; and what is not similar enough is left out at the end. An event
/// that does not belong to the stage changes nothing and calls for nothing.
pub open spec fn goes_on(
    before: HybridView,
    event: HybridEvent,
    after: HybridView,
    action: Option<HybridActionView>,
) -> bool {
    let p = before.params;
    match (before.stage, event) {
        (HybridStageView::Searching, HybridEvent::DenseFound(dense, total)) => {
            let counted = HybridView { total, ..before };
            if p.sparse && p.query_terms > 0 && dense@.len() > 0 {
                &&& after == (HybridView { stage: HybridStageView::Comparing(dense@), ..counted })
                &&& action == Some(HybridActionView::ScoreSparse(ids_in(dense@)))
            } else {
                goes_on_to_fuse(counted, dense@, seq![ids_in(dense@)], after, action)
            }
        },
        (HybridStageView::Comparing(dense), HybridEvent::SparseScored(docs)) => {
            exists|order: Seq<usize>|
                {
                    &&& #[trigger] order::is_stable_order(
                        order::descending(bits_in(docs@)),
                        order,
                    )
                    &&& goes_on_to_fuse(
                        before,
                        dense,
                        seq![ids_in(dense), ids_in_order(docs@, order)],
                        after,
                        action,
                    )
                }
        },
        (HybridStageView::Comparing(dense), HybridEvent::SparseFailed) => {
            goes_on_to_fuse(before, dense, seq![ids_in(dense)], after, action)
        },
        (HybridStageView::Fusing(dense, ranks), HybridEvent::Fused(scores)) => {
            if scores@.len() != ranks.len() {
                after == before && action is None
            } else {
                goes_on_to_hydrate(before, dense, ranks, scores@, after, action)
            }
        },
        (HybridStageView::Hydrating(dense, ranked), HybridEvent::Hydrated(ids)) => {
            goes_on_to_rank(before, stamped(ids@, dense, ranked), after, action)
        },
        (HybridStageView::Boosting(hits), HybridEvent::Boosted(scores)) => {
            if scores@.len() != hits.len() {
                after == before && action is None
            } else {
                exists|boosted: Seq<Hit>, order: Seq<usize>|
                    {
                        &&& #[trigger] is_reranking(hits, scores@, boosted, order)
                        &&& goes_on_to_weigh(before, boosted, after, action)
                    }
            }
        },
        (HybridStageView::Weighing(hits), HybridEvent::Weighed(scores)) => {
            if scores@.len() != hits.len() {
                after == before && action is None
            } else {
                exists|weighed: Seq<Hit>, order: Seq<usize>|
                    {
                        &&& #[trigger] is_reranking(hits, scores@, weighed, order)
                        &&& goes_on_to_return(before, weighed, after, action)
                    }
            }
        },
        _ => after == before && action is None,
    }
}

fn copy_hits(hits: &[Hit]) -> (r: Vec<Hit>)
    ensures
        r@ == hits@,
{
    let mut r: Vec<Hit> = Vec::new();
    for i in 0..hits.len()
        invariant
            r@ == hits@.take(i as int),
    {
        r.push(hits[i]);
        assert(r@ =~= hits@.take(i + 1));
    }
    assert(r@ =~= hits@);
    r
}

impl HybridSearch {
    /// Begins a hybrid search, and says what to do first.
    pub fn begin(params: HybridSearchParams) -> (r: (HybridSearch, HybridAction))
        requires
            i64::MIN <= params.search.k * params.per_result <= i64::MAX,
        ensures
            r.0@ == (HybridView {
                params: params@,
                total: 0,
                stage: HybridStageView::Searching,
            }),
            r.1@ == HybridActionView::SearchDense(
                retrieval::dense_search(params.search@, params.per_result),
            ),
    {
        let dense = dense_params(&params.search, params.per_result);
        (
            HybridSearch { params, total: 0, stage: HybridStage::Searching },
            HybridAction::SearchDense(dense),
        )
    }

    fn fuse(self, dense: Vec<(MemoryId, u32)>, legs: Vec<Vec<MemoryId>>) -> (r: (
        HybridSearch,
        Option<HybridAction>,
    ))
        ensures
            goes_on_to_fuse(
                self@,
                dense@,
                retrieval::leg_views(legs@),
                r.0@,
                action_view(r.1),
            ),
    {
        let ranks = collect_ranks(legs.as_slice());
        let shown = collect_ranks(legs.as_slice());
        (
            HybridSearch { stage: HybridStage::Fusing(dense, ranks), ..self },
            Some(HybridAction::Fuse(shown)),
        )
    }

    fn finish(self, hits: Vec<Hit>) -> (r: (HybridSearch, Option<HybridAction>))
        ensures
            goes_on_to_return(self@, hits@, r.0@, action_view(r.1)),
    {
        let kept = drop_dissimilar(hits.as_slice(), self.params.search.min_similarity);
        let total: i64 = self.total;
        (
            HybridSearch { stage: HybridStage::Done, ..self },
            Some(HybridAction::Return(kept, total)),
        )
    }

    fn weigh(self, hits: Vec<Hit>) -> (r: (HybridSearch, Option<HybridAction>))
        ensures
            goes_on_to_weigh(self@, hits@, r.0@, action_view(r.1)),
    {
        if self.params.weighted {
            let shown = copy_hits(hits.as_slice());
            (
                HybridSearch { stage: HybridStage::Weighing(hits), ..self },
                Some(HybridAction::Weigh(shown)),
            )
        } else {
            self.finish(hits)
        }
    }

    fn rank(self, hits: Vec<Hit>) -> (r: (HybridSearch, Option<HybridAction>))
        ensures
            goes_on_to_rank(self@, hits@, r.0@, action_view(r.1)),
    {
        if uses_recency(self.params.search.recency_weight) {
            let shown = copy_hits(hits.as_slice());
            (
                HybridSearch { stage: HybridStage::Boosting(hits), ..self },
                Some(HybridAction::Boost(shown)),
            )
        } else {
            self.weigh(hits)
        }
    }

    fn hydrate(self, dense: Vec<(MemoryId, u32)>, ranks: Vec<Ranks>, scores: Vec<u32>) -> (r: (
        HybridSearch,
        Option<HybridAction>,
    ))
        requires
            ranks@.len() == scores@.len(),
        ensures
            goes_on_to_hydrate(
                self@,
                dense@,
                retrieval::rank_views(ranks@),
                scores@,
                r.0@,
                action_view(r.1),
            ),
    {
        let k: usize = most_of(self.params.search.k);
        match after_fusion(ranks.as_slice(), scores.as_slice(), k) {
            FusionStep::NothingFound => {
                let total: i64 = self.total;
                (
                    HybridSearch { stage: HybridStage::Done, ..self },
                    Some(HybridAction::Return(Vec::new(), total)),
                )
            },
            FusionStep::Hydrate(ranked) => {
                let ids = ids_of(ranked.as_slice());
                (
                    HybridSearch { stage: HybridStage::Hydrating(dense, ranked), ..self },
                    Some(HybridAction::Hydrate(ids)),
                )
            },
        }
    }

    /// What to do next, now that the given event happened; `None` where the event
    /// does not belong to where the search stands.
    pub fn step(self, event: HybridEvent) -> (r: (HybridSearch, Option<HybridAction>))
        ensures
            goes_on(self@, event, r.0@, action_view(r.1)),
    {
        let HybridSearch { params, total, stage } = self;
        match (stage, event) {
            (HybridStage::Searching, HybridEvent::DenseFound(dense, total)) => {
                let ids = ids_of(dense.as_slice());
                if runs_sparse_leg(params.sparse, params.query_terms, dense.len()) {
                    (
                        HybridSearch { params, total, stage: HybridStage::Comparing(dense) },
                        Some(HybridAction::ScoreSparse(ids)),
                    )
                } else {
                    let legs = vec![ids];
                    assert(retrieval::leg_views(legs@) =~= seq![ids_in(dense@)]);
                    HybridSearch { params, total, stage: HybridStage::Searching }.fuse(dense, legs)
                }
            },
            (HybridStage::Comparing(dense), HybridEvent::SparseScored(docs)) => {
                let first = ids_of(dense.as_slice());
                let second = ids_by_score(docs.as_slice());
                let ghost order = choose|order: Seq<usize>|
                    {
                        &&& #[trigger] order::is_stable_order(
                            order::descending(bits_in(docs@)),
                            order,
                        )
                        &&& second@ == ids_in_order(docs@, order)
                    };
                let legs = vec![first, second];
                assert(retrieval::leg_views(legs@) =~= seq![
                    ids_in(dense@),
                    ids_in_order(docs@, order),
                ]);
                HybridSearch { params, total, stage: HybridStage::Searching }.fuse(dense, legs)
            },
            (HybridStage::Comparing(dense), HybridEvent::SparseFailed) => {
                let legs = vec![ids_of(dense.as_slice())];
                assert(retrieval::leg_views(legs@) =~= seq![ids_in(dense@)]);
                HybridSearch { params, total, stage: HybridStage::Searching }.fuse(dense, legs)
            },
            (HybridStage::Fusing(dense, ranks), HybridEvent::Fused(scores)) => {
                if scores.len() != ranks.len() {
                    return (
                        HybridSearch { params, total, stage: HybridStage::Fusing(dense, ranks) },
                        None,
                    );
                }
                HybridSearch { params, total, stage: HybridStage::Searching }.hydrate(
                    dense,
                    ranks,
                    scores,
                )
            },
            (HybridStage::Hydrating(dense, ranked), HybridEvent::Hydrated(ids)) => {
                let hits = stamp_hits(ids.as_slice(), dense.as_slice(), ranked.as_slice());
                HybridSearch { params, total, stage: HybridStage::Searching }.rank(hits)
            },
            (HybridStage::Boosting(hits), HybridEvent::Boosted(scores)) => {
                if scores.len() != hits.len() {
                    return (
                        HybridSearch { params, total, stage: HybridStage::Boosting(hits) },
                        None,
                    );
                }
                let boosted = rerank_hits(hits.as_slice(), scores.as_slice());
                HybridSearch { params, total, stage: HybridStage::Searching }.weigh(boosted)
            },
            (HybridStage::Weighing(hits), HybridEvent::Weighed(scores)) => {
                if scores.len() != hits.len() {
                    return (
                        HybridSearch { params, total, stage: HybridStage::Weighing(hits) },
                        None,
                    );
                }
                let weighed = rerank_hits(hits.as_slice(), scores.as_slice());
                HybridSearch { params, total, stage: HybridStage::Searching }.finish(weighed)
            },
            (stage, _) => (HybridSearch { params, total, stage }, None),
        }
    }
}

// ---- Laws -------------------------------------------------------------------------------------

/// Whatever happens, a search stays with what it asks for, and, once the dense leg
/// has counted the rows, with their total.
pub proof fn lemma_search_keeps_its_total(
    before: HybridView,
    event: HybridEvent,
    after: HybridView,
    action: Option<HybridActionView>,
)
    requires
        goes_on(before, event, after, action),
    ensures
        after.params == before.params,
        before.stage != HybridStageView::Searching ==> after.total == before.total,
        before.stage == HybridStageView::Searching && action is Some ==> (event
            matches HybridEvent::DenseFound(_, total) && after.total == total),
{
}

/// No more memories are fetched than hits are wanted.
pub proof fn lemma_no_more_than_wanted(
    before: HybridView,
    event: HybridEvent,
    after: HybridView,
    ids: Seq<MemoryId>,
)
    requires
        goes_on(before, event, after, Some(HybridActionView::Hydrate(ids))),
        0 <= before.params.search.k,
    ensures
        0 < ids.len() <= before.params.search.k,
{
    let dense = before.stage->Fusing_0;
    let ranks = before.stage->Fusing_1;
    let scores = event->Fused_0@;
    let k = most(before.params.search.k) as int;
    let (ranked, order) = choose|ranked: Seq<(MemoryId, u32)>, order: Seq<usize>|
        {
            &&& #[trigger] retrieval::is_ranked(ranked, ranks, scores, k, order)
            &&& after == (HybridView { stage: HybridStageView::Hydrating(dense, ranked), ..before })
            &&& ids == ids_in(ranked)
        };
    assert(order.len() == scores.len());
    assert(ranked.len() == retrieval::first(order, k).len());
}

proof fn lemma_kept_hits(hits: Seq<Hit>, floor: u32, i: int)
    requires
        hits.len() <= usize::MAX,
        0 <= i < above_floor(hits, floor).len(),
    ensures
        retrieval::similar_enough(above_floor(hits, floor)[i].similarity, floor),
        hits.contains(above_floor(hits, floor)[i]),
{
    lemma_passing_is_in_range(similarities(hits), floor);
    let at = retrieval::passing(similarities(hits), floor)[i];
    assert(similarities(hits)[at as int] == hits[at as int].similarity);
    assert(above_floor(hits, floor)[i] == hits[at as int]);
}

/// Every hit that is returned is similar enough, whatever recency and types did to
/// its score, and the total is that of the dense leg.
pub proof fn lemma_returned_hits_are_similar_enough(
    before: HybridView,
    event: HybridEvent,
    after: HybridView,
    hits: Seq<Hit>,
    total: i64,
    i: int,
)
    requires
        goes_on(before, event, after, Some(HybridActionView::Return(hits, total))),
        0 <= i < hits.len(),
    ensures
        retrieval::similar_enough(hits[i].similarity, before.params.search.min_similarity),
        total == before.total,
{
    let floor = before.params.search.min_similarity;
    match (before.stage, event) {
        (HybridStageView::Hydrating(dense, ranked), HybridEvent::Hydrated(ids)) => {
            assert(ids@.len() == ids.len());
            lemma_kept_hits(stamped(ids@, dense, ranked), floor, i);
        },
        (HybridStageView::Boosting(old_hits), HybridEvent::Boosted(scores)) => {
            assert(scores@.len() == scores.len());
            let (boosted, order) = choose|boosted: Seq<Hit>, order: Seq<usize>|
                {
                    &&& #[trigger] is_reranking(old_hits, scores@, boosted, order)
                    &&& goes_on_to_weigh(
                        before,
                        boosted,
                        after,
                        Some(HybridActionView::Return(hits, total)),
                    )
                };
            assert(boosted.len() == order.len());
            lemma_kept_hits(boosted, floor, i);
        },
        (HybridStageView::Weighing(old_hits), HybridEvent::Weighed(scores)) => {
            assert(scores@.len() == scores.len());
            let (weighed, order) = choose|weighed: Seq<Hit>, order: Seq<usize>|
                {
                    &&& #[trigger] is_reranking(old_hits, scores@, weighed, order)
                    &&& goes_on_to_return(
                        before,
                        weighed,
                        after,
                        Some(HybridActionView::Return(hits, total)),
                    )
                };
            assert(weighed.len() == order.len());
            lemma_kept_hits(weighed, floor, i);
        },
        _ => {},
    }
}

/// Ranking anew keeps every hit and its similarity, and leaves the hits with scores
/// that never rise, where the comparison of the scores is an order.
pub proof fn lemma_reranked_scores_never_rise(
    before: Seq<Hit>,
    scores: Seq<u32>,
    after: Seq<Hit>,
    order: Seq<usize>,
)
    requires
        before.len() == scores.len(),
        is_reranking(before, scores, after, order),
        order::consistent(order::descending(scores)),
    ensures
        after.len() == before.len(),
        forall|i: int| #![trigger after[i]]
            0 <= i < after.len() ==> {
                &&& order[i] < before.len()
                &&& after[i] == (Hit { score: scores[order[i] as int], ..before[order[i] as int] })
            },
        forall|i: int, j: int|
            0 <= i < j < after.len() ==> !floats::greater(
                (#[trigger] after[j]).score,
                (#[trigger] after[i]).score,
            ),
{
    let keys = order::descending(scores);
    assert forall|i: int, j: int| 0 <= i < j < after.len() implies !floats::greater(
        (#[trigger] after[j]).score,
        (#[trigger] after[i]).score,
    ) by {
        assert(order::in_place(keys, order[i], order[j]));
        assert(keys[order[i] as int] == (order::Descending { bits: scores[order[i] as int] }));
        assert(keys[order[j] as int] == (order::Descending { bits: scores[order[j] as int] }));
    }
}

/// A hit is stamped with what belongs to its memory: the similarity of the last entry
/// of the dense leg, and the score of the last entry of fusion, or zero.
pub proof fn lemma_stamps_belong(
    ids: Seq<MemoryId>,
    dense: Seq<(MemoryId, u32)>,
    ranked: Seq<(MemoryId, u32)>,
    i: int,
)
    requires
        0 <= i < ids.len(),
    ensures
        stamped(ids, dense, ranked).len() == ids.len(),
        stamped(ids, dense, ranked)[i].id == ids[i],
        retrieval::belongs_to(dense, ids[i], stamped(ids, dense, ranked)[i].similarity),
        retrieval::belongs_to(ranked, ids[i], stamped(ids, dense, ranked)[i].score),
{
    retrieval::lemma_bits_belong(dense, ids[i]);
    retrieval::lemma_bits_belong(ranked, ids[i]);
}

/// Whether the second list is what the floor leaves of the first: `at` are the places
/// that are left, in order, and what is not left is below the floor.
pub open spec fn is_left(hits: Seq<Hit>, floor: u32, left: Seq<Hit>, at: Seq<usize>) -> bool {
    &&& left.len() == at.len()
    &&& forall|i: int, j: int|
        0 <= i < j < at.len() ==> #[trigger] at[i] < #[trigger] at[j]
    &&& forall|i: int|
        0 <= i < at.len() ==> (#[trigger] at[i]) < hits.len() && left[i] == hits[at[i] as int]
    &&& forall|p: int|
        0 <= p < hits.len() ==> at.contains(p as usize) == retrieval::not_below(
            (#[trigger] hits[p]).similarity,
            floor,
        )
}

/// The floor leaves every hit that is not below it, as it is and in its place, and
/// nothing else.
pub proof fn lemma_floor_leaves_the_similar(hits: Seq<Hit>, floor: u32)
    requires
        hits.len() <= usize::MAX,
    ensures
        is_left(
            hits,
            floor,
            above_floor(hits, floor),
            retrieval::passing(similarities(hits), floor),
        ),
{
    let values = similarities(hits);
    let at = retrieval::passing(values, floor);
    retrieval::lemma_all_passing(values, floor);
    assert forall|p: int| 0 <= p < hits.len() implies at.contains(p as usize)
        == retrieval::not_below((#[trigger] hits[p]).similarity, floor) by {
        assert(values[p] == hits[p].similarity);
    }
}

/// A search goes through its steps in order: the sparse leg runs only where it is
/// enabled, the query has terms and the dense leg found something; recency comes before
/// the types, and both before the floor; neither is passed over where it counts, and
/// neither is done where it does not.
pub proof fn lemma_steps_come_in_order(
    before: HybridView,
    event: HybridEvent,
    after: HybridView,
    action: Option<HybridActionView>,
)
    requires
        goes_on(before, event, after, action),
    ensures
        action matches Some(HybridActionView::ScoreSparse(ids)) ==> {
            &&& before.stage is Searching
            &&& before.params.sparse && before.params.query_terms > 0
            &&& event matches HybridEvent::DenseFound(dense, _) && dense@.len() > 0 && ids.len()
                == dense@.len() && forall|i: int|
                0 <= i < ids.len() ==> #[trigger] ids[i] == dense@[i].0
        },
        action matches Some(HybridActionView::Boost(_)) ==> before.stage is Hydrating
            && floats::greater(before.params.search.recency_weight, 0),
        action matches Some(HybridActionView::Weigh(_)) ==> before.params.weighted && (
        before.stage is Boosting || (before.stage is Hydrating && !floats::greater(
            before.params.search.recency_weight,
            0,
        ))),
        action matches Some(HybridActionView::Return(_, _)) ==> {
            ||| before.stage is Fusing
            ||| before.stage is Weighing
            ||| before.stage is Boosting && !before.params.weighted
            ||| before.stage is Hydrating && !before.params.weighted && !floats::greater(
                before.params.search.recency_weight,
                0,
            )
        },
        before.stage is Done ==> action is None,
{
    if before.stage is Searching && event is DenseFound {
        let dense = event->DenseFound_0@;
        assert(ids_in(dense).len() == dense.len());
    }
}

/// The legs are fused as they ranked: what is to be scored are the places of each
/// memory in the dense leg, and in the sparse leg where that was scored, the documents
/// of which come highest score first.
pub proof fn lemma_legs_are_fused_as_they_ranked(
    before: HybridView,
    dense: Seq<(MemoryId, u32)>,
    docs: Vec<(MemoryId, u32)>,
    after: HybridView,
    ranks: Seq<(MemoryId, Seq<usize>)>,
)
    requires
        before.stage == HybridStageView::Comparing(dense),
        order::all_numbers(bits_in(docs@)),
        goes_on(
            before,
            HybridEvent::SparseScored(docs),
            after,
            Some(HybridActionView::Fuse(ranks)),
        ),
    ensures
        exists|order: Seq<usize>| #[trigger]
            order::highest_first(bits_in(docs@), order) && ranks == retrieval::ranks_of_all(
                seq![
                    dense.map_values(|e: (MemoryId, u32)| e.0),
                    order.map_values(|i: usize| docs@[i as int].0),
                ],
            ),
{
    let order = choose|order: Seq<usize>|
        {
            &&& #[trigger] order::is_stable_order(order::descending(bits_in(docs@)), order)
            &&& goes_on_to_fuse(
                before,
                dense,
                seq![ids_in(dense), ids_in_order(docs@, order)],
                after,
                Some(HybridActionView::Fuse(ranks)),
            )
        };
    assert(docs@.len() == docs.len());
    order::lemma_highest_first(bits_in(docs@), order);
    assert(ids_in(dense) =~= dense.map_values(|e: (MemoryId, u32)| e.0));
    assert(ids_in_order(docs@, order) =~= order.map_values(|i: usize| docs@[i as int].0));
}

/// The memories with the highest scores are fetched, highest first, up to the number of
/// hits that are wanted; nothing is returned without being fetched, unless there is
/// nothing to fetch.
pub proof fn lemma_best_memories_are_fetched(
    before: HybridView,
    dense: Seq<(MemoryId, u32)>,
    ranks: Seq<(MemoryId, Seq<usize>)>,
    scores: Vec<u32>,
    after: HybridView,
    action: Option<HybridActionView>,
)
    requires
        before.stage == HybridStageView::Fusing(dense, ranks),
        0 <= before.params.search.k <= usize::MAX,
        scores@.len() == ranks.len(),
        order::all_numbers(scores@),
        goes_on(before, HybridEvent::Fused(scores), after, action),
    ensures
        before.params.search.k == 0 || ranks.len() == 0 ==> action == Some(
            HybridActionView::Return(Seq::empty(), before.total),
        ),
        before.params.search.k > 0 && ranks.len() > 0 ==> exists|order: Seq<usize>|
            {
                &&& #[trigger] order::highest_first(scores@, order)
                &&& action matches Some(HybridActionView::Hydrate(ids)) && ids.len() == (
                if before.params.search.k <= ranks.len() {
                    before.params.search.k as int
                } else {
                    ranks.len() as int
                }) && forall|i: int|
                    0 <= i < ids.len() ==> #[trigger] ids[i] == ranks[order[i] as int].0
                &&& after.stage matches HybridStageView::Hydrating(d, ranked) && d == dense
                    && forall|i: int|
                    0 <= i < ranked.len() ==> #[trigger] ranked[i] == (
                        ranks[order[i] as int].0,
                        scores@[order[i] as int],
                    )
            },
{
    let k = most(before.params.search.k) as int;
    if k > 0 && ranks.len() > 0 {
        let (ranked, order) = choose|ranked: Seq<(MemoryId, u32)>, order: Seq<usize>|
            {
                &&& #[trigger] retrieval::is_ranked(ranked, ranks, scores@, k, order)
                &&& after == (HybridView {
                    stage: HybridStageView::Hydrating(dense, ranked),
                    ..before
                })
                &&& action == Some(HybridActionView::Hydrate(ids_in(ranked)))
            };
        assert(scores@.len() == scores.len());
        order::lemma_highest_first(scores@, order);
        retrieval::lemma_fusion_takes_the_best(ranked, ranks, scores@, k, order);
        let ids = ids_in(ranked);
        assert forall|i: int| 0 <= i < ids.len() implies #[trigger] ids[i]
            == ranks[order[i] as int].0 by {
            let at = order[i];
            assert(ids[i] == ranked[i].0);
        }
        assert forall|i: int| 0 <= i < ranked.len() implies #[trigger] ranked[i] == (
            ranks[order[i] as int].0,
            scores@[order[i] as int],
        ) by {
            let at = order[i];
        }
        assert(order::highest_first(scores@, order));
    }
}

/// Whether the second list are the hits of the first with new scores, highest first,
/// and what stood first of level ones first.
pub open spec fn ranked_anew(hits: Seq<Hit>, scores: Seq<u32>, after: Seq<Hit>) -> bool {
    exists|order: Seq<usize>|
        {
            &&& #[trigger] order::highest_first(scores, order)
            &&& after.len() == hits.len()
            &&& forall|i: int|
                0 <= i < after.len() ==> #[trigger] after[i] == (Hit {
                    id: hits[order[i] as int].id,
                    similarity: hits[order[i] as int].similarity,
                    score: scores[order[i] as int],
                })
        }
}

proof fn lemma_ranked_anew(hits: Seq<Hit>, scores: Seq<u32>, after: Seq<Hit>, order: Seq<usize>)
    requires
        hits.len() == scores.len() <= usize::MAX,
        order::all_numbers(scores),
        is_reranking(hits, scores, after, order),
    ensures
        ranked_anew(hits, scores, after),
{
    order::lemma_highest_first(scores, order);
    assert forall|i: int| 0 <= i < after.len() implies #[trigger] after[i] == (Hit {
        id: hits[order[i] as int].id,
        similarity: hits[order[i] as int].similarity,
        score: scores[order[i] as int],
    }) by {
        assert(order[i] < hits.len());
    }
    assert(order::highest_first(scores, order));
}

/// New scores take effect: the hits that a search goes on with, by their types or to
/// the floor, are those that it had, with the new scores, highest first.
pub proof fn lemma_new_scores_take_effect(
    before: HybridView,
    hits: Seq<Hit>,
    scores: Vec<u32>,
    after: HybridView,
    action: Option<HybridActionView>,
)
    requires
        before.stage == HybridStageView::Boosting(hits) || before.stage
            == HybridStageView::Weighing(hits),
        scores@.len() == hits.len(),
        order::all_numbers(scores@),
        goes_on(
            before,
            if before.stage is Boosting {
                HybridEvent::Boosted(scores)
            } else {
                HybridEvent::Weighed(scores)
            },
            after,
            action,
        ),
    ensures
        exists|anew: Seq<Hit>| #[trigger]
            ranked_anew(hits, scores@, anew) && (if before.stage is Boosting
                && before.params.weighted {
                action == Some(HybridActionView::Weigh(anew))
            } else {
                action == Some(
                    HybridActionView::Return(
                        above_floor(anew, before.params.search.min_similarity),
                        before.total,
                    ),
                )
            }),
{
    assert(scores@.len() == scores.len());
    if before.stage is Boosting {
        let (anew, order) = choose|anew: Seq<Hit>, order: Seq<usize>|
            {
                &&& #[trigger] is_reranking(hits, scores@, anew, order)
                &&& goes_on_to_weigh(before, anew, after, action)
            };
        lemma_ranked_anew(hits, scores@, anew, order);
    } else {
        let (anew, order) = choose|anew: Seq<Hit>, order: Seq<usize>|
            {
                &&& #[trigger] is_reranking(hits, scores@, anew, order)
                &&& goes_on_to_return(before, anew, after, action)
            };
        lemma_ranked_anew(hits, scores@, anew, order);
    }
}

} // verus!
