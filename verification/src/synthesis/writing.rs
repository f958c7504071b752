//! Writing one cluster down: its claim is held against the memories that still
//! hold, and it takes the place of the one that it contradicts, if any.

use vstd::prelude::*;

use crate::db::{self, MemoryRow, RowView};
use crate::error::{ChittaError, ErrorView};
use crate::facets::{Facets, FacetsView};
use crate::ids::MemoryId;
use crate::synthesis::contradiction::{
    self, detect_contradiction, parse_contradiction_response, ContradictionStep, RawContradiction,
};
use crate::synthesis::emission::{self, plan_emission, EmissionPlan};
use crate::synthesis::run::{
    self, cluster_facets, pre_filter_existing, RunView, SynthesisRun, PRE_FILTER_TOP_K,
};
use crate::synthesis::{Cluster, ClusterView, Contradiction, ContradictionView};
use crate::text;
use crate::time::Timestamp;

verus! {

/// Where the writing of a cluster stands.
#[derive(Debug, PartialEq, Eq)]
pub enum WritingStage {
    /// It waits for the similarities of the memories to the claim.
    Comparing,
    /// It waits for the answer of the language model about these memories.
    Asking(Vec<MemoryRow>),
    /// It waits for the cluster to be written; it takes the place of the given
    /// memory, if any.
    Writing(Option<MemoryId>),
    /// It is done.
    Done,
}

/// What a [`WritingStage`] stands for.
pub enum WritingStageView {
    Comparing,
    Asking(Seq<RowView>),
    Writing(Option<MemoryId>),
    Done,
}

impl View for WritingStage {
    type V = WritingStageView;

    open spec fn view(&self) -> WritingStageView {
        match self {
            WritingStage::Comparing => WritingStageView::Comparing,
            WritingStage::Asking(offered) => WritingStageView::Asking(db::row_views(offered@)),
            WritingStage::Writing(superseded) => WritingStageView::Writing(*superseded),
            WritingStage::Done => WritingStageView::Done,
        }
    }
}

/// What happened.
#[derive(Debug, PartialEq, Eq)]
pub enum WritingEvent {
    /// The memories have these similarities to the claim, in order, by their bits;
    /// none, where a memory has no embedding.
    Compared(Vec<Option<u32>>),
    /// The language model answered: what its JSON was read as, or the words in
    /// which the parser refused it.
    Answered(Result<RawContradiction, String>),
    /// The cluster was written.
    Written,
}

/// What to do next.
#[derive(Debug, PartialEq, Eq)]
pub enum WritingAction {
    /// Embed the claim, and compare it with the memories with these identifiers.
    Compare(String, Vec<MemoryId>),
    /// Ask the language model, and show it the given text.
    Ask(String),
    /// Write the cluster as planned.
    Write(EmissionPlan),
    /// Fail.
    Refuse(ChittaError),
    /// Return the memory whose place the cluster took, if any.
    Return(Option<MemoryId>),
}

/// The writing of one cluster.
#[derive(Debug, PartialEq, Eq)]
pub struct ClusterWriting {
    cluster: Cluster,
    active: Vec<MemoryRow>,
    profile: String,
    now: Timestamp,
    facets: Facets,
    stage: WritingStage,
}

/// What a [`ClusterWriting`] stands for.
pub struct WritingView {
    pub cluster: ClusterView,
    /// The memories that still hold.
    pub active: Seq<RowView>,
    pub profile: Seq<char>,
    pub now: Timestamp,
    pub facets: FacetsView,
    pub stage: WritingStageView,
}

impl View for ClusterWriting {
    type V = WritingView;

    closed spec fn view(&self) -> WritingView {
        WritingView {
            cluster: self.cluster@,
            active: db::row_views(self.active@),
            profile: self.profile@,
            now: self.now,
            facets: self.facets@,
            stage: self.stage@,
        }
    }
}

impl WritingView {
    /// What holds at every stage: what is shown to the language model, and what is
    /// superseded, are memories that still hold.
    pub open spec fn well_formed(self) -> bool {
        match self.stage {
            WritingStageView::Asking(offered) => {
                forall|i: int|
                    0 <= i < offered.len() ==> self.active.contains(#[trigger] offered[i])
            },
            WritingStageView::Writing(Some(id)) => run::has_id(self.active, id),
            _ => true,
        }
    }
}

/// The rows at the given positions.
pub open spec fn rows_at(rows: Seq<RowView>, at: Seq<usize>) -> Seq<RowView> {
    at.map_values(|i: usize| rows[i as int])
}

fn pick_rows(rows: &[MemoryRow], at: &[usize]) -> (r: Vec<MemoryRow>)
    requires
        forall|i: int| 0 <= i < at@.len() ==> #[trigger] at@[i] < rows@.len(),
    ensures
        db::row_views(r@) == rows_at(db::row_views(rows@), at@),
{
    let ghost all = rows_at(db::row_views(rows@), at@);
    let mut r: Vec<MemoryRow> = Vec::new();
    for i in 0..at.len()
        invariant
            all == rows_at(db::row_views(rows@), at@),
            forall|i: int| 0 <= i < at@.len() ==> #[trigger] at@[i] < rows@.len(),
            db::row_views(r@) == all.take(i as int),
    {
        let ghost before = r@;
        r.push(rows[at[i]].copy());
        assert(db::row_views(r@) =~= db::row_views(before).push(all[i as int]));
        assert(db::row_views(r@) =~= all.take(i + 1));
    }
    assert(db::row_views(r@) =~= all);
    r
}

/// The identifiers of rows.
pub open spec fn row_ids(rows: Seq<RowView>) -> Seq<MemoryId> {
    rows.map_values(|r: RowView| r.id)
}

fn ids_of_rows(rows: &[MemoryRow]) -> (r: Vec<MemoryId>)
    ensures
        r@ == row_ids(db::row_views(rows@)),
{
    let ghost all = row_ids(db::row_views(rows@));
    let mut r: Vec<MemoryId> = Vec::new();
    for i in 0..rows.len()
        invariant
            all == row_ids(db::row_views(rows@)),
            r@ == all.take(i as int),
    {
        r.push(rows[i].id);
        assert(r@ =~= all.take(i + 1));
    }
    assert(r@ =~= all);
    r
}

/// Whether the writing begins as it should: the claim is compared with the memories
/// that still hold.
pub open spec fn begins(start: WritingView, action: WritingAction) -> bool {
    &&& start.stage == WritingStageView::Comparing
    &&& action matches WritingAction::Compare(claim, ids) && claim@
        == start.cluster.representative_claim && ids@ == row_ids(start.active)
}

/// The memory whose place a cluster takes.
pub open spec fn superseded_by(c: Option<ContradictionView>) -> Option<MemoryId> {
    match c {
        Some(c) => Some(c.existing_id),
        None => None,
    }
}

/// Whether the writing goes on to write the cluster, which contradicts what is
/// given, if anything.
pub open spec fn goes_on_to_write(
    before: WritingView,
    c: Option<ContradictionView>,
    after: WritingView,
    action: Option<WritingAction>,
) -> bool {
    &&& after == (WritingView { stage: WritingStageView::Writing(superseded_by(c)), ..before })
    &&& action matches Some(WritingAction::Write(plan)) && emission::is_plan(
        plan,
        before.cluster,
        c,
        before.profile,
        before.now,
        before.facets,
    )
}

/// Whether the writing goes on to ask the language model which of the given memories
/// the claim contradicts, or, where there are none, to write the cluster.
pub open spec fn goes_on_to_ask(
    before: WritingView,
    offered: Seq<RowView>,
    after: WritingView,
    action: Option<WritingAction>,
) -> bool {
    if offered.len() == 0 {
        goes_on_to_write(before, None, after, action)
    } else {
        &&& after == (WritingView { stage: WritingStageView::Asking(offered), ..before })
        &&& action matches Some(WritingAction::Ask(shown)) && shown@ == text::joined(
            contradiction::contradiction_lines(before.cluster.representative_claim, offered),
            "\n"@,
        )
    }
}

/// Whether the writing, on the event, goes on as it should: to the state `after`,
/// with the given action. The memories that still hold and are most similar to the
/// claim are shown to the language model, with those that have no embedding; what
/// it finds is the memory whose place the cluster takes. An event that does not
/// belong to the stage changes nothing and calls for nothing.
pub open spec fn goes_on(
    before: WritingView,
    event: WritingEvent,
    after: WritingView,
    action: Option<WritingAction>,
) -> bool {
    match (before.stage, event) {
        (WritingStageView::Comparing, WritingEvent::Compared(similarities)) => {
            if similarities@.len() != before.active.len() {
                after == before && action is None
            } else {
                exists|picked: Seq<usize>, order: Seq<usize>|
                    {
                        &&& #[trigger] run::is_picked(
                            picked,
                            similarities@,
                            PRE_FILTER_TOP_K as int,
                            order,
                        )
                        &&& goes_on_to_ask(before, rows_at(before.active, picked), after, action)
                    }
            }
        },
        (WritingStageView::Asking(offered), WritingEvent::Answered(parsed)) => {
            match parsed {
                Ok(raw) => goes_on_to_write(
                    before,
                    contradiction::found(raw.contradicts_index, text::opt_text(raw.shift), offered),
                    after,
                    action,
                ),
                Err(words) => {
                    &&& after == (WritingView { stage: WritingStageView::Done, ..before })
                    &&& action matches Some(WritingAction::Refuse(e)) && e@ == ErrorView::Internal(
                        "LLM returned unparseable contradiction JSON: "@ + words@,
                    )
                },
            }
        },
        (WritingStageView::Writing(superseded), WritingEvent::Written) => {
            &&& after == (WritingView { stage: WritingStageView::Done, ..before })
            &&& action == Some(WritingAction::Return(superseded))
        },
        _ => after == before && action is None,
    }
}

impl ClusterWriting {
    /// Begins to write the cluster at a position of a run down, and says what to do
    /// first: `rows` are the raw memories that the clusters were drawn from.
    pub fn begin(run: &SynthesisRun, i: usize, rows: &[MemoryRow], profile: &str) -> (r: (
        ClusterWriting,
        WritingAction,
    ))
        requires
            i < run@.clusters.len(),
        ensures
            begins(r.0@, r.1),
            r.0@.well_formed(),
            r.0@.cluster == run@.clusters[i as int],
            r.0@.active == run::not_superseded(run@.existing, run@.superseded),
            r.0@.profile == profile@,
            r.0@.now == run@.now,
            run::unites(
                r.0@.facets,
                run::facets_of_all(db::row_views(rows@), run@.clusters[i as int].source_ids),
            ),
    {
        let cluster = run.cluster(i).copy();
        let active = run.active_existing();
        let facets = cluster_facets(&cluster, rows);
        let claim = cluster.representative_claim.clone();
        let ids = ids_of_rows(active.as_slice());
        (
            ClusterWriting {
                cluster,
                active,
                profile: profile.to_owned(),
                now: run.time(),
                facets,
                stage: WritingStage::Comparing,
            },
            WritingAction::Compare(claim, ids),
        )
    }

    fn write(self, c: Option<Contradiction>) -> (r: (ClusterWriting, Option<WritingAction>))
        ensures
            goes_on_to_write(self@, emission::opt_contradiction(c), r.0@, r.1),
    {
        let superseded = match &c {
            Some(found) => Some(found.existing_id),
            None => None,
        };
        let plan = plan_emission(
            &self.cluster,
            c,
            self.profile.as_str(),
            self.now,
            self.facets.copy(),
        );
        (
            ClusterWriting { stage: WritingStage::Writing(superseded), ..self },
            Some(WritingAction::Write(plan)),
        )
    }

    fn ask(self, offered: Vec<MemoryRow>) -> (r: (ClusterWriting, Option<WritingAction>))
        ensures
            goes_on_to_ask(self@, db::row_views(offered@), r.0@, r.1),
    {
        match detect_contradiction(self.cluster.representative_claim.as_str(), offered.as_slice()) {
            ContradictionStep::Done(found) => self.write(found),
            ContradictionStep::Ask(shown) => (
                ClusterWriting { stage: WritingStage::Asking(offered), ..self },
                Some(WritingAction::Ask(shown)),
            ),
        }
    }

    /// What to do next, now that the given event happened; `None` where the event
    /// does not belong to where the writing stands.
    pub fn step(self, event: WritingEvent) -> (r: (ClusterWriting, Option<WritingAction>))
        ensures
            goes_on(self@, event, r.0@, r.1),
    {
        let ClusterWriting { cluster, active, profile, now, facets, stage } = self;
        match (stage, event) {
            (WritingStage::Comparing, WritingEvent::Compared(similarities)) => {
                if similarities.len() != active.len() {
                    let stage = WritingStage::Comparing;
                    return (ClusterWriting { cluster, active, profile, now, facets, stage }, None);
                }
                let picked = pre_filter_existing(similarities.as_slice(), PRE_FILTER_TOP_K);
                let offered = pick_rows(active.as_slice(), picked.as_slice());
                let stage = WritingStage::Done;
                ClusterWriting { cluster, active, profile, now, facets, stage }.ask(offered)
            },
            (WritingStage::Asking(offered), WritingEvent::Answered(parsed)) => {
                let stage = WritingStage::Done;
                let resting = ClusterWriting { cluster, active, profile, now, facets, stage };
                match parse_contradiction_response(parsed, offered.as_slice()) {
                    Ok(found) => resting.write(found),
                    Err(e) => (resting, Some(WritingAction::Refuse(e))),
                }
            },
            (WritingStage::Writing(superseded), WritingEvent::Written) => {
                let stage = WritingStage::Done;
                (
                    ClusterWriting { cluster, active, profile, now, facets, stage },
                    Some(WritingAction::Return(superseded)),
                )
            },
            (stage, _) => (ClusterWriting { cluster, active, profile, now, facets, stage }, None),
        }
    }
}

// ---- Laws ---------------------------------------------------------------------------------

proof fn lemma_positions_in_range(similarities: Seq<Option<u32>>)
    requires
        similarities.len() <= usize::MAX,
    ensures
        forall|i: int|
            0 <= i < run::embedded(similarities).len() ==> #[trigger] run::embedded(
                similarities,
            )[i] < similarities.len(),
        forall|i: int|
            0 <= i < run::unembedded(similarities).len() ==> #[trigger] run::unembedded(
                similarities,
            )[i] < similarities.len(),
    decreases similarities.len(),
{
    if similarities.len() > 0 {
        let rest = similarities.drop_last();
        lemma_positions_in_range(rest);
        assert forall|i: int| 0 <= i < run::embedded(similarities).len() implies #[trigger] run::embedded(
            similarities,
        )[i] < similarities.len() by {
            if i < run::embedded(rest).len() {
                assert(run::embedded(similarities)[i] == run::embedded(rest)[i]);
            }
        }
        assert forall|i: int|
            0 <= i < run::unembedded(similarities).len() implies #[trigger] run::unembedded(
            similarities,
        )[i] < similarities.len() by {
            if i < run::unembedded(rest).len() {
                assert(run::unembedded(similarities)[i] == run::unembedded(rest)[i]);
            }
        }
    }
}

proof fn lemma_picked_in_range(
    picked: Seq<usize>,
    similarities: Seq<Option<u32>>,
    top_k: int,
    order: Seq<usize>,
)
    requires
        0 <= top_k,
        similarities.len() <= usize::MAX,
        run::is_picked(picked, similarities, top_k, order),
    ensures
        forall|i: int| 0 <= i < picked.len() ==> #[trigger] picked[i] < similarities.len(),
{
    lemma_positions_in_range(similarities);
    let at = run::embedded(similarities);
    let n = run::smaller(top_k, at.len() as int);
    assert forall|i: int| 0 <= i < picked.len() implies #[trigger] picked[i]
        < similarities.len() by {
        if i < n {
            assert(order[i] < at.len());
            assert(picked[i] == at[order[i] as int]);
        } else {
            assert(picked[i] == run::unembedded(similarities)[i - n]);
        }
    }
}

/// Whatever happens, only a memory that still holds is shown to the language model,
/// and only such a memory is superseded.
pub proof fn lemma_only_what_holds_is_superseded(
    before: WritingView,
    event: WritingEvent,
    after: WritingView,
    action: Option<WritingAction>,
)
    requires
        before.well_formed(),
        goes_on(before, event, after, action),
    ensures
        after.well_formed(),
        after.active == before.active,
        action matches Some(WritingAction::Return(Some(id))) ==> run::has_id(before.active, id),
{
    match (before.stage, event) {
        (WritingStageView::Comparing, WritingEvent::Compared(similarities)) => {
            if similarities@.len() == before.active.len() {
                assert(similarities@.len() == similarities.len());
                let (picked, order) = choose|picked: Seq<usize>, order: Seq<usize>|
                    {
                        &&& #[trigger] run::is_picked(
                            picked,
                            similarities@,
                            PRE_FILTER_TOP_K as int,
                            order,
                        )
                        &&& goes_on_to_ask(before, rows_at(before.active, picked), after, action)
                    };
                lemma_picked_in_range(picked, similarities@, PRE_FILTER_TOP_K as int, order);
                let offered = rows_at(before.active, picked);
                assert forall|i: int| 0 <= i < offered.len() implies before.active.contains(
                    #[trigger] offered[i],
                ) by {
                    assert(offered[i] == before.active[picked[i] as int]);
                }
            }
        },
        (WritingStageView::Asking(offered), WritingEvent::Answered(Ok(raw))) => {
            let shift = text::opt_text(raw.shift);
            contradiction::lemma_found_exists(raw.contradicts_index, shift, offered);
            match contradiction::found(raw.contradicts_index, shift, offered) {
                Some(c) => {
                    let i = choose|i: int|
                        0 <= i < offered.len() && (#[trigger] offered[i]).id == c.existing_id;
                    let k = choose|k: int|
                        0 <= k < before.active.len() && before.active[k] == offered[i];
                    assert(before.active[k].id == c.existing_id);
                },
                None => {},
            }
        },
        _ => {},
    }
}

/// What still holds when the writing of a cluster begins can be superseded in the
/// run: it is an existing memory whose place no earlier cluster took.
pub proof fn lemma_what_holds_can_be_superseded(run: RunView, writing: WritingView, id: MemoryId)
    requires
        writing.active == run::not_superseded(run.existing, run.superseded),
        run::has_id(writing.active, id),
    ensures
        run::has_id(run.existing, id),
        !run.superseded.contains(id),
{
    let i = choose|i: int| 0 <= i < writing.active.len() && (#[trigger] writing.active[i]).id == id;
    run::lemma_offered_can_be_superseded(run, i);
}

/// A claim is held against the memories that still hold, each by its identifier. What
/// the language model names, out of what it was shown, is what the cluster supersedes;
/// where it names none, or there was nothing to show, the cluster supersedes nothing.
pub proof fn lemma_writing_supersedes_what_was_named(
    raw: RawContradiction,
    offered: Seq<RowView>,
    before: WritingView,
    event: WritingEvent,
    after: WritingView,
    action: Option<WritingAction>,
)
    requires
        goes_on(before, event, after, action),
    ensures
        after.cluster == before.cluster && after.active == before.active && after.profile
            == before.profile && after.now == before.now && after.facets == before.facets,
        before.stage == WritingStageView::Asking(offered) && event == WritingEvent::Answered(
            Ok(raw),
        ) ==> {
            &&& action matches Some(WritingAction::Write(plan)) && (plan is Superseding <==> (
            raw.contradicts_index matches Some(i) && i < offered.len()))
            &&& after.stage matches WritingStageView::Writing(superseded) && superseded == (
            if raw.contradicts_index is Some && raw.contradicts_index->0 < offered.len() {
                Some(offered[raw.contradicts_index->0 as int].id)
            } else {
                None
            })
        },
        before.stage == WritingStageView::Comparing ==> (after.stage matches
            WritingStageView::Writing(superseded) ==> superseded is None && (action matches Some(
            WritingAction::Write(plan),
        ) && plan is Plain)),
        action matches Some(WritingAction::Return(superseded)) ==> before.stage
            == WritingStageView::Writing(superseded) && event == WritingEvent::Written,
        before.stage is Asking && event is Answered && event->Answered_0 is Err ==> (
        action matches Some(WritingAction::Refuse(_)) && after.stage == WritingStageView::Done),
{
}

/// Whether the memories that are shown are those that still hold and are most similar to the
/// claim, ten at most, and all of those whose similarity is not known.
pub open spec fn are_most_similar_rows(
    offered: Seq<RowView>,
    active: Seq<RowView>,
    similarities: Seq<Option<u32>>,
    picked: Seq<usize>,
    n: int,
) -> bool {
    &&& run::are_most_similar(picked, similarities, 10, n)
    &&& offered.len() == picked.len()
    &&& forall|i: int| 0 <= i < offered.len() ==> #[trigger] offered[i] == active[picked[i] as int]
}

/// The language model is shown the memories that are most similar to the claim.
pub proof fn lemma_most_similar_are_shown(
    similarities: Vec<Option<u32>>,
    offered: Seq<RowView>,
    before: WritingView,
    after: WritingView,
    action: Option<WritingAction>,
) -> (r: (Seq<usize>, int))
    requires
        goes_on(before, WritingEvent::Compared(similarities), after, action),
        before.stage == WritingStageView::Comparing,
        after.stage == WritingStageView::Asking(offered),
        forall|at: int|
            0 <= at < similarities@.len() ==> (#[trigger] similarities@[at] matches Some(s)
                ==> !crate::floats::nan(s)),
    ensures
        are_most_similar_rows(offered, before.active, similarities@, r.0, r.1),
{
    let sims = similarities@;
    assert(sims.len() == similarities.len());
    let (picked, order) = choose|picked: Seq<usize>, order: Seq<usize>|
        {
            &&& #[trigger] run::is_picked(picked, sims, PRE_FILTER_TOP_K as int, order)
            &&& goes_on_to_ask(before, rows_at(before.active, picked), after, action)
        };
    let n = run::lemma_most_similar_are_picked(picked, sims, 10, order);
    (picked, n)
}

/// A claim is compared with every memory that still holds, by its identifier.
pub proof fn lemma_claim_is_compared_with_all(
    cluster: Cluster,
    active: Seq<MemoryRow>,
    start: WritingView,
    action: WritingAction,
    i: int,
)
    requires
        begins(start, action),
        start.cluster == cluster@,
        start.active == db::row_views(active),
    ensures
        action matches WritingAction::Compare(claim, ids) && claim@ == cluster.representative_claim@
            && ids@.len() == active.len() && (0 <= i < active.len() ==> ids@[i] == active[i].id),
{
    if 0 <= i < active.len() {
        assert(db::row_views(active)[i] == active[i]@);
    }
}

} // verus!
