//! A synthesis run: which clusters become memories, which existing memories they
//! are held against, and what the run comes to.

use vstd::prelude::*;
use std::collections::HashMap;

use crate::consolidated::is_active;
use crate::db::{self, MemoryRow, RowView};
use crate::facets::{self, Facets, FacetsView};
use crate::ids::{contains_id, MemoryId};
use crate::order::{self, order_by_score};
use crate::synthesis::disagree::{self, find_disagree_targets};
use crate::synthesis::threshold::{self, check_threshold};
use crate::synthesis::{Cluster, ClusterView, ExtractionStats, ThresholdConfig};
use crate::time::Timestamp;

verus! {

// ---- What the run starts from -------------------------------------------------------

/// When each of the rows was recorded.
pub open spec fn times_of(rows: Seq<RowView>) -> Map<MemoryId, Timestamp>
    decreases rows.len(),
{
    if rows.len() == 0 {
        Map::empty()
    } else {
        times_of(rows.drop_last()).insert(rows.last().id, rows.last().record_time)
    }
}

/// When each of the rows was recorded.
pub fn source_times(rows: &[MemoryRow]) -> (r: HashMap<MemoryId, Timestamp>)
    ensures
        r@ == times_of(db::row_views(rows@)),
{
    broadcast use vstd::std_specs::hash::group_hash_axioms;

    let ghost views = db::row_views(rows@);
    let mut r: HashMap<MemoryId, Timestamp> = HashMap::new();
    assert(r@ =~= times_of(views.take(0)));
    for i in 0..rows.len()
        invariant
            views == db::row_views(rows@),
            r@ == times_of(views.take(i as int)),
    {
        broadcast use vstd::std_specs::hash::group_hash_axioms;

        assert(views.take(i + 1).drop_last() =~= views.take(i as int));
        assert(views.take(i + 1).last() == rows@[i as int]@);
        r.insert(rows[i].id, rows[i].record_time);
    }
    assert(views.take(views.len() as int) =~= views);
    r
}

/// Whether one of the rows has the identifier.
pub open spec fn has_id(rows: Seq<RowView>, id: MemoryId) -> bool {
    exists|i: int| 0 <= i < rows.len() && (#[trigger] rows[i]).id == id
}

fn contains_row(rows: &[MemoryRow], id: MemoryId) -> (r: bool)
    ensures
        r == has_id(db::row_views(rows@), id),
{
    let ghost views = db::row_views(rows@);
    for i in 0..rows.len()
        invariant
            views == db::row_views(rows@),
            forall|j: int| 0 <= j < i ==> (#[trigger] views[j]).id != id,
    {
        assert(views[i as int] == rows@[i as int]@);
        if rows[i].id == id {
            return true;
        }
    }
    false
}

/// The identifiers that no existing row has, each once.
pub open spec fn missing_from(ids: Seq<MemoryId>, existing: Seq<RowView>) -> Seq<MemoryId>
    decreases ids.len(),
{
    if ids.len() == 0 {
        Seq::empty()
    } else {
        let before = missing_from(ids.drop_last(), existing);
        if before.contains(ids.last()) || has_id(existing, ids.last()) {
            before
        } else {
            before.push(ids.last())
        }
    }
}

/// The memories that feedback among the rows disagreed with and that are not
/// among the existing ones: they have to be looked up.
pub fn missing_targets(rows: &[MemoryRow], existing: &[MemoryRow]) -> (r: Vec<MemoryId>)
    ensures
        r@ == missing_from(
            disagree::disagree_targets(db::row_views(rows@)),
            db::row_views(existing@),
        ),
{
    let targets = find_disagree_targets(rows);
    let mut r: Vec<MemoryId> = Vec::new();
    for i in 0..targets.len()
        invariant
            r@ == missing_from(targets@.take(i as int), db::row_views(existing@)),
    {
        assert(targets@.take(i + 1).drop_last() =~= targets@.take(i as int));
        if !contains_id(r.as_slice(), targets[i]) && !contains_row(existing, targets[i]) {
            r.push(targets[i]);
        }
    }
    assert(targets@.take(targets@.len() as int) =~= targets@);
    r
}

/// The rows that hold.
pub open spec fn active_rows(rows: Seq<RowView>) -> Seq<RowView>
    decreases rows.len(),
{
    if rows.len() == 0 {
        Seq::empty()
    } else {
        let before = active_rows(rows.drop_last());
        if rows.last().active() {
            before.push(rows.last())
        } else {
            before
        }
    }
}

/// The existing memories together with those that were looked up and hold.
pub fn with_targets(existing: Vec<MemoryRow>, looked_up: &[MemoryRow]) -> (r: Vec<MemoryRow>)
    ensures
        db::row_views(r@) == db::row_views(existing@) + active_rows(db::row_views(looked_up@)),
{
    let ghost base = db::row_views(existing@);
    let ghost views = db::row_views(looked_up@);
    let mut r = existing;
    assert(base + active_rows(views.take(0)) =~= base);
    for i in 0..looked_up.len()
        invariant
            views == db::row_views(looked_up@),
            db::row_views(r@) == base + active_rows(views.take(i as int)),
    {
        let ghost before = r@;
        assert(views.take(i + 1).drop_last() =~= views.take(i as int));
        assert(views.take(i + 1).last() == looked_up@[i as int]@);
        if is_active(&looked_up[i]) {
            r.push(looked_up[i].copy());
            assert(db::row_views(r@) =~= db::row_views(before).push(looked_up@[i as int]@));
            assert(db::row_views(r@) =~= base + active_rows(views.take(i + 1)));
        }
    }
    assert(views.take(views.len() as int) =~= views);
    r
}

// ---- Facets of a cluster --------------------------------------------------------------

/// The facets of the last row with the identifier, where there is one.
pub open spec fn facets_of(rows: Seq<RowView>, id: MemoryId) -> Option<FacetsView>
    decreases rows.len(),
{
    if rows.len() == 0 {
        None
    } else if rows.last().id == id {
        Some(rows.last().facets)
    } else {
        facets_of(rows.drop_last(), id)
    }
}

/// The facets of the rows that a cluster was drawn from, in order.
pub open spec fn facets_of_all(rows: Seq<RowView>, source_ids: Seq<MemoryId>) -> Seq<FacetsView>
    decreases source_ids.len(),
{
    if source_ids.len() == 0 {
        Seq::empty()
    } else {
        let before = facets_of_all(rows, source_ids.drop_last());
        match facets_of(rows, source_ids.last()) {
            Some(f) => before.push(f),
            None => before,
        }
    }
}

/// Whether `r` unites the given facets.
pub open spec fn unites(r: FacetsView, all: Seq<FacetsView>) -> bool {
    &&& facets::is_union(r.domains, all.map_values(|f: FacetsView| f.domains))
    &&& facets::is_union(r.skills, all.map_values(|f: FacetsView| f.skills))
    &&& facets::is_union(r.projects, all.map_values(|f: FacetsView| f.projects))
    &&& facets::is_union(r.situations, all.map_values(|f: FacetsView| f.situations))
}

fn row_with_id(rows: &[MemoryRow], id: MemoryId) -> (r: Option<usize>)
    ensures
        match r {
            Some(i) => i < rows@.len() && facets_of(db::row_views(rows@), id) == Some(
                rows@[i as int].facets@,
            ),
            None => facets_of(db::row_views(rows@), id) is None,
        },
{
    let ghost views = db::row_views(rows@);
    let mut n: usize = rows.len();
    assert(views.take(n as int) =~= views);
    while n > 0
        invariant
            n <= rows@.len(),
            views == db::row_views(rows@),
            facets_of(views, id) == facets_of(views.take(n as int), id),
        decreases n,
    {
        assert(views.take(n as int).last() == rows@[n - 1]@);
        if rows[n - 1].id == id {
            return Some(n - 1);
        }
        assert(views.take(n as int).drop_last() =~= views.take(n - 1));
        n = n - 1;
    }
    None
}

/// The facets of a cluster: those of all the rows that it was drawn from.
pub fn cluster_facets(cluster: &Cluster, rows: &[MemoryRow]) -> (r: Facets)
    ensures
        unites(r@, facets_of_all(db::row_views(rows@), cluster.source_ids@)),
{
    let ghost views = db::row_views(rows@);
    let ids = &cluster.source_ids;
    let mut list: Vec<Facets> = Vec::new();
    assert(list@.map_values(|f: Facets| f@) =~= facets_of_all(views, ids@.take(0)));
    for i in 0..ids.len()
        invariant
            views == db::row_views(rows@),
            list@.map_values(|f: Facets| f@) == facets_of_all(views, ids@.take(i as int)),
    {
        let ghost before = list@;
        assert(ids@.take(i + 1).drop_last() =~= ids@.take(i as int));
        match row_with_id(rows, ids[i]) {
            Some(at) => {
                list.push(rows[at].facets.copy());
                assert(list@.map_values(|f: Facets| f@) =~= before.map_values(
                    |f: Facets| f@,
                ).push(rows@[at as int].facets@));
            },
            None => {},
        }
    }
    assert(ids@.take(ids@.len() as int) =~= ids@);
    let r = Facets::distinct_union(list.as_slice());
    proof {
        let all = facets_of_all(views, ids@);
        assert(all == list@.map_values(|f: Facets| f@));
        assert(facets::all_domains(list@) =~= all.map_values(|f: FacetsView| f.domains));
        assert(facets::all_skills(list@) =~= all.map_values(|f: FacetsView| f.skills));
        assert(facets::all_projects(list@) =~= all.map_values(|f: FacetsView| f.projects));
        assert(facets::all_situations(list@) =~= all.map_values(|f: FacetsView| f.situations));
    }
    r
}

// ---- Pre-filtering ----------------------------------------------------------------------

/// How many embedded memories a new claim is held against.
pub const PRE_FILTER_TOP_K: usize = 10;

/// The positions of the memories that have an embedding, and so a similarity.
pub open spec fn embedded(similarities: Seq<Option<u32>>) -> Seq<usize>
    decreases similarities.len(),
{
    if similarities.len() == 0 {
        Seq::empty()
    } else {
        let before = embedded(similarities.drop_last());
        if similarities.last() is Some {
            before.push((similarities.len() - 1) as usize)
        } else {
            before
        }
    }
}

/// The positions of the memories that have no embedding.
pub open spec fn unembedded(similarities: Seq<Option<u32>>) -> Seq<usize>
    decreases similarities.len(),
{
    if similarities.len() == 0 {
        Seq::empty()
    } else {
        let before = unembedded(similarities.drop_last());
        if similarities.last() is None {
            before.push((similarities.len() - 1) as usize)
        } else {
            before
        }
    }
}

/// The similarities of the memories at the given positions.
pub open spec fn scores_at(similarities: Seq<Option<u32>>, at: Seq<usize>) -> Seq<u32> {
    at.map_values(|i: usize| similarities[i as int]->0)
}

/// The smaller of two numbers.
pub open spec fn smaller(a: int, b: int) -> int {
    if a <= b {
        a
    } else {
        b
    }
}

/// Whether `picked` are the positions of the `top_k` most similar memories, most
/// similar first, with `order` the order of the embedded ones, and then those of
/// all memories that have no embedding.
pub open spec fn is_picked(
    picked: Seq<usize>,
    similarities: Seq<Option<u32>>,
    top_k: int,
    order: Seq<usize>,
) -> bool {
    let at = embedded(similarities);
    &&& order::is_stable_order(order::descending(scores_at(similarities, at)), order)
    &&& picked == Seq::new(
        smaller(top_k, at.len() as int) as nat,
        |i: int| at[order[i] as int],
    ) + unembedded(similarities)
}

/// Picks the existing memories that a new claim is held against: `similarities`
/// holds, for each, the bits of its similarity to the claim, where it has an
/// embedding. The most similar ones are picked, and every memory without an
/// embedding.
pub fn pre_filter_existing(similarities: &[Option<u32>], top_k: usize) -> (r: Vec<usize>)
    ensures
        exists|order: Seq<usize>| #[trigger] is_picked(r@, similarities@, top_k as int, order),
        forall|i: int| 0 <= i < r@.len() ==> #[trigger] r@[i] < similarities@.len(),
{
    let mut at: Vec<usize> = Vec::new();
    let mut scores: Vec<u32> = Vec::new();
    let mut rest: Vec<usize> = Vec::new();
    for i in 0..similarities.len()
        invariant
            at@ == embedded(similarities@.take(i as int)),
            rest@ == unembedded(similarities@.take(i as int)),
            scores@ == scores_at(similarities@, at@),
            forall|j: int| 0 <= j < at@.len() ==> #[trigger] at@[j] < i,
            forall|j: int| 0 <= j < rest@.len() ==> #[trigger] rest@[j] < i,
    {
        let ghost before = at@;
        assert(similarities@.take(i + 1).drop_last() =~= similarities@.take(i as int));
        match similarities[i] {
            Some(s) => {
                at.push(i);
                scores.push(s);
                assert(scores@ =~= scores_at(similarities@, at@));
            },
            None => {
                rest.push(i);
            },
        }
    }
    assert(similarities@.take(similarities@.len() as int) =~= similarities@);
    let order = order_by_score(scores.as_slice());
    let n: usize = if top_k <= at.len() {
        top_k
    } else {
        at.len()
    };
    let mut r: Vec<usize> = Vec::new();
    for i in 0..n
        invariant
            n <= at@.len(),
            order@.len() == at@.len(),
            forall|j: int| 0 <= j < order@.len() ==> #[trigger] order@[j] < at@.len(),
            forall|j: int| 0 <= j < at@.len() ==> #[trigger] at@[j] < similarities@.len(),
            r@.len() == i,
            forall|j: int| 0 <= j < i ==> #[trigger] r@[j] == at@[order@[j] as int],
    {
        r.push(at[order[i]]);
    }
    let ghost top = r@;
    assert(forall|j: int|
        0 <= j < n ==> #[trigger] top[j] == at@[order@[j] as int] && top[j] < similarities@.len());
    for i in 0..rest.len()
        invariant
            top.len() == n,
            r@ == top + rest@.take(i as int),
    {
        r.push(rest[i]);
        assert(r@ =~= top + rest@.take(i + 1));
    }
    assert(rest@.take(rest@.len() as int) =~= rest@);
    assert(r@ =~= Seq::new(
        smaller(top_k as int, at@.len() as int) as nat,
        |i: int| at@[order@[i] as int],
    ) + rest@);
    assert(is_picked(r@, similarities@, top_k as int, order@));
    assert forall|i: int| 0 <= i < r@.len() implies #[trigger] r@[i] < similarities@.len() by {
        if i < n {
            assert(r@[i] == top[i]);
        } else {
            assert(r@[i] == rest@[i - n]);
        }
    }
    r
}

// ---- The run ----------------------------------------------------------------------------

/// What a run comes to.
#[derive(Clone, Copy, Debug, PartialEq, Eq, Structural)]
pub struct SynthesisResult {
    pub clusters_formed: usize,
    pub clusters_emitted: usize,
    pub supersessions: usize,
    pub rows_scanned: usize,
    pub rows_skipped: usize,
    pub extraction_errors: usize,
}

/// The result of a run that had nothing to work on.
pub fn empty_result() -> (r: SynthesisResult)
    ensures
        r == (SynthesisResult {
            clusters_formed: 0,
            clusters_emitted: 0,
            supersessions: 0,
            rows_scanned: 0,
            rows_skipped: 0,
            extraction_errors: 0,
        }),
{
    SynthesisResult {
        clusters_formed: 0,
        clusters_emitted: 0,
        supersessions: 0,
        rows_scanned: 0,
        rows_skipped: 0,
        extraction_errors: 0,
    }
}

/// A synthesis run under way. Clusters are taken in turn; for each that passes
/// the thresholds the caller finds out what it contradicts, writes it down, and
/// says so.
pub struct SynthesisRun {
    clusters: Vec<Cluster>,
    existing: Vec<MemoryRow>,
    times: HashMap<MemoryId, Timestamp>,
    now: Timestamp,
    config: ThresholdConfig,
    next: usize,
    pending: bool,
    superseded: Vec<MemoryId>,
    result: SynthesisResult,
}

/// What a [`SynthesisRun`] stands for.
pub struct RunView {
    /// The clusters, in the order in which they are taken.
    pub clusters: Seq<ClusterView>,
    /// The memories that clusters are held against.
    pub existing: Seq<RowView>,
    /// When each raw memory was recorded.
    pub times: Map<MemoryId, Timestamp>,
    pub now: Timestamp,
    pub config: ThresholdConfig,
    /// How many clusters were taken.
    pub next: int,
    /// Whether the cluster taken last is still to be written down.
    pub pending: bool,
    /// The existing memories that were superseded in this run.
    pub superseded: Seq<MemoryId>,
    pub result: SynthesisResult,
}

impl View for SynthesisRun {
    type V = RunView;

    closed spec fn view(&self) -> RunView {
        RunView {
            clusters: crate::synthesis::cluster_views(self.clusters@),
            existing: db::row_views(self.existing@),
            times: self.times@,
            now: self.now,
            config: self.config,
            next: self.next as int,
            pending: self.pending,
            superseded: self.superseded@,
            result: self.result,
        }
    }
}

impl RunView {
    /// The cluster at a position passes the thresholds.
    pub open spec fn passes(self, i: int) -> bool {
        threshold::passes(self.clusters[i].source_ids, self.times, self.now, self.config)
    }

    /// The first cluster at or after position `from` that passes the thresholds,
    /// or the number of clusters where none does.
    pub open spec fn next_passing(self, from: int) -> int
        decreases self.clusters.len() - from,
    {
        if from < 0 || from >= self.clusters.len() {
            self.clusters.len() as int
        } else if self.passes(from) {
            from
        } else {
            self.next_passing(from + 1)
        }
    }

    /// How many of the first `n` clusters pass the thresholds.
    pub open spec fn passing_among(self, n: int) -> int
        decreases n,
    {
        if n <= 0 {
            0
        } else {
            self.passing_among(n - 1) + if self.passes(n - 1) {
                1int
            } else {
                0int
            }
        }
    }

    /// What holds of every run: of the clusters that were taken, those that pass
    /// the thresholds were written down, but for the one that is still to be; each
    /// supersession is that of another existing memory, and there are no more of
    /// them than written clusters.
    pub open spec fn well_formed(self) -> bool {
        &&& 0 <= self.next <= self.clusters.len() <= usize::MAX
        &&& self.pending ==> self.next > 0
        &&& self.result.clusters_formed == self.clusters.len()
        &&& self.result.clusters_emitted + (if self.pending { 1int } else { 0int })
            == self.passing_among(self.next)
        &&& self.superseded.no_duplicates()
        &&& forall|i: int|
            0 <= i < self.superseded.len() ==> has_id(self.existing, #[trigger] self.superseded[i])
        &&& self.result.supersessions == self.superseded.len()
        &&& self.result.supersessions <= self.result.clusters_emitted
    }
}

/// The rows that were not superseded in this run.
pub open spec fn not_superseded(rows: Seq<RowView>, superseded: Seq<MemoryId>) -> Seq<RowView>
    decreases rows.len(),
{
    if rows.len() == 0 {
        Seq::empty()
    } else {
        let before = not_superseded(rows.drop_last(), superseded);
        if superseded.contains(rows.last().id) {
            before
        } else {
            before.push(rows.last())
        }
    }
}

impl SynthesisRun {
    /// A run over the given clusters: `existing` are the memories that they are
    /// held against, `rows` the raw memories that they were drawn from.
    pub fn new(
        clusters: Vec<Cluster>,
        existing: Vec<MemoryRow>,
        rows: &[MemoryRow],
        now: Timestamp,
        config: ThresholdConfig,
        stats: &ExtractionStats,
    ) -> (r: SynthesisRun)
        ensures
            r@ == (RunView {
                clusters: crate::synthesis::cluster_views(clusters@),
                existing: db::row_views(existing@),
                times: times_of(db::row_views(rows@)),
                now,
                config,
                next: 0,
                pending: false,
                superseded: Seq::empty(),
                result: SynthesisResult {
                    clusters_formed: clusters@.len() as usize,
                    clusters_emitted: 0,
                    supersessions: 0,
                    rows_scanned: stats.rows_scanned,
                    rows_skipped: stats.rows_skipped,
                    extraction_errors: stats.extraction_errors,
                },
            }),
            r@.well_formed(),
    {
        let formed: usize = clusters.len();
        SynthesisRun {
            clusters,
            existing,
            times: source_times(rows),
            now,
            config,
            next: 0,
            pending: false,
            superseded: Vec::new(),
            result: SynthesisResult {
                clusters_formed: formed,
                clusters_emitted: 0,
                supersessions: 0,
                rows_scanned: stats.rows_scanned,
                rows_skipped: stats.rows_skipped,
                extraction_errors: stats.extraction_errors,
            },
        }
    }

    /// Takes the next cluster that passes the thresholds; `None` where no more
    /// does.
    pub fn next_cluster(&mut self) -> (r: Option<usize>)
        requires
            old(self)@.well_formed(),
            !old(self)@.pending,
        ensures
            final(self)@.well_formed(),
            ({
                let i = old(self)@.next_passing(old(self)@.next);
                if i < old(self)@.clusters.len() {
                    &&& r == Some(i as usize)
                    &&& final(self)@ == (RunView { next: i + 1, pending: true, ..old(self)@ })
                } else {
                    &&& r is None
                    &&& final(self)@ == (RunView {
                        next: old(self)@.clusters.len() as int,
                        pending: false,
                        ..old(self)@
                    })
                }
            }),
    {
        let ghost start = self@;
        let mut i: usize = self.next;
        while i < self.clusters.len()
            invariant
                self@ == start,
                start == old(self)@,
                start.well_formed(),
                !start.pending,
                start.next <= i <= self.clusters@.len(),
                start.next_passing(start.next) == start.next_passing(i as int),
                start.passing_among(i as int) == start.passing_among(start.next),
            decreases self.clusters@.len() - i,
        {
            assert(start.clusters[i as int] == self.clusters@[i as int]@);
            if check_threshold(&self.clusters[i], &self.times, self.now, &self.config) {
                self.next = i + 1;
                self.pending = true;
                proof {
                    assert(start.passing_among(i + 1) == start.passing_among(i as int) + 1);
                    lemma_same_passing(start, self@, i + 1);
                }
                return Some(i);
            }
            i = i + 1;
        }
        self.next = i;
        proof {
            lemma_same_passing(start, self@, i as int);
        }
        None
    }

    /// The cluster at a position.
    pub fn cluster(&self, i: usize) -> (r: &Cluster)
        requires
            i < self@.clusters.len(),
        ensures
            r@ == self@.clusters[i as int],
    {
        &self.clusters[i]
    }

    /// The time of the run.
    pub fn time(&self) -> (r: Timestamp)
        ensures
            r == self@.now,
    {
        self.now
    }

    /// The existing memories that were not superseded in this run.
    pub fn active_existing(&self) -> (r: Vec<MemoryRow>)
        ensures
            db::row_views(r@) == not_superseded(self@.existing, self@.superseded),
    {
        let ghost views = db::row_views(self.existing@);
        let mut r: Vec<MemoryRow> = Vec::new();
        assert(db::row_views(r@) =~= Seq::<RowView>::empty());
        for i in 0..self.existing.len()
            invariant
                views == db::row_views(self.existing@),
                db::row_views(r@) == not_superseded(views.take(i as int), self.superseded@),
        {
            let ghost before = r@;
            assert(views.take(i + 1).drop_last() =~= views.take(i as int));
            assert(views.take(i + 1).last() == self.existing@[i as int]@);
            if !contains_id(self.superseded.as_slice(), self.existing[i].id) {
                r.push(self.existing[i].copy());
                assert(db::row_views(r@) =~= db::row_views(before).push(
                    self.existing@[i as int]@,
                ));
            }
        }
        assert(views.take(views.len() as int) =~= views);
        r
    }

    /// Records that the cluster taken last was written down, and which existing
    /// memory it superseded, if any: one that was not superseded in this run
    /// before.
    pub fn record_emission(&mut self, superseded: Option<MemoryId>)
        requires
            old(self)@.well_formed(),
            old(self)@.pending,
            superseded matches Some(id) ==> has_id(old(self)@.existing, id)
                && !old(self)@.superseded.contains(id),
        ensures
            final(self)@.well_formed(),
            final(self)@ == (RunView {
                pending: false,
                superseded: match superseded {
                    Some(id) => old(self)@.superseded.push(id),
                    None => old(self)@.superseded,
                },
                result: SynthesisResult {
                    clusters_emitted: (old(self)@.result.clusters_emitted + 1) as usize,
                    supersessions: (old(self)@.result.supersessions + if superseded is Some {
                        1int
                    } else {
                        0int
                    }) as usize,
                    ..old(self)@.result
                },
                ..old(self)@
            }),
    {
        let ghost start = self@;
        proof {
            lemma_passing_bound(start, start.next);
        }
        self.pending = false;
        self.result.clusters_emitted = self.result.clusters_emitted + 1;
        match superseded {
            Some(id) => {
                self.result.supersessions = self.result.supersessions + 1;
                self.superseded.push(id);
            },
            None => {},
        }
        proof {
            lemma_same_passing(start, self@, start.next);
        }
    }

    /// Whether an existing memory can still be superseded in this run.
    pub fn is_offered(&self, id: MemoryId) -> (r: bool)
        ensures
            r == (has_id(self@.existing, id) && !self@.superseded.contains(id)),
    {
        contains_row(self.existing.as_slice(), id) && !contains_id(self.superseded.as_slice(), id)
    }

    /// What the run comes to.
    pub fn finish(self) -> (r: SynthesisResult)
        ensures
            r == self@.result,
    {
        self.result
    }
}

proof fn lemma_passing_bound(run: RunView, n: int)
    requires
        0 <= n,
    ensures
        0 <= run.passing_among(n) <= n,
    decreases n,
{
    if n > 0 {
        lemma_passing_bound(run, n - 1);
    }
}

proof fn lemma_same_passing(a: RunView, b: RunView, n: int)
    requires
        a.clusters == b.clusters,
        a.times == b.times,
        a.now == b.now,
        a.config == b.config,
    ensures
        a.passing_among(n) == b.passing_among(n),
    decreases n,
{
    if n > 0 {
        lemma_same_passing(a, b, n - 1);
    }
}

// ---- Laws ---------------------------------------------------------------------------------

/// A memory that was superseded in a run is not held against a later cluster, so
/// that no memory is superseded twice: every memory that is offered is one of the
/// existing ones, and none that was superseded.
pub proof fn lemma_superseded_is_not_offered_again(
    rows: Seq<RowView>,
    superseded: Seq<MemoryId>,
    i: int,
)
    requires
        0 <= i < not_superseded(rows, superseded).len(),
    ensures
        !superseded.contains(not_superseded(rows, superseded)[i].id),
        rows.contains(not_superseded(rows, superseded)[i]),
    decreases rows.len(),
{
    if rows.len() > 0 {
        let before = not_superseded(rows.drop_last(), superseded);
        let offered = not_superseded(rows, superseded);
        if i < before.len() {
            lemma_superseded_is_not_offered_again(rows.drop_last(), superseded, i);
            assert(offered[i] == before[i]);
            let rest = rows.drop_last();
            let k = choose|k: int| 0 <= k < rest.len() && rest[k] == before[i];
            assert(rows[k] == offered[i]);
        } else {
            assert(rows[rows.len() - 1] == offered[i]);
        }
    }
}

/// Every cluster that passes the thresholds is written down, and no other: where a
/// run has taken all clusters and none is still to be written, it has written as
/// many as pass.
pub proof fn lemma_every_passing_cluster_is_written(run: RunView)
    requires
        run.well_formed(),
        !run.pending,
        run.next == run.clusters.len(),
    ensures
        run.result.clusters_emitted == run.passing_among(run.clusters.len() as int),
        run.result.supersessions == run.superseded.len(),
{
}

/// What is offered can still be superseded: it is an existing memory that was not
/// superseded in this run.
pub proof fn lemma_offered_can_be_superseded(run: RunView, i: int)
    requires
        0 <= i < not_superseded(run.existing, run.superseded).len(),
    ensures
        has_id(run.existing, not_superseded(run.existing, run.superseded)[i].id),
        !run.superseded.contains(not_superseded(run.existing, run.superseded)[i].id),
{
    let offered = not_superseded(run.existing, run.superseded);
    lemma_superseded_is_not_offered_again(run.existing, run.superseded, i);
    let k = choose|k: int| 0 <= k < run.existing.len() && run.existing[k] == offered[i];
    assert(run.existing[k].id == offered[i].id);
}

/// The cluster that is taken next passes the thresholds, and none that was passed
/// over does.
pub proof fn lemma_next_passing(run: RunView, from: int)
    requires
        0 <= from <= run.clusters.len(),
    ensures
        from <= run.next_passing(from) <= run.clusters.len(),
        run.next_passing(from) < run.clusters.len() ==> run.passes(run.next_passing(from)),
        forall|i: int| from <= i < run.next_passing(from) ==> !#[trigger] run.passes(i),
    decreases run.clusters.len() - from,
{
    if from < run.clusters.len() && !run.passes(from) {
        lemma_next_passing(run, from + 1);
    }
}

/// Whether one of the rows has the identifier.
pub open spec fn stands_in(rows: Seq<MemoryRow>, id: MemoryId) -> bool {
    exists|i: int| 0 <= i < rows.len() && (#[trigger] rows[i]).id == id
}

/// Whether the row at a place is the last one with the identifier.
pub open spec fn is_last_with(rows: Seq<MemoryRow>, i: int, id: MemoryId) -> bool {
    &&& 0 <= i < rows.len()
    &&& rows[i].id == id
    &&& forall|j: int| i < j < rows.len() ==> (#[trigger] rows[j]).id != id
}

proof fn lemma_last_with(rows: Seq<MemoryRow>, i: int, id: MemoryId)
    requires
        rows.len() > 0,
    ensures
        stands_in(rows, id) <==> rows.last().id == id || stands_in(rows.drop_last(), id),
        rows.last().id == id && is_last_with(rows, i, id) ==> i == rows.len() - 1,
        rows.last().id != id && is_last_with(rows, i, id) ==> is_last_with(rows.drop_last(), i, id),
{
    let rest = rows.drop_last();
    let last = rows.len() - 1;
    assert(rows[last] == rows.last());
    if stands_in(rest, id) {
        let k = choose|k: int| 0 <= k < rest.len() && (#[trigger] rest[k]).id == id;
        assert(rows[k].id == id);
    }
    if stands_in(rows, id) && rows.last().id != id {
        let k = choose|k: int| 0 <= k < rows.len() && (#[trigger] rows[k]).id == id;
        assert(rest[k].id == id);
    }
    if rows.last().id != id && is_last_with(rows, i, id) {
        assert forall|j: int| i < j < rest.len() implies (#[trigger] rest[j]).id != id by {
            assert(rows[j].id != id);
        }
    }
}

/// A memory has the time at which it was recorded, the last one where it stands there
/// twice, and what does not stand there has none.
pub proof fn lemma_times_are_those_of_the_rows(rows: Seq<MemoryRow>, i: int, id: MemoryId)
    ensures
        times_of(db::row_views(rows)).dom().contains(id) <==> stands_in(rows, id),
        is_last_with(rows, i, id) ==> times_of(db::row_views(rows))[id] == rows[i].record_time,
    decreases rows.len(),
{
    let views = db::row_views(rows);
    assert(views.len() == rows.len());
    if rows.len() > 0 {
        let rest = rows.drop_last();
        lemma_times_are_those_of_the_rows(rest, i, id);
        lemma_last_with(rows, i, id);
        assert(db::row_views(rest) =~= views.drop_last());
        assert(views.last() == rows.last()@);
    }
}

/// Exactly those memories are looked up that were disagreed with and are not among the
/// existing ones, and each once.
pub proof fn lemma_missing_are_looked_up(ids: Seq<MemoryId>, existing: Seq<MemoryRow>)
    ensures
        missing_from(ids, db::row_views(existing)).no_duplicates(),
        forall|id: MemoryId| #[trigger]
            missing_from(ids, db::row_views(existing)).contains(id) <==> ids.contains(id)
                && !exists|i: int| 0 <= i < existing.len() && (#[trigger] existing[i]).id == id,
    decreases ids.len(),
{
    let views = db::row_views(existing);
    let missing = missing_from(ids, views);
    assert forall|id: MemoryId| has_id(views, id) <==> exists|i: int|
        0 <= i < existing.len() && (#[trigger] existing[i]).id == id by {
        if has_id(views, id) {
            let i = choose|i: int| 0 <= i < views.len() && (#[trigger] views[i]).id == id;
            assert(existing[i].id == id);
        }
        if exists|i: int| 0 <= i < existing.len() && (#[trigger] existing[i]).id == id {
            let i = choose|i: int| 0 <= i < existing.len() && (#[trigger] existing[i]).id == id;
            assert(views[i].id == id);
        }
    }
    if ids.len() > 0 {
        let rest = ids.drop_last();
        lemma_missing_are_looked_up(rest, existing);
        let before = missing_from(rest, views);
        assert forall|id: MemoryId| #[trigger] missing.contains(id) <==> ids.contains(id)
            && !exists|i: int| 0 <= i < existing.len() && (#[trigger] existing[i]).id == id by {
            assert(before.contains(id) <==> rest.contains(id) && !has_id(views, id));
            assert(ids.contains(id) <==> rest.contains(id) || id == ids.last()) by {
                if ids.contains(id) && id != ids.last() {
                    let k = choose|k: int| 0 <= k < ids.len() && ids[k] == id;
                    assert(rest[k] == id);
                }
                if rest.contains(id) {
                    let k = choose|k: int| 0 <= k < rest.len() && rest[k] == id;
                    assert(ids[k] == id);
                }
                assert(ids[ids.len() - 1] == ids.last());
            }
            if missing != before {
                if before.contains(id) {
                    let k = choose|k: int| 0 <= k < before.len() && before[k] == id;
                    assert(missing[k] == id);
                }
                assert(missing[before.len() as int] == ids.last());
                if missing.contains(id) && id != ids.last() {
                    let k = choose|k: int| 0 <= k < missing.len() && missing[k] == id;
                    assert(before[k] == id);
                }
            }
        }
    }
}

/// What was looked up counts row by row: a row does where it was neither superseded nor
/// withdrawn.
pub proof fn lemma_active_rows_count(a: Seq<MemoryRow>, b: Seq<MemoryRow>, row: MemoryRow)
    ensures
        active_rows(db::row_views(a + b)) == active_rows(db::row_views(a)) + active_rows(
            db::row_views(b),
        ),
        active_rows(db::row_views(seq![row])) == if row.superseded_by is None && row.invalidated_at
            is None {
            seq![row@]
        } else {
            Seq::empty()
        },
    decreases b.len(),
{
    let one = db::row_views(seq![row]);
    assert(one.len() == 1 && one.last() == row@);
    assert(one.drop_last() =~= Seq::<RowView>::empty());
    reveal_with_fuel(active_rows, 2);
    assert(active_rows(one) =~= if row.superseded_by is None && row.invalidated_at is None {
        seq![row@]
    } else {
        Seq::empty()
    });
    let all = db::row_views(a + b);
    if b.len() == 0 {
        assert(a + b =~= a);
        assert(active_rows(db::row_views(b)) =~= Seq::<RowView>::empty());
        assert(active_rows(all) =~= active_rows(db::row_views(a)) + active_rows(db::row_views(b)));
    } else {
        let rest = b.drop_last();
        lemma_active_rows_count(a, rest, row);
        assert(all.drop_last() =~= db::row_views(a + rest));
        assert(all.last() == b.last()@);
        assert(db::row_views(b).drop_last() =~= db::row_views(rest));
        assert(db::row_views(b).last() == b.last()@);
        assert(active_rows(all) =~= active_rows(db::row_views(a)) + active_rows(db::row_views(b)));
    }
}

/// What is offered counts row by row: every existing memory is, but for those that were
/// superseded in the run.
pub proof fn lemma_offered_rows_count(
    a: Seq<MemoryRow>,
    b: Seq<MemoryRow>,
    row: MemoryRow,
    superseded: Seq<MemoryId>,
)
    ensures
        not_superseded(db::row_views(a + b), superseded) == not_superseded(
            db::row_views(a),
            superseded,
        ) + not_superseded(db::row_views(b), superseded),
        not_superseded(db::row_views(seq![row]), superseded) == if superseded.contains(row.id) {
            Seq::empty()
        } else {
            seq![row@]
        },
    decreases b.len(),
{
    let one = db::row_views(seq![row]);
    assert(one.len() == 1 && one.last() == row@);
    assert(one.drop_last() =~= Seq::<RowView>::empty());
    reveal_with_fuel(not_superseded, 2);
    assert(not_superseded(one, superseded) =~= if superseded.contains(row.id) {
        Seq::empty()
    } else {
        seq![row@]
    });
    let all = db::row_views(a + b);
    if b.len() == 0 {
        assert(a + b =~= a);
        assert(not_superseded(all, superseded) =~= not_superseded(db::row_views(a), superseded)
            + not_superseded(db::row_views(b), superseded));
    } else {
        let rest = b.drop_last();
        lemma_offered_rows_count(a, rest, row, superseded);
        assert(all.drop_last() =~= db::row_views(a + rest));
        assert(all.last() == b.last()@);
        assert(db::row_views(b).drop_last() =~= db::row_views(rest));
        assert(db::row_views(b).last() == b.last()@);
        assert(not_superseded(all, superseded) =~= not_superseded(db::row_views(a), superseded)
            + not_superseded(db::row_views(b), superseded));
    }
}

/// The facets that stand for a source are those of a row with its identifier, the last
/// one; a source without a row has none.
pub proof fn lemma_facets_are_those_of_the_row(rows: Seq<MemoryRow>, i: int, id: MemoryId)
    ensures
        facets_of(db::row_views(rows), id) is Some <==> stands_in(rows, id),
        is_last_with(rows, i, id) ==> facets_of(db::row_views(rows), id) == Some(rows[i].facets@),
    decreases rows.len(),
{
    let views = db::row_views(rows);
    assert(views.len() == rows.len());
    if rows.len() > 0 {
        let rest = rows.drop_last();
        lemma_facets_are_those_of_the_row(rest, i, id);
        lemma_last_with(rows, i, id);
        assert(db::row_views(rest) =~= views.drop_last());
        assert(views.last() == rows.last()@);
    }
}

/// The sources of a cluster bring their facets one by one, in their order.
pub proof fn lemma_sources_bring_their_facets(
    rows: Seq<RowView>,
    a: Seq<MemoryId>,
    b: Seq<MemoryId>,
    id: MemoryId,
)
    ensures
        facets_of_all(rows, a + b) == facets_of_all(rows, a) + facets_of_all(rows, b),
        facets_of_all(rows, seq![id]) == match facets_of(rows, id) {
            Some(f) => seq![f],
            None => Seq::empty(),
        },
    decreases b.len(),
{
    reveal_with_fuel(facets_of_all, 2);
    assert(seq![id].drop_last() =~= Seq::<MemoryId>::empty());
    assert(facets_of_all(rows, seq![id]) =~= match facets_of(rows, id) {
        Some(f) => seq![f],
        None => Seq::empty(),
    });
    if b.len() == 0 {
        assert(a + b =~= a);
        assert(facets_of_all(rows, a + b) =~= facets_of_all(rows, a) + facets_of_all(rows, b));
    } else {
        lemma_sources_bring_their_facets(rows, a, b.drop_last(), id);
        assert((a + b).drop_last() =~= a + b.drop_last());
        assert((a + b).last() == b.last());
        assert(facets_of_all(rows, a + b) =~= facets_of_all(rows, a) + facets_of_all(rows, b));
    }
}

/// Whether the first `n` of the positions are those of memories that are more similar to
/// a claim than any that were left out, the most similar first, and the others those of
/// all memories whose similarity is not known. Some are left out only where as many as
/// were asked for were taken.
pub open spec fn are_most_similar(
    picked: Seq<usize>,
    similarities: Seq<Option<u32>>,
    top_k: int,
    n: int,
) -> bool {
    &&& 0 <= n <= picked.len()
    &&& n <= top_k
    &&& forall|i: int|
        0 <= i < picked.len() ==> (#[trigger] picked[i]) < similarities.len() && (
        similarities[picked[i] as int] is Some <==> i < n)
    &&& forall|at: int|
        0 <= at < similarities.len() && #[trigger] similarities[at] is None ==> picked.contains(
            at as usize,
        )
    &&& forall|at: int|
        0 <= at < similarities.len() && #[trigger] similarities[at] is Some && !picked.contains(
            at as usize,
        ) ==> n == top_k && beats_none(similarities[at]->0, picked.take(n), similarities)
    &&& forall|at: int|
        0 <= at < similarities.len() && #[trigger] similarities[at] is Some && n < top_k
            ==> picked.contains(at as usize)
    &&& forall|i: int, j: int|
        0 <= i < j < n ==> !crate::floats::greater(
            similarities[#[trigger] picked[j] as int]->0,
            similarities[#[trigger] picked[i] as int]->0,
        )
}

/// Whether a similarity is above none of those at the positions.
pub open spec fn beats_none(
    similarity: u32,
    picked: Seq<usize>,
    similarities: Seq<Option<u32>>,
) -> bool {
    forall|i: int|
        0 <= i < picked.len() ==> !crate::floats::greater(
            similarity,
            similarities[#[trigger] picked[i] as int]->0,
        )
}

proof fn lemma_embedded_positions(similarities: Seq<Option<u32>>)
    requires
        similarities.len() <= usize::MAX,
    ensures
        forall|i: int|
            0 <= i < embedded(similarities).len() ==> (#[trigger] embedded(similarities)[i])
                < similarities.len() && similarities[embedded(similarities)[i] as int] is Some,
        forall|i: int|
            0 <= i < unembedded(similarities).len() ==> (#[trigger] unembedded(similarities)[i])
                < similarities.len() && similarities[unembedded(similarities)[i] as int] is None,
        forall|at: int|
            0 <= at < similarities.len() ==> if #[trigger] similarities[at] is Some {
                embedded(similarities).contains(at as usize)
            } else {
                unembedded(similarities).contains(at as usize)
            },
    decreases similarities.len(),
{
    if similarities.len() > 0 {
        let rest = similarities.drop_last();
        lemma_embedded_positions(rest);
        let e = embedded(similarities);
        let u = unembedded(similarities);
        let e0 = embedded(rest);
        let u0 = unembedded(rest);
        let last = similarities.len() - 1;
        assert forall|i: int| 0 <= i < e.len() implies (#[trigger] e[i]) < similarities.len()
            && similarities[e[i] as int] is Some by {
            if i < e0.len() {
                assert(e[i] == e0[i]);
                assert(rest[e0[i] as int] == similarities[e0[i] as int]);
            }
        }
        assert forall|i: int| 0 <= i < u.len() implies (#[trigger] u[i]) < similarities.len()
            && similarities[u[i] as int] is None by {
            if i < u0.len() {
                assert(u[i] == u0[i]);
                assert(rest[u0[i] as int] == similarities[u0[i] as int]);
            }
        }
        assert forall|at: int| 0 <= at < similarities.len() implies if #[trigger] similarities[at]
            is Some {
            e.contains(at as usize)
        } else {
            u.contains(at as usize)
        } by {
            if at < last {
                assert(rest[at] == similarities[at]);
                if similarities[at] is Some {
                    let k = choose|k: int| 0 <= k < e0.len() && e0[k] == at as usize;
                    assert(e[k] == at as usize);
                } else {
                    let k = choose|k: int| 0 <= k < u0.len() && u0[k] == at as usize;
                    assert(u[k] == at as usize);
                }
            } else if similarities[at] is Some {
                assert(e[e0.len() as int] == at as usize);
            } else {
                assert(u[u0.len() as int] == at as usize);
            }
        }
    }
}

/// A new claim is held against the most similar memories, and against every memory whose
/// similarity is not known.
pub proof fn lemma_most_similar_are_picked(
    picked: Seq<usize>,
    similarities: Seq<Option<u32>>,
    top_k: int,
    order: Seq<usize>,
) -> (n: int)
    requires
        similarities.len() <= usize::MAX,
        0 <= top_k,
        is_picked(picked, similarities, top_k, order),
        forall|at: int|
            0 <= at < similarities.len() ==> (#[trigger] similarities[at] matches Some(s)
                ==> !crate::floats::nan(s)),
    ensures
        are_most_similar(picked, similarities, top_k, n),
{
    let at = embedded(similarities);
    let rest = unembedded(similarities);
    let scores = scores_at(similarities, at);
    let n = smaller(top_k, at.len() as int);
    lemma_embedded_positions(similarities);
    lemma_positions_bound(similarities);
    assert forall|i: int| 0 <= i < scores.len() implies !crate::floats::nan(#[trigger] scores[i]) by {
        assert(similarities[at[i] as int] is Some);
    }
    order::lemma_highest_first(scores, order);
    assert forall|i: int| 0 <= i < picked.len() implies (#[trigger] picked[i])
        < similarities.len() && (similarities[picked[i] as int] is Some <==> i < n) by {
        if i < n {
            assert(picked[i] == at[order[i] as int]);
        } else {
            assert(picked[i] == rest[i - n]);
        }
    }
    assert forall|p: int|
        0 <= p < similarities.len() && #[trigger] similarities[p] is None implies picked.contains(
        p as usize,
    ) by {
        let k = choose|k: int| 0 <= k < rest.len() && rest[k] == p as usize;
        assert(picked[n + k] == rest[k]);
    }
    assert forall|p: int|
        0 <= p < similarities.len() && #[trigger] similarities[p] is Some && !picked.contains(
            p as usize,
        ) implies n == top_k && beats_none(similarities[p]->0, picked.take(n), similarities) by {
        let k = choose|k: int| 0 <= k < at.len() && at[k] == p as usize;
        assert(order.contains(k as usize));
        let o = choose|o: int| 0 <= o < order.len() && order[o] == k as usize;
        if o < n {
            assert(picked[o] == at[order[o] as int]);
        }
        assert forall|i: int| 0 <= i < picked.take(n).len() implies !crate::floats::greater(
            similarities[p]->0,
            similarities[#[trigger] picked.take(n)[i] as int]->0,
        ) by {
            assert(picked[i] == at[order[i] as int]);
            assert(scores[order[i] as int] == similarities[picked[i] as int]->0);
            assert(scores[order[o] as int] == similarities[p]->0);
        }
    }
    assert forall|i: int, j: int| 0 <= i < j < n implies !crate::floats::greater(
        similarities[#[trigger] picked[j] as int]->0,
        similarities[#[trigger] picked[i] as int]->0,
    ) by {
        assert(picked[i] == at[order[i] as int]);
        assert(picked[j] == at[order[j] as int]);
        assert(scores[order[i] as int] == similarities[picked[i] as int]->0);
        assert(scores[order[j] as int] == similarities[picked[j] as int]->0);
    }
    n
}

proof fn lemma_positions_bound(similarities: Seq<Option<u32>>)
    ensures
        embedded(similarities).len() <= similarities.len(),
    decreases similarities.len(),
{
    if similarities.len() > 0 {
        lemma_positions_bound(similarities.drop_last());
    }
}

/// A new claim is held against the ten most similar memories.
pub proof fn lemma_ten_are_held_against()
    ensures
        PRE_FILTER_TOP_K == 10,
{
}

} // verus!
