//! Grouping claims that say the same.

use vstd::prelude::*;
use vstd::string::*;

use crate::consolidated::{self, is_consolidated};
use crate::error::{ChittaError, ErrorView};
use crate::ids::{contains_id, MemoryId};
use crate::synthesis::{self, Candidate, CandidateView, Cluster, ClusterView};
use crate::text::{self, concat2, decimal_of, join};

verus! {

/// What the language model is told of its task.
pub const CLUSTER_SYSTEM_PROMPT: &'static str =
    "You group candidate claims about a person by semantic similarity. Claims expressing the same underlying trait, value, pattern, preference, or mental model — even if worded differently — belong in the same cluster. For each cluster, pick the single best representative claim and the most appropriate memory_type. Return a JSON array. Each element: {\"representative_claim\": \"<best wording>\", \"memory_type\": \"<trait|value|pattern|preference|mental_model>\", \"member_indices\": [0, 1, ...]}. Every candidate index must appear in exactly one cluster. Return ONLY the JSON array, no markdown fences, no commentary.";

/// The line that shows an item under its number: `[i] (type) words`.
pub open spec fn numbered_line(i: int, memory_type: Seq<char>, words: Seq<char>) -> Seq<char> {
    "["@ + text::decimal(i as nat) + "] ("@ + memory_type + ") "@ + words
}

/// The line that shows an item under its number.
pub(crate) fn make_numbered_line(i: usize, memory_type: &str, words: &str) -> (r: String)
    ensures
        r@ == numbered_line(i as int, memory_type@, words@),
{
    let mut r = "[".to_owned();
    r.append(decimal_of(i as u64).as_str());
    r.append("] (");
    r.append(memory_type);
    r.append(") ");
    r.append(words);
    r
}

/// The lines that show the candidates.
pub open spec fn candidate_lines(candidates: Seq<CandidateView>) -> Seq<Seq<char>> {
    seq!["Candidates:"@] + Seq::new(
        candidates.len(),
        |i: int| numbered_line(i, candidates[i].memory_type, candidates[i].claim),
    )
}

/// What the language model is shown: the candidates, each under its number.
pub fn cluster_user_prompt(candidates: &[Candidate]) -> (r: String)
    ensures
        r@ == text::joined(candidate_lines(synthesis::candidate_views(candidates@)), "\n"@),
{
    let ghost views = synthesis::candidate_views(candidates@);
    let mut lines: Vec<String> = Vec::new();
    lines.push("Candidates:".to_owned());
    for i in 0..candidates.len()
        invariant
            views == synthesis::candidate_views(candidates@),
            lines@.len() == i + 1,
            forall|j: int| 0 <= j <= i ==> (#[trigger] lines@[j])@ == candidate_lines(views)[j],
    {
        lines.push(
            make_numbered_line(
                i,
                candidates[i].memory_type.as_str(),
                candidates[i].claim.as_str(),
            ),
        );
    }
    assert(text::texts(lines@) =~= candidate_lines(views));
    join(lines.as_slice(), "\n")
}

/// What follows when claims are to be grouped.
#[derive(Debug, PartialEq, Eq)]
pub enum ClusterStep {
    /// These are the clusters: there is nothing to ask.
    Done(Vec<Cluster>),
    /// Ask the language model, and show it the given text.
    Ask(String),
}

/// What follows when the candidates are to be grouped: the language model is
/// asked, unless there are none.
pub fn cluster_candidates(candidates: &[Candidate]) -> (r: ClusterStep)
    ensures
        match r {
            ClusterStep::Done(clusters) => candidates@.len() == 0 && clusters@.len() == 0,
            ClusterStep::Ask(shown) => candidates@.len() > 0 && shown@ == text::joined(
                candidate_lines(synthesis::candidate_views(candidates@)),
                "\n"@,
            ),
        },
{
    if candidates.len() == 0 {
        return ClusterStep::Done(Vec::new());
    }
    ClusterStep::Ask(cluster_user_prompt(candidates))
}

/// A cluster as the language model gives it.
#[derive(Debug, PartialEq, Eq)]
pub struct RawCluster {
    pub representative_claim: String,
    pub memory_type: String,
    pub member_indices: Vec<usize>,
}

/// Takes candidates, one after another, for a cluster: whether all of them could
/// be taken, and which are taken then. A candidate that does not exist or that is
/// taken already ends it; those before it stay taken.
pub open spec fn take_members(indices: Seq<usize>, taken: Seq<bool>) -> (bool, Seq<bool>)
    decreases indices.len(),
{
    if indices.len() == 0 {
        (true, taken)
    } else {
        let i = indices[0] as int;
        if i >= taken.len() || taken[i] {
            (false, taken)
        } else {
            take_members(indices.drop_first(), taken.update(i, true))
        }
    }
}

/// The sources of the given candidates, each once, in the order in which they
/// first occur.
pub open spec fn sources_of(indices: Seq<usize>, candidates: Seq<CandidateView>) -> Seq<MemoryId>
    decreases indices.len(),
{
    if indices.len() == 0 {
        Seq::empty()
    } else {
        let before = sources_of(indices.drop_last(), candidates);
        let id = candidates[indices.last() as int].source_id;
        if before.contains(id) {
            before
        } else {
            before.push(id)
        }
    }
}

/// The state of clustering: the clusters so far, the candidates in each, and
/// which candidates are taken.
pub struct ClusterState {
    pub clusters: Seq<ClusterView>,
    pub members: Seq<Seq<usize>>,
    pub taken: Seq<bool>,
}

/// The state after one more cluster that the language model gave. It is passed
/// over where its type is not that of a consolidated memory, where it claims
/// nothing, where a candidate in it does not exist or is taken already, or where
/// it has no source.
pub open spec fn cluster_step(
    st: ClusterState,
    raw: RawCluster,
    candidates: Seq<CandidateView>,
) -> ClusterState {
    let members = raw.member_indices@;
    if !consolidated::consolidated_type(raw.memory_type@) || raw.representative_claim@.len() == 0 {
        st
    } else {
        let (ok, taken) = take_members(members, st.taken);
        let source_ids = sources_of(members, candidates);
        if !ok || source_ids.len() == 0 {
            ClusterState { taken, ..st }
        } else {
            ClusterState {
                clusters: st.clusters.push(
                    ClusterView {
                        representative_claim: raw.representative_claim@,
                        memory_type: raw.memory_type@,
                        source_ids,
                    },
                ),
                members: st.members.push(members),
                taken,
            }
        }
    }
}

/// The state after the given clusters.
pub open spec fn clustered(raw: Seq<RawCluster>, candidates: Seq<CandidateView>) -> ClusterState
    decreases raw.len(),
{
    if raw.len() == 0 {
        ClusterState {
            clusters: Seq::empty(),
            members: Seq::empty(),
            taken: Seq::new(candidates.len(), |i: int| false),
        }
    } else {
        cluster_step(clustered(raw.drop_last(), candidates), raw.last(), candidates)
    }
}

fn take_all(indices: &[usize], taken: &mut Vec<bool>) -> (r: bool)
    ensures
        (r, final(taken)@) == take_members(indices@, old(taken)@),
        final(taken)@.len() == old(taken)@.len(),
        r ==> forall|i: int| 0 <= i < indices@.len() ==> #[trigger] indices@[i] < old(taken)@.len(),
{
    let ghost before = taken@;
    let mut i: usize = 0;
    assert(indices@.skip(0) =~= indices@);
    while i < indices.len()
        invariant
            i <= indices@.len(),
            before == old(taken)@,
            taken@.len() == before.len(),
            take_members(indices@, before) == take_members(indices@.skip(i as int), taken@),
            forall|j: int| 0 <= j < i ==> #[trigger] indices@[j] < before.len(),
        decreases indices@.len() - i,
    {
        let at: usize = indices[i];
        assert(indices@.skip(i as int)[0] == at);
        if at >= taken.len() || taken[at] {
            return false;
        }
        taken.set(at, true);
        assert(indices@.skip(i as int).drop_first() =~= indices@.skip(i + 1));
        i = i + 1;
    }
    true
}

fn collect_sources(indices: &[usize], candidates: &[Candidate]) -> (r: Vec<MemoryId>)
    requires
        forall|i: int| 0 <= i < indices@.len() ==> #[trigger] indices@[i] < candidates@.len(),
    ensures
        r@ == sources_of(indices@, synthesis::candidate_views(candidates@)),
{
    let ghost views = synthesis::candidate_views(candidates@);
    let mut r: Vec<MemoryId> = Vec::new();
    for i in 0..indices.len()
        invariant
            views == synthesis::candidate_views(candidates@),
            forall|j: int| 0 <= j < indices@.len() ==> #[trigger] indices@[j] < candidates@.len(),
            r@ == sources_of(indices@.take(i as int), views),
    {
        let at: usize = indices[i];
        assert(indices@.take(i + 1).drop_last() =~= indices@.take(i as int));
        assert(views[at as int] == candidates@[at as int]@);
        if !contains_id(r.as_slice(), candidates[at].source_id) {
            r.push(candidates[at].source_id);
        }
    }
    assert(indices@.take(indices@.len() as int) =~= indices@);
    r
}

/// The view of clusters or of an error.
pub open spec fn clusters_outcome(r: Result<Vec<Cluster>, ChittaError>) -> Result<
    Seq<ClusterView>,
    ErrorView,
> {
    match r {
        Ok(v) => Ok(synthesis::cluster_views(v@)),
        Err(e) => Err(e@),
    }
}

/// The clusters in an answer of the language model: `parsed` is what its JSON was
/// read as, or the words in which the parser refused it.
pub fn parse_cluster_response(
    parsed: Result<Vec<RawCluster>, String>,
    candidates: &[Candidate],
) -> (r: Result<Vec<Cluster>, ChittaError>)
    ensures
        clusters_outcome(r) == match parsed {
            Ok(raw) => Ok(
                clustered(raw@, synthesis::candidate_views(candidates@)).clusters,
            ),
            Err(words) => Err(
                ErrorView::Internal("LLM returned unparseable cluster JSON: "@ + words@),
            ),
        },
        parsed matches Ok(raw) ==> (r matches Ok(clusters) && exists|picks: Seq<int>| #[trigger]
            keeps_the_valid(raw@, candidates@, clusters@, picks)),
{
    let raw = match parsed {
        Err(words) => {
            return Err(
                ChittaError::Internal(
                    concat2("LLM returned unparseable cluster JSON: ", words.as_str()),
                ),
            );
        },
        Ok(raw) => raw,
    };
    let ghost views = synthesis::candidate_views(candidates@);
    let mut taken: Vec<bool> = Vec::new();
    for i in 0..candidates.len()
        invariant
            taken@.len() == i,
            forall|j: int| 0 <= j < i ==> taken@[j] == false,
    {
        taken.push(false);
    }
    let mut clusters: Vec<Cluster> = Vec::new();
    assert(taken@ =~= Seq::new(views.len(), |i: int| false));
    assert(synthesis::cluster_views(clusters@) =~= Seq::<ClusterView>::empty());
    for i in 0..raw.len()
        invariant
            views == synthesis::candidate_views(candidates@),
            taken@.len() == candidates@.len(),
            synthesis::cluster_views(clusters@) == clustered(raw@.take(i as int), views).clusters,
            taken@ == clustered(raw@.take(i as int), views).taken,
    {
        let ghost before = clusters@;
        assert(raw@.take(i + 1).drop_last() =~= raw@.take(i as int));
        let rc = &raw[i];
        if is_consolidated(rc.memory_type.as_str())
            && rc.representative_claim.as_str().unicode_len() > 0 {
            if take_all(rc.member_indices.as_slice(), &mut taken) {
                let source_ids = collect_sources(rc.member_indices.as_slice(), candidates);
                if source_ids.len() > 0 {
                    clusters.push(
                        Cluster {
                            representative_claim: rc.representative_claim.clone(),
                            memory_type: rc.memory_type.clone(),
                            source_ids,
                        },
                    );
                    assert(synthesis::cluster_views(clusters@) =~= synthesis::cluster_views(
                        before,
                    ).push(clusters@[before.len() as int]@));
                }
            }
        }
    }
    assert(raw@.take(raw@.len() as int) =~= raw@);
    proof {
        lemma_every_valid_cluster_is_kept(raw@, candidates@, clusters@);
    }
    Ok(clusters)
}

// ---- What clusters are kept ---------------------------------------------------------

/// Whether no candidate is a member of two of the clusters.
pub open spec fn share_no_member(a: RawCluster, b: RawCluster) -> bool {
    forall|k: int, m: int|
        0 <= k < a.member_indices@.len() && 0 <= m < b.member_indices@.len()
            ==> #[trigger] a.member_indices@[k] != #[trigger] b.member_indices@[m]
}

/// Whether a cluster is sound in itself: it is of one of the five consolidated
/// types, it claims something, and it has members, each of which is one of the `n`
/// candidates and none of which is named twice.
pub open spec fn sound(raw: RawCluster, n: int) -> bool {
    let t = raw.memory_type@;
    &&& t == "trait"@ || t == "value"@ || t == "pattern"@ || t == "preference"@ || t
        == "mental_model"@
    &&& raw.representative_claim@.len() > 0
    &&& raw.member_indices@.len() > 0
    &&& forall|k: int|
        0 <= k < raw.member_indices@.len() ==> #[trigger] raw.member_indices@[k] < n
    &&& forall|k: int, m: int|
        0 <= k < m < raw.member_indices@.len() ==> #[trigger] raw.member_indices@[k]
            != #[trigger] raw.member_indices@[m]
}

/// Whether a cluster is beyond doubt: sound in itself, with members that no other
/// cluster names.
pub open spec fn beyond_doubt(raw: Seq<RawCluster>, n: int, j: int) -> bool {
    &&& sound(raw[j], n)
    &&& forall|i: int| 0 <= i < raw.len() && i != j ==> share_no_member(#[trigger] raw[i], raw[j])
}

/// Whether the member at a place is the first of the members with its source.
pub open spec fn first_of_its_source(
    members: Seq<usize>,
    candidates: Seq<Candidate>,
    k: int,
) -> bool {
    forall|m: int|
        0 <= m < k ==> candidates[(#[trigger] members[m]) as int].source_id
            != candidates[members[k] as int].source_id
}

/// Whether the identifiers are the sources of the members, each once, in the order
/// in which the members name them first: `firsts` are the places of those members.
pub open spec fn are_sources(
    ids: Seq<MemoryId>,
    members: Seq<usize>,
    candidates: Seq<Candidate>,
    firsts: Seq<int>,
) -> bool {
    &&& ids.len() == firsts.len()
    &&& forall|a: int|
        0 <= a < firsts.len() ==> {
            let k = #[trigger] firsts[a];
            &&& 0 <= k < members.len()
            &&& first_of_its_source(members, candidates, k)
            &&& ids[a] == candidates[members[k] as int].source_id
        }
    &&& forall|a: int, b: int|
        0 <= a < b < firsts.len() ==> #[trigger] firsts[a] < #[trigger] firsts[b]
    &&& forall|k: int|
        0 <= k < members.len() && #[trigger] first_of_its_source(members, candidates, k)
            ==> firsts.contains(k)
}

/// Whether the cluster is the one that the language model gave: its claim, its type,
/// and the sources of its members.
pub open spec fn stands_for(c: Cluster, raw: RawCluster, candidates: Seq<Candidate>) -> bool {
    &&& c.representative_claim@ == raw.representative_claim@
    &&& c.memory_type@ == raw.memory_type@
    &&& exists|firsts: Seq<int>| #[trigger]
        are_sources(c.source_ids@, raw.member_indices@, candidates, firsts)
}

/// Whether the clusters are those that the language model gave at the places
/// `picks`, in order: each is sound, no two of them share a member, and none that is
/// beyond doubt is missing.
pub open spec fn keeps_the_valid(
    raw: Seq<RawCluster>,
    candidates: Seq<Candidate>,
    clusters: Seq<Cluster>,
    picks: Seq<int>,
) -> bool {
    &&& clusters.len() == picks.len()
    &&& forall|c: int|
        0 <= c < picks.len() ==> {
            let j = #[trigger] picks[c];
            &&& 0 <= j < raw.len()
            &&& sound(raw[j], candidates.len() as int)
            &&& stands_for(clusters[c], raw[j], candidates)
        }
    &&& forall|c: int, d: int|
        0 <= c < d < picks.len() ==> #[trigger] picks[c] < #[trigger] picks[d]
            && share_no_member(raw[picks[c]], raw[picks[d]])
    &&& forall|j: int|
        0 <= j < raw.len() && #[trigger] beyond_doubt(raw, candidates.len() as int, j)
            ==> picks.contains(j)
}

// ---- Laws -----------------------------------------------------------------------

proof fn lemma_take_members(indices: Seq<usize>, taken: Seq<bool>)
    ensures
        ({
            let (ok, after) = take_members(indices, taken);
            &&& after.len() == taken.len()
            &&& forall|i: int| 0 <= i < taken.len() && #[trigger] taken[i] ==> after[i]
            &&& ok ==> indices.no_duplicates() && forall|k: int|
                0 <= k < indices.len() ==> {
                    let i = #[trigger] indices[k];
                    i < taken.len() && !taken[i as int] && after[i as int]
                }
        }),
    decreases indices.len(),
{
    if indices.len() > 0 {
        let i = indices[0] as int;
        if !(i >= taken.len() || taken[i]) {
            let rest = indices.drop_first();
            let next = taken.update(i, true);
            lemma_take_members(rest, next);
            let (ok, after) = take_members(indices, taken);
            assert forall|j: int| 0 <= j < taken.len() && #[trigger] taken[j] implies after[j] by {
                assert(next[j]);
            }
            if ok {
                assert forall|k: int| 0 <= k < indices.len() implies {
                    let m = #[trigger] indices[k];
                    m < taken.len() && !taken[m as int] && after[m as int]
                } by {
                    if k == 0 {
                        assert(next[i]);
                    } else {
                        assert(indices[k] == rest[k - 1]);
                        assert(!next[rest[k - 1] as int]);
                    }
                }
                assert forall|a: int, b: int|
                    0 <= a < indices.len() && 0 <= b < indices.len() && a != b implies indices[a]
                    != indices[b] by {
                    if a == 0 {
                        assert(indices[b] == rest[b - 1]);
                        assert(!next[rest[b - 1] as int]);
                    } else if b == 0 {
                        assert(indices[a] == rest[a - 1]);
                        assert(!next[rest[a - 1] as int]);
                    } else {
                        assert(indices[a] == rest[a - 1]);
                        assert(indices[b] == rest[b - 1]);
                    }
                }
            }
        }
    }
}

/// Whether every candidate in the member lists exists and is taken, and none is
/// in two places.
pub open spec fn members_disjoint(members: Seq<Seq<usize>>, taken: Seq<bool>) -> bool {
    &&& forall|c: int, k: int|
        0 <= c < members.len() && 0 <= k < members[c].len() ==> {
            let i = #[trigger] members[c][k];
            i < taken.len() && taken[i as int]
        }
    &&& forall|c: int| 0 <= c < members.len() ==> (#[trigger] members[c]).no_duplicates()
    &&& forall|c: int, d: int, k: int, m: int|
        0 <= c < d < members.len() && 0 <= k < members[c].len() && 0 <= m < members[d].len()
            ==> #[trigger] members[c][k] != #[trigger] members[d][m]
}

/// No candidate backs two clusters: the members of the clusters that are taken
/// exist, and none of them is in two clusters or twice in one. The sources of a
/// cluster are those of its members, and it has at least one.
pub proof fn lemma_no_candidate_in_two_clusters(
    raw: Seq<RawCluster>,
    candidates: Seq<CandidateView>,
)
    ensures
        ({
            let st = clustered(raw, candidates);
            &&& st.taken.len() == candidates.len()
            &&& st.members.len() == st.clusters.len()
            &&& members_disjoint(st.members, st.taken)
            &&& forall|c: int|
                0 <= c < st.clusters.len() ==> {
                    let cluster = #[trigger] st.clusters[c];
                    &&& cluster.source_ids == sources_of(st.members[c], candidates)
                    &&& cluster.source_ids.len() > 0
                    &&& cluster.representative_claim.len() > 0
                    &&& consolidated::consolidated_type(cluster.memory_type)
                }
        }),
    decreases raw.len(),
{
    if raw.len() > 0 {
        lemma_no_candidate_in_two_clusters(raw.drop_last(), candidates);
        let before = clustered(raw.drop_last(), candidates);
        let after = clustered(raw, candidates);
        let members = raw.last().member_indices@;
        lemma_take_members(members, before.taken);
        assert forall|c: int, k: int|
            0 <= c < after.members.len() && 0 <= k < after.members[c].len() implies {
            let i = #[trigger] after.members[c][k];
            i < after.taken.len() && after.taken[i as int]
        } by {
            if c < before.members.len() {
                assert(after.members[c] == before.members[c]);
                assert(before.taken[before.members[c][k] as int]);
            }
        }
        assert forall|c: int, d: int, k: int, m: int|
            0 <= c < d < after.members.len() && 0 <= k < after.members[c].len() && 0 <= m
                < after.members[d].len() implies #[trigger] after.members[c][k]
            != #[trigger] after.members[d][m] by {
            assert(after.members[c] == before.members[c]);
            if d < before.members.len() {
                assert(after.members[d] == before.members[d]);
            } else {
                assert(before.taken[before.members[c][k] as int]);
                assert(!before.taken[members[m] as int]);
            }
        }
    }
}

/// The sources of a cluster are distinct, and each is the source of one of its
/// members; no source of a member is missing.
pub proof fn lemma_sources_are_distinct(indices: Seq<usize>, candidates: Seq<CandidateView>)
    ensures
        sources_of(indices, candidates).no_duplicates(),
        forall|id: MemoryId| #[trigger]
            sources_of(indices, candidates).contains(id) <==> exists|k: int|
                0 <= k < indices.len() && candidates[(#[trigger] indices[k]) as int].source_id
                    == id,
    decreases indices.len(),
{
    if indices.len() > 0 {
        let rest = indices.drop_last();
        lemma_sources_are_distinct(rest, candidates);
        let before = sources_of(rest, candidates);
        let after = sources_of(indices, candidates);
        let last = candidates[indices.last() as int].source_id;
        assert forall|id: MemoryId| #[trigger] after.contains(id) <==> exists|k: int|
            0 <= k < indices.len() && candidates[(#[trigger] indices[k]) as int].source_id == id by {
            vstd::seq_lib::lemma_seq_contains_after_push(before, last, id);
            if before.contains(id) {
                let k = choose|k: int|
                    0 <= k < rest.len() && candidates[(#[trigger] rest[k]) as int].source_id == id;
                assert(indices[k] == rest[k]);
            }
            if id == last {
                assert(indices[indices.len() - 1] == indices.last());
            }
            if exists|k: int|
                0 <= k < indices.len() && candidates[(#[trigger] indices[k]) as int].source_id
                    == id {
                let k = choose|k: int|
                    0 <= k < indices.len() && candidates[(#[trigger] indices[k]) as int].source_id
                        == id;
                if k < rest.len() {
                    assert(rest[k] == indices[k]);
                }
            }
        }
    }
}

proof fn lemma_take_all_members(indices: Seq<usize>, taken: Seq<bool>)
    ensures
        ({
            let (ok, after) = take_members(indices, taken);
            &&& after.len() == taken.len()
            &&& forall|i: int|
                0 <= i < taken.len() && #[trigger] after[i] ==> taken[i] || indices.contains(
                    i as usize,
                )
            &&& (indices.no_duplicates() && forall|k: int|
                0 <= k < indices.len() ==> #[trigger] indices[k] < taken.len()
                    && !taken[indices[k] as int]) ==> ok
        }),
    decreases indices.len(),
{
    if indices.len() > 0 {
        let i = indices[0] as int;
        if !(i >= taken.len() || taken[i]) {
            let rest = indices.drop_first();
            let next = taken.update(i, true);
            lemma_take_all_members(rest, next);
            let (ok, after) = take_members(indices, taken);
            assert forall|j: int| 0 <= j < taken.len() && #[trigger] after[j] implies taken[j]
                || indices.contains(j as usize) by {
                if next[j] && !taken[j] {
                    assert(indices[0] == j as usize);
                }
                if rest.contains(j as usize) {
                    let k = choose|k: int| 0 <= k < rest.len() && rest[k] == j as usize;
                    assert(indices[k + 1] == j as usize);
                }
            }
            if indices.no_duplicates() && forall|k: int|
                0 <= k < indices.len() ==> #[trigger] indices[k] < taken.len()
                    && !taken[indices[k] as int] {
                assert forall|k: int| 0 <= k < rest.len() implies #[trigger] rest[k] < next.len()
                    && !next[rest[k] as int] by {
                    assert(rest[k] == indices[k + 1]);
                    assert(indices[0] != indices[k + 1]);
                }
                assert(rest.no_duplicates()) by {
                    assert forall|a: int, b: int|
                        0 <= a < rest.len() && 0 <= b < rest.len() && a != b implies rest[a]
                        != rest[b] by {
                        assert(rest[a] == indices[a + 1]);
                        assert(rest[b] == indices[b + 1]);
                    }
                }
            }
        } else {
            assert(indices[0] as int == i);
        }
    }
}

proof fn lemma_sources_come_first(
    indices: Seq<usize>,
    candidates: Seq<Candidate>,
) -> (firsts: Seq<int>)
    requires
        forall|k: int| 0 <= k < indices.len() ==> #[trigger] indices[k] < candidates.len(),
    ensures
        are_sources(
            sources_of(indices, synthesis::candidate_views(candidates)),
            indices,
            candidates,
            firsts,
        ),
    decreases indices.len(),
{
    let views = synthesis::candidate_views(candidates);
    if indices.len() == 0 {
        Seq::empty()
    } else {
        let rest = indices.drop_last();
        assert forall|k: int| 0 <= k < rest.len() implies #[trigger] rest[k] < candidates.len() by {
            assert(rest[k] == indices[k]);
        }
        let before = lemma_sources_come_first(rest, candidates);
        lemma_sources_are_distinct(rest, views);
        let last = indices.len() - 1;
        let id = candidates[indices[last] as int].source_id;
        assert(views[indices.last() as int].source_id == id);
        assert forall|k: int| 0 <= k < rest.len() implies #[trigger] first_of_its_source(
            rest,
            candidates,
            k,
        ) == first_of_its_source(indices, candidates, k) by {
            if first_of_its_source(rest, candidates, k) {
                assert forall|m: int| 0 <= m < k implies candidates[(
                #[trigger] indices[m]) as int].source_id
                    != candidates[indices[k] as int].source_id by {
                    assert(rest[m] == indices[m]);
                }
            }
            if first_of_its_source(indices, candidates, k) {
                assert forall|m: int| 0 <= m < k implies candidates[(
                #[trigger] rest[m]) as int].source_id != candidates[rest[k] as int].source_id by {
                    assert(rest[m] == indices[m]);
                }
            }
        }
        let ids = sources_of(rest, views);
        if ids.contains(id) {
            let k = choose|k: int|
                0 <= k < rest.len() && views[(#[trigger] rest[k]) as int].source_id == id;
            assert(candidates[indices[k] as int].source_id == id) by {
                assert(rest[k] == indices[k]);
                assert(views[indices[k] as int].source_id == candidates[indices[k] as int].source_id);
            }
            assert(!first_of_its_source(indices, candidates, last));
            assert(are_sources(sources_of(indices, views), indices, candidates, before)) by {
                assert forall|a: int| 0 <= a < before.len() implies {
                    let k = #[trigger] before[a];
                    &&& 0 <= k < indices.len()
                    &&& first_of_its_source(indices, candidates, k)
                    &&& ids[a] == candidates[indices[k] as int].source_id
                } by {
                    assert(first_of_its_source(rest, candidates, before[a]));
                }
                assert forall|k: int|
                    0 <= k < indices.len() && #[trigger] first_of_its_source(
                        indices,
                        candidates,
                        k,
                    ) implies before.contains(k) by {
                    assert(first_of_its_source(rest, candidates, k));
                }
            }
            before
        } else {
            let firsts = before.push(last);
            assert(first_of_its_source(indices, candidates, last)) by {
                assert forall|m: int| 0 <= m < last implies candidates[(
                #[trigger] indices[m]) as int].source_id
                    != candidates[indices[last] as int].source_id by {
                    assert(rest[m] == indices[m]);
                    assert(views[rest[m] as int].source_id
                        == candidates[rest[m] as int].source_id);
                }
            }
            assert(are_sources(sources_of(indices, views), indices, candidates, firsts)) by {
                let all = sources_of(indices, views);
                assert forall|a: int| 0 <= a < firsts.len() implies {
                    let k = #[trigger] firsts[a];
                    &&& 0 <= k < indices.len()
                    &&& first_of_its_source(indices, candidates, k)
                    &&& all[a] == candidates[indices[k] as int].source_id
                } by {
                    if a < before.len() {
                        assert(firsts[a] == before[a]);
                        assert(first_of_its_source(rest, candidates, before[a]));
                        assert(all[a] == ids[a]);
                    }
                }
                assert forall|a: int, b: int| 0 <= a < b < firsts.len() implies
                    #[trigger] firsts[a] < #[trigger] firsts[b] by {
                    assert(firsts[a] == before[a]);
                    if b < before.len() {
                        assert(firsts[b] == before[b]);
                    }
                }
                assert forall|k: int|
                    0 <= k < indices.len() && #[trigger] first_of_its_source(
                        indices,
                        candidates,
                        k,
                    ) implies firsts.contains(k) by {
                    if k < last {
                        assert(first_of_its_source(rest, candidates, k));
                        let a = choose|a: int| 0 <= a < before.len() && before[a] == k;
                        assert(firsts[a] == k);
                    } else {
                        assert(firsts[before.len() as int] == k);
                    }
                }
            }
            firsts
        }
    }
}

proof fn lemma_kept_so_far(
    raw: Seq<RawCluster>,
    candidates: Seq<Candidate>,
    clusters: Seq<Cluster>,
) -> (picks: Seq<int>)
    requires
        candidates.len() <= usize::MAX,
        synthesis::cluster_views(clusters) == clustered(
            raw,
            synthesis::candidate_views(candidates),
        ).clusters,
    ensures
        keeps_the_valid(raw, candidates, clusters, picks),
        ({
            let st = clustered(raw, synthesis::candidate_views(candidates));
            &&& st.taken.len() == candidates.len()
            &&& st.members.len() == picks.len()
            &&& forall|c: int|
                0 <= c < picks.len() ==> #[trigger] st.members[c]
                    == raw[picks[c]].member_indices@
            &&& forall|i: int|
                0 <= i < candidates.len() && #[trigger] st.taken[i] ==> exists|j: int|
                    0 <= j < raw.len() && (#[trigger] raw[j]).member_indices@.contains(i as usize)
        }),
    decreases raw.len(),
{
    let views = synthesis::candidate_views(candidates);
    let n = candidates.len() as int;
    lemma_no_candidate_in_two_clusters(raw, views);
    if raw.len() == 0 {
        assert(clusters.len() == synthesis::cluster_views(clusters).len());
        Seq::empty()
    } else {
        let rest = raw.drop_last();
        let last = raw.len() - 1;
        let rc = raw[last];
        let st = clustered(rest, views);
        let after = clustered(raw, views);
        let members = rc.member_indices@;
        lemma_no_candidate_in_two_clusters(rest, views);
        lemma_take_members(members, st.taken);
        lemma_take_all_members(members, st.taken);
        let grown = after.clusters.len() > st.clusters.len();
        let old_clusters = clusters.take(st.clusters.len() as int);
        assert(clusters.len() == after.clusters.len());
        assert(synthesis::cluster_views(old_clusters) =~= st.clusters) by {
            assert forall|c: int| 0 <= c < st.clusters.len() implies synthesis::cluster_views(
                old_clusters,
            )[c] == st.clusters[c] by {
                assert(synthesis::cluster_views(clusters)[c] == after.clusters[c]);
            }
        }
        let before = lemma_kept_so_far(rest, candidates, old_clusters);
        let picks = if grown {
            before.push(last)
        } else {
            before
        };
        assert forall|j: int|
            0 <= j < rest.len() && #[trigger] beyond_doubt(raw, n, j) implies before.contains(
            j,
        ) by {
            assert(rest[j] == raw[j]);
            assert forall|i: int| 0 <= i < rest.len() && i != j implies share_no_member(
                #[trigger] rest[i],
                rest[j],
            ) by {
                assert(rest[i] == raw[i]);
            }
            assert(beyond_doubt(rest, n, j));
        }
        if beyond_doubt(raw, n, last) {
            assert forall|k: int| 0 <= k < members.len() implies #[trigger] members[k]
                < st.taken.len() && !st.taken[members[k] as int] by {
                if st.taken[members[k] as int] {
                    let j = choose|j: int|
                        0 <= j < rest.len() && (#[trigger] rest[j]).member_indices@.contains(
                            members[k],
                        );
                    assert(raw[j] == rest[j]);
                    assert(share_no_member(raw[j], raw[last]));
                    let m = choose|m: int|
                        0 <= m < raw[j].member_indices@.len() && raw[j].member_indices@[m]
                            == members[k];
                    assert(raw[j].member_indices@[m] != rc.member_indices@[k]);
                }
            }
            assert(members.no_duplicates());
            lemma_sources_are_distinct(members, views);
            let id = views[members[0] as int].source_id;
            assert(sources_of(members, views).contains(id));
            assert(grown);
        }
        if grown {
            let added = clusters[last_of(clusters)];
            assert(synthesis::cluster_views(clusters)[last_of(clusters)] == added@);
            assert(added@ == after.clusters.last());
            assert forall|k: int| 0 <= k < members.len() implies #[trigger] members[k]
                < candidates.len() by {}
            let firsts = lemma_sources_come_first(members, candidates);
            assert(are_sources(added.source_ids@, members, candidates, firsts));
            assert(stands_for(added, rc, candidates));
            assert(members.len() > 0) by {
                if members.len() == 0 {
                    assert(sources_of(members, views).len() == 0);
                }
            }
            assert(sound(rc, n));
        }
        assert forall|c: int| 0 <= c < picks.len() implies {
            let j = #[trigger] picks[c];
            &&& 0 <= j < raw.len()
            &&& sound(raw[j], n)
            &&& stands_for(clusters[c], raw[j], candidates)
        } by {
            if c < before.len() {
                assert(picks[c] == before[c]);
                assert(raw[before[c]] == rest[before[c]]);
                assert(clusters[c] == old_clusters[c]);
            }
        }
        assert forall|c: int| 0 <= c < picks.len() implies #[trigger] after.members[c]
            == raw[picks[c]].member_indices@ by {
            if c < before.len() {
                assert(picks[c] == before[c]);
                assert(raw[before[c]] == rest[before[c]]);
                assert(after.members[c] == st.members[c]);
            }
        }
        assert forall|c: int, d: int| 0 <= c < d < picks.len() implies #[trigger] picks[c]
            < #[trigger] picks[d] && share_no_member(raw[picks[c]], raw[picks[d]]) by {
            if d < before.len() {
                assert(picks[c] == before[c] && picks[d] == before[d]);
            } else {
                assert(picks[c] == before[c]);
            }
            assert(after.members[c] == raw[picks[c]].member_indices@);
            assert(after.members[d] == raw[picks[d]].member_indices@);
            assert forall|k: int, m: int|
                0 <= k < raw[picks[c]].member_indices@.len() && 0 <= m
                    < raw[picks[d]].member_indices@.len() implies
                #[trigger] raw[picks[c]].member_indices@[k]
                != #[trigger] raw[picks[d]].member_indices@[m] by {
                assert(after.members[c][k] != after.members[d][m]);
            }
        }
        assert forall|j: int| 0 <= j < raw.len() && #[trigger] beyond_doubt(raw, n, j) implies
            picks.contains(j) by {
            if j < last {
                assert(before.contains(j));
                let c = choose|c: int| 0 <= c < before.len() && before[c] == j;
                assert(picks[c] == j);
            } else {
                assert(picks[before.len() as int] == last);
            }
        }
        assert forall|i: int| 0 <= i < candidates.len() && #[trigger] after.taken[i] implies exists|
            j: int,
        | 0 <= j < raw.len() && (#[trigger] raw[j]).member_indices@.contains(i as usize) by {
            if st.taken[i] {
                let j = choose|j: int|
                    0 <= j < rest.len() && (#[trigger] rest[j]).member_indices@.contains(
                        i as usize,
                    );
                assert(raw[j].member_indices@.contains(i as usize));
            } else {
                assert(raw[last].member_indices@.contains(i as usize));
            }
        }
        picks
    }
}

spec fn last_of(clusters: Seq<Cluster>) -> int {
    clusters.len() - 1
}

/// Every cluster of the answer that is beyond doubt is kept, with its claim, its type
/// and the sources of its members; whatever is kept is sound, shares no member with
/// another that is kept, and comes in the order of the answer.
pub proof fn lemma_every_valid_cluster_is_kept(
    raw: Seq<RawCluster>,
    candidates: Seq<Candidate>,
    clusters: Seq<Cluster>,
)
    requires
        candidates.len() <= usize::MAX,
        synthesis::cluster_views(clusters) == clustered(
            raw,
            synthesis::candidate_views(candidates),
        ).clusters,
    ensures
        exists|picks: Seq<int>| #[trigger] keeps_the_valid(raw, candidates, clusters, picks),
{
    let picks = lemma_kept_so_far(raw, candidates, clusters);
}

/// The language model is shown every candidate on a line of its own, under the number by
/// which it names the candidate in its answer, with its type and its claim.
pub proof fn lemma_candidates_are_shown_by_number(candidates: Seq<Candidate>, i: int)
    requires
        0 <= i < candidates.len(),
    ensures
        candidate_lines(synthesis::candidate_views(candidates)).len() == candidates.len() + 1,
        candidate_lines(synthesis::candidate_views(candidates))[i + 1] == "["@ + text::decimal(
            i as nat,
        ) + "] ("@ + candidates[i].memory_type@ + ") "@ + candidates[i].claim@,
{
    assert(synthesis::candidate_views(candidates)[i] == candidates[i]@);
}

} // verus!
