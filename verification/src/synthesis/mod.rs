//! Synthesis: how raw memories become consolidated ones. A language model draws
//! claims from each raw memory and groups them; groups that are large, spread
//! out and recent enough become consolidated memories, and take the place of
//! memories that they contradict.

use vstd::prelude::*;

use crate::ids::MemoryId;
use crate::text::{self, starts_with, strip_prefix_or_self, strip_suffix_or_self, trim};

pub mod clustering;
pub mod contradiction;
pub mod disagree;
pub mod emission;
pub mod extraction;
pub mod run;
pub mod threshold;
pub mod writing;

pub use clustering::cluster_candidates;
pub use contradiction::detect_contradiction;
pub use disagree::find_disagree_targets;
pub use emission::{emission_confidence, SupersessionResult};
pub use extraction::extract_candidates;
pub use run::SynthesisResult;
pub use threshold::check_threshold;

verus! {

/// How long, in seconds, the language model may take to answer.
pub const LLM_TIMEOUT_SECS: u64 = 60;

/// A claim that was drawn from a raw memory.
#[derive(Debug, PartialEq, Eq)]
pub struct Candidate {
    pub memory_type: String,
    pub claim: String,
    pub source_id: MemoryId,
}

/// What a [`Candidate`] stands for.
pub struct CandidateView {
    pub memory_type: Seq<char>,
    pub claim: Seq<char>,
    pub source_id: MemoryId,
}

impl View for Candidate {
    type V = CandidateView;

    open spec fn view(&self) -> CandidateView {
        CandidateView {
            memory_type: self.memory_type@,
            claim: self.claim@,
            source_id: self.source_id,
        }
    }
}

/// The views of candidates.
pub open spec fn candidate_views(v: Seq<Candidate>) -> Seq<CandidateView> {
    v.map_values(|c: Candidate| c@)
}

/// What came of drawing claims from raw memories.
#[derive(Debug, PartialEq, Eq)]
pub struct ExtractionStats {
    pub candidates: Vec<Candidate>,
    pub rows_scanned: usize,
    pub rows_skipped: usize,
    pub extraction_errors: usize,
}

/// Claims that say the same, under the one that says it best.
#[derive(Debug, PartialEq, Eq)]
pub struct Cluster {
    pub representative_claim: String,
    pub memory_type: String,
    pub source_ids: Vec<MemoryId>,
}

/// What a [`Cluster`] stands for.
#[verifier::ext_equal]
pub struct ClusterView {
    pub representative_claim: Seq<char>,
    pub memory_type: Seq<char>,
    pub source_ids: Seq<MemoryId>,
}

impl View for Cluster {
    type V = ClusterView;

    open spec fn view(&self) -> ClusterView {
        ClusterView {
            representative_claim: self.representative_claim@,
            memory_type: self.memory_type@,
            source_ids: self.source_ids@,
        }
    }
}

impl Cluster {
    /// A copy of the cluster.
    pub fn copy(&self) -> (r: Cluster)
        ensures
            r@ == self@,
    {
        let mut source_ids: Vec<MemoryId> = Vec::new();
        for i in 0..self.source_ids.len()
            invariant
                source_ids@ == self.source_ids@.take(i as int),
        {
            source_ids.push(self.source_ids[i]);
            assert(source_ids@ =~= self.source_ids@.take(i + 1));
        }
        assert(source_ids@ =~= self.source_ids@);
        Cluster {
            representative_claim: self.representative_claim.clone(),
            memory_type: self.memory_type.clone(),
            source_ids,
        }
    }
}

/// The views of clusters.
pub open spec fn cluster_views(v: Seq<Cluster>) -> Seq<ClusterView> {
    v.map_values(|c: Cluster| c@)
}

/// When a cluster becomes a consolidated memory.
#[derive(Clone, Copy, Debug, PartialEq, Eq, Structural)]
pub struct ThresholdConfig {
    /// The fewest sources.
    pub min_cluster_size: usize,
    /// The fewest days that the sources fall on.
    pub min_distinct_days: usize,
    /// How many days ago the latest source may be.
    pub max_source_age_days: i64,
}

impl Default for ThresholdConfig {
    fn default() -> (r: ThresholdConfig)
        ensures
            r.min_cluster_size == 5,
            r.min_distinct_days == 2,
            r.max_source_age_days == 90,
    {
        ThresholdConfig { min_cluster_size: 5, min_distinct_days: 2, max_source_age_days: 90 }
    }
}

impl ThresholdConfig {
    /// The default thresholds, with those replaced that are given.
    pub fn with_overrides(
        min_cluster_size: Option<usize>,
        min_distinct_days: Option<usize>,
        max_source_age_days: Option<i64>,
    ) -> (r: ThresholdConfig)
        ensures
            r.min_cluster_size == (match min_cluster_size {
                Some(n) => n,
                None => 5usize,
            }),
            r.min_distinct_days == (match min_distinct_days {
                Some(n) => n,
                None => 2usize,
            }),
            r.max_source_age_days == (match max_source_age_days {
                Some(n) => n,
                None => 90i64,
            }),
    {
        let mut r = ThresholdConfig::default();
        match min_cluster_size {
            Some(n) => {
                r.min_cluster_size = n;
            },
            None => {},
        }
        match min_distinct_days {
            Some(n) => {
                r.min_distinct_days = n;
            },
            None => {},
        }
        match max_source_age_days {
            Some(n) => {
                r.max_source_age_days = n;
            },
            None => {},
        }
        r
    }
}

/// A consolidated memory that a new claim contradicts.
#[derive(Debug, PartialEq, Eq)]
pub struct Contradiction {
    pub existing_id: MemoryId,
    pub existing_claim: String,
    pub shift_description: String,
}

/// What a [`Contradiction`] stands for.
pub struct ContradictionView {
    pub existing_id: MemoryId,
    pub existing_claim: Seq<char>,
    pub shift_description: Seq<char>,
}

impl View for Contradiction {
    type V = ContradictionView;

    open spec fn view(&self) -> ContradictionView {
        ContradictionView {
            existing_id: self.existing_id,
            existing_claim: self.existing_claim@,
            shift_description: self.shift_description@,
        }
    }
}

/// `s` without the Markdown fence around it, and without white space around what
/// is left.
pub open spec fn without_fences(s: Seq<char>) -> Seq<char> {
    let opened = if text::has_prefix(s, "```json"@) {
        text::without_prefix(s, "```json"@)
    } else {
        text::without_prefix(s, "```"@)
    };
    text::trimmed(text::without_suffix(opened, "```"@))
}

/// The text without the Markdown fence around it, and without white space around
/// what is left.
pub fn strip_markdown_fences<'a>(s: &'a str) -> (r: &'a str)
    ensures
        r@ == without_fences(s@),
{
    let opened = if starts_with(s, "```json") {
        strip_prefix_or_self(s, "```json")
    } else {
        strip_prefix_or_self(s, "```")
    };
    trim(strip_suffix_or_self(opened, "```"))
}

/// The JSON text in an answer of the language model, which may put a Markdown
/// fence around it.
pub fn json_text<'a>(response: &'a str) -> (r: &'a str)
    ensures
        r@ == without_fences(text::trimmed(response@)),
{
    strip_markdown_fences(trim(response))
}

/// What stands between two fences is taken out of them, whether or not the first names
/// JSON; a text without fences stays as it is; and there is no white space around it.
pub proof fn lemma_fences_are_taken_off(s: Seq<char>)
    ensures
        without_fences("```json"@ + s + "```"@) == text::trimmed(s),
        !text::has_prefix(s + "```"@, "json"@) ==> without_fences("```"@ + s + "```"@)
            == text::trimmed(s),
        !text::has_prefix(s, "```"@) && !text::has_suffix(s, "```"@) ==> without_fences(s)
            == text::trimmed(s),
{
    reveal_strlit("```json");
    reveal_strlit("```");
    reveal_strlit("json");
    let open = "```json"@;
    let fence = "```"@;
    assert(open =~= fence + "json"@);
    let a = open + s + fence;
    assert(a =~= open + (s + fence));
    text::lemma_ends_of_texts(a, open, s + fence);
    text::lemma_ends_of_texts(s + fence, fence, s);
    let b = fence + s + fence;
    assert(b =~= fence + (s + fence));
    text::lemma_ends_of_texts(b, fence, s + fence);
    if text::has_prefix(b, open) {
        let rest = s + fence;
        assert(open.len() == 7 && fence.len() == 3 && "json"@.len() == 4);
        assert(rest.take(4) =~= b.subrange(3, 7));
        assert(b.take(7) =~= open);
        assert(b.subrange(3, 7) =~= b.take(7).skip(3));
        assert(open.skip(3) =~= "json"@);
        assert(text::has_prefix(rest, "json"@));
    }
    if text::has_prefix(s, open) {
        assert(s.take(3) =~= s.take(7).take(3));
        assert(open.take(3) =~= fence);
        assert(text::has_prefix(s, fence));
    }
}

} // verus!
