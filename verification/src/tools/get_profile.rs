//! `get_profile`: the working model of a person, best first.

use vstd::prelude::*;

use crate::consolidated::{self, rank};
use crate::db::{self, copy_opt_json, MemoryRow, RowView};
use crate::error::{self, ChittaError};
use crate::facets::Facets;
use crate::ids::MemoryId;
use crate::json::{self, Json};
use crate::text::{self, copy_strings};
use crate::time::Timestamp;
use crate::tools::validate;

verus! {

/// The name of the tool.
pub const TOOL: &'static str = "get_profile";

/// The most entries of a profile.
pub const PROFILE_LIMIT: usize = 30;

/// The arguments of the tool.
#[derive(Debug, PartialEq, Eq)]
pub struct GetProfileArgs {
    /// Profile to load the working model for.
    pub profile: String,
}

/// One entry of a profile. The confidence and the score are held by their bits.
#[derive(Debug, PartialEq, Eq)]
pub struct ProfileEntry {
    pub id: MemoryId,
    pub content: String,
    pub memory_type: String,
    pub confidence: u32,
    pub effective_score: u32,
    pub event_time: Timestamp,
    pub record_time: Timestamp,
    pub tags: Vec<String>,
    pub metadata: Option<Json>,
    pub facets: Facets,
    pub reinforcement_count: i32,
    pub last_reinforced_at: Option<Timestamp>,
}

/// What the tool returns.
#[derive(Debug, PartialEq, Eq)]
pub struct GetProfileOutput {
    pub profile: String,
    pub entries: Vec<ProfileEntry>,
    pub total_candidates: usize,
    pub truncated: bool,
}

/// Checks the tool's arguments.
pub fn check_args(args: &GetProfileArgs) -> (r: Result<(), ChittaError>)
    ensures
        error::outcome(r) == validate::profile_check(TOOL@, args.profile@),
{
    validate::profile(TOOL, args.profile.as_str())
}

/// The bits of an optional confidence, where none counts as zero.
pub open spec fn confidence_or_zero(confidence: Option<u32>) -> u32 {
    match confidence {
        Some(bits) => bits,
        None => 0,
    }
}

/// Whether an entry shows the given row with the given score.
pub open spec fn shows(entry: ProfileEntry, row: RowView, score: u32) -> bool {
    &&& entry.id == row.id
    &&& entry.content@ == row.content
    &&& entry.memory_type@ == row.memory_type
    &&& entry.confidence == confidence_or_zero(row.confidence)
    &&& entry.effective_score == score
    &&& entry.event_time == row.event_time
    &&& entry.record_time == row.record_time
    &&& text::texts(entry.tags@) == row.tags
    &&& json::opt_json(entry.metadata) == row.metadata
    &&& entry.facets@ == row.facets
    &&& entry.reinforcement_count == row.reinforcement_count
    &&& entry.last_reinforced_at == row.last_reinforced_at
}

/// Whether the entries are the first of the rows in the given order, up to
/// [`PROFILE_LIMIT`] of them.
pub open spec fn is_profile(
    entries: Seq<ProfileEntry>,
    rows: Seq<RowView>,
    scores: Seq<u32>,
    order: Seq<usize>,
) -> bool {
    &&& crate::order::is_stable_order(consolidated::rank_keys(rows, scores), order)
    &&& entries.len() == if rows.len() <= PROFILE_LIMIT {
        rows.len()
    } else {
        PROFILE_LIMIT as nat
    }
    &&& forall|i: int|
        0 <= i < entries.len() ==> shows(
            #[trigger] entries[i],
            rows[order[i] as int],
            scores[order[i] as int],
        )
}

/// The profile made of the candidates: `scores` holds the bits of the decayed
/// confidence of each. The best entries come first, and no more than
/// [`PROFILE_LIMIT`].
pub fn assemble(profile: String, candidates: Vec<MemoryRow>, scores: &[u32]) -> (r:
    GetProfileOutput)
    requires
        candidates@.len() == scores@.len(),
    ensures
        r.profile == profile,
        r.total_candidates == candidates@.len(),
        r.truncated == (candidates@.len() > PROFILE_LIMIT),
        r.entries@.len() <= PROFILE_LIMIT,
        exists|order: Seq<usize>| #[trigger]
            is_profile(r.entries@, db::row_views(candidates@), scores@, order),
        r.total_candidates > 30 <==> r.truncated,
        forall|i: int|
            0 <= i < r.entries@.len() ==> shows_some_row(#[trigger] r.entries@[i], candidates@, scores@),
        crate::order::all_numbers(scores@) ==> is_best_of(r.entries@, candidates@, scores@),
{
    let total: usize = candidates.len();
    let ghost given = candidates@;
    let ghost rows = db::row_views(candidates@);
    let ranked = rank(candidates, scores);
    let ghost order = choose|order: Seq<usize>| #[trigger]
        crate::order::is_stable_order(consolidated::rank_keys(rows, scores@), order)
            && consolidated::is_reordered(ranked@, rows, scores@, order);
    let n: usize = if total <= PROFILE_LIMIT {
        total
    } else {
        PROFILE_LIMIT
    };
    let mut entries: Vec<ProfileEntry> = Vec::new();
    for i in 0..n
        invariant
            n <= ranked@.len(),
            consolidated::is_reordered(ranked@, rows, scores@, order),
            entries@.len() == i,
            forall|j: int|
                0 <= j < i ==> shows(
                    #[trigger] entries@[j],
                    rows[order[j] as int],
                    scores@[order[j] as int],
                ),
    {
        let score: u32 = ranked[i].0;
        let row = &ranked[i].1;
        let confidence: u32 = match row.confidence {
            Some(bits) => bits,
            None => 0,
        };
        entries.push(
            ProfileEntry {
                id: row.id,
                content: row.content.clone(),
                memory_type: row.memory_type.clone(),
                confidence,
                effective_score: score,
                event_time: row.event_time,
                record_time: row.record_time,
                tags: copy_strings(row.tags.as_slice()),
                metadata: copy_opt_json(&row.metadata),
                facets: row.facets.copy(),
                reinforcement_count: row.reinforcement_count,
                last_reinforced_at: row.last_reinforced_at,
            },
        );
        assert(ranked@[i as int].1@ == rows[order[i as int] as int]);
    }
    let r = GetProfileOutput {
        profile,
        entries,
        total_candidates: total,
        truncated: total > PROFILE_LIMIT,
    };
    assert(is_profile(r.entries@, rows, scores@, order));
    proof {
        lemma_entries_show_their_rows(r.entries@, given, scores@, order);
        if crate::order::all_numbers(scores@) {
            lemma_profile_is_the_best(r.entries@, given, scores@, order);
        }
    }
    r
}

/// Whether the entry is the row with the score: each field is that of the row.
pub open spec fn is_entry_of(entry: ProfileEntry, row: MemoryRow, score: u32) -> bool {
    &&& entry.id == row.id
    &&& entry.content@ == row.content@
    &&& entry.memory_type@ == row.memory_type@
    &&& entry.confidence == (match row.confidence {
        Some(bits) => bits,
        None => 0,
    })
    &&& entry.effective_score == score
    &&& entry.event_time == row.event_time
    &&& entry.record_time == row.record_time
    &&& text::texts(entry.tags@) == text::texts(row.tags@)
    &&& json::opt_json(entry.metadata) == json::opt_json(row.metadata)
    &&& text::texts(entry.facets.domains@) == text::texts(row.facets.domains@)
    &&& text::texts(entry.facets.skills@) == text::texts(row.facets.skills@)
    &&& text::texts(entry.facets.projects@) == text::texts(row.facets.projects@)
    &&& text::texts(entry.facets.situations@) == text::texts(row.facets.situations@)
    &&& entry.reinforcement_count == row.reinforcement_count
    &&& entry.last_reinforced_at == row.last_reinforced_at
}

/// Whether the entry is one of the rows with its score.
pub open spec fn shows_some_row(
    entry: ProfileEntry,
    rows: Seq<MemoryRow>,
    scores: Seq<u32>,
) -> bool {
    exists|k: int| 0 <= k < rows.len() && #[trigger] is_entry_of(entry, rows[k], scores[k])
}

/// Whether the first memory comes before the second in a profile: it has the higher
/// score; or the scores are level, and it was never reinforced while the other was, or
/// was reinforced later; or both are level in that too, and it was recorded later; or
/// all of that is level, and its identifier is not higher.
pub open spec fn comes_before(
    score: u32,
    reinforced: Option<Timestamp>,
    recorded: Timestamp,
    id: MemoryId,
    other_score: u32,
    other_reinforced: Option<Timestamp>,
    other_recorded: Timestamp,
    other_id: MemoryId,
) -> bool {
    let level = !crate::floats::greater(other_score, score);
    let same = reinforced == other_reinforced || (reinforced is Some && other_reinforced is Some
        && !reinforced->0.before(other_reinforced->0) && !other_reinforced->0.before(
        reinforced->0,
    ));
    ||| crate::floats::greater(score, other_score)
    ||| level && reinforced is None && other_reinforced is Some
    ||| level && reinforced is Some && other_reinforced is Some && other_reinforced->0.before(
        reinforced->0,
    )
    ||| level && same && other_recorded.before(recorded)
    ||| level && same && !recorded.before(other_recorded) && id <= other_id
}

/// Whether a row comes before another in a profile.
pub open spec fn row_comes_before(
    rows: Seq<MemoryRow>,
    scores: Seq<u32>,
    a: int,
    b: int,
) -> bool {
    comes_before(
        scores[a],
        rows[a].last_reinforced_at,
        rows[a].record_time,
        rows[a].id,
        scores[b],
        rows[b].last_reinforced_at,
        rows[b].record_time,
        rows[b].id,
    )
}

/// Whether the entries are the best of the rows, up to thirty: `picks` are the places
/// of the rows that they show. Each comes before the next, and before every row that is
/// not shown.
pub open spec fn are_best_at(
    entries: Seq<ProfileEntry>,
    rows: Seq<MemoryRow>,
    scores: Seq<u32>,
    picks: Seq<usize>,
) -> bool {
    &&& entries.len() == picks.len()
    &&& entries.len() == (if rows.len() <= 30 {
        rows.len()
    } else {
        30
    })
    &&& picks.no_duplicates()
    &&& forall|i: int|
        0 <= i < picks.len() ==> (#[trigger] picks[i]) < rows.len() && is_entry_of(
            entries[i],
            rows[picks[i] as int],
            scores[picks[i] as int],
        )
    &&& forall|i: int, j: int|
        0 <= i < j < picks.len() ==> row_comes_before(
            rows,
            scores,
            (#[trigger] picks[i]) as int,
            (#[trigger] picks[j]) as int,
        )
    &&& forall|i: int, k: usize|
        0 <= i < picks.len() && k < rows.len() && !picks.contains(k) ==> #[trigger]
            row_comes_before(rows, scores, picks[i] as int, k as int)
}

/// Whether the entries are the best of the rows, up to thirty.
pub open spec fn is_best_of(
    entries: Seq<ProfileEntry>,
    rows: Seq<MemoryRow>,
    scores: Seq<u32>,
) -> bool {
    exists|picks: Seq<usize>| #[trigger] are_best_at(entries, rows, scores, picks)
}

proof fn lemma_entry(entry: ProfileEntry, row: MemoryRow, score: u32)
    requires
        shows(entry, row@, score),
    ensures
        is_entry_of(entry, row, score),
{
}

/// Every entry of a profile is one of the candidates, field by field, with its score.
pub proof fn lemma_entries_show_their_rows(
    entries: Seq<ProfileEntry>,
    rows: Seq<MemoryRow>,
    scores: Seq<u32>,
    order: Seq<usize>,
)
    requires
        is_profile(entries, db::row_views(rows), scores, order),
    ensures
        forall|i: int|
            0 <= i < entries.len() ==> shows_some_row(#[trigger] entries[i], rows, scores),
{
    let views = db::row_views(rows);
    assert forall|i: int| 0 <= i < entries.len() implies shows_some_row(
        #[trigger] entries[i],
        rows,
        scores,
    ) by {
        let k = order[i] as int;
        assert(views[k] == rows[k]@);
        lemma_entry(entries[i], rows[k], scores[k]);
        assert(is_entry_of(entries[i], rows[k], scores[k]));
    }
}

/// A profile shows the best candidates, best first, up to thirty, and leaves out none
/// that is better than one that it shows, where every score is a number.
pub proof fn lemma_profile_is_the_best(
    entries: Seq<ProfileEntry>,
    rows: Seq<MemoryRow>,
    scores: Seq<u32>,
    order: Seq<usize>,
)
    requires
        is_profile(entries, db::row_views(rows), scores, order),
        rows.len() == scores.len(),
        crate::order::all_numbers(scores),
    ensures
        is_best_of(entries, rows, scores),
{
    let views = db::row_views(rows);
    let keys = consolidated::rank_keys(views, scores);
    consolidated::lemma_numbers_rank_consistently(views, scores);
    let picks = order.take(entries.len() as int);
    assert forall|i: int| 0 <= i < picks.len() implies (#[trigger] picks[i]) < rows.len()
        && is_entry_of(entries[i], rows[picks[i] as int], scores[picks[i] as int]) by {
        assert(picks[i] == order[i]);
        let k = order[i] as int;
        assert(views[k] == rows[k]@);
        lemma_entry(entries[i], rows[k], scores[k]);
    }
    assert forall|i: int, j: int| 0 <= i < j < order.len() implies row_comes_before(
        rows,
        scores,
        (#[trigger] order[i]) as int,
        (#[trigger] order[j]) as int,
    ) by {
        assert(crate::order::in_place(keys, order[i], order[j]));
        let a = order[i] as int;
        let b = order[j] as int;
        assert(views[a] == rows[a]@ && views[b] == rows[b]@);
        assert(keys[a] == consolidated::rank_key(views[a], scores[a]));
        assert(keys[b] == consolidated::rank_key(views[b], scores[b]));
    }
    assert forall|i: int, j: int| 0 <= i < j < picks.len() implies row_comes_before(
        rows,
        scores,
        (#[trigger] picks[i]) as int,
        (#[trigger] picks[j]) as int,
    ) by {
        assert(picks[i] == order[i] && picks[j] == order[j]);
    }
    assert forall|i: int, k: usize|
        0 <= i < picks.len() && k < rows.len() && !picks.contains(k) implies #[trigger]
        row_comes_before(rows, scores, picks[i] as int, k as int) by {
        crate::order::lemma_stable_order_is_complete(keys, order, k);
        let j = choose|j: int| 0 <= j < order.len() && order[j] == k;
        if j < picks.len() {
            assert(picks[j] == k);
        }
        assert(picks[i] == order[i]);
        assert(row_comes_before(rows, scores, order[i] as int, order[j] as int));
    }
    assert(are_best_at(entries, rows, scores, picks));
}

/// The scores of a profile never rise from one entry to a later one, where every
/// score is a number.
pub proof fn lemma_profile_is_ranked(
    entries: Seq<ProfileEntry>,
    rows: Seq<RowView>,
    scores: Seq<u32>,
    order: Seq<usize>,
    i: int,
    j: int,
)
    requires
        is_profile(entries, rows, scores, order),
        rows.len() == scores.len(),
        crate::order::all_numbers(scores),
        0 <= i < j < entries.len(),
    ensures
        !crate::floats::greater(entries[j].effective_score, entries[i].effective_score),
{
    let keys = consolidated::rank_keys(rows, scores);
    consolidated::lemma_numbers_rank_consistently(rows, scores);
    assert(crate::order::in_place(keys, order[i], order[j]));
    assert(shows(entries[i], rows[order[i] as int], scores[order[i] as int]));
    assert(shows(entries[j], rows[order[j] as int], scores[order[j] as int]));
}

/// A profile shows thirty memories at most.
pub proof fn lemma_thirty_are_shown()
    ensures
        PROFILE_LIMIT == 30,
{
}

} // verus!
