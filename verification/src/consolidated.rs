//! Consolidated memories: the traits, values, patterns, preferences and mental
//! models that the working model is made of, and how they are ranked.

use vstd::prelude::*;

use crate::db::{MemoryRow, RowView};
use crate::floats;
use crate::ids::MemoryId;
use crate::order::{stable_order, Ranked};
use crate::text::str_eq;
use crate::time::Timestamp;

verus! {

/// The types of consolidated memories.
pub const CONSOLIDATED_TYPES: [&'static str; 5] = [
    "trait",
    "value",
    "pattern",
    "preference",
    "mental_model",
];

/// Whether a memory of the given type is consolidated.
pub open spec fn consolidated_type(memory_type: Seq<char>) -> bool {
    ||| memory_type == "trait"@
    ||| memory_type == "value"@
    ||| memory_type == "pattern"@
    ||| memory_type == "preference"@
    ||| memory_type == "mental_model"@
}

/// The types of consolidated memories are those of [`CONSOLIDATED_TYPES`], and the
/// types that a memory can have are these and the three types of raw memories.
pub proof fn lemma_consolidated_types(memory_type: Seq<char>)
    ensures
        consolidated_type(memory_type) <==> exists|i: int|
            0 <= i < 5 && (#[trigger] CONSOLIDATED_TYPES@[i])@ == memory_type,
        crate::tools::validate::memory_type_ok(memory_type) <==> consolidated_type(memory_type)
            || memory_type == "observation"@ || memory_type == "episode"@ || memory_type
            == "decision"@,
{
    let types = CONSOLIDATED_TYPES@;
    assert(types[0]@ == "trait"@);
    assert(types[1]@ == "value"@);
    assert(types[2]@ == "pattern"@);
    assert(types[3]@ == "preference"@);
    assert(types[4]@ == "mental_model"@);
}

/// Whether a memory of the given type is consolidated.
pub fn is_consolidated(memory_type: &str) -> (r: bool)
    ensures
        r == consolidated_type(memory_type@),
{
    str_eq(memory_type, "trait") || str_eq(memory_type, "value") || str_eq(memory_type, "pattern")
        || str_eq(memory_type, "preference") || str_eq(memory_type, "mental_model")
}

/// Whether a row holds: nothing took its place, and it was not withdrawn.
pub fn is_active(row: &MemoryRow) -> (r: bool)
    ensures
        r == row@.active(),
{
    row.superseded_by.is_none() && row.invalidated_at.is_none()
}

// ---- Decay ----------------------------------------------------------------------

/// The days after which a confidence that was not reinforced has halved.
pub const HALF_LIFE_DAYS: u32 = 180;

/// The whole seconds from `start` to `now`; zero where `now` is not later.
pub open spec fn seconds_since(start: Timestamp, now: Timestamp) -> int {
    let whole = now.secs - start.secs - if now.nanos < start.nanos {
        1int
    } else {
        0
    };
    if whole > 0 {
        whole
    } else {
        0
    }
}

/// Since when a confidence decays: since the memory was last reinforced, or since
/// it was recorded where it never was.
pub open spec fn decay_start(
    last_reinforced_at: Option<Timestamp>,
    record_time: Timestamp,
) -> Timestamp {
    match last_reinforced_at {
        Some(t) => t,
        None => record_time,
    }
}

/// The whole seconds from `start` to `now`; zero where `now` is not later.
pub fn age_seconds(start: Timestamp, now: Timestamp) -> (r: u64)
    ensures
        r == seconds_since(start, now),
{
    let borrow: i128 = if now.nanos < start.nanos {
        1
    } else {
        0
    };
    let whole: i128 = now.secs as i128 - start.secs as i128 - borrow;
    if whole > 0 {
        whole as u64
    } else {
        0
    }
}

/// For how many seconds a memory's confidence has decayed.
pub fn decay_seconds(
    last_reinforced_at: Option<Timestamp>,
    record_time: Timestamp,
    now: Timestamp,
) -> (r: u64)
    ensures
        r == seconds_since(decay_start(last_reinforced_at, record_time), now),
{
    let start = match last_reinforced_at {
        Some(t) => t,
        None => record_time,
    };
    age_seconds(start, now)
}

/// A memory that was never reinforced decays as one that was reinforced when it
/// was recorded.
pub proof fn lemma_never_reinforced_decays_from_record_time(record_time: Timestamp, now: Timestamp)
    ensures
        seconds_since(decay_start(None, record_time), now) == seconds_since(
            decay_start(Some(record_time), record_time),
            now,
        ),
{
}

/// A later reinforcement never makes a memory older.
pub proof fn lemma_reinforcement_resets_decay(earlier: Timestamp, later: Timestamp, now: Timestamp)
    requires
        earlier.before(later),
    ensures
        seconds_since(later, now) <= seconds_since(earlier, now),
{
}

/// The seconds that are counted are the whole ones: no more than have passed since the
/// start, and one more would be too many. Where the start is still to come, none are.
pub proof fn lemma_whole_seconds_are_counted(start: Timestamp, now: Timestamp)
    requires
        start.nanos < 1_000_000_000,
        now.nanos < 1_000_000_000,
    ensures
        ({
            let passed = crate::time::instant(now) - crate::time::instant(start);
            let counted = seconds_since(start, now);
            &&& passed < 0 ==> counted == 0
            &&& passed >= 0 ==> counted * 1_000_000_000 <= passed < (counted + 1) * 1_000_000_000
        }),
{
}

// ---- Ranking --------------------------------------------------------------------

/// What a memory is ranked by.
#[derive(Clone, Copy, Debug, PartialEq, Eq)]
pub struct RankKey {
    /// The bits of the decayed confidence.
    pub score: u32,
    pub last_reinforced_at: Option<Timestamp>,
    pub record_time: Timestamp,
    pub id: MemoryId,
}

/// How `a` stands to `b` where the later time comes first: below zero before,
/// zero level, above zero behind.
pub open spec fn later_first(a: Timestamp, b: Timestamp) -> int {
    if b.before(a) {
        -1
    } else if a.before(b) {
        1
    } else {
        0
    }
}

/// How `a` stands to `b` where no time comes before any time, and of two times the
/// later comes first.
pub open spec fn by_reinforcement(a: Option<Timestamp>, b: Option<Timestamp>) -> int {
    match (a, b) {
        (Some(x), Some(y)) => later_first(x, y),
        (Some(_), None) => 1,
        (None, Some(_)) => -1,
        (None, None) => 0,
    }
}

impl RankKey {
    /// How `self` stands to `other`: the higher score comes first, where both are
    /// numbers; then what was
    /// never reinforced, and after that what was reinforced later; then what was
    /// recorded later; then the lower identifier.
    pub open spec fn standing(self, other: RankKey) -> int {
        let by_score = if floats::greater(self.score, other.score) {
            -1int
        } else if floats::greater(other.score, self.score) {
            1int
        } else {
            0int
        };
        let by_reinforced = by_reinforcement(self.last_reinforced_at, other.last_reinforced_at);
        let by_recorded = later_first(self.record_time, other.record_time);
        if by_score != 0 {
            by_score
        } else if by_reinforced != 0 {
            by_reinforced
        } else if by_recorded != 0 {
            by_recorded
        } else {
            self.id - other.id
        }
    }
}

impl Ranked for RankKey {
    open spec fn le(&self, other: &Self) -> bool {
        self.standing(*other) <= 0
    }

    proof fn lemma_le_total(&self, other: &Self) {
    }

    fn is_le(&self, other: &Self) -> (r: bool) {
        if floats::is_greater(self.score, other.score) {
            return true;
        }
        if floats::is_greater(other.score, self.score) {
            return false;
        }
        match (self.last_reinforced_at, other.last_reinforced_at) {
            (Some(x), Some(y)) => {
                if y.is_before(&x) {
                    return true;
                }
                if x.is_before(&y) {
                    return false;
                }
            },
            (Some(_), None) => {
                return false;
            },
            (None, Some(_)) => {
                return true;
            },
            (None, None) => {},
        }
        if other.record_time.is_before(&self.record_time) {
            return true;
        }
        if self.record_time.is_before(&other.record_time) {
            return false;
        }
        self.id <= other.id
    }
}

/// What a row with the given score is ranked by.
pub open spec fn rank_key(row: RowView, score: u32) -> RankKey {
    RankKey {
        score,
        last_reinforced_at: row.last_reinforced_at,
        record_time: row.record_time,
        id: row.id,
    }
}

/// What the rows are ranked by.
pub open spec fn rank_keys(rows: Seq<RowView>, scores: Seq<u32>) -> Seq<RankKey> {
    Seq::new(rows.len(), |i: int| rank_key(rows[i], scores[i]))
}

/// Where every score is a number, the comparison of rows is an order: the ranking
/// is determined.
pub proof fn lemma_numbers_rank_consistently(rows: Seq<RowView>, scores: Seq<u32>)
    requires
        rows.len() == scores.len(),
        crate::order::all_numbers(scores),
    ensures
        crate::order::consistent(rank_keys(rows, scores)),
{
    let keys = rank_keys(rows, scores);
    assert forall|a: int, b: int, c: int|
        #![trigger keys[a], keys[b], keys[c]]
        0 <= a < keys.len() && 0 <= b < keys.len() && 0 <= c < keys.len() && keys[a].le(&keys[b])
            && keys[b].le(&keys[c]) implies keys[a].le(&keys[c]) by {
        assert(!floats::nan(scores[a]));
        assert(!floats::nan(scores[b]));
        assert(!floats::nan(scores[c]));
    }
}

/// Whether `ranked` are the rows with their scores, put into the given order.
pub open spec fn is_reordered(
    ranked: Seq<(u32, MemoryRow)>,
    rows: Seq<RowView>,
    scores: Seq<u32>,
    order: Seq<usize>,
) -> bool {
    &&& ranked.len() == order.len()
    &&& forall|i: int|
        0 <= i < ranked.len() ==> (#[trigger] ranked[i]).0 == scores[order[i] as int]
            && ranked[i].1@ == rows[order[i] as int]
}

/// Ranks rows by their decayed confidence: `scores` holds the bits of each row's.
/// Level rows are told apart by when they were reinforced, when they were
/// recorded, and their identifiers.
pub fn rank(rows: Vec<MemoryRow>, scores: &[u32]) -> (r: Vec<(u32, MemoryRow)>)
    requires
        rows@.len() == scores@.len(),
    ensures
        exists|order: Seq<usize>| #[trigger]
            crate::order::is_stable_order(
                rank_keys(crate::db::row_views(rows@), scores@),
                order,
            ) && is_reordered(r@, crate::db::row_views(rows@), scores@, order),
{
    let ghost views = crate::db::row_views(rows@);
    let mut keys: Vec<RankKey> = Vec::new();
    for i in 0..rows.len()
        invariant
            rows@.len() == scores@.len(),
            views == crate::db::row_views(rows@),
            keys@.len() == i,
            forall|j: int| 0 <= j < i ==> #[trigger] keys@[j] == rank_key(views[j], scores@[j]),
    {
        keys.push(
            RankKey {
                score: scores[i],
                last_reinforced_at: rows[i].last_reinforced_at,
                record_time: rows[i].record_time,
                id: rows[i].id,
            },
        );
    }
    assert(keys@ =~= rank_keys(views, scores@));
    let order = stable_order(keys.as_slice());
    let mut r: Vec<(u32, MemoryRow)> = Vec::new();
    for i in 0..order.len()
        invariant
            rows@.len() == scores@.len(),
            views == crate::db::row_views(rows@),
            order@.len() == rows@.len(),
            forall|j: int| 0 <= j < order@.len() ==> #[trigger] order@[j] < rows@.len(),
            r@.len() == i,
            forall|j: int|
                0 <= j < i ==> (#[trigger] r@[j]).0 == scores@[order@[j] as int] && r@[j].1@
                    == views[order@[j] as int],
    {
        let at: usize = order[i];
        r.push((scores[at], rows[at].copy()));
    }
    assert(is_reordered(r@, views, scores@, order@));
    r
}

} // verus!
