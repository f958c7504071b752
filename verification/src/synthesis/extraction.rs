//! Drawing claims from raw memories.

use vstd::prelude::*;
use vstd::string::*;

use crate::consolidated::{self, is_consolidated};
use crate::db::{MemoryRow, RowView};
use crate::error::{self, ChittaError, ErrorView};
use crate::ids::MemoryId;
use crate::synthesis::{self, Candidate, CandidateView, ExtractionStats};
use crate::text::{self, concat2, join};

verus! {

/// What the language model is told of its task.
pub const SYSTEM_PROMPT: &'static str =
    "You extract consolidated claims about a person from raw memory entries. Each claim is a single, self-contained statement about a trait, value, pattern, preference, or mental model. Return a JSON array (possibly empty). Each element: {\"memory_type\": \"<trait|value|pattern|preference|mental_model>\", \"claim\": \"<statement>\"}. Return ONLY the JSON array, no markdown fences, no commentary.";

/// What the language model is shown of a raw memory.
pub open spec fn prompt_text(row: RowView) -> Seq<char> {
    "Memory type: "@ + row.memory_type + "\nTags: "@ + text::joined(row.tags, ", "@)
        + "\nContent:\n"@ + row.content
}

/// What the language model is shown of a raw memory: its type, its tags and its
/// content.
pub fn user_prompt(row: &MemoryRow) -> (r: String)
    ensures
        r@ == prompt_text(row@),
{
    let mut r = "Memory type: ".to_owned();
    r.append(row.memory_type.as_str());
    r.append("\nTags: ");
    r.append(join(row.tags.as_slice(), ", ").as_str());
    r.append("\nContent:\n");
    r.append(row.content.as_str());
    r
}

/// A claim as the language model gives it.
#[derive(Debug, PartialEq, Eq)]
pub struct RawCandidate {
    pub memory_type: String,
    pub claim: String,
}

/// Whether a claim as the language model gives it is taken: its type is that of
/// a consolidated memory, and it says something.
pub open spec fn is_taken(raw: RawCandidate) -> bool {
    consolidated::consolidated_type(raw.memory_type@) && raw.claim@.len() > 0
}

/// The candidates among what the language model drew from one memory.
pub open spec fn selected(raw: Seq<RawCandidate>, source_id: MemoryId) -> Seq<CandidateView>
    decreases raw.len(),
{
    if raw.len() == 0 {
        Seq::empty()
    } else {
        let before = selected(raw.drop_last(), source_id);
        let last = raw.last();
        if is_taken(last) {
            before.push(
                CandidateView { memory_type: last.memory_type@, claim: last.claim@, source_id },
            )
        } else {
            before
        }
    }
}

/// The view of candidates or of an error.
pub open spec fn candidates_outcome(r: Result<Vec<Candidate>, ChittaError>) -> Result<
    Seq<CandidateView>,
    ErrorView,
> {
    match r {
        Ok(v) => Ok(synthesis::candidate_views(v@)),
        Err(e) => Err(e@),
    }
}

/// The candidates in an answer of the language model: `parsed` is what its JSON
/// was read as, or the words in which the parser refused it.
pub fn parse_response(parsed: Result<Vec<RawCandidate>, String>, source_id: MemoryId) -> (r: Result<
    Vec<Candidate>,
    ChittaError,
>)
    ensures
        candidates_outcome(r) == match parsed {
            Ok(raw) => Ok(selected(raw@, source_id)),
            Err(words) => Err(
                ErrorView::Internal("LLM returned unparseable JSON: "@ + words@),
            ),
        },
        parsed is Ok <==> r is Ok,
        r is Ok ==> exists|at: Seq<int>| #[trigger]
            are_kept(r->Ok_0@, parsed->Ok_0@, source_id, at),
{
    match parsed {
        Err(words) => Err(
            ChittaError::Internal(concat2("LLM returned unparseable JSON: ", words.as_str())),
        ),
        Ok(raw) => {
            let mut r: Vec<Candidate> = Vec::new();
            assert(synthesis::candidate_views(r@) =~= Seq::<CandidateView>::empty());
            for i in 0..raw.len()
                invariant
                    synthesis::candidate_views(r@) == selected(raw@.take(i as int), source_id),
            {
                let ghost before = r@;
                assert(raw@.take(i + 1).drop_last() =~= raw@.take(i as int));
                if is_consolidated(raw[i].memory_type.as_str())
                    && raw[i].claim.as_str().unicode_len() > 0 {
                    r.push(
                        Candidate {
                            memory_type: raw[i].memory_type.clone(),
                            claim: raw[i].claim.clone(),
                            source_id,
                        },
                    );
                    assert(synthesis::candidate_views(r@) =~= synthesis::candidate_views(
                        before,
                    ).push(r@[before.len() as int]@));
                }
            }
            assert(raw@.take(raw@.len() as int) =~= raw@);
            proof {
                let at = lemma_claims_are_kept(r@, raw@, source_id);
                assert(are_kept(r@, raw@, source_id, at));
            }
            Ok(r)
        },
    }
}

/// The candidates of all answers, in order.
pub open spec fn all_candidates(outcomes: Seq<Result<Vec<Candidate>, ChittaError>>) -> Seq<
    CandidateView,
>
    decreases outcomes.len(),
{
    if outcomes.len() == 0 {
        Seq::empty()
    } else {
        let before = all_candidates(outcomes.drop_last());
        match outcomes.last() {
            Ok(v) => before + synthesis::candidate_views(v@),
            Err(_) => before,
        }
    }
}

/// How many of the answers hold no candidate.
pub open spec fn empty_answers(outcomes: Seq<Result<Vec<Candidate>, ChittaError>>) -> nat
    decreases outcomes.len(),
{
    if outcomes.len() == 0 {
        0
    } else {
        empty_answers(outcomes.drop_last()) + match outcomes.last() {
            Ok(v) => if v@.len() == 0 {
                1nat
            } else {
                0nat
            },
            Err(_) => 0nat,
        }
    }
}

/// How many of the answers failed.
pub open spec fn failed_answers(outcomes: Seq<Result<Vec<Candidate>, ChittaError>>) -> nat
    decreases outcomes.len(),
{
    if outcomes.len() == 0 {
        0
    } else {
        failed_answers(outcomes.drop_last()) + if outcomes.last() is Err {
            1nat
        } else {
            0nat
        }
    }
}

/// Puts together what was drawn from each raw memory: `outcomes` holds, for each,
/// the candidates or the error. An error costs the candidates of its memory and
/// nothing else.
pub fn extract_candidates(outcomes: Vec<Result<Vec<Candidate>, ChittaError>>) -> (r:
    ExtractionStats)
    ensures
        synthesis::candidate_views(r.candidates@) == all_candidates(outcomes@),
        r.rows_scanned == outcomes@.len(),
        r.rows_skipped == empty_answers(outcomes@),
        r.extraction_errors == failed_answers(outcomes@),
        r.rows_skipped + r.extraction_errors <= r.rows_scanned,
{
    let total: usize = outcomes.len();
    let mut candidates: Vec<Candidate> = Vec::new();
    let mut skipped: usize = 0;
    let mut errors: usize = 0;
    let ghost all = outcomes@;
    assert(synthesis::candidate_views(candidates@) =~= Seq::<CandidateView>::empty());
    for i in 0..outcomes.len()
        invariant
            all == outcomes@,
            synthesis::candidate_views(candidates@) == all_candidates(all.take(i as int)),
            skipped == empty_answers(all.take(i as int)),
            errors == failed_answers(all.take(i as int)),
            skipped + errors <= i,
    {
        assert(all.take(i + 1).drop_last() =~= all.take(i as int));
        match &outcomes[i] {
            Ok(found) => {
                if found.len() == 0 {
                    skipped = skipped + 1;
                }
                let ghost before = synthesis::candidate_views(candidates@);
                for j in 0..found.len()
                    invariant
                        synthesis::candidate_views(candidates@) == before
                            + synthesis::candidate_views(found@.take(j as int)),
                {
                    let ghost mid = candidates@;
                    candidates.push(
                        Candidate {
                            memory_type: found[j].memory_type.clone(),
                            claim: found[j].claim.clone(),
                            source_id: found[j].source_id,
                        },
                    );
                    assert(synthesis::candidate_views(candidates@)
                        =~= synthesis::candidate_views(mid).push(found@[j as int]@));
                    assert(synthesis::candidate_views(found@.take(j + 1))
                        =~= synthesis::candidate_views(found@.take(j as int)).push(
                        found@[j as int]@,
                    ));
                }
                assert(found@.take(found@.len() as int) =~= found@);
            },
            Err(_) => {
                errors = errors + 1;
            },
        }
    }
    assert(all.take(all.len() as int) =~= all);
    ExtractionStats {
        candidates,
        rows_scanned: total,
        rows_skipped: skipped,
        extraction_errors: errors,
    }
}

/// Every candidate that was drawn from a memory names it as its source, says
/// something, and has the type of a consolidated memory.
pub proof fn lemma_selected_candidates(raw: Seq<RawCandidate>, source_id: MemoryId)
    ensures
        selected(raw, source_id).len() <= raw.len(),
        forall|i: int|
            0 <= i < selected(raw, source_id).len() ==> {
                let c = #[trigger] selected(raw, source_id)[i];
                &&& c.source_id == source_id
                &&& c.claim.len() > 0
                &&& consolidated::consolidated_type(c.memory_type)
            },
    decreases raw.len(),
{
    if raw.len() > 0 {
        lemma_selected_candidates(raw.drop_last(), source_id);
    }
}

/// Whether a claim as the language model gives it can be kept: it says something, and is
/// of one of the types that consolidated memories have.
pub open spec fn can_be_kept(raw: RawCandidate) -> bool {
    raw.claim@.len() > 0 && (raw.memory_type@ == "trait"@ || raw.memory_type@ == "value"@
        || raw.memory_type@ == "pattern"@ || raw.memory_type@ == "preference"@
        || raw.memory_type@ == "mental_model"@)
}

/// Whether the candidates are those claims, at the places `at`, that can be kept: none is
/// left out, none is added, and each is kept as it was given and names the memory that it
/// was drawn from.
pub open spec fn are_kept(
    candidates: Seq<Candidate>,
    raw: Seq<RawCandidate>,
    source_id: MemoryId,
    at: Seq<int>,
) -> bool {
    &&& at.len() == candidates.len()
    &&& forall|k: int|
        0 <= k < at.len() ==> {
            let i = #[trigger] at[k];
            &&& 0 <= i < raw.len()
            &&& candidates[k].claim@ == raw[i].claim@
            &&& candidates[k].memory_type@ == raw[i].memory_type@
            &&& candidates[k].source_id == source_id
        }
    &&& forall|k: int, l: int| 0 <= k < l < at.len() ==> #[trigger] at[k] < #[trigger] at[l]
    &&& forall|i: int|
        0 <= i < raw.len() ==> (can_be_kept(#[trigger] raw[i]) <==> at.contains(i))
}

/// The candidates from one memory are the claims that can be kept, each once and in the
/// order in which they were given.
pub proof fn lemma_claims_are_kept(
    candidates: Seq<Candidate>,
    raw: Seq<RawCandidate>,
    source_id: MemoryId,
) -> (at: Seq<int>)
    requires
        synthesis::candidate_views(candidates) == selected(raw, source_id),
    ensures
        are_kept(candidates, raw, source_id, at),
    decreases raw.len(),
{
    let views = synthesis::candidate_views(candidates);
    assert(views.len() == candidates.len());
    if raw.len() == 0 {
        Seq::empty()
    } else {
        let rest = raw.drop_last();
        let last = raw.len() - 1;
        if is_taken(raw[last]) {
            let before = candidates.drop_last();
            assert(selected(rest, source_id) =~= views.drop_last());
            assert forall|k: int| 0 <= k < before.len() implies
                #[trigger] synthesis::candidate_views(before)[k] == views[k] by {}
            assert(synthesis::candidate_views(before) =~= selected(rest, source_id));
            let at = lemma_claims_are_kept(before, rest, source_id);
            let now = at.push(last);
            assert(views[candidates.len() - 1] == candidates[candidates.len() - 1]@);
            assert forall|k: int| 0 <= k < now.len() implies {
                let i = #[trigger] now[k];
                &&& 0 <= i < raw.len()
                &&& candidates[k].claim@ == raw[i].claim@
                &&& candidates[k].memory_type@ == raw[i].memory_type@
                &&& candidates[k].source_id == source_id
            } by {
                if k < at.len() {
                    assert(now[k] == at[k]);
                    assert(before[k] == candidates[k]);
                    assert(rest[at[k]] == raw[at[k]]);
                }
            }
            assert forall|i: int| 0 <= i < raw.len() implies (can_be_kept(#[trigger] raw[i])
                <==> now.contains(i)) by {
                if i < last {
                    assert(rest[i] == raw[i]);
                    if at.contains(i) {
                        let k = choose|k: int| 0 <= k < at.len() && at[k] == i;
                        assert(now[k] == i);
                    }
                    if now.contains(i) {
                        let k = choose|k: int| 0 <= k < now.len() && now[k] == i;
                        assert(at[k] == i);
                    }
                } else {
                    assert(now[at.len() as int] == i);
                }
            }
            now
        } else {
            let at = lemma_claims_are_kept(candidates, rest, source_id);
            assert forall|k: int| 0 <= k < at.len() implies 0 <= #[trigger] at[k] < last
                && rest[at[k]] == raw[at[k]] by {}
            assert forall|i: int| 0 <= i < raw.len() implies (can_be_kept(#[trigger] raw[i])
                <==> at.contains(i)) by {
                if i < last {
                    assert(rest[i] == raw[i]);
                }
            }
            at
        }
    }
}

/// What is put together from answers is put together answer by answer: the candidates
/// follow one another, and the answers without candidates and those that failed add up.
/// One answer gives its candidates; it counts as empty where it has none, and as failed
/// where it is an error.
pub proof fn lemma_answers_add_up(
    a: Seq<Result<Vec<Candidate>, ChittaError>>,
    b: Seq<Result<Vec<Candidate>, ChittaError>>,
    one: Result<Vec<Candidate>, ChittaError>,
)
    ensures
        all_candidates(a + b) == all_candidates(a) + all_candidates(b),
        empty_answers(a + b) == empty_answers(a) + empty_answers(b),
        failed_answers(a + b) == failed_answers(a) + failed_answers(b),
        match one {
            Ok(v) => all_candidates(seq![one]) == synthesis::candidate_views(v@)
                && failed_answers(seq![one]) == 0 && (empty_answers(seq![one]) == if v@.len() == 0 {
                1int
            } else {
                0
            }),
            Err(_) => all_candidates(seq![one]).len() == 0 && failed_answers(seq![one]) == 1
                && empty_answers(seq![one]) == 0,
        },
    decreases b.len(),
{
    let single = seq![one];
    assert(single.drop_last() =~= Seq::<Result<Vec<Candidate>, ChittaError>>::empty());
    assert(single.last() == one);
    reveal_with_fuel(all_candidates, 2);
    reveal_with_fuel(empty_answers, 2);
    reveal_with_fuel(failed_answers, 2);
    assert(all_candidates(single) =~= match one {
        Ok(v) => synthesis::candidate_views(v@),
        Err(_) => Seq::empty(),
    });
    if b.len() == 0 {
        assert(a + b =~= a);
        assert(all_candidates(a) + all_candidates(b) =~= all_candidates(a));
    } else {
        lemma_answers_add_up(a, b.drop_last(), one);
        assert((a + b).drop_last() =~= a + b.drop_last());
        assert((a + b).last() == b.last());
        assert(all_candidates(a + b) =~= all_candidates(a) + all_candidates(b));
    }
}

/// The language model is shown the type of a memory, then its tags, then its content, which
/// is the last thing that it is shown.
pub proof fn lemma_memory_is_shown(row: MemoryRow)
    ensures
        text::has_suffix(prompt_text(row@), "\nContent:\n"@ + row.content@),
        text::has_prefix(prompt_text(row@), "Memory type: "@ + row.memory_type@),
        prompt_text(row@).len() == "Memory type: "@.len() + row.memory_type@.len() + "\nTags: "@.len()
            + text::joined(text::texts(row.tags@), ", "@).len() + "\nContent:\n"@.len()
            + row.content@.len(),
{
    let first = "Memory type: "@ + row.memory_type@;
    let tags = "\nTags: "@ + text::joined(text::texts(row.tags@), ", "@);
    let last = "\nContent:\n"@ + row.content@;
    assert(prompt_text(row@) =~= first + (tags + last));
    assert(prompt_text(row@) =~= (first + tags) + last);
    text::lemma_ends_of_texts(first, first, tags + last);
    text::lemma_ends_of_texts(first, last, first + tags);
}

} // verus!
