//! Finding the consolidated memory that a new claim contradicts.

use vstd::prelude::*;
use vstd::string::*;

use crate::db::{self, MemoryRow, RowView};
use crate::error::{ChittaError, ErrorView};
use crate::synthesis::clustering::{self, make_numbered_line};
use crate::synthesis::{Contradiction, ContradictionView};
use crate::text::{self, concat2, concat3, join};

verus! {

/// What the language model is told of its task.
pub const CONTRADICTION_SYSTEM_PROMPT: &'static str =
    "You detect contradictions between a new claim about a person and their existing consolidated beliefs/traits/values/patterns/preferences. A contradiction means the new claim directly opposes or invalidates an existing one — not merely refines, adds nuance, or covers different ground. If a contradiction exists, return: {\"contradicts_index\": <index>, \"shift\": \"<description>\"}. If no contradiction, return: {\"contradicts_index\": null}. Return ONLY the JSON object, no markdown fences, no commentary.";

/// The lines that show the existing memories and the new claim.
pub open spec fn contradiction_lines(claim: Seq<char>, existing: Seq<RowView>) -> Seq<Seq<char>> {
    seq!["Existing consolidated memories:"@] + Seq::new(
        existing.len(),
        |i: int| clustering::numbered_line(i, existing[i].memory_type, existing[i].content),
    ) + seq![""@, "New claim: "@ + claim]
}

/// What the language model is shown: the existing memories, each under its
/// number, and the new claim.
pub fn contradiction_user_prompt(new_claim: &str, existing: &[MemoryRow]) -> (r: String)
    ensures
        r@ == text::joined(contradiction_lines(new_claim@, db::row_views(existing@)), "\n"@),
{
    let ghost views = db::row_views(existing@);
    let ghost all = contradiction_lines(new_claim@, views);
    let mut lines: Vec<String> = Vec::new();
    lines.push("Existing consolidated memories:".to_owned());
    for i in 0..existing.len()
        invariant
            views == db::row_views(existing@),
            all == contradiction_lines(new_claim@, views),
            lines@.len() == i + 1,
            forall|j: int| 0 <= j <= i ==> (#[trigger] lines@[j])@ == all[j],
    {
        lines.push(
            make_numbered_line(i, existing[i].memory_type.as_str(), existing[i].content.as_str()),
        );
    }
    lines.push("".to_owned());
    lines.push(concat2("New claim: ", new_claim));
    assert(text::texts(lines@) =~= all);
    join(lines.as_slice(), "\n")
}

/// What follows when a claim is to be held against existing memories.
#[derive(Debug, PartialEq, Eq)]
pub enum ContradictionStep {
    /// This is the contradiction, if any: there is nothing to ask.
    Done(Option<Contradiction>),
    /// Ask the language model, and show it the given text.
    Ask(String),
}

/// What follows when a claim is to be held against existing memories: the language
/// model is asked, unless there are none.
pub fn detect_contradiction(claim: &str, existing: &[MemoryRow]) -> (r: ContradictionStep)
    ensures
        match r {
            ContradictionStep::Done(found) => existing@.len() == 0 && found is None,
            ContradictionStep::Ask(shown) => existing@.len() > 0 && shown@ == text::joined(
                contradiction_lines(claim@, db::row_views(existing@)),
                "\n"@,
            ),
        },
{
    if existing.len() == 0 {
        return ContradictionStep::Done(None);
    }
    ContradictionStep::Ask(contradiction_user_prompt(claim, existing))
}

/// The finding of the language model as it gives it.
#[derive(Debug, PartialEq, Eq)]
pub struct RawContradiction {
    pub contradicts_index: Option<usize>,
    pub shift: Option<String>,
}

/// The contradiction that the language model found. A number that no existing
/// memory has counts as none; a shift that is not described is described by what
/// was believed before.
pub open spec fn found(
    index: Option<usize>,
    shift: Option<Seq<char>>,
    existing: Seq<RowView>,
) -> Option<ContradictionView> {
    match index {
        None => None,
        Some(i) => if i >= existing.len() {
            None
        } else {
            Some(
                ContradictionView {
                    existing_id: existing[i as int].id,
                    existing_claim: existing[i as int].content,
                    shift_description: match shift {
                        Some(s) => s,
                        None => "Changed from '"@ + existing[i as int].content
                            + "' to a new position"@,
                    },
                },
            )
        },
    }
}

/// The view of a finding or of an error.
pub open spec fn finding_outcome(r: Result<Option<Contradiction>, ChittaError>) -> Result<
    Option<ContradictionView>,
    ErrorView,
> {
    match r {
        Ok(Some(c)) => Ok(Some(c@)),
        Ok(None) => Ok(None),
        Err(e) => Err(e@),
    }
}

/// The contradiction in an answer of the language model: `parsed` is what its
/// JSON was read as, or the words in which the parser refused it.
pub fn parse_contradiction_response(
    parsed: Result<RawContradiction, String>,
    existing: &[MemoryRow],
) -> (r: Result<Option<Contradiction>, ChittaError>)
    ensures
        finding_outcome(r) == match parsed {
            Ok(raw) => Ok(
                found(
                    raw.contradicts_index,
                    text::opt_text(raw.shift),
                    db::row_views(existing@),
                ),
            ),
            Err(words) => Err(
                ErrorView::Internal("LLM returned unparseable contradiction JSON: "@ + words@),
            ),
        },
        r is Err <==> parsed is Err,
        parsed matches Ok(raw) ==> (r matches Ok(Some(_)) <==> raw.contradicts_index is Some
            && raw.contradicts_index->0 < existing@.len()),
        parsed matches Ok(raw) ==> (r matches Ok(Some(c)) ==> {
            let row = existing@[raw.contradicts_index->0 as int];
            &&& c.existing_id == row.id
            &&& c.existing_claim@ == row.content@
            &&& raw.shift is Some ==> c.shift_description@ == raw.shift->0@
            &&& raw.shift is None ==> c.shift_description@ == "Changed from '"@ + row.content@
                + "' to a new position"@
        }),
{
    let raw = match parsed {
        Err(words) => {
            return Err(
                ChittaError::Internal(
                    concat2("LLM returned unparseable contradiction JSON: ", words.as_str()),
                ),
            );
        },
        Ok(raw) => raw,
    };
    match raw.contradicts_index {
        None => Ok(None),
        Some(i) => {
            if i >= existing.len() {
                return Ok(None);
            }
            let shift_description = match raw.shift {
                Some(s) => s,
                None => concat3(
                    "Changed from '",
                    existing[i].content.as_str(),
                    "' to a new position",
                ),
            };
            Ok(
                Some(
                    Contradiction {
                        existing_id: existing[i].id,
                        existing_claim: existing[i].content.clone(),
                        shift_description,
                    },
                ),
            )
        },
    }
}

/// What is found to be contradicted is one of the existing memories.
pub proof fn lemma_found_exists(
    index: Option<usize>,
    shift: Option<Seq<char>>,
    existing: Seq<RowView>,
)
    ensures
        found(index, shift, existing) matches Some(c) ==> exists|i: int|
            0 <= i < existing.len() && (#[trigger] existing[i]).id == c.existing_id
                && existing[i].content == c.existing_claim,
{
}

/// A claim contradicts the memory at the place that was found, and none where no place
/// or none of theirs was found. A shift that was described is kept as it was described.
pub proof fn lemma_finding_names_the_memory(
    raw: RawContradiction,
    existing: Seq<MemoryRow>,
)
    ensures
        match raw.contradicts_index {
            Some(i) => if i < existing.len() {
                found(raw.contradicts_index, text::opt_text(raw.shift), db::row_views(existing))
                    matches Some(c) && c.existing_id == existing[i as int].id && c.existing_claim
                    == existing[i as int].content@ && (raw.shift is Some ==> c.shift_description
                    == raw.shift->0@)
            } else {
                found(raw.contradicts_index, text::opt_text(raw.shift), db::row_views(existing))
                    is None
            },
            None => found(
                raw.contradicts_index,
                text::opt_text(raw.shift),
                db::row_views(existing),
            ) is None,
        },
{
    assert(db::row_views(existing).len() == existing.len());
    match raw.contradicts_index {
        Some(i) => {
            if i < existing.len() {
                assert(db::row_views(existing)[i as int] == existing[i as int]@);
            }
        },
        None => {},
    }
}

/// The language model is shown every memory on a line of its own, under the number by which
/// it names the memory in its answer, with its type and its content, and at last the claim.
pub proof fn lemma_memories_are_shown_by_number(
    claim: Seq<char>,
    existing: Seq<MemoryRow>,
    i: int,
)
    ensures
        contradiction_lines(claim, db::row_views(existing)).len() == existing.len() + 3,
        contradiction_lines(claim, db::row_views(existing)).last() == "New claim: "@ + claim,
        0 <= i < existing.len() ==> contradiction_lines(claim, db::row_views(existing))[i + 1]
            == "["@ + text::decimal(i as nat) + "] ("@ + existing[i].memory_type@ + ") "@
            + existing[i].content@,
{
    if 0 <= i < existing.len() {
        assert(db::row_views(existing)[i] == existing[i]@);
    }
}

} // verus!
