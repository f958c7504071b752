//! The rule on decisions: a decision says why, and what was not chosen.

use vstd::prelude::*;
use vstd::string::*;

use crate::error::{self, make_invalid, ChittaError, ErrorView};
use crate::json::{self, Json, JsonView};
use crate::text::str_eq;

pub use crate::tools::validate::{
    episode_derivations, external_refs, memory_type, memory_types, DerivationInput,
};

verus! {

/// What a refused decision is told.
pub const DECISION_ERROR_MSG: &'static str =
    "decision memory requires `metadata.rationale` and at least one `metadata.rejected_alternatives` entry. Either supply them, demote to memory_type=observation, or route to yojana.";

/// The error for a decision whose metadata breaks the rule.
pub open spec fn decision_error(
    tool: Seq<char>,
    argument: Seq<char>,
    received: JsonView,
) -> ErrorView {
    error::invalid(tool, argument, DECISION_ERROR_MSG@, received, DECISION_ERROR_MSG@)
}

/// The outcome of the rule on decisions: the metadata is an object with a string
/// `rationale` that is not empty and an array `rejected_alternatives` that is not
/// empty. Memories of other types are not looked at.
pub open spec fn decision_check(
    tool: Seq<char>,
    memory_type: Seq<char>,
    metadata: Option<JsonView>,
) -> Result<(), ErrorView> {
    if memory_type != "decision"@ {
        Ok(())
    } else {
        match metadata {
            None => Err(decision_error(tool, "metadata"@, JsonView::Null)),
            Some(meta) => {
                let rationale = meta.text_member("rationale"@);
                let alternatives = meta.array_member("rejected_alternatives"@);
                if !(meta is Object) {
                    Err(decision_error(tool, "metadata"@, meta))
                } else if rationale is None || rationale->0.len() == 0 {
                    Err(
                        decision_error(
                            tool,
                            "metadata.rationale"@,
                            meta.member_or_null("rationale"@),
                        ),
                    )
                } else if alternatives is None || alternatives->0.len() == 0 {
                    Err(
                        decision_error(
                            tool,
                            "metadata.rejected_alternatives"@,
                            meta.member_or_null("rejected_alternatives"@),
                        ),
                    )
                } else {
                    Ok(())
                }
            },
        }
    }
}

fn make_decision_error(tool: &'static str, argument: &str, received: Json) -> (r: ChittaError)
    ensures
        r@ == decision_error(tool@, argument@, received@),
{
    make_invalid(tool, argument, DECISION_ERROR_MSG, received, DECISION_ERROR_MSG)
}

/// Decisions need a rationale and at least one rejected alternative.
pub fn validate_decision_metadata(
    tool: &'static str,
    memory_type: &str,
    metadata: &Option<Json>,
) -> (r: Result<(), ChittaError>)
    ensures
        error::outcome(r) == decision_check(tool@, memory_type@, json::opt_json(*metadata)),
{
    if !str_eq(memory_type, "decision") {
        return Ok(());
    }
    let meta = match metadata {
        None => {
            return Err(make_decision_error(tool, "metadata", Json::Null));
        },
        Some(v) => v,
    };
    if !meta.is_object() {
        return Err(make_decision_error(tool, "metadata", meta.copy()));
    }
    let has_rationale = match meta.get_str("rationale") {
        None => false,
        Some(s) => s.unicode_len() > 0,
    };
    if !has_rationale {
        return Err(
            make_decision_error(tool, "metadata.rationale", meta.get_or_null("rationale")),
        );
    }
    let has_alternatives = match meta.get("rejected_alternatives") {
        None => false,
        Some(v) => match v.as_array() {
            None => false,
            Some(arr) => arr.len() > 0,
        },
    };
    if !has_alternatives {
        return Err(
            make_decision_error(
                tool,
                "metadata.rejected_alternatives",
                meta.get_or_null("rejected_alternatives"),
            ),
        );
    }
    Ok(())
}

/// A decision is accepted where its metadata is an object that gives a reason and at least
/// one alternative that was rejected. Memories of other types need neither.
pub proof fn lemma_accepted_decisions(
    tool: Seq<char>,
    memory_type: Seq<char>,
    metadata: Option<JsonView>,
)
    ensures
        memory_type != "decision"@ ==> decision_check(tool, memory_type, metadata) is Ok,
        memory_type == "decision"@ ==> (decision_check(tool, memory_type, metadata) is Ok <==> (
        metadata matches Some(meta) && meta is Object && (meta.member("rationale"@) matches Some(
            JsonView::Text(rationale),
        ) && rationale.len() > 0) && (meta.member("rejected_alternatives"@) matches Some(
            JsonView::Array(rejected),
        ) && rejected.len() > 0))),
{
}

} // verus!
