//! Every refusal is complete: it says which tool refuses, which rule was broken,
//! and what the caller should do next.

use vstd::prelude::*;

use crate::error::ErrorView;
use crate::json::JsonView;
use crate::time::Timestamp;
use crate::tools::record_feedback::{self, FeedbackKind};
use crate::tools::store::{self, StoreArgsView};
use crate::tools::supersede;
use crate::tools::validate::{self, DerivationInputView};
use crate::validators;

verus! {

/// Whether the outcome, where it is a refusal, says which tool refuses, which
/// rule was broken, and what to do next.
pub open spec fn is_explained<T>(outcome: Result<T, ErrorView>) -> bool {
    outcome matches Err(e) ==> e.report().is_complete()
}

/// Refused profiles are explained.
pub proof fn lemma_profile_refusal_is_explained(tool: Seq<char>, value: Seq<char>)
    requires
        tool.len() > 0,
    ensures
        is_explained(validate::profile_check(tool, value)),
{
    reveal_strlit("1-128 chars, [a-zA-Z0-9_-]+ only");
    reveal_strlit(
        "Pass a non-empty profile of ≤128 ASCII letters, digits, underscores, or hyphens.",
    );
}

/// Refused content is explained.
pub proof fn lemma_content_refusal_is_explained(tool: Seq<char>, value: Seq<char>)
    requires
        tool.len() > 0,
    ensures
        is_explained(validate::content_byte_length_check(tool, value)),
        is_explained(validate::content_non_empty_check(tool, value)),
{
    reveal_strlit("content must be at most 4194304 bytes");
    reveal_strlit("Reduce content size. Current: ");
    reveal_strlit("length >= 1");
    reveal_strlit("Pass non-empty content.");
}

/// Refused idempotency keys are explained.
pub proof fn lemma_key_refusal_is_explained(tool: Seq<char>, value: Seq<char>)
    requires
        tool.len() > 0,
    ensures
        is_explained(validate::idempotency_key_check(tool, value)),
{
    reveal_strlit("1-128 chars, no control characters");
    reveal_strlit(
        "Pass a 1-128 character idempotency_key with no control characters (e.g. a UUID or a client-stable hash).",
    );
}

/// Refused event times are explained.
pub proof fn lemma_time_refusal_is_explained(
    tool: Seq<char>,
    value: Timestamp,
    now: Timestamp,
    shown: JsonView,
)
    requires
        tool.len() > 0,
    ensures
        is_explained(validate::event_time_check(tool, value, now, shown)),
{
    reveal_strlit("ISO-8601 timestamp >= 1970-01-01T00:00:00Z");
    reveal_strlit("Pass event_time >= 1970-01-01T00:00:00Z, or omit to default to record_time.");
    reveal_strlit("ISO-8601 timestamp <= now + 365 days");
    reveal_strlit("Pass event_time within one year of now, or omit to default to record_time.");
}

proof fn lemma_tags_from_explained(tool: Seq<char>, values: Seq<Seq<char>>, i: int)
    requires
        tool.len() > 0,
    ensures
        is_explained(validate::tags_from(tool, values, i)),
    decreases values.len() - i,
{
    reveal_strlit("each tag 1-64 chars");
    reveal_strlit("Ensure every tag is between 1 and 64 characters.");
    if 0 <= i < values.len() {
        lemma_tags_from_explained(tool, values, i + 1);
    }
}

/// Refused tags are explained.
pub proof fn lemma_tags_refusal_is_explained(tool: Seq<char>, values: Seq<Seq<char>>)
    requires
        tool.len() > 0,
    ensures
        is_explained(validate::tags_check(tool, values)),
{
    reveal_strlit("at most 32 tags");
    reveal_strlit("Trim the tag list to at most 32 entries.");
    lemma_tags_from_explained(tool, values, 0);
}

/// Refused numbers are explained.
pub proof fn lemma_number_refusals_are_explained(
    tool: Seq<char>,
    k: i64,
    similarity: u32,
    tokens: u64,
)
    requires
        tool.len() > 0,
    ensures
        is_explained(validate::k_check(tool, k)),
        is_explained(validate::min_similarity_check(tool, similarity)),
        is_explained(validate::max_tokens_check(tool, tokens)),
{
    reveal_strlit("integer in [1, 200]");
    reveal_strlit("Pass k between 1 and 200 (default is 10).");
    reveal_strlit("finite float in [0.0, 1.0]");
    reveal_strlit("Pass min_similarity between 0.0 and 1.0 inclusive.");
    reveal_strlit("> 0");
    reveal_strlit("Pass a positive max_tokens, or omit to disable the budget.");
}

/// Refused memory types are explained.
pub proof fn lemma_type_refusal_is_explained(tool: Seq<char>, value: Seq<char>)
    requires
        tool.len() > 0,
    ensures
        is_explained(validate::memory_type_check(tool, value)),
{
    reveal_strlit(
        "one of: observation, episode, decision, trait, value, pattern, preference, mental_model",
    );
    reveal_strlit(
        "Use one of: observation, episode, decision, trait, value, pattern, preference, mental_model",
    );
}

/// Refused lists of memory types are explained.
pub proof fn lemma_types_refusal_is_explained(tool: Seq<char>, values: Seq<Seq<char>>, i: int)
    requires
        tool.len() > 0,
    ensures
        is_explained(validate::memory_types_from(tool, values, i)),
    decreases values.len() - i,
{
    if 0 <= i < values.len() {
        lemma_type_refusal_is_explained(tool, values[i]);
        lemma_types_refusal_is_explained(tool, values, i + 1);
    }
}

/// Refused identifiers are explained.
pub proof fn lemma_uuid_refusal_is_explained(
    tool: Seq<char>,
    argument: Seq<char>,
    value: Seq<char>,
    parsed: Result<u128, Seq<char>>,
)
    requires
        tool.len() > 0,
    ensures
        is_explained(validate::uuid_outcome(tool, argument, value, parsed)),
{
    reveal_strlit("valid UUID");
    reveal_strlit("Pass a valid UUID string. Parse error: ");
}

proof fn lemma_derivations_from_explained(tool: Seq<char>, ds: Seq<DerivationInputView>, i: int)
    requires
        tool.len() > 0,
    ensures
        is_explained(validate::derivations_from(tool, ds, i)),
    decreases ds.len() - i,
{
    reveal_strlit("source_id must be a valid UUID");
    reveal_strlit("Pass a valid UUID for source_id.");
    reveal_strlit("derivation_type must be non-empty");
    reveal_strlit("Pass a non-empty derivation_type (e.g. \"synthesised_from\").");
    if 0 <= i < ds.len() {
        lemma_derivations_from_explained(tool, ds, i + 1);
    }
}

/// Refused episodes are explained.
pub proof fn lemma_episode_refusal_is_explained(
    tool: Seq<char>,
    memory_type: Seq<char>,
    derivations: Option<Seq<DerivationInputView>>,
)
    requires
        tool.len() > 0,
    ensures
        is_explained(validate::episode_derivations_check(tool, memory_type, derivations)),
{
    reveal_strlit("episode memory requires at least one derivation");
    reveal_strlit(
        "episode memory requires at least one entry in derivations linking to source observations. Either supply derivations, or use memory_type=observation.",
    );
    match derivations {
        Some(ds) => {
            lemma_derivations_from_explained(tool, ds, 0);
        },
        None => {},
    }
}

/// Refused reference filters are explained.
pub proof fn lemma_ref_filter_refusal_is_explained(
    tool: Seq<char>,
    kind: Seq<char>,
    value: Option<Seq<char>>,
)
    requires
        tool.len() > 0,
    ensures
        is_explained(validate::ref_filter_check(tool, kind, value)),
{
    reveal_strlit("kind must be one of: file, commit, yojana_task, memory, url, session");
    reveal_strlit("Use a valid kind: file, commit, yojana_task, memory, url, session");
    reveal_strlit("ref must be non-empty when provided");
    reveal_strlit("Provide a non-empty ref value or omit the field.");
}

proof fn lemma_ref_entry_explained(tool: Seq<char>, i: int, entry: JsonView)
    requires
        tool.len() > 0,
    ensures
        is_explained(validate::ref_entry_check(tool, i, entry)),
{
    reveal_strlit("each element must be an object with \"kind\" and \"ref\" string fields");
    reveal_strlit("Each element must be {\"kind\": \"<type>\", \"ref\": \"<value>\"}.");
    reveal_strlit("each element must have a string \"kind\" field");
    reveal_strlit(
        "Add a \"kind\" field. Valid kinds: file, commit, yojana_task, memory, url, session",
    );
    reveal_strlit("kind must be one of: file, commit, yojana_task, memory, url, session");
    reveal_strlit("Use a valid kind: file, commit, yojana_task, memory, url, session");
    reveal_strlit("each element must have a non-empty string \"ref\" field");
    reveal_strlit(
        "Add a \"ref\" field with the reference value (e.g. a file path, URL, or UUID).",
    );
    reveal_strlit("\"ref\" must be non-empty");
    reveal_strlit("Provide a non-empty ref value.");
}

proof fn lemma_refs_from_explained(tool: Seq<char>, entries: Seq<JsonView>, i: int)
    requires
        tool.len() > 0,
    ensures
        is_explained(validate::refs_from(tool, entries, i)),
    decreases entries.len() - i,
{
    if 0 <= i < entries.len() {
        lemma_ref_entry_explained(tool, i, entries[i]);
        lemma_refs_from_explained(tool, entries, i + 1);
    }
}

/// Refused external references are explained.
pub proof fn lemma_refs_refusal_is_explained(tool: Seq<char>, value: JsonView)
    requires
        tool.len() > 0,
    ensures
        is_explained(validate::external_refs_check(tool, value)),
{
    reveal_strlit("must be a JSON array");
    reveal_strlit(
        "Pass external_refs as an array: [{\"kind\": \"file\", \"ref\": \"path/to/file\"}].",
    );
    match value.elements() {
        Some(entries) => {
            lemma_refs_from_explained(tool, entries, 0);
        },
        None => {},
    }
}

/// Refused decisions are explained.
pub proof fn lemma_decision_refusal_is_explained(
    tool: Seq<char>,
    memory_type: Seq<char>,
    metadata: Option<JsonView>,
)
    requires
        tool.len() > 0,
    ensures
        is_explained(validators::decision_check(tool, memory_type, metadata)),
{
    reveal_strlit(
        "decision memory requires `metadata.rationale` and at least one `metadata.rejected_alternatives` entry. Either supply them, demote to memory_type=observation, or route to yojana.",
    );
}

/// Whatever `store_memory` refuses, it explains.
pub proof fn lemma_store_refusal_is_explained(args: StoreArgsView, now: Timestamp)
    ensures
        is_explained(store::store_check(args, now)),
{
    let tool = store::TOOL@;
    reveal_strlit("store_memory");
    lemma_profile_refusal_is_explained(tool, args.profile);
    lemma_content_refusal_is_explained(tool, args.content);
    lemma_key_refusal_is_explained(tool, args.idempotency_key);
    match args.event_time {
        Some(t) => {
            lemma_time_refusal_is_explained(tool, t, now, validate::time_value(t));
        },
        None => {},
    }
    lemma_tags_refusal_is_explained(tool, args.tags);
    lemma_type_refusal_is_explained(tool, args.memory_type);
    match args.external_refs {
        Some(refs) => {
            lemma_refs_refusal_is_explained(tool, refs);
        },
        None => {},
    }
    lemma_episode_refusal_is_explained(tool, args.memory_type, args.derivations);
    lemma_decision_refusal_is_explained(tool, args.memory_type, args.metadata);
}

/// Whatever `record_feedback` refuses, it explains.
pub proof fn lemma_feedback_refusal_is_explained(
    profile: Seq<char>,
    memory_id: Seq<char>,
    kind: FeedbackKind,
    correction: Option<Seq<char>>,
    parsed: Result<u128, Seq<char>>,
    row: Option<crate::db::RowView>,
)
    ensures
        is_explained(
            record_feedback::args_outcome(profile, memory_id, kind, correction, parsed),
        ),
        is_explained(record_feedback::target_outcome(row)),
{
    let tool = record_feedback::TOOL@;
    reveal_strlit("record_feedback");
    lemma_profile_refusal_is_explained(tool, profile);
    lemma_uuid_refusal_is_explained(tool, "memory_id"@, memory_id, parsed);
    match correction {
        Some(c) => {
            lemma_content_refusal_is_explained(tool, c);
        },
        None => {},
    }
    reveal_strlit("correction is only valid when kind=disagree");
    reveal_strlit("Remove the correction field, or change kind to disagree.");
    reveal_strlit(" must exist");
    reveal_strlit(
        "Verify the profile and memory_id. Use search_memories to locate the intended memory.",
    );
    reveal_strlit(
        "target must be a consolidated type (trait, value, pattern, preference, mental_model), got '",
    );
    reveal_strlit(
        "Feedback can only be recorded on consolidated memories returned by get_profile.",
    );
    reveal_strlit("target memory is superseded or invalidated");
    reveal_strlit("Use get_profile to find the current active version of this memory.");
}

/// Whatever `supersede_memory` refuses, it explains.
pub proof fn lemma_supersede_refusal_is_explained(
    profile: Seq<char>,
    given_old: Seq<char>,
    given_new: Seq<char>,
    reason: Seq<char>,
    old_parsed: Option<u128>,
    new_parsed: Option<u128>,
    old_id: u128,
    row: Option<crate::db::RowView>,
    new_id: u128,
    found: bool,
)
    ensures
        is_explained(
            supersede::args_outcome(
                profile,
                given_old,
                given_new,
                reason,
                old_parsed,
                new_parsed,
            ),
        ),
        is_explained(supersede::old_outcome(profile, given_old, old_id, row)),
        is_explained(supersede::new_outcome(profile, new_id, found)),
{
    let tool = supersede::TOOL@;
    reveal_strlit("supersede_memory");
    lemma_profile_refusal_is_explained(tool, profile);
    reveal_strlit("must be a valid UUID");
    reveal_strlit("Pass a valid UUID for old_id.");
    reveal_strlit("Pass a valid UUID for new_id.");
    reveal_strlit("must be non-empty");
    reveal_strlit("Provide a reason for the supersession.");
    reveal_strlit(" must exist");
    reveal_strlit("old_id ");
    reveal_strlit("must not already be superseded");
    reveal_strlit("Memory ");
    reveal_strlit("new_id ");
}

} // verus!
