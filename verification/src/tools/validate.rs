//! Argument validation. One rule per function; each refusal names the tool, the
//! argument, the rule, what was received and what to do next.

use vstd::prelude::*;
use vstd::string::*;

use crate::error::{self, make_invalid, ChittaError, ErrorView};
use crate::floats;
use crate::ids::{self, parse_id, MemoryId};
use crate::json::{self, Json, JsonView, Number};
use crate::text::{
    self, byte_len, chars_of, concat2, concat3, decimal_of, is_ascii_alphanumeric, is_control,
    str_eq,
};
use crate::time::{current_time, to_rfc3339, Timestamp};
use crate::tools::search::RefFilter;

verus! {

// ---- Profile ------------------------------------------------------------------

/// The characters that a profile may hold.
pub open spec fn profile_char(c: char) -> bool {
    text::ascii_alphanumeric(c) || c == '_' || c == '-'
}

/// Whether a profile is acceptable: 1-128 characters, letters, digits,
/// underscores and hyphens only.
pub open spec fn profile_ok(value: Seq<char>) -> bool {
    1 <= value.len() <= 128 && forall|i: int|
        0 <= i < value.len() ==> profile_char(#[trigger] value[i])
}

/// The outcome of the rule on profiles.
pub open spec fn profile_check(tool: Seq<char>, value: Seq<char>) -> Result<(), ErrorView> {
    if profile_ok(value) {
        Ok(())
    } else {
        Err(
            error::invalid(
                tool,
                "profile"@,
                "1-128 chars, [a-zA-Z0-9_-]+ only"@,
                JsonView::Text(value),
                "Pass a non-empty profile of ≤128 ASCII letters, digits, underscores, or hyphens."@,
            ),
        )
    }
}

/// Profile: 1-128 chars, `[a-zA-Z0-9_-]+`.
pub fn profile(tool: &'static str, value: &str) -> (r: Result<(), ChittaError>)
    ensures
        error::outcome(r) == profile_check(tool@, value@),
{
    let v = chars_of(value);
    let mut ok: bool = 1 <= v.len() && v.len() <= 128;
    for i in 0..v.len()
        invariant
            v@ == value@,
            ok == (1 <= v@.len() <= 128 && forall|j: int|
                0 <= j < i ==> profile_char(#[trigger] v@[j])),
    {
        if !(is_ascii_alphanumeric(v[i]) || v[i] == '_' || v[i] == '-') {
            ok = false;
        }
    }
    if !ok {
        return Err(
            make_invalid(
                tool,
                "profile",
                "1-128 chars, [a-zA-Z0-9_-]+ only",
                json::text_value(value),
                "Pass a non-empty profile of ≤128 ASCII letters, digits, underscores, or hyphens.",
            ),
        );
    }
    Ok(())
}

// ---- Content ------------------------------------------------------------------

/// The most bytes that content may have: 4 MB, checked before tokenization.
pub const MAX_CONTENT_BYTES: usize = 4 * 1024 * 1024;

/// The outcome of the rule on the size of content.
pub open spec fn content_byte_length_check(tool: Seq<char>, value: Seq<char>) -> Result<
    (),
    ErrorView,
> {
    let n = text::utf8(value).len();
    if n <= MAX_CONTENT_BYTES {
        Ok(())
    } else {
        Err(
            error::invalid(
                tool,
                "content"@,
                "content must be at most 4194304 bytes"@,
                json::int_value(n as int),
                "Reduce content size. Current: "@ + text::decimal(n)
                    + " bytes, limit: 4194304 bytes. Split into multiple memories if needed."@,
            ),
        )
    }
}

/// Content byte length: at most [`MAX_CONTENT_BYTES`].
pub fn content_byte_length(tool: &'static str, value: &str) -> (r: Result<(), ChittaError>)
    ensures
        error::outcome(r) == content_byte_length_check(tool@, value@),
{
    let n: usize = byte_len(value);
    if n > MAX_CONTENT_BYTES {
        return Err(
            make_invalid(
                tool,
                "content",
                "content must be at most 4194304 bytes",
                json::unsigned(n as u64),
                concat3(
                    "Reduce content size. Current: ",
                    decimal_of(n as u64).as_str(),
                    " bytes, limit: 4194304 bytes. Split into multiple memories if needed.",
                ).as_str(),
            ),
        );
    }
    Ok(())
}

/// The outcome of the rule that content is not empty.
pub open spec fn content_non_empty_check(tool: Seq<char>, value: Seq<char>) -> Result<
    (),
    ErrorView,
> {
    if value.len() > 0 {
        Ok(())
    } else {
        Err(
            error::invalid(
                tool,
                "content"@,
                "length >= 1"@,
                JsonView::Text(""@),
                "Pass non-empty content."@,
            ),
        )
    }
}

/// Content: non-empty. The bound on tokens is kept where content is embedded.
pub fn content_non_empty(tool: &'static str, value: &str) -> (r: Result<(), ChittaError>)
    ensures
        error::outcome(r) == content_non_empty_check(tool@, value@),
{
    if value.unicode_len() == 0 {
        return Err(
            make_invalid(
                tool,
                "content",
                "length >= 1",
                json::text_value(""),
                "Pass non-empty content.",
            ),
        );
    }
    Ok(())
}

// ---- Idempotency key ------------------------------------------------------------

/// Whether an idempotency key is acceptable: 1-128 characters, none of them a
/// control character.
pub open spec fn idempotency_key_ok(value: Seq<char>) -> bool {
    1 <= value.len() <= 128 && forall|i: int|
        0 <= i < value.len() ==> !text::control(#[trigger] value[i])
}

/// The outcome of the rule on idempotency keys.
pub open spec fn idempotency_key_check(tool: Seq<char>, value: Seq<char>) -> Result<(), ErrorView> {
    if idempotency_key_ok(value) {
        Ok(())
    } else {
        Err(
            error::invalid(
                tool,
                "idempotency_key"@,
                "1-128 chars, no control characters"@,
                JsonView::Text(value),
                "Pass a 1-128 character idempotency_key with no control characters (e.g. a UUID or a client-stable hash)."@,
            ),
        )
    }
}

/// Idempotency key: 1-128 chars, no control characters.
pub fn idempotency_key(tool: &'static str, value: &str) -> (r: Result<(), ChittaError>)
    ensures
        error::outcome(r) == idempotency_key_check(tool@, value@),
{
    let v = chars_of(value);
    let mut ok: bool = 1 <= v.len() && v.len() <= 128;
    for i in 0..v.len()
        invariant
            v@ == value@,
            ok == (1 <= v@.len() <= 128 && forall|j: int|
                0 <= j < i ==> !text::control(#[trigger] v@[j])),
    {
        if is_control(v[i]) {
            ok = false;
        }
    }
    if !ok {
        return Err(
            make_invalid(
                tool,
                "idempotency_key",
                "1-128 chars, no control characters",
                json::text_value(value),
                "Pass a 1-128 character idempotency_key with no control characters (e.g. a UUID or a client-stable hash).",
            ),
        );
    }
    Ok(())
}

// ---- Event time -----------------------------------------------------------------

/// The JSON value of a time: its RFC 3339 text, or null where the calendar has
/// no such time.
pub open spec fn time_value(t: Timestamp) -> JsonView {
    match crate::time::rfc3339(t.secs, t.nanos) {
        Some(s) => JsonView::Text(s),
        None => JsonView::Null,
    }
}

/// The JSON value of a time: its RFC 3339 text, or null where the calendar has
/// no such time.
pub(crate) fn time_json(t: Timestamp) -> (r: Json)
    ensures
        r@ == time_value(t),
{
    match to_rfc3339(t) {
        Some(s) => Json::Text(s),
        None => Json::Null,
    }
}

/// The outcome of the rule on event times, where the clock shows `now` and the
/// time's JSON value is `shown`.
pub open spec fn event_time_check(
    tool: Seq<char>,
    value: Timestamp,
    now: Timestamp,
    shown: JsonView,
) -> Result<(), ErrorView> {
    if value.secs < 0 {
        Err(
            error::invalid(
                tool,
                "event_time"@,
                "ISO-8601 timestamp >= 1970-01-01T00:00:00Z"@,
                shown,
                "Pass event_time >= 1970-01-01T00:00:00Z, or omit to default to record_time."@,
            ),
        )
    } else if value.beyond_days(now, 365) {
        Err(
            error::invalid(
                tool,
                "event_time"@,
                "ISO-8601 timestamp <= now + 365 days"@,
                shown,
                "Pass event_time within one year of now, or omit to default to record_time."@,
            ),
        )
    } else {
        Ok(())
    }
}

/// Whether the clock decides nothing of an event time, since it never shows a time
/// before the epoch: the time is before the epoch, or less than 365 days after it.
pub open spec fn clock_decides_nothing(value: Timestamp) -> bool {
    value.secs < 365 * 86_400
}

/// Event time: `>= 1970-01-01T00:00:00Z` and `<= now + 365 days`, by the system
/// clock. A time before the epoch is refused, and one in the first 365 days after
/// it accepted, whatever the clock shows.
pub fn event_time(tool: &'static str, value: Timestamp) -> (r: Result<(), ChittaError>)
    ensures
        exists|now: Timestamp|
            now.secs >= 0 && #[trigger] event_time_check(tool@, value, now, time_value(value))
                == error::outcome(r),
        clock_decides_nothing(value) ==> forall|now: Timestamp|
            now.secs >= 0 ==> #[trigger] event_time_check(tool@, value, now, time_value(value))
                == error::outcome(r),
        clock_decides_nothing(value) ==> (r is Ok <==> value.secs >= 0),
{
    event_time_at(tool, value, current_time(), time_json(value))
}

/// Event time: `>= 1970-01-01T00:00:00Z` and `<= now + 365 days`, where `now` is
/// what the clock shows and `shown` the value that a refusal shows for the time.
pub fn event_time_at(tool: &'static str, value: Timestamp, now: Timestamp, shown: Json) -> (r:
    Result<(), ChittaError>)
    ensures
        error::outcome(r) == event_time_check(tool@, value, now, shown@),
{
    if value.secs < 0 {
        return Err(
            make_invalid(
                tool,
                "event_time",
                "ISO-8601 timestamp >= 1970-01-01T00:00:00Z",
                shown,
                "Pass event_time >= 1970-01-01T00:00:00Z, or omit to default to record_time.",
            ),
        );
    }
    if value.is_beyond_days(&now, 365) {
        return Err(
            make_invalid(
                tool,
                "event_time",
                "ISO-8601 timestamp <= now + 365 days",
                shown,
                "Pass event_time within one year of now, or omit to default to record_time.",
            ),
        );
    }
    Ok(())
}

// ---- Tags -----------------------------------------------------------------------

/// The outcome of the rule on single tags, from position `i` on: the first tag
/// that breaks it is refused.
pub open spec fn tags_from(tool: Seq<char>, values: Seq<Seq<char>>, i: int) -> Result<(), ErrorView>
    decreases values.len() - i,
{
    if i < 0 || i >= values.len() {
        Ok(())
    } else if values[i].len() == 0 || values[i].len() > 64 {
        Err(
            error::invalid(
                tool,
                "tags"@,
                "each tag 1-64 chars"@,
                json::object2(
                    "index"@,
                    json::int_value(i),
                    "length"@,
                    json::int_value(values[i].len() as int),
                ),
                "Ensure every tag is between 1 and 64 characters."@,
            ),
        )
    } else {
        tags_from(tool, values, i + 1)
    }
}

/// The outcome of the rule on tags.
pub open spec fn tags_check(tool: Seq<char>, values: Seq<Seq<char>>) -> Result<(), ErrorView> {
    if values.len() > 32 {
        Err(
            error::invalid(
                tool,
                "tags"@,
                "at most 32 tags"@,
                json::object1("count"@, json::int_value(values.len() as int)),
                "Trim the tag list to at most 32 entries."@,
            ),
        )
    } else {
        tags_from(tool, values, 0)
    }
}

/// Tags: up to 32 entries, each 1-64 chars.
pub fn tags(tool: &'static str, values: &[String]) -> (r: Result<(), ChittaError>)
    ensures
        error::outcome(r) == tags_check(tool@, text::texts(values@)),
{
    if values.len() > 32 {
        return Err(
            make_invalid(
                tool,
                "tags",
                "at most 32 tags",
                json::make_object1("count", json::unsigned(values.len() as u64)),
                "Trim the tag list to at most 32 entries.",
            ),
        );
    }
    for i in 0..values.len()
        invariant
            values@.len() <= 32,
            tags_check(tool@, text::texts(values@)) == tags_from(
                tool@,
                text::texts(values@),
                i as int,
            ),
    {
        let n: usize = values[i].as_str().unicode_len();
        if n == 0 || n > 64 {
            return Err(
                make_invalid(
                    tool,
                    "tags",
                    "each tag 1-64 chars",
                    json::make_object2(
                        "index",
                        json::unsigned(i as u64),
                        "length",
                        json::unsigned(n as u64),
                    ),
                    "Ensure every tag is between 1 and 64 characters.",
                ),
            );
        }
    }
    Ok(())
}

// ---- Numbers --------------------------------------------------------------------

/// Upper bound on `k` for search, so that a single response cannot dwarf the
/// caller's context window.
pub const MAX_K: i64 = 200;

/// The outcome of the rule on `k`.
pub open spec fn k_check(tool: Seq<char>, value: i64) -> Result<(), ErrorView> {
    if 1 <= value <= MAX_K {
        Ok(())
    } else {
        Err(
            error::invalid(
                tool,
                "k"@,
                "integer in [1, 200]"@,
                json::int_value(value as int),
                "Pass k between 1 and 200 (default is 10)."@,
            ),
        )
    }
}

/// `k` for search: integer in `[1, MAX_K]`.
pub fn k(tool: &'static str, value: i64) -> (r: Result<(), ChittaError>)
    ensures
        error::outcome(r) == k_check(tool@, value),
{
    if !(1 <= value && value <= MAX_K) {
        return Err(
            make_invalid(
                tool,
                "k",
                "integer in [1, 200]",
                json::signed(value),
                "Pass k between 1 and 200 (default is 10).",
            ),
        );
    }
    Ok(())
}

/// The JSON value of a single-precision number; what is not finite has none and
/// becomes null.
pub open spec fn single_value(bits: u32) -> JsonView {
    if floats::finite(bits) {
        JsonView::Number(Number::Single(bits))
    } else {
        JsonView::Null
    }
}

/// The outcome of the rule on the cosine similarity floor.
pub open spec fn min_similarity_check(tool: Seq<char>, bits: u32) -> Result<(), ErrorView> {
    if floats::in_unit_range(bits) {
        Ok(())
    } else {
        Err(
            error::invalid(
                tool,
                "min_similarity"@,
                "finite float in [0.0, 1.0]"@,
                single_value(bits),
                "Pass min_similarity between 0.0 and 1.0 inclusive."@,
            ),
        )
    }
}

/// Cosine similarity floor, given by its bits: a finite number in `[0.0, 1.0]`.
pub fn min_similarity(tool: &'static str, bits: u32) -> (r: Result<(), ChittaError>)
    ensures
        error::outcome(r) == min_similarity_check(tool@, bits),
{
    if !floats::is_in_unit_range(bits) {
        let received = if floats::is_finite(bits) {
            Json::Number(Number::Single(bits))
        } else {
            Json::Null
        };
        return Err(
            make_invalid(
                tool,
                "min_similarity",
                "finite float in [0.0, 1.0]",
                received,
                "Pass min_similarity between 0.0 and 1.0 inclusive.",
            ),
        );
    }
    Ok(())
}

/// The outcome of the rule on the token budget.
pub open spec fn max_tokens_check(tool: Seq<char>, value: u64) -> Result<(), ErrorView> {
    if value > 0 {
        Ok(())
    } else {
        Err(
            error::invalid(
                tool,
                "max_tokens"@,
                "> 0"@,
                json::int_value(0),
                "Pass a positive max_tokens, or omit to disable the budget."@,
            ),
        )
    }
}

/// Token budget: positive.
pub fn max_tokens(tool: &'static str, value: u64) -> (r: Result<(), ChittaError>)
    ensures
        error::outcome(r) == max_tokens_check(tool@, value),
{
    if value == 0 {
        return Err(
            make_invalid(
                tool,
                "max_tokens",
                "> 0",
                json::unsigned(value),
                "Pass a positive max_tokens, or omit to disable the budget.",
            ),
        );
    }
    Ok(())
}

// ---- Memory types ---------------------------------------------------------------

/// The types that a memory can have.
pub const VALID_MEMORY_TYPES: [&'static str; 8] = [
    "observation",
    "episode",
    "decision",
    "trait",
    "value",
    "pattern",
    "preference",
    "mental_model",
];

/// Whether `value` is the type of a memory.
pub open spec fn memory_type_ok(value: Seq<char>) -> bool {
    ||| value == "observation"@
    ||| value == "episode"@
    ||| value == "decision"@
    ||| value == "trait"@
    ||| value == "value"@
    ||| value == "pattern"@
    ||| value == "preference"@
    ||| value == "mental_model"@
}

/// The types that a memory can have are those of [`VALID_MEMORY_TYPES`].
pub proof fn lemma_valid_memory_types(value: Seq<char>)
    ensures
        memory_type_ok(value) <==> exists|i: int|
            0 <= i < 8 && (#[trigger] VALID_MEMORY_TYPES@[i])@ == value,
{
    let types = VALID_MEMORY_TYPES@;
    assert(types[0]@ == "observation"@);
    assert(types[1]@ == "episode"@);
    assert(types[2]@ == "decision"@);
    assert(types[3]@ == "trait"@);
    assert(types[4]@ == "value"@);
    assert(types[5]@ == "pattern"@);
    assert(types[6]@ == "preference"@);
    assert(types[7]@ == "mental_model"@);
}

/// Whether a text is the type of a memory.
pub fn is_memory_type(value: &str) -> (r: bool)
    ensures
        r == memory_type_ok(value@),
{
    str_eq(value, "observation") || str_eq(value, "episode") || str_eq(value, "decision")
        || str_eq(value, "trait") || str_eq(value, "value") || str_eq(value, "pattern")
        || str_eq(value, "preference") || str_eq(value, "mental_model")
}

/// The outcome of the rule on memory types.
pub open spec fn memory_type_check(tool: Seq<char>, value: Seq<char>) -> Result<(), ErrorView> {
    if memory_type_ok(value) {
        Ok(())
    } else {
        Err(
            error::invalid(
                tool,
                "memory_type"@,
                "one of: observation, episode, decision, trait, value, pattern, preference, mental_model"@,
                JsonView::Text(value),
                "Use one of: observation, episode, decision, trait, value, pattern, preference, mental_model"@,
            ),
        )
    }
}

/// Memory type: one of [`VALID_MEMORY_TYPES`].
pub fn memory_type(tool: &'static str, value: &str) -> (r: Result<(), ChittaError>)
    ensures
        error::outcome(r) == memory_type_check(tool@, value@),
{
    if !is_memory_type(value) {
        return Err(
            make_invalid(
                tool,
                "memory_type",
                "one of: observation, episode, decision, trait, value, pattern, preference, mental_model",
                json::text_value(value),
                "Use one of: observation, episode, decision, trait, value, pattern, preference, mental_model",
            ),
        );
    }
    Ok(())
}

/// The outcome of the rule on lists of memory types, from position `i` on: the
/// first that is no memory type is refused.
pub open spec fn memory_types_from(tool: Seq<char>, values: Seq<Seq<char>>, i: int) -> Result<
    (),
    ErrorView,
>
    decreases values.len() - i,
{
    if i < 0 || i >= values.len() {
        Ok(())
    } else if !memory_type_ok(values[i]) {
        memory_type_check(tool, values[i])
    } else {
        memory_types_from(tool, values, i + 1)
    }
}

/// Memory types: each one of [`VALID_MEMORY_TYPES`].
pub fn memory_types(tool: &'static str, values: &[String]) -> (r: Result<(), ChittaError>)
    ensures
        error::outcome(r) == memory_types_from(tool@, text::texts(values@), 0),
{
    for i in 0..values.len()
        invariant
            memory_types_from(tool@, text::texts(values@), 0) == memory_types_from(
                tool@,
                text::texts(values@),
                i as int,
            ),
    {
        assert(text::texts(values@)[i as int] == values@[i as int]@);
        match memory_type(tool, values[i].as_str()) {
            Ok(()) => {},
            Err(e) => {
                return Err(e);
            },
        }
    }
    Ok(())
}

// ---- Identifiers ------------------------------------------------------------------

/// What the rule on UUIDs makes of a text that was parsed as `parsed`.
pub open spec fn uuid_outcome(
    tool: Seq<char>,
    argument: Seq<char>,
    value: Seq<char>,
    parsed: Result<u128, Seq<char>>,
) -> Result<MemoryId, ErrorView> {
    match parsed {
        Ok(id) => Ok(id),
        Err(words) => Err(
            error::invalid(
                tool,
                argument,
                "valid UUID"@,
                JsonView::Text(value),
                "Pass a valid UUID string. Parse error: "@ + words,
            ),
        ),
    }
}

/// What the rule on UUIDs makes of a text.
pub open spec fn uuid_check(tool: Seq<char>, argument: Seq<char>, value: Seq<char>) -> Result<
    MemoryId,
    ErrorView,
> {
    uuid_outcome(tool, argument, value, ids::uuid_parse(value))
}

/// The view of a parse result: the error is taken by its text.
pub open spec fn parsed_view(parsed: Result<MemoryId, String>) -> Result<u128, Seq<char>> {
    match parsed {
        Ok(id) => Ok(id),
        Err(e) => Err(e@),
    }
}

/// The outcome for a UUID argument that was parsed as `parsed`.
pub fn parsed_uuid(
    tool: &'static str,
    argument: &'static str,
    value: &str,
    parsed: Result<MemoryId, String>,
) -> (r: Result<MemoryId, ChittaError>)
    ensures
        error::outcome(r) == uuid_outcome(tool@, argument@, value@, parsed_view(parsed)),
{
    match parsed {
        Ok(id) => Ok(id),
        Err(words) => Err(
            make_invalid(
                tool,
                argument,
                "valid UUID",
                json::text_value(value),
                concat2("Pass a valid UUID string. Parse error: ", words.as_str()).as_str(),
            ),
        ),
    }
}

/// Parses a UUID argument.
pub fn parse_uuid(tool: &'static str, argument: &'static str, value: &str) -> (r: Result<
    MemoryId,
    ChittaError,
>)
    ensures
        error::outcome(r) == uuid_check(tool@, argument@, value@),
{
    parsed_uuid(tool, argument, value, parse_id(value))
}

// ---- Derivations ------------------------------------------------------------------

/// A derivation as the caller gives it, before its identifier is parsed.
#[derive(Clone, Debug, PartialEq, Eq)]
pub struct DerivationInput {
    /// UUID of the source memory that this derivation links to.
    pub source_id: String,
    /// Type of derivation (e.g. "synthesised_from", "supersedes").
    pub derivation_type: String,
}

/// What a [`DerivationInput`] stands for.
pub struct DerivationInputView {
    pub source_id: Seq<char>,
    pub derivation_type: Seq<char>,
}

impl View for DerivationInput {
    type V = DerivationInputView;

    open spec fn view(&self) -> DerivationInputView {
        DerivationInputView {
            source_id: self.source_id@,
            derivation_type: self.derivation_type@,
        }
    }
}

/// The views of derivations.
pub open spec fn derivation_views(v: Seq<DerivationInput>) -> Seq<DerivationInputView> {
    v.map_values(|d: DerivationInput| d@)
}

/// The view of an optional list of derivations.
pub open spec fn opt_derivation_views(o: Option<Vec<DerivationInput>>) -> Option<
    Seq<DerivationInputView>,
> {
    match o {
        Some(v) => Some(derivation_views(v@)),
        None => None,
    }
}

/// The error for an episode without derivations.
pub open spec fn episode_error(tool: Seq<char>, received: JsonView) -> ErrorView {
    error::invalid(
        tool,
        "derivations"@,
        "episode memory requires at least one derivation"@,
        received,
        "episode memory requires at least one entry in derivations linking to source observations. Either supply derivations, or use memory_type=observation."@,
    )
}

/// The outcome of the rule on single derivations, from position `i` on: the
/// first that breaks it is refused.
pub open spec fn derivations_from(tool: Seq<char>, ds: Seq<DerivationInputView>, i: int) -> Result<
    (),
    ErrorView,
>
    decreases ds.len() - i,
{
    if i < 0 || i >= ds.len() {
        Ok(())
    } else if ids::uuid_parse(ds[i].source_id) is Err {
        Err(
            error::invalid(
                tool,
                "derivations"@,
                "source_id must be a valid UUID"@,
                json::object2(
                    "index"@,
                    json::int_value(i),
                    "source_id"@,
                    JsonView::Text(ds[i].source_id),
                ),
                "Pass a valid UUID for source_id."@,
            ),
        )
    } else if ds[i].derivation_type.len() == 0 {
        Err(
            error::invalid(
                tool,
                "derivations"@,
                "derivation_type must be non-empty"@,
                json::object2("index"@, json::int_value(i), "derivation_type"@, JsonView::Text(""@)),
                "Pass a non-empty derivation_type (e.g. \"synthesised_from\")."@,
            ),
        )
    } else {
        derivations_from(tool, ds, i + 1)
    }
}

/// The outcome of the rule that an episode is derived from something.
pub open spec fn episode_derivations_check(
    tool: Seq<char>,
    memory_type: Seq<char>,
    derivations: Option<Seq<DerivationInputView>>,
) -> Result<(), ErrorView> {
    if memory_type != "episode"@ {
        Ok(())
    } else {
        match derivations {
            None => Err(episode_error(tool, JsonView::Null)),
            Some(ds) => if ds.len() == 0 {
                Err(episode_error(tool, JsonView::Array(Seq::empty())))
            } else {
                derivations_from(tool, ds, 0)
            },
        }
    }
}

fn make_episode_error(tool: &'static str, received: Json) -> (r: ChittaError)
    ensures
        r@ == episode_error(tool@, received@),
{
    make_invalid(
        tool,
        "derivations",
        "episode memory requires at least one derivation",
        received,
        "episode memory requires at least one entry in derivations linking to source observations. Either supply derivations, or use memory_type=observation.",
    )
}

/// Episodes need at least one derivation, each with a UUID as its source and a
/// type that is not empty. Derivations of other memories are not looked at.
pub fn episode_derivations(
    tool: &'static str,
    memory_type: &str,
    derivations: &Option<Vec<DerivationInput>>,
) -> (r: Result<(), ChittaError>)
    ensures
        error::outcome(r) == episode_derivations_check(
            tool@,
            memory_type@,
            opt_derivation_views(*derivations),
        ),
{
    if !str_eq(memory_type, "episode") {
        return Ok(());
    }
    match derivations {
        None => Err(make_episode_error(tool, Json::Null)),
        Some(v) => {
            if v.len() == 0 {
                let none: Vec<Json> = Vec::new();
                let received = Json::Array(none);
                assert(received@->Array_0 =~= Seq::<JsonView>::empty());
                return Err(make_episode_error(tool, received));
            }
            let ghost ds = derivation_views(v@);
            for i in 0..v.len()
                invariant
                    ds == derivation_views(v@),
                    episode_derivations_check(
                        tool@,
                        memory_type@,
                        opt_derivation_views(*derivations),
                    ) == derivations_from(tool@, ds, i as int),
            {
                assert(ds[i as int] == v@[i as int]@);
                if parse_id(v[i].source_id.as_str()).is_err() {
                    return Err(
                        make_invalid(
                            tool,
                            "derivations",
                            "source_id must be a valid UUID",
                            json::make_object2(
                                "index",
                                json::unsigned(i as u64),
                                "source_id",
                                json::text_value(v[i].source_id.as_str()),
                            ),
                            "Pass a valid UUID for source_id.",
                        ),
                    );
                }
                if v[i].derivation_type.as_str().unicode_len() == 0 {
                    return Err(
                        make_invalid(
                            tool,
                            "derivations",
                            "derivation_type must be non-empty",
                            json::make_object2(
                                "index",
                                json::unsigned(i as u64),
                                "derivation_type",
                                json::text_value(""),
                            ),
                            "Pass a non-empty derivation_type (e.g. \"synthesised_from\").",
                        ),
                    );
                }
            }
            Ok(())
        },
    }
}

// ---- External references ------------------------------------------------------------

/// The kinds that an external reference can have.
pub const VALID_REF_KINDS: [&'static str; 6] = [
    "file",
    "commit",
    "yojana_task",
    "memory",
    "url",
    "session",
];

/// Whether `kind` is the kind of an external reference.
pub open spec fn ref_kind_ok(kind: Seq<char>) -> bool {
    ||| kind == "file"@
    ||| kind == "commit"@
    ||| kind == "yojana_task"@
    ||| kind == "memory"@
    ||| kind == "url"@
    ||| kind == "session"@
}

/// The kinds that an external reference can have are those of
/// [`VALID_REF_KINDS`].
pub proof fn lemma_valid_ref_kinds(kind: Seq<char>)
    ensures
        ref_kind_ok(kind) <==> exists|i: int|
            0 <= i < 6 && (#[trigger] VALID_REF_KINDS@[i])@ == kind,
{
    let kinds = VALID_REF_KINDS@;
    assert(kinds[0]@ == "file"@);
    assert(kinds[1]@ == "commit"@);
    assert(kinds[2]@ == "yojana_task"@);
    assert(kinds[3]@ == "memory"@);
    assert(kinds[4]@ == "url"@);
    assert(kinds[5]@ == "session"@);
}

/// Whether a text is the kind of an external reference.
pub fn is_ref_kind(kind: &str) -> (r: bool)
    ensures
        r == ref_kind_ok(kind@),
{
    str_eq(kind, "file") || str_eq(kind, "commit") || str_eq(kind, "yojana_task") || str_eq(
        kind,
        "memory",
    ) || str_eq(kind, "url") || str_eq(kind, "session")
}

/// The outcome of the rule on reference filters.
pub open spec fn ref_filter_check(
    tool: Seq<char>,
    kind: Seq<char>,
    value: Option<Seq<char>>,
) -> Result<(), ErrorView> {
    if !ref_kind_ok(kind) {
        Err(
            error::invalid(
                tool,
                "ref_filter.kind"@,
                "kind must be one of: file, commit, yojana_task, memory, url, session"@,
                json::object1("kind"@, JsonView::Text(kind)),
                "Use a valid kind: file, commit, yojana_task, memory, url, session"@,
            ),
        )
    } else if value is Some && value->0.len() == 0 {
        Err(
            error::invalid(
                tool,
                "ref_filter.ref"@,
                "ref must be non-empty when provided"@,
                json::object1("ref"@, JsonView::Text(""@)),
                "Provide a non-empty ref value or omit the field."@,
            ),
        )
    } else {
        Ok(())
    }
}

/// Reference filter: a kind out of [`VALID_REF_KINDS`], and a value that is not
/// empty where there is one.
pub fn ref_filter(tool: &'static str, rf: &RefFilter) -> (r: Result<(), ChittaError>)
    ensures
        error::outcome(r) == ref_filter_check(tool@, rf.kind@, text::opt_text(rf.ref_value)),
{
    if !is_ref_kind(rf.kind.as_str()) {
        return Err(
            make_invalid(
                tool,
                "ref_filter.kind",
                "kind must be one of: file, commit, yojana_task, memory, url, session",
                json::make_object1("kind", json::text_value(rf.kind.as_str())),
                "Use a valid kind: file, commit, yojana_task, memory, url, session",
            ),
        );
    }
    match &rf.ref_value {
        Some(value) => {
            if value.as_str().unicode_len() == 0 {
                return Err(
                    make_invalid(
                        tool,
                        "ref_filter.ref",
                        "ref must be non-empty when provided",
                        json::make_object1("ref", json::text_value("")),
                        "Provide a non-empty ref value or omit the field.",
                    ),
                );
            }
        },
        None => {},
    }
    Ok(())
}

/// The error for an external reference that breaks a rule.
pub open spec fn refs_error(
    tool: Seq<char>,
    constraint: Seq<char>,
    received: JsonView,
    next_action: Seq<char>,
) -> ErrorView {
    error::invalid(tool, "external_refs"@, constraint, received, next_action)
}

/// The outcome of the rule on one external reference, at position `i`: an object
/// with a string `kind` out of the valid kinds and a string `ref` that is not
/// empty.
pub open spec fn ref_entry_check(tool: Seq<char>, i: int, entry: JsonView) -> Result<
    (),
    ErrorView,
> {
    let index = json::int_value(i);
    if !(entry is Object) {
        Err(
            refs_error(
                tool,
                "each element must be an object with \"kind\" and \"ref\" string fields"@,
                json::object2("index"@, index, "type"@, JsonView::Text(entry.kind_name())),
                "Each element must be {\"kind\": \"<type>\", \"ref\": \"<value>\"}."@,
            ),
        )
    } else {
        match entry.text_member("kind"@) {
            None => Err(
                refs_error(
                    tool,
                    "each element must have a string \"kind\" field"@,
                    json::object1("index"@, index),
                    "Add a \"kind\" field. Valid kinds: file, commit, yojana_task, memory, url, session"@,
                ),
            ),
            Some(kind) => if !ref_kind_ok(kind) {
                Err(
                    refs_error(
                        tool,
                        "kind must be one of: file, commit, yojana_task, memory, url, session"@,
                        json::object2("index"@, index, "kind"@, JsonView::Text(kind)),
                        "Use a valid kind: file, commit, yojana_task, memory, url, session"@,
                    ),
                )
            } else {
                match entry.text_member("ref"@) {
                    None => Err(
                        refs_error(
                            tool,
                            "each element must have a non-empty string \"ref\" field"@,
                            json::object1("index"@, index),
                            "Add a \"ref\" field with the reference value (e.g. a file path, URL, or UUID)."@,
                        ),
                    ),
                    Some(value) => if value.len() == 0 {
                        Err(
                            refs_error(
                                tool,
                                "\"ref\" must be non-empty"@,
                                json::object2("index"@, index, "ref"@, JsonView::Text(""@)),
                                "Provide a non-empty ref value."@,
                            ),
                        )
                    } else {
                        Ok(())
                    },
                }
            },
        }
    }
}

/// The outcome of the rule on external references, from position `i` on: the
/// first that breaks it is refused.
pub open spec fn refs_from(tool: Seq<char>, entries: Seq<JsonView>, i: int) -> Result<(), ErrorView>
    decreases entries.len() - i,
{
    if i < 0 || i >= entries.len() {
        Ok(())
    } else if ref_entry_check(tool, i, entries[i]) is Err {
        ref_entry_check(tool, i, entries[i])
    } else {
        refs_from(tool, entries, i + 1)
    }
}

/// The outcome of the rule on external references.
pub open spec fn external_refs_check(tool: Seq<char>, value: JsonView) -> Result<(), ErrorView> {
    match value.elements() {
        None => Err(
            refs_error(
                tool,
                "must be a JSON array"@,
                json::object1("type"@, JsonView::Text(value.kind_name())),
                "Pass external_refs as an array: [{\"kind\": \"file\", \"ref\": \"path/to/file\"}]."@,
            ),
        ),
        Some(entries) => refs_from(tool, entries, 0),
    }
}

fn make_refs_error(tool: &'static str, constraint: &str, received: Json, next_action: &str) -> (r:
    ChittaError)
    ensures
        r@ == refs_error(tool@, constraint@, received@, next_action@),
{
    make_invalid(tool, "external_refs", constraint, received, next_action)
}

fn ref_entry(tool: &'static str, i: u64, entry: &Json) -> (r: Result<(), ChittaError>)
    ensures
        error::outcome(r) == ref_entry_check(tool@, i as int, entry@),
{
    if !entry.is_object() {
        return Err(
            make_refs_error(
                tool,
                "each element must be an object with \"kind\" and \"ref\" string fields",
                json::make_object2(
                    "index",
                    json::unsigned(i),
                    "type",
                    json::text_value(entry.kind_name()),
                ),
                "Each element must be {\"kind\": \"<type>\", \"ref\": \"<value>\"}.",
            ),
        );
    }
    let kind = match entry.get_str("kind") {
        Some(kind) => kind,
        None => {
            return Err(
                make_refs_error(
                    tool,
                    "each element must have a string \"kind\" field",
                    json::make_object1("index", json::unsigned(i)),
                    "Add a \"kind\" field. Valid kinds: file, commit, yojana_task, memory, url, session",
                ),
            );
        },
    };
    if !is_ref_kind(kind) {
        return Err(
            make_refs_error(
                tool,
                "kind must be one of: file, commit, yojana_task, memory, url, session",
                json::make_object2("index", json::unsigned(i), "kind", json::text_value(kind)),
                "Use a valid kind: file, commit, yojana_task, memory, url, session",
            ),
        );
    }
    match entry.get_str("ref") {
        None => Err(
            make_refs_error(
                tool,
                "each element must have a non-empty string \"ref\" field",
                json::make_object1("index", json::unsigned(i)),
                "Add a \"ref\" field with the reference value (e.g. a file path, URL, or UUID).",
            ),
        ),
        Some(value) => {
            if value.unicode_len() == 0 {
                return Err(
                    make_refs_error(
                        tool,
                        "\"ref\" must be non-empty",
                        json::make_object2("index", json::unsigned(i), "ref", json::text_value("")),
                        "Provide a non-empty ref value.",
                    ),
                );
            }
            Ok(())
        },
    }
}

/// External refs: JSON array of `{"kind": "<type>", "ref": "<value>"}`.
pub fn external_refs(tool: &'static str, value: &Json) -> (r: Result<(), ChittaError>)
    ensures
        error::outcome(r) == external_refs_check(tool@, value@),
{
    let arr = match value.as_array() {
        Some(arr) => arr,
        None => {
            return Err(
                make_refs_error(
                    tool,
                    "must be a JSON array",
                    json::make_object1("type", json::text_value(value.kind_name())),
                    "Pass external_refs as an array: [{\"kind\": \"file\", \"ref\": \"path/to/file\"}].",
                ),
            );
        },
    };
    let ghost entries = json::views(arr@);
    for i in 0..arr.len()
        invariant
            entries == json::views(arr@),
            external_refs_check(tool@, value@) == refs_from(tool@, entries, i as int),
    {
        assert(entries[i as int] == arr@[i as int]@);
        match ref_entry(tool, i as u64, &arr[i]) {
            Ok(()) => {},
            Err(e) => {
                return Err(e);
            },
        }
    }
    Ok(())
}

// ---- Laws -----------------------------------------------------------------------------

/// Whether the outcome refuses an argument of a tool, by its name.
pub open spec fn refuses(outcome: Result<(), ErrorView>, tool: Seq<char>, named: Seq<char>) -> bool {
    outcome matches Err(ErrorView::InvalidArgument { tool: t, argument, .. }) && t == tool
        && argument == named
}

/// A profile is accepted where it has from one to a hundred and twenty-eight characters,
/// each a letter or a digit of ASCII, an underscore or a hyphen, and refused as the
/// profile otherwise.
pub proof fn lemma_accepted_profiles(tool: Seq<char>, value: Seq<char>)
    ensures
        profile_check(tool, value) is Ok <==> 1 <= value.len() <= 128 && forall|i: int|
            0 <= i < value.len() ==> ('a' <= #[trigger] value[i] <= 'z' || 'A' <= value[i] <= 'Z'
                || '0' <= value[i] <= '9' || value[i] == '_' || value[i] == '-'),
        profile_check(tool, value) is Ok || refuses(profile_check(tool, value), tool, "profile"@),
{
    assert forall|c: char| #[trigger] profile_char(c) <==> ('a' <= c <= 'z' || 'A' <= c <= 'Z'
        || '0' <= c <= '9' || c == '_' || c == '-') by {}
    if profile_ok(value) {
        assert forall|i: int| 0 <= i < value.len() implies ('a' <= #[trigger] value[i] <= 'z'
            || 'A' <= value[i] <= 'Z' || '0' <= value[i] <= '9' || value[i] == '_' || value[i]
            == '-') by {
            assert(profile_char(value[i]));
        }
    }
}

/// Content is accepted where it is not empty and has four mebibytes at most.
pub proof fn lemma_accepted_contents(tool: Seq<char>, value: Seq<char>)
    ensures
        content_byte_length_check(tool, value) is Ok <==> text::utf8(value).len() <= 4 * 1024
            * 1024,
        content_non_empty_check(tool, value) is Ok <==> value.len() > 0,
        content_byte_length_check(tool, value) is Ok || refuses(
            content_byte_length_check(tool, value),
            tool,
            "content"@,
        ),
        content_non_empty_check(tool, value) is Ok || refuses(
            content_non_empty_check(tool, value),
            tool,
            "content"@,
        ),
{
}

/// A key is accepted where it has from one to a hundred and twenty-eight characters, none
/// below the space and none from the delete character to the last of the second block of
/// control characters.
pub proof fn lemma_accepted_keys(tool: Seq<char>, value: Seq<char>)
    ensures
        idempotency_key_check(tool, value) is Ok <==> 1 <= value.len() <= 128 && forall|i: int|
            0 <= i < value.len() ==> (#[trigger] value[i]) as int >= 32 && !(127 <= value[i] as int
                <= 159),
        idempotency_key_check(tool, value) is Ok || refuses(
            idempotency_key_check(tool, value),
            tool,
            "idempotency_key"@,
        ),
{
    if idempotency_key_ok(value) {
        assert forall|i: int| 0 <= i < value.len() implies (#[trigger] value[i]) as int >= 32 && !(
        127 <= value[i] as int <= 159) by {
            assert(!text::control(value[i]));
        }
    }
}

/// An event time is accepted where it is not before the epoch and not more than a year of
/// days after the time that the clock shows.
pub proof fn lemma_accepted_times(
    tool: Seq<char>,
    value: Timestamp,
    now: Timestamp,
    shown: JsonView,
)
    requires
        value.nanos < 1_000_000_000,
        now.nanos < 1_000_000_000,
    ensures
        event_time_check(tool, value, now, shown) is Ok <==> 0 <= crate::time::instant(value)
            <= crate::time::instant(now) + 365 * 24 * 3600 * 1_000_000_000,
        event_time_check(tool, value, now, shown) is Ok || refuses(
            event_time_check(tool, value, now, shown),
            tool,
            "event_time"@,
        ),
{
    crate::time::lemma_times_are_instants(value, now, 365);
}

proof fn lemma_tags_from(tool: Seq<char>, values: Seq<Seq<char>>, i: int)
    requires
        0 <= i <= values.len(),
    ensures
        tags_from(tool, values, i) is Ok <==> forall|j: int|
            i <= j < values.len() ==> 1 <= (#[trigger] values[j]).len() <= 64,
        tags_from(tool, values, i) is Ok || refuses(tags_from(tool, values, i), tool, "tags"@),
    decreases values.len() - i,
{
    if i < values.len() {
        lemma_tags_from(tool, values, i + 1);
    }
}

/// Tags are accepted where there are thirty-two at most, each with from one to sixty-four
/// characters.
pub proof fn lemma_accepted_tags(tool: Seq<char>, values: Seq<Seq<char>>)
    ensures
        tags_check(tool, values) is Ok <==> values.len() <= 32 && forall|j: int|
            0 <= j < values.len() ==> 1 <= (#[trigger] values[j]).len() <= 64,
        tags_check(tool, values) is Ok || refuses(tags_check(tool, values), tool, "tags"@),
{
    lemma_tags_from(tool, values, 0);
}

/// From one to two hundred results can be asked for, and any number of tokens but none. A
/// similarity floor is accepted where it is a number from zero to one.
pub proof fn lemma_accepted_numbers(tool: Seq<char>, k: i64, tokens: u64, bits: u32)
    ensures
        k_check(tool, k) is Ok <==> 1 <= k <= 200,
        k_check(tool, k) is Ok || refuses(k_check(tool, k), tool, "k"@),
        max_tokens_check(tool, tokens) is Ok <==> tokens >= 1,
        max_tokens_check(tool, tokens) is Ok || refuses(
            max_tokens_check(tool, tokens),
            tool,
            "max_tokens"@,
        ),
        min_similarity_check(tool, bits) is Ok <==> floats::exponent(bits) < 255 && 0
            <= floats::value(bits) <= floats::value(0x3f80_0000),
        min_similarity_check(tool, bits) is Ok || refuses(
            min_similarity_check(tool, bits),
            tool,
            "min_similarity"@,
        ),
{
    vstd::arithmetic::power2::lemma2_to64();
    floats::lemma_numbers_are_ordered_by_value(bits, 0x3f80_0000);
    floats::lemma_numbers_are_ordered_by_value(0x3f80_0000, bits);
    floats::lemma_numbers_are_ordered_by_value(bits, 0);
    floats::lemma_numbers_are_ordered_by_value(0, bits);
    assert(floats::value(0) == 0);
    assert(floats::place(0) == 0);
    assert(floats::exponent(0x3f80_0000) == 127);
    assert(floats::place(0x3f80_0000) == 0x3f80_0000);
}

proof fn lemma_types_from(tool: Seq<char>, values: Seq<Seq<char>>, i: int)
    requires
        0 <= i <= values.len(),
    ensures
        memory_types_from(tool, values, i) is Ok <==> forall|j: int|
            i <= j < values.len() ==> memory_type_ok(#[trigger] values[j]),
    decreases values.len() - i,
{
    if i < values.len() {
        lemma_types_from(tool, values, i + 1);
    }
}

/// A type is accepted where it is one of the eight types of memories, and a list of types
/// where each of them is.
pub proof fn lemma_accepted_types(tool: Seq<char>, value: Seq<char>, values: Seq<Seq<char>>)
    ensures
        memory_type_check(tool, value) is Ok <==> value == "observation"@ || value == "episode"@
            || value == "decision"@ || value == "trait"@ || value == "value"@ || value
            == "pattern"@ || value == "preference"@ || value == "mental_model"@,
        memory_type_check(tool, value) is Ok || refuses(
            memory_type_check(tool, value),
            tool,
            "memory_type"@,
        ),
        memory_types_from(tool, values, 0) is Ok <==> forall|j: int|
            0 <= j < values.len() ==> memory_type_check(tool, #[trigger] values[j]) is Ok,
{
    lemma_types_from(tool, values, 0);
    assert(forall|v: Seq<char>| memory_type_check(tool, v) is Ok <==> #[trigger] memory_type_ok(v));
    if forall|j: int| 0 <= j < values.len() ==> memory_type_check(tool, #[trigger] values[j]) is Ok {
        assert forall|j: int| 0 <= j < values.len() implies memory_type_ok(
            #[trigger] values[j],
        ) by {
            assert(memory_type_check(tool, values[j]) is Ok);
        }
    }
}

proof fn lemma_derivations_from(tool: Seq<char>, ds: Seq<DerivationInputView>, i: int)
    requires
        0 <= i <= ds.len(),
    ensures
        derivations_from(tool, ds, i) is Ok <==> forall|j: int|
            i <= j < ds.len() ==> ids::uuid_parse((#[trigger] ds[j]).source_id) is Ok
                && ds[j].derivation_type.len() > 0,
        derivations_from(tool, ds, i) is Ok || refuses(
            derivations_from(tool, ds, i),
            tool,
            "derivations"@,
        ),
    decreases ds.len() - i,
{
    if i < ds.len() {
        lemma_derivations_from(tool, ds, i + 1);
    }
}

/// An episode is accepted where it is derived from something, and each of its derivations
/// names a source and a type. Memories of other types need no derivation.
pub proof fn lemma_accepted_episodes(
    tool: Seq<char>,
    memory_type: Seq<char>,
    derivations: Option<Seq<DerivationInputView>>,
)
    ensures
        memory_type != "episode"@ ==> episode_derivations_check(tool, memory_type, derivations)
            is Ok,
        memory_type == "episode"@ ==> (episode_derivations_check(tool, memory_type, derivations)
            is Ok <==> derivations is Some && derivations->0.len() > 0 && forall|j: int|
            0 <= j < derivations->0.len() ==> ids::uuid_parse(
                (#[trigger] derivations->0[j]).source_id,
            ) is Ok && derivations->0[j].derivation_type.len() > 0),
        episode_derivations_check(tool, memory_type, derivations) is Ok || refuses(
            episode_derivations_check(tool, memory_type, derivations),
            tool,
            "derivations"@,
        ),
{
    if derivations is Some {
        lemma_derivations_from(tool, derivations->0, 0);
    }
}

/// Whether a text is one of the six kinds of references.
pub open spec fn is_kind_of_reference(kind: Seq<char>) -> bool {
    kind == "file"@ || kind == "commit"@ || kind == "yojana_task"@ || kind == "memory"@ || kind
        == "url"@ || kind == "session"@
}

/// A filter by reference is accepted where it is by one of the six kinds, and by a value
/// that is not empty or by none.
pub proof fn lemma_accepted_filters(tool: Seq<char>, kind: Seq<char>, value: Option<Seq<char>>)
    ensures
        ref_filter_check(tool, kind, value) is Ok <==> is_kind_of_reference(kind) && (value is None
            || value->0.len() > 0),
{
}

/// Whether a value is a reference: an object with one of the six kinds and a value that
/// is not empty.
pub open spec fn is_reference(entry: JsonView) -> bool {
    &&& entry is Object
    &&& entry.member("kind"@) matches Some(JsonView::Text(kind)) && is_kind_of_reference(kind)
    &&& entry.member("ref"@) matches Some(JsonView::Text(value)) && value.len() > 0
}

proof fn lemma_refs_from(tool: Seq<char>, entries: Seq<JsonView>, i: int)
    requires
        0 <= i <= entries.len(),
    ensures
        refs_from(tool, entries, i) is Ok <==> forall|j: int|
            i <= j < entries.len() ==> is_reference(#[trigger] entries[j]),
        refs_from(tool, entries, i) is Ok || refuses(
            refs_from(tool, entries, i),
            tool,
            "external_refs"@,
        ),
    decreases entries.len() - i,
{
    if i < entries.len() {
        lemma_refs_from(tool, entries, i + 1);
        assert(ref_entry_check(tool, i, entries[i]) is Ok <==> is_reference(entries[i]));
    }
}

/// External references are accepted where they are an array of references.
pub proof fn lemma_accepted_references(tool: Seq<char>, value: JsonView)
    ensures
        external_refs_check(tool, value) is Ok <==> (value matches JsonView::Array(entries)
            && forall|j: int| 0 <= j < entries.len() ==> is_reference(#[trigger] entries[j])),
        external_refs_check(tool, value) is Ok || refuses(
            external_refs_check(tool, value),
            tool,
            "external_refs"@,
        ),
{
    match value {
        JsonView::Array(entries) => {
            lemma_refs_from(tool, entries, 0);
        },
        _ => {},
    }
}

} // verus!
