//! `record_feedback`: agreement and disagreement with consolidated memories.

use vstd::prelude::*;
use vstd::string::*;

use crate::consolidated::{self, is_consolidated};
use crate::db::{MemoryRow, RowView};
use crate::error::{self, make_invalid, ChittaError, ErrorView};
use crate::facets::{Facets, FacetsView};
use crate::floats;
use crate::ids::{self, format_id, fresh_id, parse_id, MemoryId};
use crate::json::{self, Json, JsonView};
use crate::sql::{self, both, word, write_update, Assignment, Context, Expr, Value};
use crate::synthesis::disagree;
use crate::text::{self, concat2, concat3, concat4};
use crate::time::Timestamp;
use crate::tools::validate;

verus! {

/// The name of the tool.
pub const TOOL: &'static str = "record_feedback";

/// Whether the feedback agrees.
#[derive(Clone, Copy, Debug, PartialEq, Eq, Structural)]
pub enum FeedbackKind {
    Agree,
    Disagree,
}

/// The arguments of the tool.
#[derive(Debug, PartialEq, Eq)]
pub struct RecordFeedbackArgs {
    /// Target profile namespace.
    pub profile: String,
    /// UUID of the consolidated memory to give feedback on.
    pub memory_id: String,
    /// Whether the feedback agrees.
    pub kind: FeedbackKind,
    /// Correction text, only with disagreement. It is picked up later as
    /// contradicting evidence.
    pub correction: Option<String>,
}

/// What the tool returns. The confidence is held by its bits.
#[derive(Debug, PartialEq, Eq)]
pub struct RecordFeedbackOutput {
    pub memory_id: MemoryId,
    pub new_confidence: u32,
    pub kind: FeedbackKind,
    pub feedback_row_id: MemoryId,
    pub correction_row_id: Option<MemoryId>,
}

// ---- Arguments ----------------------------------------------------------------------

/// The outcome of the rules on the tool's arguments, where the memory's
/// identifier was parsed as `parsed`.
pub open spec fn args_outcome(
    profile: Seq<char>,
    memory_id: Seq<char>,
    kind: FeedbackKind,
    correction: Option<Seq<char>>,
    parsed: Result<u128, Seq<char>>,
) -> Result<MemoryId, ErrorView> {
    let by_profile = validate::profile_check(TOOL@, profile);
    let by_id = validate::uuid_outcome(TOOL@, "memory_id"@, memory_id, parsed);
    if by_profile is Err {
        Err(by_profile->Err_0)
    } else if by_id is Err {
        by_id
    } else if kind is Agree && correction is Some {
        Err(
            ErrorView::InvalidArgument {
                tool: TOOL@,
                argument: "correction"@,
                constraint: "correction is only valid when kind=disagree"@,
                received: None,
                next_action: "Remove the correction field, or change kind to disagree."@,
            },
        )
    } else {
        match correction {
            None => by_id,
            Some(c) => {
                let by_length = validate::content_non_empty_check(TOOL@, c);
                let by_size = validate::content_byte_length_check(TOOL@, c);
                if by_length is Err {
                    Err(by_length->Err_0)
                } else if by_size is Err {
                    Err(by_size->Err_0)
                } else {
                    by_id
                }
            },
        }
    }
}

/// Checks the tool's arguments, where the memory's identifier was parsed as
/// `parsed`, and gives the identifier.
pub fn check_args_parsed(args: &RecordFeedbackArgs, parsed: Result<MemoryId, String>) -> (r: Result<
    MemoryId,
    ChittaError,
>)
    ensures
        error::outcome(r) == args_outcome(
            args.profile@,
            args.memory_id@,
            args.kind,
            text::opt_text(args.correction),
            validate::parsed_view(parsed),
        ),
{
    match validate::profile(TOOL, args.profile.as_str()) {
        Err(e) => {
            return Err(e);
        },
        Ok(()) => {},
    }
    let id = match validate::parsed_uuid(TOOL, "memory_id", args.memory_id.as_str(), parsed) {
        Err(e) => {
            return Err(e);
        },
        Ok(id) => id,
    };
    match (&args.kind, &args.correction) {
        (FeedbackKind::Agree, Some(_)) => {
            return Err(
                ChittaError::InvalidArgument {
                    tool: TOOL,
                    argument: "correction".to_owned(),
                    constraint: "correction is only valid when kind=disagree".to_owned(),
                    received: None,
                    next_action:
                        "Remove the correction field, or change kind to disagree.".to_owned(),
                },
            );
        },
        _ => {},
    }
    match &args.correction {
        Some(c) => {
            match validate::content_non_empty(TOOL, c.as_str()) {
                Err(e) => {
                    return Err(e);
                },
                Ok(()) => {},
            }
            match validate::content_byte_length(TOOL, c.as_str()) {
                Err(e) => {
                    return Err(e);
                },
                Ok(()) => {},
            }
        },
        None => {},
    }
    Ok(id)
}

/// Checks the tool's arguments, and gives the memory's identifier.
pub fn check_args(args: &RecordFeedbackArgs) -> (r: Result<MemoryId, ChittaError>)
    ensures
        error::outcome(r) == args_outcome(
            args.profile@,
            args.memory_id@,
            args.kind,
            text::opt_text(args.correction),
            ids::uuid_parse(args.memory_id@),
        ),
{
    check_args_parsed(args, parse_id(args.memory_id.as_str()))
}

// ---- The target -----------------------------------------------------------------------

/// The outcome of the rules on the memory that feedback is given on: it exists
/// and was not withdrawn, it is consolidated, and nothing took its place.
pub open spec fn target_outcome(row: Option<RowView>) -> Result<(), ErrorView> {
    if row is None || row->0.invalidated_at is Some {
        Err(
            ErrorView::NotFound {
                tool: TOOL@,
                kind: "memory"@,
                next_action: "Verify the profile and memory_id. Use search_memories to locate the intended memory."@,
            },
        )
    } else if !consolidated::consolidated_type(row->0.memory_type) {
        Err(
            error::invalid(
                TOOL@,
                "memory_id"@,
                "target must be a consolidated type (trait, value, pattern, preference, mental_model), got '"@
                    + row->0.memory_type + "'"@,
                JsonView::Text(row->0.memory_type),
                "Feedback can only be recorded on consolidated memories returned by get_profile."@,
            ),
        )
    } else if row->0.superseded_by is Some {
        Err(
            ErrorView::InvalidArgument {
                tool: TOOL@,
                argument: "memory_id"@,
                constraint: "target memory is superseded or invalidated"@,
                received: None,
                next_action: "Use get_profile to find the current active version of this memory."@,
            },
        )
    } else {
        Ok(())
    }
}

/// Whether feedback is taken on what was looked up: a memory of one of the consolidated
/// types that was neither withdrawn nor superseded.
pub open spec fn takes_feedback(row: Option<MemoryRow>) -> bool {
    row matches Some(r) && r.invalidated_at is None && r.superseded_by is None && (r.memory_type@
        == "trait"@ || r.memory_type@ == "value"@ || r.memory_type@ == "pattern"@
        || r.memory_type@ == "preference"@ || r.memory_type@ == "mental_model"@)
}

/// Checks the memory that feedback is given on.
pub fn check_target(row: &Option<MemoryRow>) -> (r: Result<(), ChittaError>)
    ensures
        error::outcome(r) == target_outcome(crate::db::opt_row(*row)),
        r is Ok <==> takes_feedback(*row),
        r matches Err(ChittaError::NotFound { .. }) <==> *row is None || (*row)->0.invalidated_at
            is Some,
{
    let found = match row {
        Some(row) => if row.invalidated_at.is_none() {
            Some(row)
        } else {
            None
        },
        None => None,
    };
    let row = match found {
        Some(row) => row,
        None => {
            return Err(
                ChittaError::NotFound {
                    tool: TOOL,
                    kind: "memory",
                    next_action:
                        "Verify the profile and memory_id. Use search_memories to locate the intended memory.".to_owned(),
                },
            );
        },
    };
    if !is_consolidated(row.memory_type.as_str()) {
        return Err(
            make_invalid(
                TOOL,
                "memory_id",
                concat3(
                    "target must be a consolidated type (trait, value, pattern, preference, mental_model), got '",
                    row.memory_type.as_str(),
                    "'",
                ).as_str(),
                json::text_value(row.memory_type.as_str()),
                "Feedback can only be recorded on consolidated memories returned by get_profile.",
            ),
        );
    }
    if row.superseded_by.is_some() {
        return Err(
            ChittaError::InvalidArgument {
                tool: TOOL,
                argument: "memory_id".to_owned(),
                constraint: "target memory is superseded or invalidated".to_owned(),
                received: None,
                next_action:
                    "Use get_profile to find the current active version of this memory.".to_owned(),
            },
        );
    }
    Ok(())
}

/// Feedback is taken exactly on consolidated memories that hold.
pub proof fn lemma_feedback_on_active_consolidated_only(row: RowView)
    ensures
        target_outcome(Some(row)) is Ok <==> row.active() && consolidated::consolidated_type(
            row.memory_type,
        ),
        target_outcome(None) is Err,
{
}

/// The error for a memory that changed between the check and the update.
pub open spec fn changed_meanwhile() -> ErrorView {
    ErrorView::InvalidArgument {
        tool: TOOL@,
        argument: "memory_id"@,
        constraint: "target memory was modified concurrently"@,
        received: None,
        next_action: "Retry the operation."@,
    }
}

/// The error for a memory that changed between the check and the update.
pub fn concurrent_change() -> (r: ChittaError)
    ensures
        r@ == changed_meanwhile(),
{
    ChittaError::InvalidArgument {
        tool: TOOL,
        argument: "memory_id".to_owned(),
        constraint: "target memory was modified concurrently".to_owned(),
        received: None,
        next_action: "Retry the operation.".to_owned(),
    }
}

// ---- The update -------------------------------------------------------------------------

/// The bits of 0.05: by how much agreement raises a confidence.
pub const AGREE_DELTA: u32 = 0x3d4c_cccd;

/// The bits of 0.10: by how much disagreement lowers a confidence.
pub const DISAGREE_DELTA: u32 = 0x3dcc_cccd;

/// By how much feedback changes a confidence, by its bits.
pub open spec fn change_for(kind: FeedbackKind) -> u32 {
    match kind {
        FeedbackKind::Agree => AGREE_DELTA,
        FeedbackKind::Disagree => DISAGREE_DELTA,
    }
}

/// By how much feedback changes a confidence, by its bits.
pub fn delta(kind: FeedbackKind) -> (r: u32)
    ensures
        r == change_for(kind),
{
    match kind {
        FeedbackKind::Agree => AGREE_DELTA,
        FeedbackKind::Disagree => DISAGREE_DELTA,
    }
}

/// Agreement raises a confidence by five hundredths, and disagreement lowers it by ten.
pub proof fn lemma_changes_in_hundredths()
    ensures
        floats::is_nearest(change_for(FeedbackKind::Agree), 5, 100),
        floats::is_nearest(change_for(FeedbackKind::Disagree), 10, 100),
{
    vstd::arithmetic::power2::lemma2_to64();
    assert(floats::exponent(AGREE_DELTA) == 122);
    assert(floats::exponent(DISAGREE_DELTA) == 123);
}

/// The new confidence: raised, but not above one, or lowered, but not below zero. A
/// confidence that was not set counts as one half.
pub open spec fn confidence_after(kind: FeedbackKind) -> Expr {
    let known = Box::new(
        Expr::Call2(
            "COALESCE",
            Box::new(Expr::Word("confidence")),
            Box::new(Expr::Word("0.5")),
        ),
    );
    match kind {
        FeedbackKind::Agree => Expr::Call2(
            "LEAST",
            Box::new(Expr::Between(known, "+", Box::new(Expr::Param(3)))),
            Box::new(Expr::Word("1.0")),
        ),
        FeedbackKind::Disagree => Expr::Call2(
            "GREATEST",
            Box::new(Expr::Between(known, "-", Box::new(Expr::Param(3)))),
            Box::new(Expr::Word("0.0")),
        ),
    }
}

/// The new reinforcement count: one more with agreement.
pub open spec fn reinforcements_after(kind: FeedbackKind) -> Expr {
    match kind {
        FeedbackKind::Agree => Expr::Between(
            Box::new(Expr::Word("reinforcement_count")),
            "+",
            Box::new(Expr::Word("1")),
        ),
        FeedbackKind::Disagree => Expr::Word("reinforcement_count"),
    }
}

/// The new confidence as SQL.
pub open spec fn confidence_sql(kind: FeedbackKind) -> Seq<char> {
    sql::written(confidence_after(kind))
}

/// The new reinforcement count as SQL.
pub open spec fn reinforcement_sql(kind: FeedbackKind) -> Seq<char> {
    sql::written(reinforcements_after(kind))
}

/// What the update assigns. Any feedback sets when the memory was last reinforced.
pub open spec fn update_assignments(kind: FeedbackKind) -> Seq<Assignment> {
    seq![
        Assignment { column: "confidence", to: confidence_after(kind) },
        Assignment { column: "reinforcement_count", to: reinforcements_after(kind) },
        Assignment { column: "last_reinforced_at", to: Expr::Param(4) },
    ]
}

/// Which rows the update changes: the row of the profile with the identifier, as long
/// as it holds and is of one of the types.
pub open spec fn update_condition() -> Expr {
    let named = Expr::Between(
        Box::new(
            Expr::Between(Box::new(Expr::Word("profile")), "=", Box::new(Expr::Param(1))),
        ),
        "AND",
        Box::new(Expr::Between(Box::new(Expr::Word("id")), "=", Box::new(Expr::Param(2)))),
    );
    let there = Expr::Between(
        Box::new(named),
        "AND",
        Box::new(Expr::Behind(Box::new(Expr::Word("invalidated_at")), "IS NULL")),
    );
    let holds = Expr::Between(
        Box::new(there),
        "AND",
        Box::new(Expr::Behind(Box::new(Expr::Word("superseded_by")), "IS NULL")),
    );
    Expr::Between(
        Box::new(holds),
        "AND",
        Box::new(
            Expr::Between(
                Box::new(Expr::Word("memory_type")),
                "=",
                Box::new(Expr::Call("ANY", Box::new(Expr::Param(5)))),
            ),
        ),
    )
}

/// The statement that updates the memory: its parameters are the profile, the
/// identifier, the change of confidence, the time, and the consolidated types.
pub open spec fn update_statement(kind: FeedbackKind) -> Seq<char> {
    sql::update_written(update_assignments(kind), update_condition(), Expr::Word("confidence"))
}

fn make_confidence(kind: FeedbackKind) -> (r: Expr)
    ensures
        r == confidence_after(kind),
{
    let known = Box::new(
        Expr::Call2(
            "COALESCE",
            Box::new(Expr::Word("confidence")),
            Box::new(Expr::Word("0.5")),
        ),
    );
    match kind {
        FeedbackKind::Agree => Expr::Call2(
            "LEAST",
            Box::new(Expr::Between(known, "+", Box::new(Expr::Param(3)))),
            Box::new(Expr::Word("1.0")),
        ),
        FeedbackKind::Disagree => Expr::Call2(
            "GREATEST",
            Box::new(Expr::Between(known, "-", Box::new(Expr::Param(3)))),
            Box::new(Expr::Word("0.0")),
        ),
    }
}

fn make_condition() -> (r: Expr)
    ensures
        r == update_condition(),
{
    let named = both(
        both(word("profile"), "=", Expr::Param(1)),
        "AND",
        both(word("id"), "=", Expr::Param(2)),
    );
    let there = both(
        named,
        "AND",
        Expr::Behind(Box::new(word("invalidated_at")), "IS NULL"),
    );
    let holds = both(
        there,
        "AND",
        Expr::Behind(Box::new(word("superseded_by")), "IS NULL"),
    );
    both(
        holds,
        "AND",
        both(word("memory_type"), "=", Expr::Call("ANY", Box::new(Expr::Param(5)))),
    )
}

/// The statement that updates the memory, in one step, so that no feedback is
/// lost between reading and writing.
pub fn update_sql(kind: FeedbackKind) -> (r: String)
    ensures
        r@ == update_statement(kind),
{
    let reinforcements = match kind {
        FeedbackKind::Agree => both(word("reinforcement_count"), "+", word("1")),
        FeedbackKind::Disagree => word("reinforcement_count"),
    };
    let mut sets: Vec<Assignment> = Vec::new();
    sets.push(Assignment { column: "confidence", to: make_confidence(kind) });
    sets.push(Assignment { column: "reinforcement_count", to: reinforcements });
    sets.push(Assignment { column: "last_reinforced_at", to: Expr::Param(4) });
    assert(sets@ =~= update_assignments(kind));
    write_update(sets.as_slice(), &make_condition(), &word("confidence"))
}

/// The values of the parameters of the update: the profile, the identifier, the change
/// of confidence in hundredths, the time, and the types that feedback is taken on.
pub open spec fn update_params(
    profile: Seq<char>,
    id: MemoryId,
    change: int,
    now: Timestamp,
    types: Seq<Seq<char>>,
) -> Seq<Value> {
    seq![
        Value::Text(profile),
        Value::Id(id),
        Value::Number(change),
        Value::Time(now),
        Value::Texts(types),
    ]
}

/// Feedback changes the memory that it names, and no other: a row is updated exactly
/// where it is of the profile, has the identifier, holds, and is of one of the types.
/// Its confidence, or one half where it has none, goes up by the change and at most to
/// one with agreement, and down by the change and at least to zero with disagreement;
/// it is reinforced once more with agreement, and last reinforced now with either. No
/// other column is touched, and what is given back is the confidence.
pub proof fn lemma_feedback_changes_the_named_memory_alone(
    kind: FeedbackKind,
    profile: Seq<char>,
    id: MemoryId,
    change: int,
    now: Timestamp,
    types: Seq<Seq<char>>,
    c: Context,
    column: Seq<char>,
)
    requires
        c.params == update_params(profile, id, change, now, types),
    ensures
        update_statement(kind) == sql::update_written(
            update_assignments(kind),
            update_condition(),
            Expr::Word("confidence"),
        ),
        sql::selects(update_condition(), c) <==> c.row.profile == profile && c.row.id == id
            && c.row.superseded_by is None && c.row.invalidated_at is None && types.contains(
            c.row.memory_type,
        ),
        ({
            let old = match c.confidence {
                Some(n) => n,
                None => 50int,
            };
            sql::assigned(update_assignments(kind), "confidence"@, c) == Some(
                Value::Number(
                    match kind {
                        FeedbackKind::Agree => if old + change <= 100 {
                            old + change
                        } else {
                            100
                        },
                        FeedbackKind::Disagree => if old - change >= 0 {
                            old - change
                        } else {
                            0
                        },
                    },
                ),
            )
        }),
        sql::assigned(update_assignments(kind), "reinforcement_count"@, c) == Some(
            Value::Number(
                c.row.reinforcement_count + match kind {
                    FeedbackKind::Agree => 1int,
                    FeedbackKind::Disagree => 0int,
                },
            ),
        ),
        sql::assigned(update_assignments(kind), "last_reinforced_at"@, c) == Some(
            Value::Time(now),
        ),
        sql::assigned(update_assignments(kind), column, c) is Some ==> column == "confidence"@
            || column == "reinforcement_count"@ || column == "last_reinforced_at"@,
{
    let sets = update_assignments(kind);
    sql::lemma_words(c);
    reveal_strlit("confidence");
    reveal_strlit("reinforcement_count");
    reveal_strlit("last_reinforced_at");
    reveal_with_fuel(sql::assigned, 4);
    reveal_with_fuel(sql::value, 8);
    assert(sets.drop_last() =~= seq![sets[0], sets[1]]);
    assert(sets.drop_last().drop_last() =~= seq![sets[0]]);
    assert(sets.drop_last().drop_last().drop_last() =~= Seq::<Assignment>::empty());
    assert("confidence"@.len() == 10);
    assert("reinforcement_count"@.len() == 19);
    assert("last_reinforced_at"@.len() == 18);
    let old = sql::word_value("confidence"@, c);
    let half = Value::Number(50);
    let step = Value::Number(change);
    sql::lemma_operators(old, half, c);
    let known = sql::applied("COALESCE"@, old, half);
    sql::lemma_operators(known, step, c);
    sql::lemma_operators(sql::between(known, "+"@, step, c), Value::Number(100), c);
    sql::lemma_operators(sql::between(known, "-"@, step, c), Value::Number(0), c);
    sql::lemma_operators(
        Value::Number(c.row.reinforcement_count as int),
        Value::Number(1),
        c,
    );
    reveal_strlit("ANY");
    reveal_strlit("IS NULL");
    let a = sql::word_value("profile"@, c);
    let b = sql::word_value("id"@, c);
    let t = sql::word_value("memory_type"@, c);
    sql::lemma_operators(a, c.params[0], c);
    sql::lemma_operators(b, c.params[1], c);
    sql::lemma_operators(t, Value::AnyOf(types), c);
    let ea = sql::equal_values(a, c.params[0]);
    let eb = sql::equal_values(b, c.params[1]);
    let et = sql::equal_values(t, Value::AnyOf(types));
    let ni = Value::Bool(c.row.invalidated_at is None);
    let ns = Value::Bool(c.row.superseded_by is None);
    sql::lemma_operators(ea, eb, c);
    let x = sql::between(ea, "AND"@, eb, c);
    sql::lemma_operators(x, ni, c);
    let y = sql::between(x, "AND"@, ni, c);
    sql::lemma_operators(y, ns, c);
    let z = sql::between(y, "AND"@, ns, c);
    sql::lemma_operators(z, et, c);
    assert(sql::value(update_condition(), c) == sql::between(z, "AND"@, et, c));
}

// ---- The evidence -------------------------------------------------------------------------

/// The word for the kind of feedback.
pub open spec fn kind_word(kind: FeedbackKind) -> Seq<char> {
    match kind {
        FeedbackKind::Agree => "agree"@,
        FeedbackKind::Disagree => "disagree"@,
    }
}

/// The external references of a row that is about one memory.
pub open spec fn refs_to(memory_id: MemoryId) -> JsonView {
    JsonView::Array(
        seq![
            json::object2(
                "kind"@,
                JsonView::Text("memory"@),
                "ref"@,
                JsonView::Text(ids::id_text(memory_id)),
            ),
        ],
    )
}

/// A row of evidence: an observation that the tool itself writes down.
pub open spec fn evidence_row(
    id: MemoryId,
    profile: Seq<char>,
    content: Seq<char>,
    key: Seq<char>,
    tags: Seq<Seq<char>>,
    memory_id: MemoryId,
    facets: FacetsView,
    now: Timestamp,
) -> RowView {
    RowView {
        id,
        profile,
        content,
        event_time: now,
        record_time: now,
        idempotency_key: key,
        source: Some("record_feedback"@),
        memory_type: "observation"@,
        tags,
        external_refs: Some(refs_to(memory_id)),
        metadata: None,
        facets,
        superseded_by: None,
        confidence: None,
        reinforcement_count: 0,
        last_reinforced_at: None,
        invalidated_at: None,
    }
}

/// The row that records the feedback.
pub open spec fn feedback_row(
    kind: FeedbackKind,
    memory_id: MemoryId,
    profile: Seq<char>,
    facets: FacetsView,
    now: Timestamp,
    id: MemoryId,
) -> RowView {
    evidence_row(
        id,
        profile,
        "Feedback: "@ + kind_word(kind) + " with memory "@ + ids::id_text(memory_id),
        "feedback-"@ + profile + "-"@ + ids::id_text(id),
        seq!["feedback"@, kind_word(kind)],
        memory_id,
        facets,
        now,
    )
}

/// The row that records a correction.
pub open spec fn correction_row(
    correction: Seq<char>,
    memory_id: MemoryId,
    profile: Seq<char>,
    facets: FacetsView,
    now: Timestamp,
    id: MemoryId,
) -> RowView {
    evidence_row(
        id,
        profile,
        correction,
        "correction-"@ + ids::id_text(memory_id) + "-"@ + ids::id_text(id),
        seq!["correction"@, "contradicts:"@ + ids::id_text(memory_id)],
        memory_id,
        facets,
        now,
    )
}

fn make_refs(memory_text: &str) -> (r: Json)
    ensures
        r@ == JsonView::Array(
            seq![
                json::object2(
                    "kind"@,
                    JsonView::Text("memory"@),
                    "ref"@,
                    JsonView::Text(memory_text@),
                ),
            ],
        ),
{
    let mut refs: Vec<Json> = Vec::new();
    refs.push(
        json::make_object2("kind", json::text_value("memory"), "ref", json::text_value(memory_text)),
    );
    let r = Json::Array(refs);
    assert(r@->Array_0 =~= seq![
        json::object2("kind"@, JsonView::Text("memory"@), "ref"@, JsonView::Text(memory_text@)),
    ]);
    r
}

fn make_evidence(
    id: MemoryId,
    profile: &str,
    content: String,
    key: String,
    tags: Vec<String>,
    memory_text: &str,
    facets: Facets,
    now: Timestamp,
    Ghost(memory_id): Ghost<MemoryId>,
) -> (r: MemoryRow)
    requires
        memory_text@ == ids::id_text(memory_id),
    ensures
        r@ == evidence_row(
            id,
            profile@,
            content@,
            key@,
            text::texts(tags@),
            memory_id,
            facets@,
            now,
        ),
{
    MemoryRow {
        id,
        profile: profile.to_owned(),
        content,
        event_time: now,
        record_time: now,
        idempotency_key: key,
        source: Some("record_feedback".to_owned()),
        memory_type: "observation".to_owned(),
        tags,
        external_refs: Some(make_refs(memory_text)),
        metadata: None,
        facets,
        superseded_by: None,
        confidence: None,
        reinforcement_count: 0,
        last_reinforced_at: None,
        invalidated_at: None,
    }
}

proof fn lemma_refs_name_memory(memory_id: MemoryId)
    requires
        ids::uuid_parse(ids::id_text(memory_id)) is Ok,
        ids::uuid_parse(ids::id_text(memory_id))->Ok_0 == memory_id,
    ensures
        disagree::first_memory(refs_to(memory_id)->Array_0, 0) == Some(memory_id),
{
    let entries = refs_to(memory_id)->Array_0;
    let entry = entries[0];
    let members = entry->Object_0;
    reveal_strlit("kind");
    reveal_strlit("ref");
    assert("kind"@.len() != "ref"@.len());
    assert(json::entry_from(members, "kind"@, 0) == Some(JsonView::Text("memory"@)));
    assert(json::entry_from(members, "ref"@, 1) == Some(
        JsonView::Text(ids::id_text(memory_id)),
    ));
    assert(json::entry_from(members, "ref"@, 0) == Some(
        JsonView::Text(ids::id_text(memory_id)),
    ));
    assert(disagree::referenced_memory(entry) == Some(memory_id));
}

proof fn lemma_feedback_tags(kind: FeedbackKind)
    ensures
        disagree::is_disagreement(seq!["feedback"@, kind_word(kind)]) == (kind is Disagree),
{
    let tags = seq!["feedback"@, kind_word(kind)];
    reveal_strlit("feedback");
    reveal_strlit("agree");
    reveal_strlit("disagree");
    assert(tags[0] == "feedback"@);
    assert(tags[1] == kind_word(kind));
    assert("feedback"@[0] != "disagree"@[0]);
    assert("agree"@.len() != "disagree"@.len());
    if kind is Agree && tags.contains("disagree"@) {
        let i = choose|i: int| 0 <= i < tags.len() && tags[i] == "disagree"@;
        assert(i == 0 || i == 1);
    }
}

/// Whether a row is evidence on a memory: an observation of this tool, for the profile
/// and at the time, with the memory's facets, list by list, and a reference to that
/// memory and to no other.
pub open spec fn is_evidence_on(
    row: MemoryRow,
    memory_id: MemoryId,
    profile: Seq<char>,
    facets: Facets,
    now: Timestamp,
) -> bool {
    &&& row.profile@ == profile
    &&& row.event_time == now
    &&& row.record_time == now
    &&& row.source is Some && row.source->0@ == "record_feedback"@
    &&& row.memory_type@ == "observation"@
    &&& row.external_refs is Some && row.external_refs->0@ == JsonView::Array(
        seq![
            json::object2(
                "kind"@,
                JsonView::Text("memory"@),
                "ref"@,
                JsonView::Text(ids::id_text(memory_id)),
            ),
        ],
    )
    &&& row.metadata is None
    &&& text::same_texts(row.facets.domains@, facets.domains@)
    &&& text::same_texts(row.facets.skills@, facets.skills@)
    &&& text::same_texts(row.facets.projects@, facets.projects@)
    &&& text::same_texts(row.facets.situations@, facets.situations@)
    &&& row.superseded_by is None
    &&& row.confidence is None
    &&& row.reinforcement_count == 0
    &&& row.last_reinforced_at is None
    &&& row.invalidated_at is None
}

/// Whether a row says that feedback of the kind was given on the memory.
pub open spec fn tells_of_feedback(
    row: MemoryRow,
    kind: FeedbackKind,
    memory_id: MemoryId,
    profile: Seq<char>,
) -> bool {
    let word = if kind is Agree {
        "agree"@
    } else {
        "disagree"@
    };
    &&& row.content@ == "Feedback: "@ + word + " with memory "@ + ids::id_text(memory_id)
    &&& row.tags@.len() == 2 && row.tags@[0]@ == "feedback"@ && row.tags@[1]@ == word
    &&& row.idempotency_key@ == "feedback-"@ + profile + "-"@ + ids::id_text(row.id)
}

/// Whether a row holds the correction as it was given, and names the memory that it
/// corrects.
pub open spec fn tells_of_correction(
    row: MemoryRow,
    correction: Seq<char>,
    memory_id: MemoryId,
) -> bool {
    &&& row.content@ == correction
    &&& row.tags@.len() == 2 && row.tags@[0]@ == "correction"@ && row.tags@[1]@
        == "contradicts:"@ + ids::id_text(memory_id)
    &&& row.idempotency_key@ == "correction-"@ + ids::id_text(memory_id) + "-"@ + ids::id_text(
        row.id,
    )
}

proof fn lemma_is_evidence(
    row: MemoryRow,
    content: Seq<char>,
    key: Seq<char>,
    tags: Seq<Seq<char>>,
    memory_id: MemoryId,
    profile: Seq<char>,
    facets: Facets,
    now: Timestamp,
)
    requires
        row@ == evidence_row(row.id, profile, content, key, tags, memory_id, facets@, now),
        tags.len() == 2,
    ensures
        is_evidence_on(row, memory_id, profile, facets, now),
        row.content@ == content,
        row.idempotency_key@ == key,
        row.tags@.len() == 2,
        row.tags@[0]@ == tags[0],
        row.tags@[1]@ == tags[1],
{
    text::lemma_same_texts(row.facets.domains@, facets.domains@);
    text::lemma_same_texts(row.facets.skills@, facets.skills@);
    text::lemma_same_texts(row.facets.projects@, facets.projects@);
    text::lemma_same_texts(row.facets.situations@, facets.situations@);
    assert(text::texts(row.tags@).len() == row.tags@.len());
    assert(text::texts(row.tags@)[0] == row.tags@[0]@);
    assert(text::texts(row.tags@)[1] == row.tags@[1]@);
}

/// Feedback is recorded by evidence on the memory that says which kind it was.
pub proof fn lemma_feedback_is_told(
    row: MemoryRow,
    kind: FeedbackKind,
    memory_id: MemoryId,
    profile: Seq<char>,
    facets: Facets,
    now: Timestamp,
)
    requires
        row@ == feedback_row(kind, memory_id, profile, facets@, now, row.id),
    ensures
        is_evidence_on(row, memory_id, profile, facets, now),
        tells_of_feedback(row, kind, memory_id, profile),
{
    let v = feedback_row(kind, memory_id, profile, facets@, now, row.id);
    lemma_is_evidence(
        row,
        v.content,
        v.idempotency_key,
        v.tags,
        memory_id,
        profile,
        facets,
        now,
    );
}

/// A correction is recorded, as it was given, by evidence on the memory.
pub proof fn lemma_correction_is_told(
    row: MemoryRow,
    correction: Seq<char>,
    memory_id: MemoryId,
    profile: Seq<char>,
    facets: Facets,
    now: Timestamp,
)
    requires
        row@ == correction_row(correction, memory_id, profile, facets@, now, row.id),
    ensures
        is_evidence_on(row, memory_id, profile, facets, now),
        tells_of_correction(row, correction, memory_id),
{
    let v = correction_row(correction, memory_id, profile, facets@, now, row.id);
    lemma_is_evidence(
        row,
        v.content,
        v.idempotency_key,
        v.tags,
        memory_id,
        profile,
        facets,
        now,
    );
}

/// The row, under the given identifier, that records feedback on a memory.
/// Synthesis finds the memory in it exactly where the feedback disagrees.
pub fn make_feedback_row_as(
    kind: FeedbackKind,
    memory_id: MemoryId,
    profile: &str,
    facets: Facets,
    now: Timestamp,
    id: MemoryId,
) -> (r: MemoryRow)
    ensures
        r@ == feedback_row(kind, memory_id, profile@, facets@, now, id),
        is_evidence_on(r, memory_id, profile@, facets, now),
        tells_of_feedback(r, kind, memory_id, profile@),
        disagree::disagree_target(r@) == (if kind is Disagree {
            Some(memory_id)
        } else {
            None
        }),
{
    let word = match kind {
        FeedbackKind::Agree => "agree",
        FeedbackKind::Disagree => "disagree",
    };
    let memory_text = format_id(memory_id);
    let mut tags: Vec<String> = Vec::new();
    tags.push("feedback".to_owned());
    tags.push(word.to_owned());
    assert(text::texts(tags@) =~= seq!["feedback"@, kind_word(kind)]);
    let content = concat4("Feedback: ", word, " with memory ", memory_text.as_str());
    let key = concat4("feedback-", profile, "-", format_id(id).as_str());
    proof {
        lemma_refs_name_memory(memory_id);
        lemma_feedback_tags(kind);
    }
    let ghost given = facets;
    let row = make_evidence(
        id,
        profile,
        content,
        key,
        tags,
        memory_text.as_str(),
        facets,
        now,
        Ghost(memory_id),
    );
    proof {
        lemma_feedback_is_told(row, kind, memory_id, profile@, given, now);
    }
    row
}

/// The row, under a new identifier, that records feedback on a memory.
pub fn make_feedback_row(
    kind: FeedbackKind,
    memory_id: MemoryId,
    profile: &str,
    facets: Facets,
    now: Timestamp,
) -> (r: MemoryRow)
    ensures
        r@ == feedback_row(kind, memory_id, profile@, facets@, now, r.id),
        is_evidence_on(r, memory_id, profile@, facets, now),
        tells_of_feedback(r, kind, memory_id, profile@),
        disagree::disagree_target(r@) == (if kind is Disagree {
            Some(memory_id)
        } else {
            None
        }),
{
    make_feedback_row_as(kind, memory_id, profile, facets, now, fresh_id())
}

proof fn lemma_correction_tags(tag: Seq<char>)
    requires
        tag.len() > 0 && tag[0] == 'c',
    ensures
        !disagree::is_disagreement(seq!["correction"@, tag]),
{
    let tags = seq!["correction"@, tag];
    reveal_strlit("feedback");
    reveal_strlit("correction");
    if tags.contains("feedback"@) {
        let i = choose|i: int| 0 <= i < tags.len() && tags[i] == "feedback"@;
        assert(i == 0 || i == 1);
        assert(tags[i][0] == 'c');
        assert("feedback"@[0] == 'f');
    }
}

/// The row, under the given identifier, that records a correction of a memory.
/// It is evidence in its own right: the disagreement is found in the feedback row
/// alone.
pub fn make_correction_row_as(
    correction: &str,
    memory_id: MemoryId,
    profile: &str,
    facets: Facets,
    now: Timestamp,
    id: MemoryId,
) -> (r: MemoryRow)
    ensures
        r@ == correction_row(correction@, memory_id, profile@, facets@, now, id),
        is_evidence_on(r, memory_id, profile@, facets, now),
        tells_of_correction(r, correction@, memory_id),
        disagree::disagree_target(r@) is None,
{
    let memory_text = format_id(memory_id);
    let contradicts = concat2("contradicts:", memory_text.as_str());
    proof {
        reveal_strlit("contradicts:");
        lemma_correction_tags(contradicts@);
    }
    let mut tags: Vec<String> = Vec::new();
    tags.push("correction".to_owned());
    tags.push(contradicts);
    assert(text::texts(tags@) =~= seq![
        "correction"@,
        "contradicts:"@ + ids::id_text(memory_id),
    ]);
    let key = concat4("correction-", memory_text.as_str(), "-", format_id(id).as_str());
    let ghost given = facets;
    let row = make_evidence(
        id,
        profile,
        correction.to_owned(),
        key,
        tags,
        memory_text.as_str(),
        facets,
        now,
        Ghost(memory_id),
    );
    proof {
        lemma_correction_is_told(row, correction@, memory_id, profile@, given, now);
    }
    row
}

/// The row, under a new identifier, that records a correction of a memory.
pub fn make_correction_row(
    correction: &str,
    memory_id: MemoryId,
    profile: &str,
    facets: Facets,
    now: Timestamp,
) -> (r: MemoryRow)
    ensures
        r@ == correction_row(correction@, memory_id, profile@, facets@, now, r.id),
        is_evidence_on(r, memory_id, profile@, facets, now),
        tells_of_correction(r, correction@, memory_id),
        disagree::disagree_target(r@) is None,
{
    make_correction_row_as(correction, memory_id, profile, facets, now, fresh_id())
}

// ---- The call ---------------------------------------------------------------------------

/// Where a call stands.
#[derive(Clone, Copy, Debug, PartialEq, Eq, Structural)]
pub enum FeedbackPhase {
    /// It waits for the embedding of the correction.
    Embedding,
    /// It waits for the memory, locked in a transaction.
    Locking,
    /// It waits for the memory to be updated.
    Updating,
    /// It waits for the row that records the feedback.
    Recording,
    /// It waits for the row that records the correction.
    Correcting,
    /// It waits for the end of the transaction.
    Committing,
    /// It is done.
    Done,
}

/// What happened.
#[derive(Debug, PartialEq, Eq)]
pub enum FeedbackEvent {
    /// The correction was embedded.
    Embedded,
    /// A transaction was begun at the given time, and the memory was looked up and
    /// locked in it.
    Locked(Option<MemoryRow>, Timestamp),
    /// The memory was updated and has the confidence with the given bits, or was
    /// not there any more.
    Updated(Option<u32>),
    /// A row was inserted.
    Inserted,
    /// The transaction was committed.
    Committed,
}

/// What to do next.
#[derive(Debug, PartialEq, Eq)]
pub enum FeedbackAction {
    /// Embed the correction.
    Embed(String),
    /// Begin a transaction, and lock the memory with the given profile and
    /// identifier in it.
    Lock(String, MemoryId),
    /// Run the statement that updates the memory, with the given change of
    /// confidence and at the given time.
    Update(String, u32, Timestamp),
    /// Insert the row without an embedding.
    InsertFeedback(MemoryRow),
    /// Insert the row with the embedding of the correction.
    InsertCorrection(MemoryRow),
    /// Commit the transaction.
    Commit,
    /// Leave the transaction without committing it, and refuse the call.
    Refuse(ChittaError),
    /// Return the answer.
    Return(RecordFeedbackOutput),
}

/// A call of the tool under way.
#[derive(Debug, PartialEq, Eq)]
pub struct FeedbackCall {
    profile: String,
    memory_id: MemoryId,
    kind: FeedbackKind,
    correction: Option<String>,
    facets: Facets,
    now: Timestamp,
    confidence: u32,
    feedback_id: MemoryId,
    correction_id: Option<MemoryId>,
    phase: FeedbackPhase,
}

/// What a [`FeedbackCall`] stands for.
pub struct FeedbackCallView {
    pub profile: Seq<char>,
    pub memory_id: MemoryId,
    pub kind: FeedbackKind,
    pub correction: Option<Seq<char>>,
    pub facets: FacetsView,
    pub now: Timestamp,
    pub confidence: u32,
    pub feedback_id: MemoryId,
    pub correction_id: Option<MemoryId>,
    pub phase: FeedbackPhase,
}

impl View for FeedbackCall {
    type V = FeedbackCallView;

    closed spec fn view(&self) -> FeedbackCallView {
        FeedbackCallView {
            profile: self.profile@,
            memory_id: self.memory_id,
            kind: self.kind,
            correction: text::opt_text(self.correction),
            facets: self.facets@,
            now: self.now,
            confidence: self.confidence,
            feedback_id: self.feedback_id,
            correction_id: self.correction_id,
            phase: self.phase,
        }
    }
}

/// Whether the call, on the event, goes on as it should: to the state `after`,
/// with the given action. The memory is checked and updated, the feedback is
/// recorded, the correction, where there is one, is recorded too, and all of that
/// is committed at once. An event that does not belong to the phase changes
/// nothing and calls for nothing.
pub open spec fn goes_on(
    before: FeedbackCallView,
    event: FeedbackEvent,
    after: FeedbackCallView,
    action: Option<FeedbackAction>,
) -> bool {
    match (before.phase, event) {
        (FeedbackPhase::Embedding, FeedbackEvent::Embedded) => {
            &&& after == (FeedbackCallView { phase: FeedbackPhase::Locking, ..before })
            &&& action matches Some(FeedbackAction::Lock(profile, id)) && profile@
                == before.profile && id == before.memory_id
        },
        (FeedbackPhase::Locking, FeedbackEvent::Locked(row, now)) => match target_outcome(
            crate::db::opt_row(row),
        ) {
            Ok(()) => {
                &&& after == (FeedbackCallView {
                    facets: row->0.facets@,
                    now,
                    phase: FeedbackPhase::Updating,
                    ..before
                })
                &&& action matches Some(FeedbackAction::Update(sql, change, time)) && sql@
                    == update_statement(before.kind) && change == change_for(before.kind) && time
                    == now
            },
            Err(e) => {
                &&& after == (FeedbackCallView { phase: FeedbackPhase::Done, ..before })
                &&& action matches Some(FeedbackAction::Refuse(error)) && error@ == e
            },
        },
        (FeedbackPhase::Updating, FeedbackEvent::Updated(Some(confidence))) => {
            &&& action matches Some(FeedbackAction::InsertFeedback(row)) && row@ == feedback_row(
                before.kind,
                before.memory_id,
                before.profile,
                before.facets,
                before.now,
                row.id,
            ) && after == (FeedbackCallView {
                confidence,
                feedback_id: row.id,
                phase: FeedbackPhase::Recording,
                ..before
            })
        },
        (FeedbackPhase::Updating, FeedbackEvent::Updated(None)) => {
            &&& after == (FeedbackCallView { phase: FeedbackPhase::Done, ..before })
            &&& action matches Some(FeedbackAction::Refuse(error)) && error@ == changed_meanwhile()
        },
        (FeedbackPhase::Recording, FeedbackEvent::Inserted) => match before.correction {
            Some(correction) => {
                &&& action matches Some(FeedbackAction::InsertCorrection(row)) && row@
                    == correction_row(
                    correction,
                    before.memory_id,
                    before.profile,
                    before.facets,
                    before.now,
                    row.id,
                ) && after == (FeedbackCallView {
                    correction_id: Some(row.id),
                    phase: FeedbackPhase::Correcting,
                    ..before
                })
            },
            None => {
                &&& after == (FeedbackCallView { phase: FeedbackPhase::Committing, ..before })
                &&& action == Some(FeedbackAction::Commit)
            },
        },
        (FeedbackPhase::Correcting, FeedbackEvent::Inserted) => {
            &&& after == (FeedbackCallView { phase: FeedbackPhase::Committing, ..before })
            &&& action == Some(FeedbackAction::Commit)
        },
        (FeedbackPhase::Committing, FeedbackEvent::Committed) => {
            &&& after == (FeedbackCallView { phase: FeedbackPhase::Done, ..before })
            &&& action == Some(
                FeedbackAction::Return(
                    RecordFeedbackOutput {
                        memory_id: before.memory_id,
                        new_confidence: before.confidence,
                        kind: before.kind,
                        feedback_row_id: before.feedback_id,
                        correction_row_id: before.correction_id,
                    },
                ),
            )
        },
        _ => after == before && action is None,
    }
}

/// Whether a call was begun for arguments that pass the rules, where the memory's
/// identifier was parsed as `parsed`: it goes for the embedding of the correction,
/// or, where there is none, for the memory. Otherwise it was refused as the rules
/// say.
pub open spec fn begun(
    args: RecordFeedbackArgs,
    parsed: Result<u128, Seq<char>>,
    r: Result<(FeedbackCall, FeedbackAction), ChittaError>,
) -> bool {
    let correction = text::opt_text(args.correction);
    match (
        args_outcome(args.profile@, args.memory_id@, args.kind, correction, parsed),
        r,
    ) {
        (Ok(id), Ok((call, action))) => {
            &&& call@.profile == args.profile@
            &&& call@.memory_id == id
            &&& call@.kind == args.kind
            &&& call@.correction == correction
            &&& call@.correction_id is None
            &&& match correction {
                Some(c) => {
                    &&& call@.phase == FeedbackPhase::Embedding
                    &&& action matches FeedbackAction::Embed(content) && content@ == c
                },
                None => {
                    &&& call@.phase == FeedbackPhase::Locking
                    &&& action matches FeedbackAction::Lock(profile, of) && profile@
                        == args.profile@ && of == id
                },
            }
        },
        (Err(e), Err(error)) => error@ == e,
        _ => false,
    }
}

impl FeedbackCall {
    /// Begins a call, where the memory's identifier was parsed as `parsed`, and
    /// says what to do first.
    pub fn begin_parsed(
        args: RecordFeedbackArgs,
        parsed: Result<MemoryId, String>,
    ) -> (r: Result<(FeedbackCall, FeedbackAction), ChittaError>)
        ensures
            begun(args, validate::parsed_view(parsed), r),
    {
        let memory_id = match check_args_parsed(&args, parsed) {
            Err(e) => {
                return Err(e);
            },
            Ok(id) => id,
        };
        let (action, phase) = match &args.correction {
            Some(c) => (FeedbackAction::Embed(c.clone()), FeedbackPhase::Embedding),
            None => (
                FeedbackAction::Lock(args.profile.clone(), memory_id),
                FeedbackPhase::Locking,
            ),
        };
        Ok(
            (
                FeedbackCall {
                    profile: args.profile,
                    memory_id,
                    kind: args.kind,
                    correction: args.correction,
                    facets: Facets::default(),
                    now: Timestamp { secs: 0, nanos: 0 },
                    confidence: 0,
                    feedback_id: 0,
                    correction_id: None,
                    phase,
                },
                action,
            ),
        )
    }

    /// Begins a call, and says what to do first.
    pub fn begin(args: RecordFeedbackArgs) -> (r: Result<
        (FeedbackCall, FeedbackAction),
        ChittaError,
    >)
        ensures
            begun(args, ids::uuid_parse(args.memory_id@), r),
    {
        let parsed = parse_id(args.memory_id.as_str());
        FeedbackCall::begin_parsed(args, parsed)
    }

    /// What to do next, now that the given event happened; `None` where the event
    /// does not belong to where the call stands.
    pub fn step(&mut self, event: FeedbackEvent) -> (r: Option<FeedbackAction>)
        ensures
            goes_on(old(self)@, event, final(self)@, r),
    {
        match (self.phase, event) {
            (FeedbackPhase::Embedding, FeedbackEvent::Embedded) => {
                self.phase = FeedbackPhase::Locking;
                Some(FeedbackAction::Lock(self.profile.clone(), self.memory_id))
            },
            (FeedbackPhase::Locking, FeedbackEvent::Locked(row, now)) => {
                match check_target(&row) {
                    Err(e) => {
                        self.phase = FeedbackPhase::Done;
                        Some(FeedbackAction::Refuse(e))
                    },
                    Ok(()) => {
                        if let Some(row) = row {
                            self.facets = row.facets;
                        }
                        self.now = now;
                        self.phase = FeedbackPhase::Updating;
                        Some(FeedbackAction::Update(update_sql(self.kind), delta(self.kind), now))
                    },
                }
            },
            (FeedbackPhase::Updating, FeedbackEvent::Updated(Some(confidence))) => {
                let row = make_feedback_row(
                    self.kind,
                    self.memory_id,
                    self.profile.as_str(),
                    self.facets.copy(),
                    self.now,
                );
                self.confidence = confidence;
                self.feedback_id = row.id;
                self.phase = FeedbackPhase::Recording;
                Some(FeedbackAction::InsertFeedback(row))
            },
            (FeedbackPhase::Updating, FeedbackEvent::Updated(None)) => {
                self.phase = FeedbackPhase::Done;
                Some(FeedbackAction::Refuse(concurrent_change()))
            },
            (FeedbackPhase::Recording, FeedbackEvent::Inserted) => {
                match &self.correction {
                    Some(correction) => {
                        let row = make_correction_row(
                            correction.as_str(),
                            self.memory_id,
                            self.profile.as_str(),
                            self.facets.copy(),
                            self.now,
                        );
                        self.correction_id = Some(row.id);
                        self.phase = FeedbackPhase::Correcting;
                        Some(FeedbackAction::InsertCorrection(row))
                    },
                    None => {
                        self.phase = FeedbackPhase::Committing;
                        Some(FeedbackAction::Commit)
                    },
                }
            },
            (FeedbackPhase::Correcting, FeedbackEvent::Inserted) => {
                self.phase = FeedbackPhase::Committing;
                Some(FeedbackAction::Commit)
            },
            (FeedbackPhase::Committing, FeedbackEvent::Committed) => {
                self.phase = FeedbackPhase::Done;
                Some(
                    FeedbackAction::Return(
                        RecordFeedbackOutput {
                            memory_id: self.memory_id,
                            new_confidence: self.confidence,
                            kind: self.kind,
                            feedback_row_id: self.feedback_id,
                            correction_row_id: self.correction_id,
                        },
                    ),
                )
            },
            _ => None,
        }
    }
}

/// How far a call has come.
pub open spec fn stage(phase: FeedbackPhase) -> int {
    match phase {
        FeedbackPhase::Embedding => 0,
        FeedbackPhase::Locking => 1,
        FeedbackPhase::Updating => 2,
        FeedbackPhase::Recording => 3,
        FeedbackPhase::Correcting => 4,
        FeedbackPhase::Committing => 5,
        FeedbackPhase::Done => 6,
    }
}

/// A call never turns back: it stays with its profile, its memory, its kind and
/// its correction, and each event that it takes brings it further. So it updates
/// the memory, and inserts each row, at most once.
pub proof fn lemma_call_only_moves_on(
    before: FeedbackCallView,
    event: FeedbackEvent,
    after: FeedbackCallView,
    action: Option<FeedbackAction>,
)
    requires
        goes_on(before, event, after, action),
    ensures
        after.profile == before.profile,
        after.memory_id == before.memory_id,
        after.kind == before.kind,
        after.correction == before.correction,
        action is Some <==> stage(after.phase) > stage(before.phase),
        action is None ==> after == before,
{
}

/// Feedback on a memory that does not take any, or that is not there, changes
/// nothing: nothing was written when the call is refused, and nothing is
/// committed.
pub proof fn lemma_refused_feedback_writes_nothing(
    before: FeedbackCallView,
    row: Option<MemoryRow>,
    now: Timestamp,
    after: FeedbackCallView,
    action: Option<FeedbackAction>,
)
    requires
        before.phase == FeedbackPhase::Locking,
        goes_on(before, FeedbackEvent::Locked(row, now), after, action),
        row is None || !row->0@.active() || !consolidated::consolidated_type(row->0.memory_type@),
    ensures
        after.phase == FeedbackPhase::Done,
        action matches Some(FeedbackAction::Refuse(_)),
{
}

/// What the answer names is what was written: after the update, the row that
/// records the feedback is inserted, then, exactly where there is a correction,
/// the row that records it, then both are committed, and the answer holds their
/// identifiers and the new confidence.
pub proof fn lemma_answer_names_what_was_written(
    p0: FeedbackCallView,
    confidence: u32,
    p1: FeedbackCallView,
    a1: Option<FeedbackAction>,
    p2: FeedbackCallView,
    a2: Option<FeedbackAction>,
    p3: FeedbackCallView,
    a3: Option<FeedbackAction>,
    p4: FeedbackCallView,
    a4: Option<FeedbackAction>,
)
    requires
        p0.phase == FeedbackPhase::Updating,
        p0.correction_id is None,
        goes_on(p0, FeedbackEvent::Updated(Some(confidence)), p1, a1),
        goes_on(p1, FeedbackEvent::Inserted, p2, a2),
        p0.correction is Some ==> goes_on(p2, FeedbackEvent::Inserted, p3, a3),
        p0.correction is None ==> p3 == p2 && a3 == a2,
        goes_on(p3, FeedbackEvent::Committed, p4, a4),
    ensures
        a1 matches Some(FeedbackAction::InsertFeedback(_)),
        p0.correction is Some ==> a2 matches Some(FeedbackAction::InsertCorrection(_)),
        a3 == Some(FeedbackAction::Commit),
        a4 == Some(
            FeedbackAction::Return(
                RecordFeedbackOutput {
                    memory_id: p0.memory_id,
                    new_confidence: confidence,
                    kind: p0.kind,
                    feedback_row_id: a1->0->InsertFeedback_0.id,
                    correction_row_id: if p0.correction is Some {
                        Some(a2->0->InsertCorrection_0.id)
                    } else {
                        None
                    },
                },
            ),
        ),
        p4.phase == FeedbackPhase::Done,
{
}

/// Where the arguments are accepted, the memory is the one that they name, and a
/// correction comes with a disagreement only.
pub proof fn lemma_accepted_arguments(
    args: RecordFeedbackArgs,
    parsed: Result<u128, Seq<char>>,
    id: MemoryId,
)
    requires
        args_outcome(
            args.profile@,
            args.memory_id@,
            args.kind,
            text::opt_text(args.correction),
            parsed,
        ) == Ok::<MemoryId, ErrorView>(id),
    ensures
        parsed == Ok::<u128, Seq<char>>(id),
        args.correction is Some ==> args.kind is Disagree,
{
}

/// The memory that is locked is the one that was named; it is updated only where it
/// takes feedback, and as the kind says; then the feedback is recorded with the facets
/// of that memory, then the correction, if there is one, and nothing is committed
/// before that.
pub proof fn lemma_feedback_goes_in_order(
    correction: Option<String>,
    facets: Facets,
    locked: Option<MemoryRow>,
    now: Timestamp,
    before: FeedbackCallView,
    event: FeedbackEvent,
    after: FeedbackCallView,
    action: Option<FeedbackAction>,
)
    requires
        before.correction == text::opt_text(correction),
        before.facets == facets@,
        goes_on(before, event, after, action),
    ensures
        before.phase == FeedbackPhase::Embedding && event == FeedbackEvent::Embedded ==> (
        action matches Some(FeedbackAction::Lock(profile, id)) && profile@ == before.profile && id
            == before.memory_id),
        before.phase == FeedbackPhase::Locking && event == FeedbackEvent::Locked(locked, now)
            ==> if takes_feedback(locked) {
            &&& action matches Some(FeedbackAction::Update(sql, change, time)) && sql@
                == update_statement(before.kind) && change == change_for(before.kind) && time
                == now
            &&& after.phase == FeedbackPhase::Updating && after.now == now && after.facets
                == locked->0.facets@
        } else {
            action matches Some(FeedbackAction::Refuse(_)) && after.phase == FeedbackPhase::Done
        },
        action matches Some(FeedbackAction::Update(_, _, _)) ==> before.phase
            == FeedbackPhase::Locking,
        before.phase == FeedbackPhase::Updating ==> match event {
            FeedbackEvent::Updated(Some(confidence)) => action matches Some(
                FeedbackAction::InsertFeedback(row),
            ) && is_evidence_on(row, before.memory_id, before.profile, facets, before.now)
                && tells_of_feedback(row, before.kind, before.memory_id, before.profile)
                && after.confidence == confidence && after.feedback_id == row.id && after.phase
                == FeedbackPhase::Recording,
            FeedbackEvent::Updated(None) => action matches Some(FeedbackAction::Refuse(_))
                && after.phase == FeedbackPhase::Done,
            _ => action is None,
        },
        before.phase == FeedbackPhase::Recording && event == FeedbackEvent::Inserted ==> if correction
            is Some {
            action matches Some(FeedbackAction::InsertCorrection(row)) && is_evidence_on(
                row,
                before.memory_id,
                before.profile,
                facets,
                before.now,
            ) && tells_of_correction(row, correction->0@, before.memory_id) && after.correction_id
                == Some(row.id) && after.phase == FeedbackPhase::Correcting
        } else {
            action == Some(FeedbackAction::Commit) && after.phase == FeedbackPhase::Committing
        },
        action == Some(FeedbackAction::Commit) ==> event == FeedbackEvent::Inserted && (before.phase
            == FeedbackPhase::Correcting || (before.phase == FeedbackPhase::Recording
            && correction is None)),
        action matches Some(FeedbackAction::Return(out)) ==> before.phase
            == FeedbackPhase::Committing && event == FeedbackEvent::Committed && out.memory_id
            == before.memory_id && out.new_confidence == before.confidence && out.kind
            == before.kind && out.feedback_row_id == before.feedback_id && out.correction_row_id
            == before.correction_id,
{
    match action {
        Some(FeedbackAction::InsertFeedback(row)) => {
            lemma_feedback_is_told(
                row,
                before.kind,
                before.memory_id,
                before.profile,
                facets,
                before.now,
            );
        },
        Some(FeedbackAction::InsertCorrection(row)) => {
            lemma_correction_is_told(
                row,
                correction->0@,
                before.memory_id,
                before.profile,
                facets,
                before.now,
            );
        },
        _ => {},
    }
}

/// A call embeds the correction that was given, or, where there is none, locks the memory
/// that was named, in the profile that was named.
pub proof fn lemma_feedback_begins(
    args: RecordFeedbackArgs,
    parsed: Result<u128, Seq<char>>,
    r: Result<(FeedbackCall, FeedbackAction), ChittaError>,
)
    requires
        begun(args, parsed, r),
    ensures
        r matches Ok((call, action)) ==> {
            &&& parsed == Ok::<u128, Seq<char>>(call@.memory_id)
            &&& call@.profile == args.profile@ && call@.kind == args.kind
            &&& args.correction matches Some(c) ==> args.kind is Disagree && (
            action matches FeedbackAction::Embed(content) && content@ == c@)
            &&& args.correction is None ==> (action matches FeedbackAction::Lock(profile, id)
                && profile@ == args.profile@ && id == call@.memory_id)
        },
{
}

proof fn lemma_parameters_are_written()
    ensures
        sql::written(Expr::Param(1)) == "$1"@,
        sql::written(Expr::Param(2)) == "$2"@,
        sql::written(Expr::Param(3)) == "$3"@,
        sql::written(Expr::Param(4)) == "$4"@,
        sql::written(Expr::Param(5)) == "$5"@,
{
    reveal_strlit("$");
    reveal_strlit("$1");
    reveal_strlit("$2");
    reveal_strlit("$3");
    reveal_strlit("$4");
    reveal_strlit("$5");
    reveal_with_fuel(sql::written, 2);
    assert(text::decimal(1) =~= seq!['1']);
    assert(text::decimal(2) =~= seq!['2']);
    assert(text::decimal(3) =~= seq!['3']);
    assert(text::decimal(4) =~= seq!['4']);
    assert(text::decimal(5) =~= seq!['5']);
    assert(sql::written(Expr::Param(1)) =~= "$1"@);
    assert(sql::written(Expr::Param(2)) =~= "$2"@);
    assert(sql::written(Expr::Param(3)) =~= "$3"@);
    assert(sql::written(Expr::Param(4)) =~= "$4"@);
    assert(sql::written(Expr::Param(5)) =~= "$5"@);
}

/// The condition of the update is written with the profile, the identifier, the two
/// columns that hold nothing, and the types, in that order.
pub proof fn lemma_condition_as_it_is_written()
    ensures
        sql::written(update_condition()) == ("profile"@ + " "@ + "="@ + " "@ + "$1"@) + " "@ + "AND"@
            + " "@ + ("id"@ + " "@ + "="@ + " "@ + "$2"@) + " "@ + "AND"@ + " "@ + (
        "invalidated_at"@ + " "@ + "IS NULL"@) + " "@ + "AND"@ + " "@ + ("superseded_by"@ + " "@
            + "IS NULL"@) + " "@ + "AND"@ + " "@ + ("memory_type"@ + " "@ + "="@ + " "@ + ("ANY"@
            + "("@ + "$5"@ + ")"@)),
{
    lemma_parameters_are_written();
    reveal_with_fuel(sql::written, 7);
}

/// What the update makes of a confidence is written as the lesser of one and the sum, or
/// as the greater of nought and the difference.
pub proof fn lemma_confidence_as_it_is_written()
    ensures
        confidence_sql(FeedbackKind::Agree) == "LEAST"@ + "("@ + (("COALESCE"@ + "("@
            + "confidence"@ + ", "@ + "0.5"@ + ")"@) + " "@ + "+"@ + " "@ + "$3"@) + ", "@ + "1.0"@
            + ")"@,
        confidence_sql(FeedbackKind::Disagree) == "GREATEST"@ + "("@ + (("COALESCE"@ + "("@
            + "confidence"@ + ", "@ + "0.5"@ + ")"@) + " "@ + "-"@ + " "@ + "$3"@) + ", "@ + "0.0"@
            + ")"@,
        reinforcement_sql(FeedbackKind::Agree) == "reinforcement_count"@ + " "@ + "+"@ + " "@ + "1"@,
        reinforcement_sql(FeedbackKind::Disagree) == "reinforcement_count"@,
{
    lemma_parameters_are_written();
    reveal_with_fuel(sql::written, 6);
}

/// The update is written with what it assigns, its condition, and the confidence that it
/// gives back.
pub proof fn lemma_update_as_it_is_written(kind: FeedbackKind)
    ensures
        update_statement(kind) == "UPDATE memories SET "@ + (("confidence"@ + " = "@
            + confidence_sql(kind)) + ", "@ + ("reinforcement_count"@ + " = "@
            + reinforcement_sql(kind)) + ", "@ + ("last_reinforced_at"@ + " = "@ + "$4"@))
            + " WHERE "@ + sql::written(update_condition()) + " RETURNING "@ + "confidence"@,
{
    lemma_parameters_are_written();
    reveal_with_fuel(sql::written, 2);
    reveal_with_fuel(text::joined, 4);
    let parts = sql::assignments_written(update_assignments(kind));
    let a = "confidence"@ + " = "@ + confidence_sql(kind);
    let b = "reinforcement_count"@ + " = "@ + reinforcement_sql(kind);
    let c = "last_reinforced_at"@ + " = "@ + "$4"@;
    assert(parts =~= seq![a, b, c]);
    assert(seq![a, b, c].drop_last() =~= seq![a, b]);
    assert(seq![a, b].drop_last() =~= seq![a]);
    assert(text::joined(seq![a], ", "@) == a);
    assert(text::joined(seq![a, b], ", "@) == a + ", "@ + b);
    assert(text::joined(parts, ", "@) =~= a + ", "@ + b + ", "@ + c);
}

} // verus!
