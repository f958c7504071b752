//! Migration of a memory store: the query that exports an older store, and the
//! rules and the rows that a new one is seeded by.

use vstd::prelude::*;
use vstd::string::*;

use crate::db::{copy_opt_json, MemoryRow, RowView};
use crate::error::{self, ChittaError, ErrorDataView, ErrorView};
use crate::facets::{Facets, FacetsView};
use crate::ids::{self, format_id, fresh_id, MemoryId};
use crate::json::{self, Json, JsonView};
use crate::text::{self, concat2, contains_text, copy_opt, join, trim};
use crate::time::Timestamp;
use crate::tools::store::{self, copy_tags, memory_type_of};
use crate::tools::validate::{self, DerivationInput, DerivationInputView};
use crate::validators::{self, validate_decision_metadata};

verus! {

/// The name under which the rules refuse a row.
pub const TOOL: &'static str = "chitta-migrate";

/// The tag of every row that was seeded.
pub const SEED_TAG: &'static str = "seed:2026-05";

// ---- Export -----------------------------------------------------------------------------

/// The texts of `a` where the condition holds, or else those of `b`.
pub open spec fn either(cond: bool, a: Seq<Seq<char>>, b: Seq<Seq<char>>) -> Seq<Seq<char>> {
    if cond {
        a
    } else {
        b
    }
}

/// The member for a column, where there is one.
pub open spec fn column_member(columns: Seq<Seq<char>>, column: Seq<char>) -> Seq<Seq<char>> {
    either(columns.contains(column), seq!["'"@ + column + "', "@ + column], Seq::empty())
}

/// The members of the JSON object that a row is exported as. An older store may
/// lack columns: times fall back to `created_at`, keys and types are made up, and
/// the rest is left out.
pub open spec fn export_members(columns: Seq<Seq<char>>) -> Seq<Seq<char>> {
    seq!["'id', id"@, "'profile', profile"@, "'content', content"@] + either(
        columns.contains("event_time"@),
        seq!["'event_time', event_time"@, "'record_time', record_time"@],
        either(
            columns.contains("created_at"@),
            seq!["'event_time', created_at"@, "'record_time', created_at"@],
            Seq::empty(),
        ),
    ) + either(
        columns.contains("idempotency_key"@),
        seq!["'idempotency_key', idempotency_key"@],
        seq!["'idempotency_key', 'seed-' || id::text"@],
    ) + seq!["'source', source"@] + either(
        columns.contains("memory_type"@),
        seq!["'memory_type', COALESCE(memory_type, 'observation')"@],
        seq!["'memory_type', 'observation'::text"@],
    ) + seq!["'tags', COALESCE(tags, '{}')"@] + column_member(columns, "external_refs"@)
        + column_member(columns, "metadata"@) + column_member(columns, "applies_to_domains"@)
        + column_member(columns, "applies_to_skills"@) + column_member(
        columns,
        "applies_to_projects"@,
    ) + column_member(columns, "applies_to_situations"@) + either(
        columns.contains("confidence"@),
        seq!["'confidence', confidence"@],
        Seq::empty(),
    )
}

/// The column that exported rows are ordered by.
pub open spec fn export_order(columns: Seq<Seq<char>>) -> Seq<char> {
    if columns.contains("record_time"@) {
        "record_time"@
    } else if columns.contains("created_at"@) {
        "created_at"@
    } else {
        "id"@
    }
}

/// The query that exports a store with the given columns, each row as JSON, and
/// without rows that were withdrawn.
pub open spec fn export_query(columns: Seq<Seq<char>>) -> Seq<char> {
    "SELECT (json_build_object("@ + text::joined(export_members(columns), ", "@)
        + "))::text as row_json FROM memories"@ + (if columns.contains("invalidated_at"@) {
        " WHERE invalidated_at IS NULL"@
    } else {
        Seq::empty()
    }) + " ORDER BY "@ + export_order(columns)
}

fn push_text(parts: &mut Vec<String>, part: &str)
    ensures
        text::texts(final(parts)@) == text::texts(old(parts)@) + seq![part@],
{
    let ghost before = text::texts(parts@);
    parts.push(part.to_owned());
    assert(text::texts(parts@) =~= before + seq![part@]);
}

fn push_column(parts: &mut Vec<String>, columns: &[String], column: &str)
    ensures
        text::texts(final(parts)@) == text::texts(old(parts)@) + column_member(
            text::texts(columns@),
            column@,
        ),
{
    if contains_text(columns, column) {
        let mut part = "'".to_owned();
        part.append(column);
        part.append("', ");
        part.append(column);
        push_text(parts, part.as_str());
    } else {
        assert(text::texts(parts@) + Seq::<Seq<char>>::empty() =~= text::texts(parts@));
    }
}

fn make_export_members(columns: &[String]) -> (r: Vec<String>)
    ensures
        text::texts(r@) == export_members(text::texts(columns@)),
{
    let ghost cols = text::texts(columns@);
    let mut parts: Vec<String> = Vec::new();
    assert(text::texts(parts@) =~= Seq::<Seq<char>>::empty());
    push_text(&mut parts, "'id', id");
    push_text(&mut parts, "'profile', profile");
    push_text(&mut parts, "'content', content");
    assert(text::texts(parts@) =~= seq!["'id', id"@, "'profile', profile"@, "'content', content"@]);
    let ghost p1 = text::texts(parts@);
    let ghost times = either(
        cols.contains("event_time"@),
        seq!["'event_time', event_time"@, "'record_time', record_time"@],
        either(
            cols.contains("created_at"@),
            seq!["'event_time', created_at"@, "'record_time', created_at"@],
            Seq::empty(),
        ),
    );
    if contains_text(columns, "event_time") {
        push_text(&mut parts, "'event_time', event_time");
        push_text(&mut parts, "'record_time', record_time");
    } else if contains_text(columns, "created_at") {
        push_text(&mut parts, "'event_time', created_at");
        push_text(&mut parts, "'record_time', created_at");
    }
    assert(text::texts(parts@) =~= p1 + times);
    if contains_text(columns, "idempotency_key") {
        push_text(&mut parts, "'idempotency_key', idempotency_key");
    } else {
        push_text(&mut parts, "'idempotency_key', 'seed-' || id::text");
    }
    push_text(&mut parts, "'source', source");
    if contains_text(columns, "memory_type") {
        push_text(&mut parts, "'memory_type', COALESCE(memory_type, 'observation')");
    } else {
        push_text(&mut parts, "'memory_type', 'observation'::text");
    }
    push_text(&mut parts, "'tags', COALESCE(tags, '{}')");
    push_column(&mut parts, columns, "external_refs");
    push_column(&mut parts, columns, "metadata");
    push_column(&mut parts, columns, "applies_to_domains");
    push_column(&mut parts, columns, "applies_to_skills");
    push_column(&mut parts, columns, "applies_to_projects");
    push_column(&mut parts, columns, "applies_to_situations");
    let ghost p2 = text::texts(parts@);
    if contains_text(columns, "confidence") {
        push_text(&mut parts, "'confidence', confidence");
    } else {
        assert(p2 + Seq::<Seq<char>>::empty() =~= p2);
    }
    parts
}

/// The query that exports a store with the given columns.
pub fn build_export_query(columns: &[String]) -> (r: String)
    ensures
        r@ == export_query(text::texts(columns@)),
{
    let parts = make_export_members(columns);
    let mut query = "SELECT (json_build_object(".to_owned();
    query.append(join(parts.as_slice(), ", ").as_str());
    query.append("))::text as row_json FROM memories");
    let ghost before = query@;
    if contains_text(columns, "invalidated_at") {
        query.append(" WHERE invalidated_at IS NULL");
    } else {
        assert(before + Seq::<char>::empty() =~= before);
    }
    query.append(" ORDER BY ");
    if contains_text(columns, "record_time") {
        query.append("record_time");
    } else if contains_text(columns, "created_at") {
        query.append("created_at");
    } else {
        query.append("id");
    }
    query
}

// ---- Rows -------------------------------------------------------------------------------

/// A row to seed a store with.
#[derive(Debug, PartialEq, Eq)]
pub struct MigrateRow {
    pub id: Option<MemoryId>,
    pub profile: String,
    pub content: String,
    pub event_time: Option<Timestamp>,
    pub record_time: Option<Timestamp>,
    pub idempotency_key: Option<String>,
    pub source: Option<String>,
    pub memory_type: Option<String>,
    pub tags: Option<Vec<String>>,
    pub external_refs: Option<Json>,
    pub metadata: Option<Json>,
    pub facets: Facets,
    pub confidence: Option<u32>,
    pub derivations: Option<Vec<DerivationInput>>,
}

/// What a [`MigrateRow`] stands for.
pub struct MigrateRowView {
    pub id: Option<MemoryId>,
    pub profile: Seq<char>,
    pub content: Seq<char>,
    pub event_time: Option<Timestamp>,
    pub record_time: Option<Timestamp>,
    pub idempotency_key: Option<Seq<char>>,
    pub source: Option<Seq<char>>,
    pub memory_type: Seq<char>,
    pub tags: Seq<Seq<char>>,
    pub external_refs: Option<JsonView>,
    pub metadata: Option<JsonView>,
    pub facets: FacetsView,
    pub confidence: Option<u32>,
    pub derivations: Option<Seq<DerivationInputView>>,
}

impl View for MigrateRow {
    type V = MigrateRowView;

    open spec fn view(&self) -> MigrateRowView {
        MigrateRowView {
            id: self.id,
            profile: self.profile@,
            content: self.content@,
            event_time: self.event_time,
            record_time: self.record_time,
            idempotency_key: text::opt_text(self.idempotency_key),
            source: text::opt_text(self.source),
            memory_type: store::type_or_observation(self.memory_type),
            tags: crate::facets::texts_or_none(self.tags),
            external_refs: json::opt_json(self.external_refs),
            metadata: json::opt_json(self.metadata),
            facets: self.facets@,
            confidence: self.confidence,
            derivations: validate::opt_derivation_views(self.derivations),
        }
    }
}

/// A line of a file of rows without white space around it, or `None` where it is
/// blank or a comment.
pub open spec fn data_of_line(line: Seq<char>) -> Option<Seq<char>> {
    let t = text::trimmed(line);
    if t.len() == 0 || t[0] == '#' {
        None
    } else {
        Some(t)
    }
}

/// A line of a file of rows without white space around it, or `None` where it is
/// blank or a comment.
pub fn data_line<'a>(line: &'a str) -> (r: Option<&'a str>)
    ensures
        match r {
            Some(s) => data_of_line(line@) == Some(s@),
            None => data_of_line(line@) is None,
        },
{
    let t = trim(line);
    if t.unicode_len() == 0 || t.get_char(0) == '#' {
        None
    } else {
        Some(t)
    }
}

/// An error as it is shown to who seeds a store: the argument at fault, the rule,
/// and what to do.
pub open spec fn error_line(report: ErrorDataView) -> Seq<char> {
    "["@ + (match report.argument {
        Some(a) => a,
        None => "?"@,
    }) + "] "@ + report.constraint + " — next: "@ + report.next_action
}

/// An error as it is shown to who seeds a store.
pub fn format_err(e: &ChittaError) -> (r: String)
    ensures
        r@ == error_line(e@.report()),
{
    let data = e.data();
    let mut r = "[".to_owned();
    match &data.argument {
        Some(a) => {
            r.append(a.as_str());
        },
        None => {
            r.append("?");
        },
    }
    r.append("] ");
    r.append(data.constraint.as_str());
    r.append(" — next: ");
    r.append(data.next_action.as_str());
    r
}

/// The outcome of the rules on a row, one after another.
pub open spec fn row_check(row: MigrateRowView) -> Result<(), ErrorView> {
    let by_refs = match row.external_refs {
        Some(refs) => validate::external_refs_check(TOOL@, refs),
        None => Ok(()),
    };
    store::and_also(
        validate::profile_check(TOOL@, row.profile),
        store::and_also(
            validate::content_non_empty_check(TOOL@, row.content),
            store::and_also(
                validate::content_byte_length_check(TOOL@, row.content),
                store::and_also(
                    validate::memory_type_check(TOOL@, row.memory_type),
                    store::and_also(
                        validate::tags_check(TOOL@, row.tags),
                        store::and_also(
                            by_refs,
                            store::and_also(
                                validators::decision_check(TOOL@, row.memory_type, row.metadata),
                                validate::episode_derivations_check(
                                    TOOL@,
                                    row.memory_type,
                                    row.derivations,
                                ),
                            ),
                        ),
                    ),
                ),
            ),
        ),
    )
}

fn check_row(row: &MigrateRow) -> (r: Result<(), ChittaError>)
    ensures
        error::outcome(r) == row_check(row@),
{
    broadcast use text::lemma_texts_empty;

    let memory_type = memory_type_of(&row.memory_type);
    let r = validate::profile(TOOL, row.profile.as_str());
    if r.is_err() {
        return r;
    }
    let r = validate::content_non_empty(TOOL, row.content.as_str());
    if r.is_err() {
        return r;
    }
    let r = validate::content_byte_length(TOOL, row.content.as_str());
    if r.is_err() {
        return r;
    }
    let r = validate::memory_type(TOOL, memory_type.as_str());
    if r.is_err() {
        return r;
    }
    match &row.tags {
        Some(tags) => {
            let r = validate::tags(TOOL, tags.as_slice());
            if r.is_err() {
                return r;
            }
        },
        None => {},
    }
    match &row.external_refs {
        Some(refs) => {
            let r = validate::external_refs(TOOL, refs);
            if r.is_err() {
                return r;
            }
        },
        None => {},
    }
    let r = validate_decision_metadata(TOOL, memory_type.as_str(), &row.metadata);
    if r.is_err() {
        return r;
    }
    validate::episode_derivations(TOOL, memory_type.as_str(), &row.derivations)
}

/// What a row is refused with, where it is.
pub open spec fn refusal(row: MigrateRowView) -> Option<Seq<char>> {
    match row_check(row) {
        Ok(()) => None,
        Err(e) => Some(error_line(e.report())),
    }
}

/// Holds a row to the rules on new memories.
pub fn validate_row(row: &MigrateRow) -> (r: Result<(), String>)
    ensures
        match r {
            Ok(()) => refusal(row@) is None,
            Err(message) => refusal(row@) == Some(message@),
        },
{
    match check_row(row) {
        Ok(()) => Ok(()),
        Err(e) => Err(format_err(&e)),
    }
}

// ---- Seeding ------------------------------------------------------------------------------

/// Which rows are seeded, and with what the others are refused.
#[derive(Debug, PartialEq, Eq)]
pub struct SeedPlan {
    /// The positions of the rows that are seeded.
    pub accepted: Vec<usize>,
    /// The positions of the rows that are refused, with the reason.
    pub rejected: Vec<(usize, String)>,
}

/// The views of rows.
pub open spec fn migrate_views(rows: Seq<MigrateRow>) -> Seq<MigrateRowView> {
    rows.map_values(|r: MigrateRow| r@)
}

/// The positions of the rows that keep the rules.
pub open spec fn accepted_rows(rows: Seq<MigrateRowView>) -> Seq<usize>
    decreases rows.len(),
{
    if rows.len() == 0 {
        Seq::empty()
    } else {
        let before = accepted_rows(rows.drop_last());
        if refusal(rows.last()) is None {
            before.push((rows.len() - 1) as usize)
        } else {
            before
        }
    }
}

/// The positions of the rows that break a rule, with the reason.
pub open spec fn rejected_rows(rows: Seq<MigrateRowView>) -> Seq<(usize, Seq<char>)>
    decreases rows.len(),
{
    if rows.len() == 0 {
        Seq::empty()
    } else {
        let before = rejected_rows(rows.drop_last());
        match refusal(rows.last()) {
            None => before,
            Some(message) => before.push(((rows.len() - 1) as usize, message)),
        }
    }
}

/// The view of refused rows.
pub open spec fn rejected_views(v: Seq<(usize, String)>) -> Seq<(usize, Seq<char>)> {
    v.map_values(|p: (usize, String)| (p.0, p.1@))
}

/// Holds all rows to the rules: which are seeded, and with what the others are
/// refused.
pub fn plan_seed(rows: &[MigrateRow]) -> (r: SeedPlan)
    ensures
        r.accepted@ == accepted_rows(migrate_views(rows@)),
        rejected_views(r.rejected@) == rejected_rows(migrate_views(rows@)),
        r.accepted@.len() + r.rejected@.len() == rows@.len(),
{
    let ghost views = migrate_views(rows@);
    let mut accepted: Vec<usize> = Vec::new();
    let mut rejected: Vec<(usize, String)> = Vec::new();
    assert(rejected_views(rejected@) =~= Seq::<(usize, Seq<char>)>::empty());
    for i in 0..rows.len()
        invariant
            views == migrate_views(rows@),
            accepted@ == accepted_rows(views.take(i as int)),
            rejected_views(rejected@) == rejected_rows(views.take(i as int)),
            accepted@.len() + rejected@.len() == i,
    {
        let ghost before = rejected@;
        assert(views.take(i + 1).drop_last() =~= views.take(i as int));
        assert(views.take(i + 1).last() == rows@[i as int]@);
        match validate_row(&rows[i]) {
            Ok(()) => {
                accepted.push(i);
            },
            Err(message) => {
                rejected.push((i, message));
                assert(rejected_views(rejected@) =~= rejected_views(before).push((i, message@)));
            },
        }
    }
    assert(views.take(views.len() as int) =~= views);
    SeedPlan { accepted, rejected }
}

/// The tags of a seeded row: those that were given, and the tag of seeded rows
/// where it is not among them.
pub open spec fn seeded_tags(tags: Seq<Seq<char>>) -> Seq<Seq<char>> {
    if tags.contains(SEED_TAG@) {
        tags
    } else {
        tags.push(SEED_TAG@)
    }
}

/// The row that is stored, where `fresh` is the identifier of a row that has none.
pub open spec fn seeded_row(row: MigrateRowView, fresh: MemoryId, now: Timestamp) -> RowView {
    let id = match row.id {
        Some(id) => id,
        None => fresh,
    };
    RowView {
        id,
        profile: row.profile,
        content: row.content,
        event_time: match row.event_time {
            Some(t) => t,
            None => now,
        },
        record_time: match row.record_time {
            Some(t) => t,
            None => now,
        },
        idempotency_key: match row.idempotency_key {
            Some(k) => k,
            None => "seed-"@ + ids::id_text(id),
        },
        source: row.source,
        memory_type: row.memory_type,
        tags: seeded_tags(row.tags),
        external_refs: row.external_refs,
        metadata: row.metadata,
        facets: row.facets,
        superseded_by: None,
        confidence: row.confidence,
        reinforcement_count: 0,
        last_reinforced_at: None,
        invalidated_at: None,
    }
}

fn time_or(t: Option<Timestamp>, now: Timestamp) -> (r: Timestamp)
    ensures
        r == (match t {
            Some(t) => t,
            None => now,
        }),
{
    match t {
        Some(t) => t,
        None => now,
    }
}

/// The row that is stored, where `fresh` is the identifier of a row that has none.
pub fn seed_row_as(row: &MigrateRow, fresh: MemoryId, now: Timestamp) -> (r: MemoryRow)
    ensures
        r@ == seeded_row(row@, fresh, now),
        keeps_what_was_given(r, *row, fresh, now),
{
    let id: MemoryId = match row.id {
        Some(id) => id,
        None => fresh,
    };
    let idempotency_key = match &row.idempotency_key {
        Some(k) => k.clone(),
        None => concat2("seed-", format_id(id).as_str()),
    };
    let mut tags = copy_tags(&row.tags);
    if !contains_text(tags.as_slice(), SEED_TAG) {
        let ghost before = text::texts(tags@);
        tags.push(SEED_TAG.to_owned());
        assert(text::texts(tags@) =~= before.push(SEED_TAG@));
    }
    let stored = MemoryRow {
        id,
        profile: row.profile.clone(),
        content: row.content.clone(),
        event_time: time_or(row.event_time, now),
        record_time: time_or(row.record_time, now),
        idempotency_key,
        source: copy_opt(&row.source),
        memory_type: memory_type_of(&row.memory_type),
        tags,
        external_refs: copy_opt_json(&row.external_refs),
        metadata: copy_opt_json(&row.metadata),
        facets: row.facets.copy(),
        superseded_by: None,
        confidence: row.confidence,
        reinforcement_count: 0,
        last_reinforced_at: None,
        invalidated_at: None,
    };
    proof {
        lemma_seeding_keeps_what_was_given(stored, *row, fresh, now);
    }
    stored
}

/// The row that is stored; a row that has no identifier gets a new one.
pub fn seed_row(row: &MigrateRow, now: Timestamp) -> (r: MemoryRow)
    ensures
        r@ == seeded_row(row@, r.id, now),
        row.id is Some ==> r.id == row.id->0,
{
    seed_row_as(row, fresh_id(), now)
}

/// Every seeded row carries the tag of seeded rows, and keeps the tags that it
/// had.
pub proof fn lemma_seeded_rows_are_tagged(tags: Seq<Seq<char>>)
    ensures
        seeded_tags(tags).contains(SEED_TAG@),
        forall|t: Seq<char>| tags.contains(t) ==> #[trigger] seeded_tags(tags).contains(t),
{
    if !tags.contains(SEED_TAG@) {
        assert forall|t: Seq<char>| tags.contains(t) implies #[trigger] seeded_tags(tags).contains(
            t,
        ) by {
            vstd::seq_lib::lemma_seq_contains_after_push(tags, SEED_TAG@, t);
        }
        vstd::seq_lib::lemma_seq_contains_after_push(tags, SEED_TAG@, SEED_TAG@);
    }
}

/// What follows once the rows were held to the rules.
#[derive(Clone, Copy, Debug, PartialEq, Eq, Structural)]
pub enum SeedStep {
    /// The dry run is over: nothing is written.
    DryRunOver,
    /// There is no row to write.
    NothingToWrite,
    /// The accepted rows are written, one after another.
    Write,
}

/// What follows once the rows were held to the rules: a dry run writes nothing,
/// and otherwise the accepted rows are written, where there are any.
pub fn after_validation(plan: &SeedPlan, dry_run: bool) -> (r: SeedStep)
    ensures
        r == (if dry_run {
            SeedStep::DryRunOver
        } else if plan.accepted@.len() == 0 {
            SeedStep::NothingToWrite
        } else {
            SeedStep::Write
        }),
{
    if dry_run {
        SeedStep::DryRunOver
    } else if plan.accepted.len() == 0 {
        SeedStep::NothingToWrite
    } else {
        SeedStep::Write
    }
}

/// What came of seeding.
#[derive(Clone, Copy, Debug, PartialEq, Eq, Structural)]
pub struct SeedTally {
    pub inserted: usize,
    pub replayed: usize,
    pub errors: usize,
}

/// What came of seeding one row.
#[derive(Clone, Copy, Debug, PartialEq, Eq, Structural)]
pub enum SeedOutcome {
    /// The row was stored.
    Inserted,
    /// A row with its key was there before.
    Replayed,
    /// It could not be stored.
    Failed,
}

/// How many of the outcomes are the given one.
pub open spec fn outcomes_like(outcomes: Seq<SeedOutcome>, like: SeedOutcome) -> nat
    decreases outcomes.len(),
{
    if outcomes.len() == 0 {
        0
    } else {
        outcomes_like(outcomes.drop_last(), like) + if outcomes.last() == like {
            1nat
        } else {
            0nat
        }
    }
}

/// Counts what came of seeding each row: every row is counted once.
pub fn tally(outcomes: &[SeedOutcome]) -> (r: SeedTally)
    ensures
        r.inserted == outcomes_like(outcomes@, SeedOutcome::Inserted),
        r.replayed == outcomes_like(outcomes@, SeedOutcome::Replayed),
        r.errors == outcomes_like(outcomes@, SeedOutcome::Failed),
        r.inserted + r.replayed + r.errors == outcomes@.len(),
{
    let mut r = SeedTally { inserted: 0, replayed: 0, errors: 0 };
    for i in 0..outcomes.len()
        invariant
            r.inserted == outcomes_like(outcomes@.take(i as int), SeedOutcome::Inserted),
            r.replayed == outcomes_like(outcomes@.take(i as int), SeedOutcome::Replayed),
            r.errors == outcomes_like(outcomes@.take(i as int), SeedOutcome::Failed),
            r.inserted + r.replayed + r.errors == i,
    {
        assert(outcomes@.take(i + 1).drop_last() =~= outcomes@.take(i as int));
        match outcomes[i] {
            SeedOutcome::Inserted => {
                r.inserted = r.inserted + 1;
            },
            SeedOutcome::Replayed => {
                r.replayed = r.replayed + 1;
            },
            SeedOutcome::Failed => {
                r.errors = r.errors + 1;
            },
        }
    }
    assert(outcomes@.take(outcomes@.len() as int) =~= outcomes@);
    r
}

/// Whether progress is shown after so many rows: after every fifty.
pub fn shows_progress(done: usize) -> (r: bool)
    ensures
        r == (done % 50 == 0),
{
    done % 50 == 0
}

/// Whether the row that is stored keeps what was given: nothing is changed or left out,
/// and what was not given is made up from the time and the identifier alone.
pub open spec fn keeps_what_was_given(
    stored: MemoryRow,
    given: MigrateRow,
    fresh: MemoryId,
    now: Timestamp,
) -> bool {
    &&& stored.id == (match given.id {
        Some(id) => id,
        None => fresh,
    })
    &&& stored.profile@ == given.profile@
    &&& stored.content@ == given.content@
    &&& stored.event_time == (match given.event_time {
        Some(t) => t,
        None => now,
    })
    &&& stored.record_time == (match given.record_time {
        Some(t) => t,
        None => now,
    })
    &&& match given.idempotency_key {
        Some(key) => stored.idempotency_key@ == key@,
        None => stored.idempotency_key@ == "seed-"@ + ids::id_text(stored.id),
    }
    &&& stored.memory_type@ == (match given.memory_type {
        Some(t) => t@,
        None => "observation"@,
    })
    &&& stored.source is Some <==> given.source is Some
    &&& stored.source is Some ==> stored.source->0@ == given.source->0@
    &&& stored.external_refs is Some <==> given.external_refs is Some
    &&& stored.external_refs is Some ==> stored.external_refs->0@ == given.external_refs->0@
    &&& stored.metadata is Some <==> given.metadata is Some
    &&& stored.metadata is Some ==> stored.metadata->0@ == given.metadata->0@
    &&& stored.confidence == given.confidence
    &&& text::same_texts(stored.facets.domains@, given.facets.domains@)
    &&& text::same_texts(stored.facets.skills@, given.facets.skills@)
    &&& text::same_texts(stored.facets.projects@, given.facets.projects@)
    &&& text::same_texts(stored.facets.situations@, given.facets.situations@)
    &&& stored.superseded_by is None
    &&& stored.reinforcement_count == 0
    &&& stored.last_reinforced_at is None
    &&& stored.invalidated_at is None
}

/// A seeded row keeps what was given.
pub proof fn lemma_seeding_keeps_what_was_given(
    stored: MemoryRow,
    given: MigrateRow,
    fresh: MemoryId,
    now: Timestamp,
)
    requires
        stored@ == seeded_row(given@, fresh, now),
    ensures
        keeps_what_was_given(stored, given, fresh, now),
{
    text::lemma_same_texts(stored.facets.domains@, given.facets.domains@);
    text::lemma_same_texts(stored.facets.skills@, given.facets.skills@);
    text::lemma_same_texts(stored.facets.projects@, given.facets.projects@);
    text::lemma_same_texts(stored.facets.situations@, given.facets.situations@);
}

/// The tags that were given stand first, as they were, and the tag of seeded rows is
/// added behind them where it is not among them.
pub proof fn lemma_seed_tag_is_added_last(tags: Seq<Seq<char>>)
    ensures
        seeded_tags(tags).len() >= tags.len(),
        seeded_tags(tags).take(tags.len() as int) == tags,
        tags.contains(SEED_TAG@) ==> seeded_tags(tags).len() == tags.len(),
        !tags.contains(SEED_TAG@) ==> seeded_tags(tags).len() == tags.len() + 1
            && seeded_tags(tags).last() == SEED_TAG@,
{
    assert(seeded_tags(tags).take(tags.len() as int) =~= tags);
}

/// A row is seeded where, and only where, the rules accept it, and else refused, under
/// its own place; no row is both.
pub proof fn lemma_each_row_is_seeded_or_refused(rows: Seq<MigrateRow>, i: int)
    requires
        rows.len() <= usize::MAX,
        0 <= i < rows.len(),
    ensures
        row_check(rows[i]@) is Ok <==> accepted_rows(migrate_views(rows)).contains(i as usize),
        row_check(rows[i]@) matches Err(e) ==> rejected_rows(migrate_views(rows)).contains(
            (i as usize, error_line(e.report())),
        ),
        accepted_rows(migrate_views(rows)).len() + rejected_rows(migrate_views(rows)).len()
            == rows.len(),
    decreases rows.len(),
{
    let views = migrate_views(rows);
    let rest = rows.drop_last();
    let last = rows.len() - 1;
    let accepted = accepted_rows(views);
    let rejected = rejected_rows(views);
    let accepted0 = accepted_rows(views.drop_last());
    let rejected0 = rejected_rows(views.drop_last());
    assert(views.len() == rows.len());
    assert(migrate_views(rest) =~= views.drop_last());
    assert(views.last() == rows[last]@);
    lemma_accepted_places(rest);
    if rest.len() > 0 {
        lemma_each_row_is_seeded_or_refused(rest, if i < last { i } else { 0 });
    }
    if i < last {
        assert(rest[i] == rows[i]);
        if accepted0.contains(i as usize) {
            let k = choose|k: int| 0 <= k < accepted0.len() && accepted0[k] == i as usize;
            assert(accepted[k] == i as usize);
        }
        if accepted.contains(i as usize) {
            let k = choose|k: int| 0 <= k < accepted.len() && accepted[k] == i as usize;
            assert(accepted0[k] == i as usize);
        }
        match row_check(rows[i]@) {
            Err(e) => {
                let entry = (i as usize, error_line(e.report()));
                let k = choose|k: int| 0 <= k < rejected0.len() && rejected0[k] == entry;
                assert(rejected[k] == entry);
            },
            Ok(_) => {},
        }
    } else {
        match row_check(rows[i]@) {
            Err(e) => {
                assert(rejected[rejected0.len() as int] == (i as usize, error_line(e.report())));
                if accepted.contains(i as usize) {
                    let k = choose|k: int| 0 <= k < accepted.len() && accepted[k] == i as usize;
                    assert(accepted0[k] < rest.len());
                }
            },
            Ok(_) => {
                assert(accepted[accepted0.len() as int] == i as usize);
            },
        }
    }
}

proof fn lemma_accepted_places(rows: Seq<MigrateRow>)
    requires
        rows.len() <= usize::MAX,
    ensures
        forall|k: int|
            0 <= k < accepted_rows(migrate_views(rows)).len() ==> #[trigger] accepted_rows(
                migrate_views(rows),
            )[k] < rows.len(),
    decreases rows.len(),
{
    if rows.len() > 0 {
        lemma_accepted_places(rows.drop_last());
        assert(migrate_views(rows.drop_last()) =~= migrate_views(rows).drop_last());
        let places = accepted_rows(migrate_views(rows));
        let before = accepted_rows(migrate_views(rows).drop_last());
        assert(migrate_views(rows).len() == rows.len());
        assert forall|k: int| 0 <= k < places.len() implies #[trigger] places[k] < rows.len() by {
            if k < before.len() {
                assert(places[k] == before[k]);
            } else {
                assert(places[k] == (rows.len() - 1) as usize);
            }
        }
    }
}

/// Outcomes are counted one by one, each for what it is.
pub proof fn lemma_outcomes_count(
    a: Seq<SeedOutcome>,
    b: Seq<SeedOutcome>,
    one: SeedOutcome,
    like: SeedOutcome,
)
    ensures
        outcomes_like(a + b, like) == outcomes_like(a, like) + outcomes_like(b, like),
        outcomes_like(seq![one], like) == if one == like {
            1int
        } else {
            0
        },
    decreases b.len(),
{
    reveal_with_fuel(outcomes_like, 2);
    assert(seq![one].drop_last() =~= Seq::<SeedOutcome>::empty());
    if b.len() == 0 {
        assert(a + b =~= a);
    } else {
        lemma_outcomes_count(a, b.drop_last(), one, like);
        assert((a + b).drop_last() =~= a + b.drop_last());
        assert((a + b).last() == b.last());
    }
}

/// A row is accepted where every rule on its parts accepts it.
pub proof fn lemma_accepted_rows(row: MigrateRow)
    ensures
        row_check(row@) is Ok <==> {
            let memory_type = match row.memory_type {
                Some(t) => t@,
                None => "observation"@,
            };
            &&& validate::profile_check(TOOL@, row.profile@) is Ok
            &&& validate::content_non_empty_check(TOOL@, row.content@) is Ok
            &&& validate::content_byte_length_check(TOOL@, row.content@) is Ok
            &&& validate::memory_type_check(TOOL@, memory_type) is Ok
            &&& row.tags matches Some(tags) ==> validate::tags_check(
                TOOL@,
                text::texts(tags@),
            ) is Ok
            &&& row.external_refs matches Some(refs) ==> validate::external_refs_check(
                TOOL@,
                refs@,
            ) is Ok
            &&& validators::decision_check(TOOL@, memory_type, json::opt_json(row.metadata)) is Ok
            &&& validate::episode_derivations_check(
                TOOL@,
                memory_type,
                validate::opt_derivation_views(row.derivations),
            ) is Ok
        },
{
    validate::lemma_accepted_tags(TOOL@, row@.tags);
}

/// How many members a condition adds.
pub open spec fn counts(cond: bool, n: int) -> int {
    if cond {
        n
    } else {
        0
    }
}

/// Every export holds the identifier, the profile and the content, and of each column that
/// an older store may lack, what is in it where the store has it. Nothing else is exported
/// but the times, the key, the source, the type and the tags.
#[verifier::rlimit(40)]
#[verifier::spinoff_prover]
pub proof fn lemma_export_holds_the_columns(columns: Seq<Seq<char>>)
    ensures
        export_members(columns).contains("'id', id"@),
        export_members(columns).contains("'profile', profile"@),
        export_members(columns).contains("'content', content"@),
        export_members(columns).contains("'source', source"@),
        columns.contains("event_time"@) ==> export_members(columns).contains(
            "'event_time', event_time"@,
        ) && export_members(columns).contains("'record_time', record_time"@),
        !columns.contains("event_time"@) && columns.contains("created_at"@) ==> export_members(
            columns,
        ).contains("'event_time', created_at"@) && export_members(columns).contains(
            "'record_time', created_at"@,
        ),
        columns.contains("idempotency_key"@) ==> export_members(columns).contains(
            "'idempotency_key', idempotency_key"@,
        ),
        !columns.contains("idempotency_key"@) ==> export_members(columns).contains(
            "'idempotency_key', 'seed-' || id::text"@,
        ),
        columns.contains("external_refs"@) ==> export_members(columns).contains(
            "'"@ + "external_refs"@ + "', "@ + "external_refs"@,
        ),
        columns.contains("metadata"@) ==> export_members(columns).contains(
            "'"@ + "metadata"@ + "', "@ + "metadata"@,
        ),
        columns.contains("applies_to_domains"@) ==> export_members(columns).contains(
            "'"@ + "applies_to_domains"@ + "', "@ + "applies_to_domains"@,
        ),
        columns.contains("applies_to_skills"@) ==> export_members(columns).contains(
            "'"@ + "applies_to_skills"@ + "', "@ + "applies_to_skills"@,
        ),
        columns.contains("applies_to_projects"@) ==> export_members(columns).contains(
            "'"@ + "applies_to_projects"@ + "', "@ + "applies_to_projects"@,
        ),
        columns.contains("applies_to_situations"@) ==> export_members(columns).contains(
            "'"@ + "applies_to_situations"@ + "', "@ + "applies_to_situations"@,
        ),
        columns.contains("confidence"@) ==> export_members(columns).contains(
            "'confidence', confidence"@,
        ),
        export_members(columns).len() == 7 + counts(
            columns.contains("event_time"@) || columns.contains("created_at"@),
            2,
        ) + counts(columns.contains("external_refs"@), 1) + counts(
            columns.contains("metadata"@),
            1,
        ) + counts(columns.contains("applies_to_domains"@), 1) + counts(
            columns.contains("applies_to_skills"@),
            1,
        ) + counts(columns.contains("applies_to_projects"@), 1) + counts(
            columns.contains("applies_to_situations"@),
            1,
        ) + counts(columns.contains("confidence"@), 1),
{
    let always = seq!["'id', id"@, "'profile', profile"@, "'content', content"@];
    assert(always[0] == "'id', id"@ && always[1] == "'profile', profile"@ && always[2]
        == "'content', content"@);
    let times = either(
        columns.contains("event_time"@),
        seq!["'event_time', event_time"@, "'record_time', record_time"@],
        either(
            columns.contains("created_at"@),
            seq!["'event_time', created_at"@, "'record_time', created_at"@],
            Seq::empty(),
        ),
    );
    assert(times.len() > 0 ==> times.contains(times[0]) && times.contains(times[1]));
    let key = either(
        columns.contains("idempotency_key"@),
        seq!["'idempotency_key', idempotency_key"@],
        seq!["'idempotency_key', 'seed-' || id::text"@],
    );
    assert(key.contains(key[0]));
    let source = seq!["'source', source"@];
    assert(source.contains(source[0]));
    let kind = either(
        columns.contains("memory_type"@),
        seq!["'memory_type', COALESCE(memory_type, 'observation')"@],
        seq!["'memory_type', 'observation'::text"@],
    );
    let tags = seq!["'tags', COALESCE(tags, '{}')"@];
    let confidence = either(
        columns.contains("confidence"@),
        seq!["'confidence', confidence"@],
        Seq::empty(),
    );
    assert(confidence.len() > 0 ==> confidence.contains(confidence[0]));
    let m1 = always + times;
    let m2 = m1 + key;
    let m3 = m2 + source;
    let m4 = m3 + kind;
    let m5 = m4 + tags;
    let m6 = m5 + column_member(columns, "external_refs"@);
    let m7 = m6 + column_member(columns, "metadata"@);
    let m8 = m7 + column_member(columns, "applies_to_domains"@);
    let m9 = m8 + column_member(columns, "applies_to_skills"@);
    let m10 = m9 + column_member(columns, "applies_to_projects"@);
    let m11 = m10 + column_member(columns, "applies_to_situations"@);
    assert(export_members(columns) == m11 + confidence);
    lemma_both_held(always, times);
    lemma_both_held(m1, key);
    lemma_both_held(m2, source);
    lemma_both_held(m3, kind);
    lemma_both_held(m4, tags);
    lemma_both_held(m5, column_member(columns, "external_refs"@));
    lemma_both_held(m6, column_member(columns, "metadata"@));
    lemma_both_held(m7, column_member(columns, "applies_to_domains"@));
    lemma_both_held(m8, column_member(columns, "applies_to_skills"@));
    lemma_both_held(m9, column_member(columns, "applies_to_projects"@));
    lemma_both_held(m10, column_member(columns, "applies_to_situations"@));
    lemma_both_held(m11, confidence);
    lemma_column_held(columns, "external_refs"@);
    lemma_column_held(columns, "metadata"@);
    lemma_column_held(columns, "applies_to_domains"@);
    lemma_column_held(columns, "applies_to_skills"@);
    lemma_column_held(columns, "applies_to_projects"@);
    lemma_column_held(columns, "applies_to_situations"@);
}

proof fn lemma_both_held(a: Seq<Seq<char>>, b: Seq<Seq<char>>)
    ensures
        (a + b).len() == a.len() + b.len(),
        forall|x: Seq<char>| a.contains(x) ==> #[trigger] (a + b).contains(x),
        forall|x: Seq<char>| b.contains(x) ==> #[trigger] (a + b).contains(x),
{
    assert forall|x: Seq<char>| a.contains(x) implies #[trigger] (a + b).contains(x) by {
        let k = choose|k: int| 0 <= k < a.len() && a[k] == x;
        assert((a + b)[k] == x);
    }
    assert forall|x: Seq<char>| b.contains(x) implies #[trigger] (a + b).contains(x) by {
        let k = choose|k: int| 0 <= k < b.len() && b[k] == x;
        assert((a + b)[a.len() + k] == x);
    }
}

proof fn lemma_column_held(columns: Seq<Seq<char>>, column: Seq<char>)
    ensures
        column_member(columns, column).len() == counts(columns.contains(column), 1),
        columns.contains(column) ==> column_member(columns, column).contains(
            "'"@ + column + "', "@ + column,
        ),
{
    if columns.contains(column) {
        assert(column_member(columns, column)[0] == "'"@ + column + "', "@ + column);
    }
}

/// An export leaves out the rows that were withdrawn, where the store says which they are,
/// and comes in the order in which the rows were recorded, as far as the store says when.
pub proof fn lemma_export_leaves_out_the_withdrawn(columns: Seq<Seq<char>>)
    ensures
        columns.contains("invalidated_at"@) ==> text::has_suffix(
            export_query(columns),
            " WHERE invalidated_at IS NULL"@ + " ORDER BY "@ + export_order(columns),
        ),
        !columns.contains("invalidated_at"@) ==> text::has_suffix(
            export_query(columns),
            "))::text as row_json FROM memories"@ + " ORDER BY "@ + export_order(columns),
        ),
        columns.contains("record_time"@) ==> export_order(columns) == "record_time"@,
        !columns.contains("record_time"@) && columns.contains("created_at"@) ==> export_order(
            columns,
        ) == "created_at"@,
        !columns.contains("record_time"@) && !columns.contains("created_at"@) ==> export_order(
            columns,
        ) == "id"@,
{
    let head = "SELECT (json_build_object("@ + text::joined(export_members(columns), ", "@);
    let rest = " ORDER BY "@ + export_order(columns);
    let from = "))::text as row_json FROM memories"@;
    if columns.contains("invalidated_at"@) {
        let tail = " WHERE invalidated_at IS NULL"@ + rest;
        assert(export_query(columns) =~= (head + from) + tail);
        assert(tail =~= " WHERE invalidated_at IS NULL"@ + " ORDER BY "@ + export_order(columns));
        text::lemma_ends_of_texts(head, tail, head + from);
    } else {
        let tail = from + rest;
        assert(export_query(columns) =~= head + tail);
        assert(tail =~= from + " ORDER BY "@ + export_order(columns));
        text::lemma_ends_of_texts(head, tail, head);
    }
}

/// What is read of a line is the line without white space around it; a blank line and a
/// line that begins with a number sign hold nothing.
pub proof fn lemma_comments_hold_nothing(line: Seq<char>)
    ensures
        data_of_line(line) is None <==> text::trimmed(line).len() == 0 || text::trimmed(line)[0]
            == '#',
        data_of_line(line) matches Some(data) ==> data == text::trimmed(line),
{
}

} // verus!
