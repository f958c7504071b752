//! `store_memory`: the rules on a new memory, and the row that it becomes.

use vstd::prelude::*;
use vstd::string::*;

use crate::db::{self, copy_opt_json, MemoryRow, RowView};
use crate::error::{self, ChittaError, ErrorView};
use crate::facets::{Facets, FacetsView};
use crate::ids::{self, fresh_id, parse_id, MemoryId};
use crate::json::{self, Json, JsonView};
use crate::text::{self, copy_opt, copy_strings};
use crate::time::{current_time, Timestamp};
use crate::tools::validate::{self, time_json, DerivationInput, DerivationInputView};
use crate::validators::{self, validate_decision_metadata};

verus! {

/// The name of the tool.
pub const TOOL: &'static str = "store_memory";

/// The arguments of the tool.
#[derive(Debug, PartialEq, Eq)]
pub struct StoreArgs {
    /// Target profile namespace. 1-128 chars, `[a-zA-Z0-9_-]+` only.
    pub profile: String,
    /// Verbatim memory text, stored as it is.
    pub content: String,
    /// Client-supplied key: the same key in the same profile returns the row
    /// that is there.
    pub idempotency_key: String,
    /// When the subject happened; when it is recorded, where that is not given.
    pub event_time: Option<Timestamp>,
    /// Up to 32 tags, each 1-64 chars.
    pub tags: Option<Vec<String>>,
    /// Structured data beside the memory.
    pub metadata: Option<Json>,
    /// Memory type; an observation, where that is not given.
    pub memory_type: Option<String>,
    /// JSON array of `{"kind": "<type>", "ref": "<value>"}`.
    pub external_refs: Option<Json>,
    /// What the memory applies to.
    pub facets: Facets,
    /// The bits of the confidence; raw memories mostly have none.
    pub confidence: Option<u32>,
    /// Who wrote the memory.
    pub source: Option<String>,
    /// What the memory was derived from. Episodes need at least one.
    pub derivations: Option<Vec<DerivationInput>>,
}

/// What a [`StoreArgs`] stands for.
pub struct StoreArgsView {
    pub profile: Seq<char>,
    pub content: Seq<char>,
    pub idempotency_key: Seq<char>,
    pub event_time: Option<Timestamp>,
    pub tags: Seq<Seq<char>>,
    pub metadata: Option<JsonView>,
    pub memory_type: Seq<char>,
    pub external_refs: Option<JsonView>,
    pub facets: FacetsView,
    pub confidence: Option<u32>,
    pub source: Option<Seq<char>>,
    pub derivations: Option<Seq<DerivationInputView>>,
}

/// The memory type that is meant: an observation, where none is given.
pub open spec fn type_or_observation(memory_type: Option<String>) -> Seq<char> {
    match memory_type {
        Some(t) => t@,
        None => "observation"@,
    }
}

impl View for StoreArgs {
    type V = StoreArgsView;

    open spec fn view(&self) -> StoreArgsView {
        StoreArgsView {
            profile: self.profile@,
            content: self.content@,
            idempotency_key: self.idempotency_key@,
            event_time: self.event_time,
            tags: crate::facets::texts_or_none(self.tags),
            metadata: json::opt_json(self.metadata),
            memory_type: type_or_observation(self.memory_type),
            external_refs: json::opt_json(self.external_refs),
            facets: self.facets@,
            confidence: self.confidence,
            source: text::opt_text(self.source),
            derivations: validate::opt_derivation_views(self.derivations),
        }
    }
}

/// What the tool returns.
#[derive(Debug, PartialEq, Eq)]
pub struct StoreOutput {
    pub id: MemoryId,
    pub profile: String,
    pub content: String,
    pub event_time: Timestamp,
    pub record_time: Timestamp,
    pub tags: Vec<String>,
    pub metadata: Option<Json>,
    pub memory_type: String,
    pub external_refs: Option<Json>,
    pub facets: Facets,
    pub confidence: Option<u32>,
    pub source: Option<String>,
    pub idempotent_replay: bool,
}

// ---- The rules ------------------------------------------------------------------------

/// The first outcome, where it is a refusal, or else the second.
pub open spec fn and_also(first: Result<(), ErrorView>, second: Result<(), ErrorView>) -> Result<
    (),
    ErrorView,
> {
    if first is Err {
        first
    } else {
        second
    }
}

/// The outcome of the rules on a new memory, one after another, where the clock
/// shows `now`.
pub open spec fn store_check(args: StoreArgsView, now: Timestamp) -> Result<(), ErrorView> {
    let by_time = match args.event_time {
        Some(t) => validate::event_time_check(TOOL@, t, now, validate::time_value(t)),
        None => Ok(()),
    };
    let by_refs = match args.external_refs {
        Some(refs) => validate::external_refs_check(TOOL@, refs),
        None => Ok(()),
    };
    and_also(
        validate::profile_check(TOOL@, args.profile),
        and_also(
            validate::content_byte_length_check(TOOL@, args.content),
            and_also(
                validate::content_non_empty_check(TOOL@, args.content),
                and_also(
                    validate::idempotency_key_check(TOOL@, args.idempotency_key),
                    and_also(
                        by_time,
                        and_also(
                            validate::tags_check(TOOL@, args.tags),
                            and_also(
                                validate::memory_type_check(TOOL@, args.memory_type),
                                and_also(
                                    by_refs,
                                    and_also(
                                        validate::episode_derivations_check(
                                            TOOL@,
                                            args.memory_type,
                                            args.derivations,
                                        ),
                                        validators::decision_check(
                                            TOOL@,
                                            args.memory_type,
                                            args.metadata,
                                        ),
                                    ),
                                ),
                            ),
                        ),
                    ),
                ),
            ),
        ),
    )
}

/// The memory type that is meant: an observation, where none is given.
pub(crate) fn memory_type_of(memory_type: &Option<String>) -> (r: String)
    ensures
        r@ == type_or_observation(*memory_type),
{
    match memory_type {
        Some(t) => t.clone(),
        None => "observation".to_owned(),
    }
}

fn check_head(args: &StoreArgs) -> (r: Result<(), ChittaError>)
    ensures
        error::outcome(r) == and_also(
            validate::profile_check(TOOL@, args.profile@),
            and_also(
                validate::content_byte_length_check(TOOL@, args.content@),
                and_also(
                    validate::content_non_empty_check(TOOL@, args.content@),
                    validate::idempotency_key_check(TOOL@, args.idempotency_key@),
                ),
            ),
        ),
{
    let r = validate::profile(TOOL, args.profile.as_str());
    if r.is_err() {
        return r;
    }
    let r = validate::content_byte_length(TOOL, args.content.as_str());
    if r.is_err() {
        return r;
    }
    let r = validate::content_non_empty(TOOL, args.content.as_str());
    if r.is_err() {
        return r;
    }
    validate::idempotency_key(TOOL, args.idempotency_key.as_str())
}

/// Checks a new memory, where the clock shows `now`.
pub fn check_args_at(args: &StoreArgs, now: Timestamp) -> (r: Result<(), ChittaError>)
    ensures
        error::outcome(r) == store_check(args@, now),
{
    broadcast use text::lemma_texts_empty;

    let r = check_head(args);
    if r.is_err() {
        return r;
    }
    match args.event_time {
        Some(t) => {
            let r = validate::event_time_at(TOOL, t, now, time_json(t));
            if r.is_err() {
                return r;
            }
        },
        None => {},
    }
    match &args.tags {
        Some(tags) => {
            let r = validate::tags(TOOL, tags.as_slice());
            if r.is_err() {
                return r;
            }
        },
        None => {},
    }
    let memory_type = memory_type_of(&args.memory_type);
    let r = validate::memory_type(TOOL, memory_type.as_str());
    if r.is_err() {
        return r;
    }
    match &args.external_refs {
        Some(refs) => {
            let r = validate::external_refs(TOOL, refs);
            if r.is_err() {
                return r;
            }
        },
        None => {},
    }
    let r = validate::episode_derivations(TOOL, memory_type.as_str(), &args.derivations);
    if r.is_err() {
        return r;
    }
    validate_decision_metadata(TOOL, memory_type.as_str(), &args.metadata)
}

/// Whether the clock decides nothing of a new memory: it has no event time, or one
/// of which the clock decides nothing.
pub open spec fn clock_decides_nothing(args: StoreArgsView) -> bool {
    match args.event_time {
        Some(t) => validate::clock_decides_nothing(t),
        None => true,
    }
}

/// Checks a new memory by the system clock.
pub fn check_args(args: &StoreArgs) -> (r: Result<(), ChittaError>)
    ensures
        exists|now: Timestamp|
            now.secs >= 0 && #[trigger] store_check(args@, now) == error::outcome(r),
        clock_decides_nothing(args@) ==> forall|now: Timestamp|
            now.secs >= 0 ==> #[trigger] store_check(args@, now) == error::outcome(r),
{
    check_args_at(args, current_time())
}

// ---- The row --------------------------------------------------------------------------

/// The row that a new memory becomes.
pub open spec fn stored_row(args: StoreArgsView, id: MemoryId, now: Timestamp) -> RowView {
    RowView {
        id,
        profile: args.profile,
        content: args.content,
        event_time: match args.event_time {
            Some(t) => t,
            None => now,
        },
        record_time: now,
        idempotency_key: args.idempotency_key,
        source: args.source,
        memory_type: args.memory_type,
        tags: args.tags,
        external_refs: args.external_refs,
        metadata: args.metadata,
        facets: args.facets,
        superseded_by: None,
        confidence: args.confidence,
        reinforcement_count: 0,
        last_reinforced_at: None,
        invalidated_at: None,
    }
}

pub(crate) fn copy_tags(tags: &Option<Vec<String>>) -> (r: Vec<String>)
    ensures
        text::texts(r@) == crate::facets::texts_or_none(*tags),
{
    broadcast use text::lemma_texts_empty;

    match tags {
        Some(v) => copy_strings(v.as_slice()),
        None => Vec::new(),
    }
}

/// The row that a new memory becomes under the given identifier.
pub fn make_row_as(args: &StoreArgs, id: MemoryId, now: Timestamp) -> (r: MemoryRow)
    ensures
        r@ == stored_row(args@, id, now),
        keeps_what_was_given(r, *args, now),
        r.id == id,
{
    let event_time = match args.event_time {
        Some(t) => t,
        None => now,
    };
    let r = MemoryRow {
        id,
        profile: args.profile.clone(),
        content: args.content.clone(),
        event_time,
        record_time: now,
        idempotency_key: args.idempotency_key.clone(),
        source: copy_opt(&args.source),
        memory_type: memory_type_of(&args.memory_type),
        tags: copy_tags(&args.tags),
        external_refs: copy_opt_json(&args.external_refs),
        metadata: copy_opt_json(&args.metadata),
        facets: args.facets.copy(),
        superseded_by: None,
        confidence: args.confidence,
        reinforcement_count: 0,
        last_reinforced_at: None,
        invalidated_at: None,
    };
    proof {
        lemma_row_keeps_what_was_given(*args, id, now, r);
    }
    r
}

/// The row that a new memory becomes under a new identifier.
pub fn make_row(args: &StoreArgs, now: Timestamp) -> (r: MemoryRow)
    ensures
        r@ == stored_row(args@, r.id, now),
        keeps_what_was_given(r, *args, now),
{
    make_row_as(args, fresh_id(), now)
}

/// Whether the row keeps what was given, field by field and list by list: nothing is
/// changed, swapped or left out, what was not given is not made up, and the row is
/// new: nothing took its place, and nobody confirmed or withdrew it.
pub open spec fn keeps_what_was_given(row: MemoryRow, args: StoreArgs, now: Timestamp) -> bool {
    &&& row.profile@ == args.profile@
    &&& row.content@ == args.content@
    &&& row.idempotency_key@ == args.idempotency_key@
    &&& row.record_time == now
    &&& row.event_time == (match args.event_time {
        Some(t) => t,
        None => now,
    })
    &&& row.memory_type@ == (match args.memory_type {
        Some(t) => t@,
        None => "observation"@,
    })
    &&& match args.tags {
        Some(tags) => {
            &&& row.tags@.len() == tags@.len()
            &&& forall|i: int| 0 <= i < tags@.len() ==> (#[trigger] row.tags@[i])@ == tags@[i]@
        },
        None => row.tags@.len() == 0,
    }
    &&& row.source is Some <==> args.source is Some
    &&& row.source is Some ==> row.source->0@ == args.source->0@
    &&& row.metadata is Some <==> args.metadata is Some
    &&& row.metadata is Some ==> row.metadata->0@ == args.metadata->0@
    &&& row.external_refs is Some <==> args.external_refs is Some
    &&& row.external_refs is Some ==> row.external_refs->0@ == args.external_refs->0@
    &&& row.confidence == args.confidence
    &&& text::same_texts(row.facets.domains@, args.facets.domains@)
    &&& text::same_texts(row.facets.skills@, args.facets.skills@)
    &&& text::same_texts(row.facets.projects@, args.facets.projects@)
    &&& text::same_texts(row.facets.situations@, args.facets.situations@)
    &&& row.superseded_by is None
    &&& row.reinforcement_count == 0
    &&& row.last_reinforced_at is None
    &&& row.invalidated_at is None
}

/// What is stored of a new memory is what was given.
pub proof fn lemma_row_keeps_what_was_given(
    args: StoreArgs,
    id: MemoryId,
    now: Timestamp,
    row: MemoryRow,
)
    requires
        row@ == stored_row(args@, id, now),
    ensures
        row.id == id,
        keeps_what_was_given(row, args, now),
{
    text::lemma_same_texts(row.facets.domains@, args.facets.domains@);
    text::lemma_same_texts(row.facets.skills@, args.facets.skills@);
    text::lemma_same_texts(row.facets.projects@, args.facets.projects@);
    text::lemma_same_texts(row.facets.situations@, args.facets.situations@);
    match args.tags {
        Some(tags) => {
            text::lemma_same_texts(row.tags@, tags@);
        },
        None => {
            assert(row.tags@.len() == text::texts(row.tags@).len());
        },
    }
}

/// What is stored of a memory is what was given: its content and its tags as they
/// are, and the time that it was recorded at.
pub proof fn lemma_stored_verbatim(args: StoreArgsView, id: MemoryId, now: Timestamp)
    ensures
        stored_row(args, id, now).content == args.content,
        stored_row(args, id, now).tags == args.tags,
        stored_row(args, id, now).record_time == now,
        stored_row(args, id, now).active(),
{
}

// ---- Derivations ------------------------------------------------------------------------

/// The links for the given derivations, or `None` where a source is no UUID.
pub open spec fn links_for(ds: Seq<DerivationInputView>) -> Option<Seq<(MemoryId, Seq<char>)>>
    decreases ds.len(),
{
    if ds.len() == 0 {
        Some(Seq::empty())
    } else {
        match (links_for(ds.drop_last()), ids::uuid_parse(ds.last().source_id)) {
            (Some(before), Ok(id)) => Some(before.push((id, ds.last().derivation_type))),
            _ => None,
        }
    }
}

/// The view of optional links.
pub open spec fn opt_links(o: Option<Vec<(MemoryId, String)>>) -> Option<
    Seq<(MemoryId, Seq<char>)>,
> {
    match o {
        Some(v) => Some(db::link_views(v@)),
        None => None,
    }
}

proof fn lemma_links_for_prefix(ds: Seq<DerivationInputView>, n: int)
    requires
        0 <= n <= ds.len(),
        links_for(ds.take(n)) is None,
    ensures
        links_for(ds) is None,
    decreases ds.len() - n,
{
    if n == ds.len() {
        assert(ds.take(n) =~= ds);
    } else {
        assert(ds.take(n + 1).drop_last() =~= ds.take(n));
        lemma_links_for_prefix(ds, n + 1);
    }
}

/// Whether the links are those of the derivations, one for each and in their order: to
/// the memory that its source names, with its type.
pub open spec fn are_links_for(
    links: Seq<(MemoryId, String)>,
    derivations: Seq<DerivationInput>,
) -> bool {
    &&& links.len() == derivations.len()
    &&& forall|i: int|
        0 <= i < links.len() ==> Ok::<u128, Seq<char>>((#[trigger] links[i]).0) == ids::uuid_parse(
            derivations[i].source_id@,
        ) && links[i].1@ == derivations[i].derivation_type@
}

/// Whether the source of some derivation is no identifier.
pub open spec fn some_source_is_none(derivations: Seq<DerivationInput>) -> bool {
    exists|i: int|
        0 <= i < derivations.len() && ids::uuid_parse((#[trigger] derivations[i]).source_id@) is Err
}

/// Each derivation becomes a link to the memory that it names, with its type, in order;
/// there are no links at all where, and only where, a source names no memory.
pub proof fn lemma_links_are_those_given(derivations: Seq<DerivationInput>)
    ensures
        links_for(validate::derivation_views(derivations)) is None <==> some_source_is_none(
            derivations,
        ),
        forall|links: Seq<(MemoryId, String)>|
            #![trigger db::link_views(links)]
            links_for(validate::derivation_views(derivations)) == Some(db::link_views(links))
                ==> are_links_for(links, derivations),
    decreases derivations.len(),
{
    let ds = validate::derivation_views(derivations);
    assert(ds.len() == derivations.len());
    if derivations.len() > 0 {
        let rest = derivations.drop_last();
        lemma_links_are_those_given(rest);
        assert(validate::derivation_views(rest) =~= ds.drop_last());
        assert(ds.last() == derivations.last()@);
        let last = derivations.len() - 1;
        if some_source_is_none(rest) {
            let i = choose|i: int|
                0 <= i < rest.len() && ids::uuid_parse((#[trigger] rest[i]).source_id@) is Err;
            assert(derivations[i] == rest[i]);
        }
        if some_source_is_none(derivations) && ids::uuid_parse(derivations[last].source_id@) is Ok {
            let i = choose|i: int|
                0 <= i < derivations.len() && ids::uuid_parse(
                    (#[trigger] derivations[i]).source_id@,
                ) is Err;
            assert(rest[i] == derivations[i]);
        }
        if ids::uuid_parse(derivations[last].source_id@) is Err {
            assert(some_source_is_none(derivations));
        }
        assert forall|links: Seq<(MemoryId, String)>|
            #![trigger db::link_views(links)]
            links_for(ds) == Some(db::link_views(links)) implies are_links_for(links, derivations)
            by {
            let views = db::link_views(links);
            assert(views.len() == links.len());
            let before = links_for(ds.drop_last())->0;
            assert(views == before.push(views.last()));
            assert(before =~= views.drop_last());
            assert forall|i: int| 0 <= i < links.len() - 1 implies #[trigger] db::link_views(
                links.drop_last(),
            )[i] == before[i] by {
                assert(views[i] == (links[i].0, links[i].1@));
            }
            assert(db::link_views(links.drop_last()) =~= before);
            assert(are_links_for(links.drop_last(), rest));
            assert forall|i: int| 0 <= i < links.len() implies Ok::<u128, Seq<char>>(
                (#[trigger] links[i]).0,
            ) == ids::uuid_parse(derivations[i].source_id@) && links[i].1@
                == derivations[i].derivation_type@ by {
                assert(views[i] == (links[i].0, links[i].1@));
                if i < last {
                    assert(links.drop_last()[i] == links[i]);
                    assert(rest[i] == derivations[i]);
                }
            }
        }
    } else {
        assert forall|links: Seq<(MemoryId, String)>|
            #![trigger db::link_views(links)]
            links_for(ds) == Some(db::link_views(links)) implies are_links_for(links, derivations)
            by {
            assert(db::link_views(links).len() == links.len());
        }
    }
}

/// The links from a memory to what it was derived from, with their types; `None`
/// where the source of one is no UUID.
pub fn parse_links(derivations: &[DerivationInput]) -> (r: Option<Vec<(MemoryId, String)>>)
    ensures
        opt_links(r) == links_for(validate::derivation_views(derivations@)),
        match r {
            Some(links) => are_links_for(links@, derivations@),
            None => some_source_is_none(derivations@),
        },
{
    let ghost ds = validate::derivation_views(derivations@);
    let mut links: Vec<(MemoryId, String)> = Vec::new();
    assert(db::link_views(links@) =~= Seq::<(MemoryId, Seq<char>)>::empty());
    for i in 0..derivations.len()
        invariant
            ds == validate::derivation_views(derivations@),
            links_for(ds.take(i as int)) == Some(db::link_views(links@)),
    {
        let ghost before = links@;
        assert(ds.take(i + 1).drop_last() =~= ds.take(i as int));
        assert(ds.take(i + 1).last() == derivations@[i as int]@);
        match parse_id(derivations[i].source_id.as_str()) {
            Ok(id) => {
                links.push((id, derivations[i].derivation_type.clone()));
                assert(db::link_views(links@) =~= db::link_views(before).push(
                    (id, derivations@[i as int].derivation_type@),
                ));
            },
            Err(_) => {
                proof {
                    lemma_links_for_prefix(ds, i + 1);
                    lemma_links_are_those_given(derivations@);
                }
                return None;
            },
        }
    }
    assert(ds.take(ds.len() as int) =~= ds);
    proof {
        lemma_links_are_those_given(derivations@);
        assert(links_for(ds) == Some(db::link_views(links@)));
    }
    Some(links)
}

proof fn lemma_checked_from(ds: Seq<DerivationInputView>, i: int, j: int)
    requires
        0 <= i <= j < ds.len(),
        validate::derivations_from(TOOL@, ds, i) is Ok,
    ensures
        ids::uuid_parse(ds[j].source_id) is Ok,
    decreases j - i,
{
    if i < j {
        lemma_checked_from(ds, i + 1, j);
    }
}

proof fn lemma_all_parsed(ds: Seq<DerivationInputView>)
    requires
        forall|j: int| 0 <= j < ds.len() ==> ids::uuid_parse((#[trigger] ds[j]).source_id) is Ok,
    ensures
        links_for(ds) is Some,
        links_for(ds)->0.len() == ds.len(),
    decreases ds.len(),
{
    if ds.len() > 0 {
        lemma_all_parsed(ds.drop_last());
    }
}

/// An episode that passes the rules is linked to each of its derivations, and to
/// at least one.
pub proof fn lemma_checked_episode_is_linked(args: StoreArgsView, now: Timestamp)
    requires
        store_check(args, now) is Ok,
        args.memory_type == "episode"@,
    ensures
        args.derivations is Some,
        links_for(args.derivations->0) is Some,
        links_for(args.derivations->0)->0.len() == args.derivations->0.len(),
        args.derivations->0.len() > 0,
{
    let ds = args.derivations->0;
    assert(validate::derivations_from(TOOL@, ds, 0) is Ok);
    assert forall|j: int| 0 <= j < ds.len() implies ids::uuid_parse(
        (#[trigger] ds[j]).source_id,
    ) is Ok by {
        lemma_checked_from(ds, 0, j);
    }
    lemma_all_parsed(ds);
}

// ---- The answer -------------------------------------------------------------------------

/// Whether the answer shows the row, stored now or, as a replay, before.
pub open spec fn shows(out: StoreOutput, row: MemoryRow, replayed: bool) -> bool {
    &&& out.id == row.id
    &&& out.profile == row.profile
    &&& out.content == row.content
    &&& out.event_time == row.event_time
    &&& out.record_time == row.record_time
    &&& out.tags == row.tags
    &&& out.metadata == row.metadata
    &&& out.memory_type == row.memory_type
    &&& out.external_refs == row.external_refs
    &&& out.facets == row.facets
    &&& out.confidence == row.confidence
    &&& out.source == row.source
    &&& out.idempotent_replay == replayed
}

/// What the tool returns for a row that was stored, or that was there before.
pub fn row_to_output(row: MemoryRow, replayed: bool) -> (r: StoreOutput)
    ensures
        shows(r, row, replayed),
        r.id == row.id && r.idempotent_replay == replayed,
        r.profile == row.profile && r.content == row.content && r.memory_type == row.memory_type,
        r.event_time == row.event_time && r.record_time == row.record_time,
        r.tags == row.tags && r.metadata == row.metadata && r.external_refs == row.external_refs,
        r.facets == row.facets && r.confidence == row.confidence && r.source == row.source,
{
    StoreOutput {
        id: row.id,
        profile: row.profile,
        content: row.content,
        event_time: row.event_time,
        record_time: row.record_time,
        tags: row.tags,
        metadata: row.metadata,
        memory_type: row.memory_type,
        external_refs: row.external_refs,
        facets: row.facets,
        confidence: row.confidence,
        source: row.source,
        idempotent_replay: replayed,
    }
}

// ---- The call ---------------------------------------------------------------------------

/// Where a call stands.
#[derive(Clone, Copy, Debug, PartialEq, Eq, Structural)]
pub enum StorePhase {
    /// It waits for the row with the same profile and key.
    LookingUp,
    /// It waits for the embedding of the content.
    Embedding,
    /// It waits for the row to be inserted.
    Inserting,
    /// It is done.
    Done,
}

/// What happened.
#[derive(Debug, PartialEq, Eq)]
pub enum StoreEvent {
    /// The row with the same profile and key was looked up.
    LookedUp(Option<MemoryRow>),
    /// The content was embedded, and the clock shows the given time.
    Embedded(Timestamp),
    /// The row was inserted, or, as a replay, one with its key was there already.
    Inserted(MemoryRow, bool),
}

/// What to do next.
#[derive(Debug, PartialEq, Eq)]
pub enum StoreAction {
    /// Look up the row with the given profile and key.
    LookUp(String, String),
    /// Embed the content.
    Embed(String),
    /// Insert the row, with its links to what it was derived from.
    Insert(MemoryRow, Vec<(MemoryId, String)>),
    /// Give up: the source of a derivation is no UUID.
    GiveUp,
    /// Return the answer.
    Return(StoreOutput),
}

/// A call of the tool under way.
#[derive(Debug, PartialEq, Eq)]
pub struct StoreCall {
    args: StoreArgs,
    phase: StorePhase,
}

/// What a [`StoreCall`] stands for.
pub struct StoreCallView {
    pub args: StoreArgsView,
    pub phase: StorePhase,
}

impl View for StoreCall {
    type V = StoreCallView;

    closed spec fn view(&self) -> StoreCallView {
        StoreCallView { args: self.args@, phase: self.phase }
    }
}

/// The links of a new memory, or `None` where the source of one is no UUID.
pub open spec fn links_of(args: StoreArgsView) -> Option<Seq<(MemoryId, Seq<char>)>> {
    match args.derivations {
        Some(ds) => links_for(ds),
        None => Some(Seq::empty()),
    }
}

/// Whether the call, on the event, goes on as it should: to the state `after`,
/// with the given action. A row that was there before is returned as it is.
/// Otherwise the content is embedded, the row is inserted, and what came of that
/// is returned. An event that does not belong to the phase changes nothing and
/// calls for nothing.
pub open spec fn goes_on(
    before: StoreCallView,
    event: StoreEvent,
    after: StoreCallView,
    action: Option<StoreAction>,
) -> bool {
    match (before.phase, event) {
        (StorePhase::LookingUp, StoreEvent::LookedUp(Some(row))) => {
            &&& after == (StoreCallView { phase: StorePhase::Done, ..before })
            &&& action matches Some(StoreAction::Return(out)) && shows(out, row, true)
        },
        (StorePhase::LookingUp, StoreEvent::LookedUp(None)) => {
            &&& after == (StoreCallView { phase: StorePhase::Embedding, ..before })
            &&& action matches Some(StoreAction::Embed(content)) && content@
                == before.args.content
        },
        (StorePhase::Embedding, StoreEvent::Embedded(now)) => match links_of(before.args) {
            Some(links) => {
                &&& after == (StoreCallView { phase: StorePhase::Inserting, ..before })
                &&& action matches Some(StoreAction::Insert(row, l)) && row@ == stored_row(
                    before.args,
                    row.id,
                    now,
                ) && db::link_views(l@) == links
            },
            None => {
                &&& after == (StoreCallView { phase: StorePhase::Done, ..before })
                &&& action == Some(StoreAction::GiveUp)
            },
        },
        (StorePhase::Inserting, StoreEvent::Inserted(row, replayed)) => {
            &&& after == (StoreCallView { phase: StorePhase::Done, ..before })
            &&& action matches Some(StoreAction::Return(out)) && shows(out, row, replayed)
        },
        _ => after == before && action is None,
    }
}

/// Whether a call was begun for the arguments, which pass the rules at `now`, and
/// looks for a row with their profile and key; or else was refused as the rules
/// say.
pub open spec fn begun(
    args: StoreArgsView,
    now: Timestamp,
    r: Result<(StoreCall, StoreAction), ChittaError>,
) -> bool {
    match r {
        Ok((call, action)) => {
            &&& store_check(args, now) is Ok
            &&& call@ == (StoreCallView { args, phase: StorePhase::LookingUp })
            &&& action matches StoreAction::LookUp(profile, key) && profile@ == args.profile
                && key@ == args.idempotency_key
        },
        Err(e) => store_check(args, now) == Err::<(), ErrorView>(e@),
    }
}

impl StoreCall {
    /// Begins a call, where the clock shows `now`, and says what to do first.
    pub fn begin_at(args: StoreArgs, now: Timestamp) -> (r: Result<
        (StoreCall, StoreAction),
        ChittaError,
    >)
        ensures
            begun(args@, now, r),
    {
        match check_args_at(&args, now) {
            Err(e) => Err(e),
            Ok(()) => {
                let action = StoreAction::LookUp(
                    args.profile.clone(),
                    args.idempotency_key.clone(),
                );
                Ok((StoreCall { args, phase: StorePhase::LookingUp }, action))
            },
        }
    }

    /// Begins a call by the system clock, and says what to do first.
    pub fn begin(args: StoreArgs) -> (r: Result<(StoreCall, StoreAction), ChittaError>)
        ensures
            exists|now: Timestamp| now.secs >= 0 && #[trigger] begun(args@, now, r),
            clock_decides_nothing(args@) ==> forall|now: Timestamp|
                now.secs >= 0 ==> #[trigger] begun(args@, now, r),
    {
        StoreCall::begin_at(args, current_time())
    }

    /// What to do next, now that the given event happened; `None` where the event
    /// does not belong to where the call stands.
    pub fn step(&mut self, event: StoreEvent) -> (r: Option<StoreAction>)
        ensures
            goes_on(old(self)@, event, final(self)@, r),
    {
        match (self.phase, event) {
            (StorePhase::LookingUp, StoreEvent::LookedUp(Some(row))) => {
                self.phase = StorePhase::Done;
                Some(StoreAction::Return(row_to_output(row, true)))
            },
            (StorePhase::LookingUp, StoreEvent::LookedUp(None)) => {
                self.phase = StorePhase::Embedding;
                Some(StoreAction::Embed(self.args.content.clone()))
            },
            (StorePhase::Embedding, StoreEvent::Embedded(now)) => {
                let links = match &self.args.derivations {
                    Some(ds) => parse_links(ds.as_slice()),
                    None => {
                        let none: Vec<(MemoryId, String)> = Vec::new();
                        assert(db::link_views(none@) =~= Seq::empty());
                        Some(none)
                    },
                };
                match links {
                    Some(links) => {
                        self.phase = StorePhase::Inserting;
                        Some(StoreAction::Insert(make_row(&self.args, now), links))
                    },
                    None => {
                        self.phase = StorePhase::Done;
                        Some(StoreAction::GiveUp)
                    },
                }
            },
            (StorePhase::Inserting, StoreEvent::Inserted(row, replayed)) => {
                self.phase = StorePhase::Done;
                Some(StoreAction::Return(row_to_output(row, replayed)))
            },
            _ => None,
        }
    }
}

/// How far a call has come.
pub open spec fn stage(phase: StorePhase) -> int {
    match phase {
        StorePhase::LookingUp => 0,
        StorePhase::Embedding => 1,
        StorePhase::Inserting => 2,
        StorePhase::Done => 3,
    }
}

/// A key is stored once: where a row with the profile and the key is there, the
/// call returns that row, marked as a replay, and is done without embedding or
/// inserting anything.
pub proof fn lemma_known_key_is_replayed(
    before: StoreCallView,
    row: MemoryRow,
    after: StoreCallView,
    action: Option<StoreAction>,
)
    requires
        before.phase == StorePhase::LookingUp,
        goes_on(before, StoreEvent::LookedUp(Some(row)), after, action),
    ensures
        after.phase == StorePhase::Done,
        action matches Some(StoreAction::Return(out)) && shows(out, row, true),
{
}

/// A call never turns back: it stays with its arguments, each event that it takes
/// brings it further, and no event stirs it once it is done. So it inserts at most
/// once.
pub proof fn lemma_call_only_moves_on(
    before: StoreCallView,
    event: StoreEvent,
    after: StoreCallView,
    action: Option<StoreAction>,
)
    requires
        goes_on(before, event, after, action),
    ensures
        after.args == before.args,
        action is Some <==> stage(after.phase) > stage(before.phase),
        action is None <==> after == before,
        action matches Some(StoreAction::Insert(_, _)) ==> before.phase == StorePhase::Embedding
            && after.phase == StorePhase::Inserting,
{
}

/// A new memory is returned as it was given: where no row with its key was there
/// and the inserted row comes back, the answer shows the content, the tags and the
/// type of the arguments, and no replay.
pub proof fn lemma_new_memory_is_returned(
    p0: StoreCallView,
    now: Timestamp,
    p1: StoreCallView,
    insert: Option<StoreAction>,
    row: MemoryRow,
    p2: StoreCallView,
    answer: Option<StoreAction>,
)
    requires
        p0.phase == StorePhase::Embedding,
        goes_on(p0, StoreEvent::Embedded(now), p1, insert),
        insert matches Some(StoreAction::Insert(inserted, _)) && inserted@ == row@,
        goes_on(p1, StoreEvent::Inserted(row, false), p2, answer),
    ensures
        p2.phase == StorePhase::Done,
        answer matches Some(StoreAction::Return(out)) && {
            &&& out.profile@ == p0.args.profile
            &&& out.content@ == p0.args.content
            &&& text::texts(out.tags@) == p0.args.tags
            &&& out.memory_type@ == p0.args.memory_type
            &&& out.record_time == now
            &&& !out.idempotent_replay
        },
{
}

/// A memory is looked up before it is stored, and stored as it was given, with a link
/// for each derivation that was given; what is answered is the row that was there, or
/// the one that was inserted, and whether it was there before.
pub proof fn lemma_store_goes_in_order(
    args: StoreArgs,
    found: MemoryRow,
    again: bool,
    now: Timestamp,
    before: StoreCallView,
    event: StoreEvent,
    after: StoreCallView,
    action: Option<StoreAction>,
)
    requires
        before.args == args@,
        goes_on(before, event, after, action),
    ensures
        after.args == before.args,
        before.phase == StorePhase::LookingUp && event == StoreEvent::LookedUp(Some(found)) ==> (
        action matches Some(StoreAction::Return(out)) && out.id == found.id && out.content
            == found.content && out.idempotent_replay && after.phase == StorePhase::Done),
        before.phase == StorePhase::LookingUp && event == StoreEvent::LookedUp(None) ==> (
        action matches Some(StoreAction::Embed(content)) && content@ == args.content@
            && after.phase == StorePhase::Embedding),
        before.phase == StorePhase::Embedding && event == StoreEvent::Embedded(now) ==> (
        action matches Some(StoreAction::Insert(row, _)) ==> keeps_what_was_given(row, args, now)
            && after.phase == StorePhase::Inserting),
        before.phase == StorePhase::Embedding && event == StoreEvent::Embedded(now) ==> (
        action matches Some(StoreAction::Insert(_, links)) ==> match args.derivations {
            Some(ds) => are_links_for(links@, ds@),
            None => links@.len() == 0,
        }),
        before.phase == StorePhase::Embedding && event == StoreEvent::Embedded(now) ==> (action
            == Some(StoreAction::GiveUp) <==> args.derivations is Some && some_source_is_none(
            args.derivations->0@,
        )),
        action matches Some(StoreAction::Insert(_, _)) ==> before.phase == StorePhase::Embedding,
        before.phase == StorePhase::Inserting && event == StoreEvent::Inserted(found, again) ==> (
        action matches Some(StoreAction::Return(out)) && out.id == found.id && out.content
            == found.content && out.idempotent_replay == again && after.phase == StorePhase::Done),
{
    if args.derivations is Some {
        lemma_links_are_those_given(args.derivations->0@);
    }
    match action {
        Some(StoreAction::Insert(row, links)) => {
            if before.phase == StorePhase::Embedding && event == StoreEvent::Embedded(now) {
                lemma_row_keeps_what_was_given(args, row.id, now, row);
                assert(db::link_views(links@).len() == links@.len());
                if args.derivations is Some {
                    assert(links_for(validate::derivation_views(args.derivations->0@)) == Some(
                        db::link_views(links@),
                    ));
                }
            }
        },
        _ => {},
    }
}

/// A memory is accepted where every rule on its parts accepts it, and no other rule
/// holds: a rule on what was not given does not matter.
pub proof fn lemma_accepted_memories(args: StoreArgs, now: Timestamp)
    ensures
        store_check(args@, now) is Ok <==> {
            let memory_type = match args.memory_type {
                Some(t) => t@,
                None => "observation"@,
            };
            &&& validate::profile_check(TOOL@, args.profile@) is Ok
            &&& validate::content_byte_length_check(TOOL@, args.content@) is Ok
            &&& validate::content_non_empty_check(TOOL@, args.content@) is Ok
            &&& validate::idempotency_key_check(TOOL@, args.idempotency_key@) is Ok
            &&& args.event_time matches Some(t) ==> validate::event_time_check(
                TOOL@,
                t,
                now,
                validate::time_value(t),
            ) is Ok
            &&& args.tags matches Some(tags) ==> validate::tags_check(
                TOOL@,
                text::texts(tags@),
            ) is Ok
            &&& validate::memory_type_check(TOOL@, memory_type) is Ok
            &&& args.external_refs matches Some(refs) ==> validate::external_refs_check(
                TOOL@,
                refs@,
            ) is Ok
            &&& validate::episode_derivations_check(
                TOOL@,
                memory_type,
                validate::opt_derivation_views(args.derivations),
            ) is Ok
            &&& validators::decision_check(
                TOOL@,
                memory_type,
                json::opt_json(args.metadata),
            ) is Ok
        },
{
    validate::lemma_accepted_tags(TOOL@, args@.tags);
}

/// A call looks for the profile and the key that were given, the one as the profile and the
/// other as the key; and it is begun where, and only where, the rules accept the memory.
pub proof fn lemma_store_begins(
    args: StoreArgs,
    now: Timestamp,
    r: Result<(StoreCall, StoreAction), ChittaError>,
)
    requires
        begun(args@, now, r),
    ensures
        r is Ok <==> store_check(args@, now) is Ok,
        r matches Ok((call, action)) ==> call@.args == args@ && call@.phase
            == StorePhase::LookingUp && (action matches StoreAction::LookUp(profile, key)
            && profile@ == args.profile@ && key@ == args.idempotency_key@),
{
}

} // verus!
