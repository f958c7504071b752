//! The rows of the memory store, and what is decided around its queries.

use vstd::prelude::*;
use vstd::string::*;

use crate::error::{ChittaError, ErrorView};
use crate::facets::{Facets, FacetsView, HasFacets};
use crate::ids::MemoryId;
use crate::json::{self, Json, JsonView};
use crate::order::{stable_order, Ranked};
use crate::sql::{
    self, make_both_hold, make_column_in, make_column_is, make_column_to, make_contains_if_given,
    make_if_named, make_nothing_if_asked, Assignment, Context, Expr, Value,
};
use crate::text::{self, concat2, concat3, copy_opt, copy_strings, integer_of, join, str_eq};
use crate::time::Timestamp;

verus! {

/// One row of `memories`, without its embeddings. The confidence is held by its
/// single-precision bits.
#[derive(Debug, PartialEq, Eq)]
pub struct MemoryRow {
    pub id: MemoryId,
    pub profile: String,
    pub content: String,
    pub event_time: Timestamp,
    pub record_time: Timestamp,
    pub idempotency_key: String,
    pub source: Option<String>,
    pub memory_type: String,
    pub tags: Vec<String>,
    pub external_refs: Option<Json>,
    pub metadata: Option<Json>,
    pub facets: Facets,
    pub superseded_by: Option<MemoryId>,
    pub confidence: Option<u32>,
    pub reinforcement_count: i32,
    pub last_reinforced_at: Option<Timestamp>,
    pub invalidated_at: Option<Timestamp>,
}

/// What a [`MemoryRow`] stands for.
#[verifier::ext_equal]
pub struct RowView {
    pub id: MemoryId,
    pub profile: Seq<char>,
    pub content: Seq<char>,
    pub event_time: Timestamp,
    pub record_time: Timestamp,
    pub idempotency_key: Seq<char>,
    pub source: Option<Seq<char>>,
    pub memory_type: Seq<char>,
    pub tags: Seq<Seq<char>>,
    pub external_refs: Option<JsonView>,
    pub metadata: Option<JsonView>,
    pub facets: FacetsView,
    pub superseded_by: Option<MemoryId>,
    pub confidence: Option<u32>,
    pub reinforcement_count: i32,
    pub last_reinforced_at: Option<Timestamp>,
    pub invalidated_at: Option<Timestamp>,
}

impl View for MemoryRow {
    type V = RowView;

    open spec fn view(&self) -> RowView {
        RowView {
            id: self.id,
            profile: self.profile@,
            content: self.content@,
            event_time: self.event_time,
            record_time: self.record_time,
            idempotency_key: self.idempotency_key@,
            source: text::opt_text(self.source),
            memory_type: self.memory_type@,
            tags: text::texts(self.tags@),
            external_refs: json::opt_json(self.external_refs),
            metadata: json::opt_json(self.metadata),
            facets: self.facets@,
            superseded_by: self.superseded_by,
            confidence: self.confidence,
            reinforcement_count: self.reinforcement_count,
            last_reinforced_at: self.last_reinforced_at,
            invalidated_at: self.invalidated_at,
        }
    }
}

/// The views of the rows of a sequence.
pub open spec fn row_views(rows: Seq<MemoryRow>) -> Seq<RowView> {
    rows.map_values(|r: MemoryRow| r@)
}

impl RowView {
    /// Whether the row holds: nothing took its place, and it was not withdrawn.
    pub open spec fn active(self) -> bool {
        self.superseded_by is None && self.invalidated_at is None
    }
}

/// A copy of an optional JSON value.
pub(crate) fn copy_opt_json(o: &Option<Json>) -> (r: Option<Json>)
    ensures
        json::opt_json(r) == json::opt_json(*o),
{
    match o {
        Some(j) => Some(j.copy()),
        None => None,
    }
}

impl MemoryRow {
    /// A copy of the row.
    pub fn copy(&self) -> (r: MemoryRow)
        ensures
            r@ == self@,
    {
        MemoryRow {
            id: self.id,
            profile: self.profile.clone(),
            content: self.content.clone(),
            event_time: self.event_time,
            record_time: self.record_time,
            idempotency_key: self.idempotency_key.clone(),
            source: copy_opt(&self.source),
            memory_type: self.memory_type.clone(),
            tags: copy_strings(self.tags.as_slice()),
            external_refs: copy_opt_json(&self.external_refs),
            metadata: copy_opt_json(&self.metadata),
            facets: self.facets.copy(),
            superseded_by: self.superseded_by,
            confidence: self.confidence,
            reinforcement_count: self.reinforcement_count,
            last_reinforced_at: self.last_reinforced_at,
            invalidated_at: self.invalidated_at,
        }
    }
}

impl HasFacets for MemoryRow {
    open spec fn facet_texts(&self) -> FacetsView {
        self.facets@
    }

    fn domains(&self) -> (r: &[String]) {
        self.facets.domains.as_slice()
    }

    fn skills(&self) -> (r: &[String]) {
        self.facets.skills.as_slice()
    }

    fn projects(&self) -> (r: &[String]) {
        self.facets.projects.as_slice()
    }

    fn situations(&self) -> (r: &[String]) {
        self.facets.situations.as_slice()
    }
}

// ---- Idempotent inserts -----------------------------------------------------------

/// The SQLSTATE code that Postgres raises where a unique constraint is violated.
pub const PG_UNIQUE_VIOLATION: &'static str = "23505";

/// Whether the SQLSTATE code of a failed insert says that a row with the same
/// profile and idempotency key is there already.
pub fn is_unique_violation(code: Option<&str>) -> (r: bool)
    ensures
        r == (code is Some && code->0@ == PG_UNIQUE_VIOLATION@),
{
    match code {
        Some(c) => str_eq(c, PG_UNIQUE_VIOLATION),
        None => false,
    }
}

/// The view of an optional row.
pub open spec fn opt_row(o: Option<MemoryRow>) -> Option<RowView> {
    match o {
        Some(r) => Some(r@),
        None => None,
    }
}

/// Where an insert stands.
#[derive(Debug, PartialEq, Eq)]
pub enum InsertState {
    /// It waits for the row to be inserted.
    Inserting,
    /// The row was inserted, and so many links of it.
    Linking(MemoryRow, usize),
    /// It waits for the end of the transaction.
    Committing(MemoryRow),
    /// It waits for the row that was there before.
    Finding,
    /// It is done.
    Done,
}

/// What happened.
#[derive(Debug, PartialEq, Eq)]
pub enum InsertEvent {
    /// The row was inserted.
    Inserted(MemoryRow),
    /// The row was not inserted, and the store gave the SQLSTATE code, where it
    /// gave one.
    NotInserted(Option<String>),
    /// A link was inserted.
    Linked,
    /// The transaction was committed.
    Committed,
    /// The row with the same profile and key was looked up.
    Found(Option<MemoryRow>),
}

/// What to do next.
#[derive(Debug, PartialEq, Eq)]
pub enum InsertAction {
    /// Insert a link from the first memory to the second, of the given type.
    Link(MemoryId, MemoryId, String),
    /// Commit the transaction.
    Commit,
    /// Roll the transaction back, and look up the row with the given profile and
    /// key.
    Find(String, String),
    /// Roll the transaction back, and hand on the error of the store.
    HandOn,
    /// Refuse with the error.
    Refuse(ChittaError),
    /// Return the row, and whether it was there before.
    Return(MemoryRow, bool),
}

/// An insert under way, in one transaction.
#[derive(Debug, PartialEq, Eq)]
pub struct InsertCall {
    profile: String,
    key: String,
    links: Vec<(MemoryId, String)>,
    state: InsertState,
}

/// What an [`InsertCall`] stands for.
pub struct InsertCallView {
    pub profile: Seq<char>,
    pub key: Seq<char>,
    pub links: Seq<(MemoryId, Seq<char>)>,
    pub state: InsertState,
}

/// The view of links: the source of each, and its type.
pub open spec fn link_views(links: Seq<(MemoryId, String)>) -> Seq<(MemoryId, Seq<char>)> {
    links.map_values(|l: (MemoryId, String)| (l.0, l.1@))
}

impl View for InsertCall {
    type V = InsertCallView;

    closed spec fn view(&self) -> InsertCallView {
        InsertCallView {
            profile: self.profile@,
            key: self.key@,
            links: link_views(self.links@),
            state: self.state,
        }
    }
}

impl InsertCallView {
    /// What holds of every insert: the link that is being inserted exists.
    pub open spec fn well_formed(self) -> bool {
        self.state matches InsertState::Linking(_, done) ==> done < self.links.len()
    }
}

/// Whether the insert goes on from the row, `done` of whose links were inserted:
/// to the next link, or, where there is none, to the end of the transaction.
pub open spec fn links_on(
    before: InsertCallView,
    row: MemoryRow,
    done: int,
    after: InsertCallView,
    action: Option<InsertAction>,
) -> bool {
    if done < before.links.len() {
        &&& after == (InsertCallView {
            state: InsertState::Linking(row, done as usize),
            ..before
        })
        &&& action matches Some(InsertAction::Link(derived, source, kind)) && derived == row.id
            && (source, kind@) == before.links[done]
    } else {
        &&& after == (InsertCallView { state: InsertState::Committing(row), ..before })
        &&& action == Some(InsertAction::Commit)
    }
}

/// Whether the insert, on the event, goes on as it should: to the state `after`,
/// with the given action. The row and its links are inserted together. Where a row
/// with the same profile and key is there already, that row is returned, and no
/// link is inserted. An event that does not belong to the state changes nothing
/// and calls for nothing.
pub open spec fn goes_on(
    before: InsertCallView,
    event: InsertEvent,
    after: InsertCallView,
    action: Option<InsertAction>,
) -> bool {
    match (before.state, event) {
        (InsertState::Inserting, InsertEvent::Inserted(row)) => links_on(
            before,
            row,
            0,
            after,
            action,
        ),
        (InsertState::Inserting, InsertEvent::NotInserted(code)) => {
            if text::opt_text(code) == Some(PG_UNIQUE_VIOLATION@) {
                &&& after == (InsertCallView { state: InsertState::Finding, ..before })
                &&& action matches Some(InsertAction::Find(profile, key)) && profile@
                    == before.profile && key@ == before.key
            } else {
                &&& after == (InsertCallView { state: InsertState::Done, ..before })
                &&& action == Some(InsertAction::HandOn)
            }
        },
        (InsertState::Linking(row, done), InsertEvent::Linked) => links_on(
            before,
            row,
            done + 1,
            after,
            action,
        ),
        (InsertState::Committing(row), InsertEvent::Committed) => {
            &&& after == (InsertCallView { state: InsertState::Done, ..before })
            &&& action == Some(InsertAction::Return(row, false))
        },
        (InsertState::Finding, InsertEvent::Found(existing)) => {
            &&& after == (InsertCallView { state: InsertState::Done, ..before })
            &&& match existing {
                Some(row) => action == Some(InsertAction::Return(row, true)),
                None => action matches Some(InsertAction::Refuse(e)) && e@ == ErrorView::Internal(
                    "unique violation without recoverable row"@,
                ),
            }
        },
        _ => after == before && action is None,
    }
}

impl InsertCall {
    /// Begins to insert a row with the given links.
    pub fn begin(row: &MemoryRow, links: Vec<(MemoryId, String)>) -> (r: InsertCall)
        ensures
            r@ == (InsertCallView {
                profile: row.profile@,
                key: row.idempotency_key@,
                links: link_views(links@),
                state: InsertState::Inserting,
            }),
            r@.well_formed(),
    {
        InsertCall {
            profile: row.profile.clone(),
            key: row.idempotency_key.clone(),
            links,
            state: InsertState::Inserting,
        }
    }

    fn link_on(self, row: MemoryRow, done: usize) -> (r: (InsertCall, Option<InsertAction>))
        ensures
            links_on(self@, row, done as int, r.0@, r.1),
    {
        if done < self.links.len() {
            assert(self@.links[done as int] == (
                self.links@[done as int].0,
                self.links@[done as int].1@,
            ));
            let action = InsertAction::Link(
                row.id,
                self.links[done].0,
                self.links[done].1.clone(),
            );
            (InsertCall { state: InsertState::Linking(row, done), ..self }, Some(action))
        } else {
            (
                InsertCall { state: InsertState::Committing(row), ..self },
                Some(InsertAction::Commit),
            )
        }
    }

    /// What to do next, now that the given event happened; `None` where the event
    /// does not belong to where the insert stands.
    pub fn step(self, event: InsertEvent) -> (r: (InsertCall, Option<InsertAction>))
        requires
            self@.well_formed(),
        ensures
            r.0@.well_formed(),
            goes_on(self@, event, r.0@, r.1),
    {
        let InsertCall { profile, key, links, state } = self;
        assert(links@.len() == links.len());
        let resting = InsertCall { profile, key, links, state: InsertState::Done };
        match (state, event) {
            (InsertState::Inserting, InsertEvent::Inserted(row)) => resting.link_on(row, 0),
            (InsertState::Inserting, InsertEvent::NotInserted(code)) => {
                let code = match &code {
                    Some(c) => Some(c.as_str()),
                    None => None,
                };
                if is_unique_violation(code) {
                    let action = InsertAction::Find(resting.profile.clone(), resting.key.clone());
                    (InsertCall { state: InsertState::Finding, ..resting }, Some(action))
                } else {
                    (resting, Some(InsertAction::HandOn))
                }
            },
            (InsertState::Linking(row, done), InsertEvent::Linked) => {
                resting.link_on(row, done + 1)
            },
            (InsertState::Committing(row), InsertEvent::Committed) => {
                (resting, Some(InsertAction::Return(row, false)))
            },
            (InsertState::Finding, InsertEvent::Found(existing)) => {
                let action = match existing {
                    Some(row) => InsertAction::Return(row, true),
                    None => InsertAction::Refuse(
                        ChittaError::Internal(
                            "unique violation without recoverable row".to_owned(),
                        ),
                    ),
                };
                (resting, Some(action))
            },
            (state, _) => (InsertCall { state, ..resting }, None),
        }
    }
}

/// Where a row with the same profile and key is there already, that row is
/// returned and nothing is inserted: neither the row nor a link of it.
pub proof fn lemma_conflict_inserts_nothing(
    p0: InsertCallView,
    code: Option<String>,
    p1: InsertCallView,
    a1: Option<InsertAction>,
    existing: MemoryRow,
    p2: InsertCallView,
    a2: Option<InsertAction>,
)
    requires
        p0.state == InsertState::Inserting,
        text::opt_text(code) == Some(PG_UNIQUE_VIOLATION@),
        goes_on(p0, InsertEvent::NotInserted(code), p1, a1),
        goes_on(p1, InsertEvent::Found(Some(existing)), p2, a2),
    ensures
        a1 matches Some(InsertAction::Find(_, _)),
        a2 == Some(InsertAction::Return(existing, true)),
        p2.state == InsertState::Done,
{
}

/// A row is committed only with all of its links: each link is inserted in turn,
/// and the transaction ends after the last.
pub proof fn lemma_committed_with_all_links(
    before: InsertCallView,
    event: InsertEvent,
    after: InsertCallView,
    action: Option<InsertAction>,
)
    requires
        goes_on(before, event, after, action),
        action == Some(InsertAction::Commit),
    ensures
        before.state matches InsertState::Linking(_, done) ==> done + 1 >= before.links.len(),
        before.state == InsertState::Inserting ==> before.links.len() == 0,
        before.state == InsertState::Inserting || before.state matches InsertState::Linking(_, _),
{
}

/// A link goes from the row that was inserted to the source that was given, with the
/// type that was given: the first link once the row is there, and each next one once
/// the one before it is there. What is returned is the row that was inserted, or, as a
/// replay, the row that was there.
pub proof fn lemma_links_go_from_the_row_to_its_sources(
    row: MemoryRow,
    links: Seq<(MemoryId, String)>,
    done: usize,
    before: InsertCallView,
    event: InsertEvent,
    after: InsertCallView,
    action: Option<InsertAction>,
)
    requires
        before.links == link_views(links),
        goes_on(before, event, after, action),
    ensures
        after.links == before.links && after.profile == before.profile && after.key == before.key,
        before.state == InsertState::Inserting && event == InsertEvent::Inserted(row)
            && links.len() > 0 ==> (action matches Some(InsertAction::Link(derived, source, kind))
            && derived == row.id && source == links[0].0 && kind@ == links[0].1@ && after.state
            == InsertState::Linking(row, 0)),
        before.state == InsertState::Linking(row, done) && event == InsertEvent::Linked && done + 1
            < links.len() ==> (action matches Some(InsertAction::Link(derived, source, kind))
            && derived == row.id && source == links[done + 1].0 && kind@ == links[done + 1].1@
            && after.state == InsertState::Linking(row, (done + 1) as usize)),
        action matches Some(InsertAction::Return(returned, replayed)) ==> {
            ||| !replayed && before.state == InsertState::Committing(returned) && event
                == InsertEvent::Committed
            ||| replayed && before.state == InsertState::Finding && event == InsertEvent::Found(
                Some(returned),
            )
        },
        after.state matches InsertState::Committing(r) ==> (before.state == after.state) || event
            == InsertEvent::Inserted(r) || (before.state matches InsertState::Linking(r2, _) && r2
            == r),
        action matches Some(InsertAction::Find(profile, key)) ==> profile@ == before.profile && key@
            == before.key && (event matches InsertEvent::NotInserted(Some(code)) && code@
            == "23505"@),
        event matches InsertEvent::NotInserted(Some(code)) && code@ != "23505"@ && before.state
            == InsertState::Inserting ==> action == Some(InsertAction::HandOn),
{
    assert(link_views(links).len() == links.len());
    if links.len() > 0 {
        assert(link_views(links)[0] == (links[0].0, links[0].1@));
    }
    if done + 1 < links.len() {
        assert(link_views(links)[done + 1] == (links[done + 1].0, links[done + 1].1@));
    }
}

// ---- Semantic search --------------------------------------------------------------

/// The least `hnsw.ef_search` of a semantic query.
pub const HNSW_EF_SEARCH_MIN: i64 = 200;

/// The greatest `hnsw.ef_search` of a semantic query.
pub const HNSW_EF_SEARCH_MAX: i64 = 1000;

/// The breadth of a semantic query for `k` results: four times as many, at least
/// [`HNSW_EF_SEARCH_MIN`] and at most [`HNSW_EF_SEARCH_MAX`].
pub open spec fn ef_search_for(k: int) -> int {
    if k * 4 <= HNSW_EF_SEARCH_MIN {
        HNSW_EF_SEARCH_MIN as int
    } else if k * 4 >= HNSW_EF_SEARCH_MAX {
        HNSW_EF_SEARCH_MAX as int
    } else {
        k * 4
    }
}

/// The breadth of a semantic query for `k` results.
pub fn ef_search(k: i64) -> (r: i64)
    ensures
        r == ef_search_for(k as int),
{
    if k <= 50 {
        HNSW_EF_SEARCH_MIN
    } else if k >= 250 {
        HNSW_EF_SEARCH_MAX
    } else {
        k * 4
    }
}

/// The breadth of a query is four times the results that are wanted, where that is
/// from two hundred to a thousand, and the nearer of these bounds otherwise.
pub proof fn lemma_breadth_is_bounded(k: int)
    ensures
        200 <= ef_search_for(k) <= 1000,
        200 <= k * 4 <= 1000 ==> ef_search_for(k) == k * 4,
        k * 4 < 200 ==> ef_search_for(k) == 200,
        k * 4 > 1000 ==> ef_search_for(k) == 1000,
{
}

/// How many rows a semantic query fetches for `k` results: twice as many where
/// they are ranked anew by recency.
pub fn fetch_limit(k: i64, use_recency: bool) -> (r: i64)
    requires
        use_recency ==> i64::MIN <= k * 2 <= i64::MAX,
    ensures
        r == (if use_recency {
            k * 2
        } else {
            k as int
        }),
{
    if use_recency {
        k * 2
    } else {
        k
    }
}

/// Whether hits are ranked anew by recency: where recency has a weight above
/// zero, given by its bits.
pub fn uses_recency(weight: u32) -> (r: bool)
    ensures
        r == (crate::floats::place(weight) > 0),
{
    crate::floats::place_of(weight) > 0
}

/// The statement that sets the breadth of a semantic query within a transaction.
pub fn ef_search_statement(k: i64) -> (r: String)
    ensures
        r@ == "set local hnsw.ef_search = "@ + text::integer(ef_search_for(k as int)),
{
    concat2("set local hnsw.ef_search = ", integer_of(ef_search(k)).as_str())
}

/// What a row must apply to, by the four lists from parameter `n` on.
pub open spec fn facet_condition(before: Expr, n: i32) -> Expr {
    let domains = sql::if_named(n, sql::column_to("applies_to_domains", "@>", n));
    let skills = sql::if_named(
        (n + 1) as i32,
        sql::column_to("applies_to_skills", "@>", (n + 1) as i32),
    );
    let projects = sql::if_named(
        (n + 2) as i32,
        sql::column_to("applies_to_projects", "@>", (n + 2) as i32),
    );
    let situations = sql::if_named(
        (n + 3) as i32,
        sql::column_to("applies_to_situations", "@>", (n + 3) as i32),
    );
    sql::both_hold(
        sql::both_hold(sql::both_hold(sql::both_hold(before, domains), skills), projects),
        situations,
    )
}

/// What a row must be: of the profile of the first parameter, neither withdrawn nor
/// superseded where the parameters say so, with one of the tags and of one of the
/// types where any are named.
pub open spec fn row_condition(invalidated: i32, superseded: i32, tags: i32, types: i32) -> Expr {
    let profile = sql::column_is("profile", 1);
    let there = sql::both_hold(profile, sql::nothing_if_asked(invalidated, "invalidated_at"));
    let current = sql::both_hold(there, sql::nothing_if_asked(superseded, "superseded_by"));
    let tagged = sql::both_hold(
        current,
        sql::if_named(tags, sql::column_to("tags", "&&", tags)),
    );
    sql::both_hold(tagged, sql::if_named(types, sql::column_in("memory_type", types)))
}

/// Which rows a semantic search ranges over.
pub open spec fn count_condition() -> Expr {
    facet_condition(
        sql::both_hold(row_condition(4, 5, 2, 3), sql::contains_if_given(6, "external_refs")),
        7,
    )
}

/// How far a row is from the query.
pub open spec fn distance() -> Expr {
    Expr::Between(Box::new(Expr::Word("embedding")), "<=>", Box::new(Expr::Param(2)))
}

/// How similar a row is to the query.
pub open spec fn similarity() -> Expr {
    Expr::Cast(
        Box::new(
            Expr::Brackets(
                Box::new(
                    Expr::Between(
                        Box::new(Expr::Word("1.0")),
                        "-",
                        Box::new(Expr::Brackets(Box::new(distance()))),
                    ),
                ),
            ),
        ),
        "real",
    )
}

/// Which rows a semantic search finds: those that it ranges over and that are similar
/// enough.
pub open spec fn search_condition() -> Expr {
    let near = Expr::Between(Box::new(similarity()), ">=", Box::new(Expr::Param(4)));
    let found = sql::both_hold(row_condition(7, 8, 3, 6), near);
    facet_condition(sql::both_hold(found, sql::contains_if_given(9, "external_refs")), 10)
}

/// The query that counts the rows that a semantic search ranges over: those of
/// the profile that pass the filters, whatever their similarity.
pub open spec fn count_query() -> Seq<char> {
    "SELECT count(*)::bigint FROM memories WHERE "@ + sql::written(count_condition())
}

fn make_facet_condition(before: Expr, n: i32) -> (r: Expr)
    requires
        n + 3 <= i32::MAX,
    ensures
        r == facet_condition(before, n),
{
    let domains = make_if_named(n, make_column_to("applies_to_domains", "@>", n));
    let skills = make_if_named(n + 1, make_column_to("applies_to_skills", "@>", n + 1));
    let projects = make_if_named(n + 2, make_column_to("applies_to_projects", "@>", n + 2));
    let situations = make_if_named(n + 3, make_column_to("applies_to_situations", "@>", n + 3));
    make_both_hold(
        make_both_hold(make_both_hold(make_both_hold(before, domains), skills), projects),
        situations,
    )
}

fn make_row_condition(invalidated: i32, superseded: i32, tags: i32, types: i32) -> (r: Expr)
    ensures
        r == row_condition(invalidated, superseded, tags, types),
{
    let profile = make_column_is("profile", 1);
    let there = make_both_hold(profile, make_nothing_if_asked(invalidated, "invalidated_at"));
    let current = make_both_hold(there, make_nothing_if_asked(superseded, "superseded_by"));
    let tagged = make_both_hold(
        current,
        make_if_named(tags, make_column_to("tags", "&&", tags)),
    );
    make_both_hold(tagged, make_if_named(types, make_column_in("memory_type", types)))
}

/// The query that counts the rows that a semantic search ranges over.
pub fn count_sql() -> (r: String)
    ensures
        r@ == count_query(),
{
    let condition = make_facet_condition(
        make_both_hold(
            make_row_condition(4, 5, 2, 3),
            make_contains_if_given(6, "external_refs"),
        ),
        7,
    );
    concat2("SELECT count(*)::bigint FROM memories WHERE ", condition.write().as_str())
}

/// The query of a semantic search: the rows of the profile that pass the filters
/// and the similarity floor, nearest first.
pub open spec fn search_query() -> Seq<char> {
    "SELECT id, content, event_time, record_time, tags, "@ + sql::written(similarity())
        + " AS similarity, source, metadata, memory_type, external_refs, confidence FROM memories WHERE "@
        + sql::written(search_condition()) + " ORDER BY "@ + sql::written(distance())
        + " LIMIT "@ + sql::written(Expr::Param(5))
}

fn make_distance() -> (r: Expr)
    ensures
        r == distance(),
{
    Expr::Between(Box::new(Expr::Word("embedding")), "<=>", Box::new(Expr::Param(2)))
}

fn make_similarity() -> (r: Expr)
    ensures
        r == similarity(),
{
    Expr::Cast(
        Box::new(
            Expr::Brackets(
                Box::new(
                    Expr::Between(
                        Box::new(Expr::Word("1.0")),
                        "-",
                        Box::new(Expr::Brackets(Box::new(make_distance()))),
                    ),
                ),
            ),
        ),
        "real",
    )
}

/// The query of a semantic search.
pub fn search_sql() -> (r: String)
    ensures
        r@ == search_query(),
{
    let near = Expr::Between(Box::new(make_similarity()), ">=", Box::new(Expr::Param(4)));
    let found = make_both_hold(make_row_condition(7, 8, 3, 6), near);
    let condition = make_facet_condition(
        make_both_hold(found, make_contains_if_given(9, "external_refs")),
        10,
    );
    let mut r = "SELECT id, content, event_time, record_time, tags, ".to_owned();
    r.append(make_similarity().write().as_str());
    r.append(
        " AS similarity, source, metadata, memory_type, external_refs, confidence FROM memories WHERE ",
    );
    r.append(condition.write().as_str());
    r.append(" ORDER BY ");
    r.append(make_distance().write().as_str());
    r.append(" LIMIT ");
    r.append(Expr::Param(5).write().as_str());
    r
}

/// What a semantic search asks for, beside the embedding of the query. Single
/// numbers are held by their bits.
#[derive(Debug, PartialEq, Eq)]
pub struct SearchParams {
    pub profile: String,
    /// How many hits are wanted.
    pub k: i64,
    /// Tags, of which a row must share at least one, where there are any.
    pub tags: Vec<String>,
    /// Types, of which a row must have one, where there are any.
    pub memory_types: Vec<String>,
    /// The least similarity of a hit.
    pub min_similarity: u32,
    /// How much recency weighs.
    pub recency_weight: u32,
    /// Whether rows that were withdrawn are left out.
    pub exclude_invalidated: bool,
    /// Whether rows that were superseded are left out.
    pub exclude_superseded: bool,
    /// What the external references of a row must contain.
    pub ref_filter: Option<Json>,
    /// What a row must apply to.
    pub facets: Facets,
}

/// What restricts the rows that a search ranges over.
pub struct RowFilterView {
    pub profile: Seq<char>,
    pub tags: Seq<Seq<char>>,
    pub memory_types: Seq<Seq<char>>,
    pub exclude_invalidated: bool,
    pub exclude_superseded: bool,
    pub ref_filter: Option<JsonView>,
    pub facets: FacetsView,
}

/// What a [`SearchParams`] stands for.
pub struct SearchParamsView {
    pub filter: RowFilterView,
    pub k: i64,
    pub min_similarity: u32,
    pub recency_weight: u32,
}

impl View for SearchParams {
    type V = SearchParamsView;

    open spec fn view(&self) -> SearchParamsView {
        SearchParamsView {
            filter: RowFilterView {
                profile: self.profile@,
                tags: text::texts(self.tags@),
                memory_types: text::texts(self.memory_types@),
                exclude_invalidated: self.exclude_invalidated,
                exclude_superseded: self.exclude_superseded,
                ref_filter: json::opt_json(self.ref_filter),
                facets: self.facets@,
            },
            k: self.k,
            min_similarity: self.min_similarity,
            recency_weight: self.recency_weight,
        }
    }
}

/// A value to bind to a parameter of a statement.
#[derive(Debug, PartialEq, Eq)]
pub enum Bind {
    /// The embedding of the query.
    Query,
    Text(String),
    Texts(Vec<String>),
    Flag(bool),
    Json(Option<Json>),
    Integer(i64),
    /// A single-precision number, by its bits.
    Single(u32),
    /// The identifier of a memory.
    Id(MemoryId),
}

/// What a [`Bind`] stands for.
pub enum BindView {
    Query,
    Text(Seq<char>),
    Texts(Seq<Seq<char>>),
    Flag(bool),
    Json(Option<JsonView>),
    Integer(i64),
    Single(u32),
    Id(MemoryId),
}

impl View for Bind {
    type V = BindView;

    open spec fn view(&self) -> BindView {
        match self {
            Bind::Query => BindView::Query,
            Bind::Text(s) => BindView::Text(s@),
            Bind::Texts(v) => BindView::Texts(text::texts(v@)),
            Bind::Flag(b) => BindView::Flag(*b),
            Bind::Json(j) => BindView::Json(json::opt_json(*j)),
            Bind::Integer(n) => BindView::Integer(*n),
            Bind::Single(bits) => BindView::Single(*bits),
            Bind::Id(id) => BindView::Id(*id),
        }
    }
}

/// A statement and the values of its parameters, in order.
#[derive(Debug, PartialEq, Eq)]
pub struct Statement {
    pub sql: String,
    pub binds: Vec<Bind>,
}

/// What a [`Statement`] stands for.
pub struct StatementView {
    pub sql: Seq<char>,
    pub binds: Seq<BindView>,
}

impl View for Statement {
    type V = StatementView;

    open spec fn view(&self) -> StatementView {
        StatementView { sql: self.sql@, binds: self.binds@.map_values(|b: Bind| b@) }
    }
}

/// The statement that counts the rows that a search ranges over.
pub open spec fn counting(f: RowFilterView) -> StatementView {
    StatementView {
        sql: count_query(),
        binds: seq![
            BindView::Text(f.profile),
            BindView::Texts(f.tags),
            BindView::Texts(f.memory_types),
            BindView::Flag(f.exclude_invalidated),
            BindView::Flag(f.exclude_superseded),
            BindView::Json(f.ref_filter),
            BindView::Texts(f.facets.domains),
            BindView::Texts(f.facets.skills),
            BindView::Texts(f.facets.projects),
            BindView::Texts(f.facets.situations),
        ],
    }
}

/// How many rows a search fetches: `k`, or twice as many where they are ranked
/// anew by recency.
pub open spec fn rows_fetched(p: SearchParamsView) -> int {
    if crate::floats::place(p.recency_weight) > 0 {
        p.k * 2
    } else {
        p.k as int
    }
}

/// The statement that fetches the rows of a search.
pub open spec fn searching(p: SearchParamsView) -> StatementView {
    let f = p.filter;
    StatementView {
        sql: search_query(),
        binds: seq![
            BindView::Text(f.profile),
            BindView::Query,
            BindView::Texts(f.tags),
            BindView::Single(p.min_similarity),
            BindView::Integer(rows_fetched(p) as i64),
            BindView::Texts(f.memory_types),
            BindView::Flag(f.exclude_invalidated),
            BindView::Flag(f.exclude_superseded),
            BindView::Json(f.ref_filter),
            BindView::Texts(f.facets.domains),
            BindView::Texts(f.facets.skills),
            BindView::Texts(f.facets.projects),
            BindView::Texts(f.facets.situations),
        ],
    }
}

impl SearchParams {
    /// The statement that counts the rows that the search ranges over.
    pub fn count_statement(&self) -> (r: Statement)
        ensures
            r@ == counting(self@.filter),
    {
        let mut binds: Vec<Bind> = Vec::new();
        binds.push(Bind::Text(self.profile.clone()));
        binds.push(Bind::Texts(copy_strings(self.tags.as_slice())));
        binds.push(Bind::Texts(copy_strings(self.memory_types.as_slice())));
        binds.push(Bind::Flag(self.exclude_invalidated));
        binds.push(Bind::Flag(self.exclude_superseded));
        binds.push(Bind::Json(copy_opt_json(&self.ref_filter)));
        binds.push(Bind::Texts(copy_strings(self.facets.domains.as_slice())));
        binds.push(Bind::Texts(copy_strings(self.facets.skills.as_slice())));
        binds.push(Bind::Texts(copy_strings(self.facets.projects.as_slice())));
        binds.push(Bind::Texts(copy_strings(self.facets.situations.as_slice())));
        let r = Statement { sql: count_sql(), binds };
        assert(r@.binds =~= counting(self@.filter).binds);
        r
    }

    /// The statement that fetches the rows of the search, nearest first.
    pub fn search_statement(&self) -> (r: Statement)
        requires
            i64::MIN <= rows_fetched(self@) <= i64::MAX,
        ensures
            r@ == searching(self@),
    {
        let limit: i64 = fetch_limit(self.k, uses_recency(self.recency_weight));
        let mut binds: Vec<Bind> = Vec::new();
        binds.push(Bind::Text(self.profile.clone()));
        binds.push(Bind::Query);
        binds.push(Bind::Texts(copy_strings(self.tags.as_slice())));
        binds.push(Bind::Single(self.min_similarity));
        binds.push(Bind::Integer(limit));
        binds.push(Bind::Texts(copy_strings(self.memory_types.as_slice())));
        binds.push(Bind::Flag(self.exclude_invalidated));
        binds.push(Bind::Flag(self.exclude_superseded));
        binds.push(Bind::Json(copy_opt_json(&self.ref_filter)));
        binds.push(Bind::Texts(copy_strings(self.facets.domains.as_slice())));
        binds.push(Bind::Texts(copy_strings(self.facets.skills.as_slice())));
        binds.push(Bind::Texts(copy_strings(self.facets.projects.as_slice())));
        binds.push(Bind::Texts(copy_strings(self.facets.situations.as_slice())));
        let r = Statement { sql: search_sql(), binds };
        assert(r@.binds =~= searching(self@).binds);
        r
    }
}

/// The total of a search depends on what restricts its rows alone: two searches
/// with the same restrictions are counted by the same statement, whatever they
/// search for, how many hits they want, which similarity they ask for, and how
/// much recency weighs. So they have the same total, however many rows are counted
/// for a statement, as long as the rows that are stored stay the same.
pub proof fn lemma_total_ignores_the_query(
    p: SearchParams,
    q: SearchParams,
    p_count: Statement,
    q_count: Statement,
    counted: spec_fn(StatementView) -> i64,
)
    requires
        p@.filter == q@.filter,
        p_count@ == counting(p@.filter),
        q_count@ == counting(q@.filter),
    ensures
        p_count@ == q_count@,
        counted(p_count@) == counted(q_count@),
        !p_count@.binds.contains(BindView::Query),
{
}

// ---- What a search fetches ------------------------------------------------------------

/// A row that a search fetched, with the bits of its similarity to the query.
pub struct FetchedView {
    pub row: RowView,
    pub similarity: u32,
}

/// Whether two lists have a text in common.
pub open spec fn share_a_text(a: Seq<Seq<char>>, b: Seq<Seq<char>>) -> bool {
    exists|i: int| 0 <= i < a.len() && b.contains(#[trigger] a[i])
}

/// Whether the first list holds every text of the second.
pub open spec fn holds_all(a: Seq<Seq<char>>, b: Seq<Seq<char>>) -> bool {
    forall|i: int| 0 <= i < b.len() ==> a.contains(#[trigger] b[i])
}

/// Whether a row meets what restricts a search, but for its external references: it
/// is of the profile, was not withdrawn or superseded where such rows are left out,
/// shares a tag and has one of the types where any are named, and applies to all
/// that is named.
pub open spec fn meets(row: RowView, f: RowFilterView) -> bool {
    &&& row.profile == f.profile
    &&& f.exclude_invalidated ==> row.invalidated_at is None
    &&& f.exclude_superseded ==> row.superseded_by is None
    &&& f.tags.len() > 0 ==> share_a_text(row.tags, f.tags)
    &&& f.memory_types.len() > 0 ==> f.memory_types.contains(row.memory_type)
    &&& holds_all(row.facets.domains, f.facets.domains)
    &&& holds_all(row.facets.skills, f.facets.skills)
    &&& holds_all(row.facets.projects, f.facets.projects)
    &&& holds_all(row.facets.situations, f.facets.situations)
}

/// Whether the rows are such as the statement of a search asks for: they meet what
/// restricts it, none is less similar than the floor, none comes before a more
/// similar one, and there are no more of them than are to be fetched.
pub open spec fn keep_to_search(rows: Seq<FetchedView>, p: SearchParamsView) -> bool {
    &&& rows.len() <= rows_fetched(p)
    &&& forall|i: int|
        0 <= i < rows.len() ==> {
            &&& meets((#[trigger] rows[i]).row, p.filter)
            &&& !crate::floats::greater(p.min_similarity, rows[i].similarity)
        }
    &&& forall|i: int, j: int|
        0 <= i < j < rows.len() ==> !crate::floats::greater(
            (#[trigger] rows[j]).similarity,
            (#[trigger] rows[i]).similarity,
        )
}

/// The value that is bound to a parameter; `number` reads a single-precision number in
/// hundredths.
pub open spec fn bound_value(b: BindView, number: spec_fn(u32) -> int) -> Value {
    match b {
        BindView::Query => Value::Vector,
        BindView::Text(s) => Value::Text(s),
        BindView::Texts(v) => Value::Texts(v),
        BindView::Flag(x) => Value::Bool(x),
        BindView::Json(j) => sql::json_or_null(j),
        BindView::Integer(n) => Value::Number(n as int),
        BindView::Single(bits) => Value::Number(number(bits)),
        BindView::Id(id) => Value::Id(id),
    }
}

/// The values of the parameters of a statement.
pub open spec fn bound_values(st: Statement, number: spec_fn(u32) -> int) -> Seq<Value> {
    st.binds@.map_values(|b: Bind| bound_value(b@, number))
}

/// Whether a row is one that a search ranges over: of its profile; neither withdrawn
/// nor superseded where such rows are left out; with one of the tags and of one of the
/// types where any are named; applying to everything that is named; and with external
/// references that contain what is asked for, where something is.
pub open spec fn in_range(
    row: RowView,
    p: SearchParams,
    contains: spec_fn(JsonView, JsonView) -> bool,
) -> bool {
    &&& row.profile == p.profile@
    &&& p.exclude_invalidated ==> row.invalidated_at is None
    &&& p.exclude_superseded ==> row.superseded_by is None
    &&& p.tags@.len() > 0 ==> share_a_text(row.tags, text::texts(p.tags@))
    &&& p.memory_types@.len() > 0 ==> text::texts(p.memory_types@).contains(row.memory_type)
    &&& holds_all(row.facets.domains, text::texts(p.facets.domains@))
    &&& holds_all(row.facets.skills, text::texts(p.facets.skills@))
    &&& holds_all(row.facets.projects, text::texts(p.facets.projects@))
    &&& holds_all(row.facets.situations, text::texts(p.facets.situations@))
    &&& match p.ref_filter {
        Some(j) => row.external_refs is Some && contains(row.external_refs->0, j@),
        None => true,
    }
}

proof fn lemma_facet_condition(before: Expr, n: i32, c: Context)
    requires
        1 <= n,
        n + 3 <= i32::MAX,
        c.params[n - 1] is Texts,
        c.params[n as int] is Texts,
        c.params[n + 1] is Texts,
        c.params[n + 2] is Texts,
    ensures
        sql::selects(facet_condition(before, n), c) <==> {
            &&& sql::selects(before, c)
            &&& holds_all(c.row.facets.domains, c.params[n - 1]->Texts_0)
            &&& holds_all(c.row.facets.skills, c.params[n as int]->Texts_0)
            &&& holds_all(c.row.facets.projects, c.params[n + 1]->Texts_0)
            &&& holds_all(c.row.facets.situations, c.params[n + 2]->Texts_0)
        },
{
    sql::lemma_words(c);
    let domains = sql::if_named(n, sql::column_to("applies_to_domains", "@>", n));
    let n1 = (n + 1) as i32;
    let n2 = (n + 2) as i32;
    let n3 = (n + 3) as i32;
    let skills = sql::if_named(n1, sql::column_to("applies_to_skills", "@>", n1));
    let projects = sql::if_named(n2, sql::column_to("applies_to_projects", "@>", n2));
    let situations = sql::if_named(n3, sql::column_to("applies_to_situations", "@>", n3));
    sql::lemma_column_to("applies_to_domains", n, c);
    sql::lemma_column_to("applies_to_skills", n1, c);
    sql::lemma_column_to("applies_to_projects", n2, c);
    sql::lemma_column_to("applies_to_situations", n3, c);
    sql::lemma_if_named(n, sql::column_to("applies_to_domains", "@>", n), c);
    sql::lemma_if_named(n1, sql::column_to("applies_to_skills", "@>", n1), c);
    sql::lemma_if_named(n2, sql::column_to("applies_to_projects", "@>", n2), c);
    sql::lemma_if_named(n3, sql::column_to("applies_to_situations", "@>", n3), c);
    let a = sql::both_hold(before, domains);
    let b = sql::both_hold(a, skills);
    let d = sql::both_hold(b, projects);
    sql::lemma_both_hold(before, domains, c);
    sql::lemma_both_hold(a, skills, c);
    sql::lemma_both_hold(b, projects, c);
    sql::lemma_both_hold(d, situations, c);
}

proof fn lemma_row_condition(
    invalidated: i32,
    superseded: i32,
    tags: i32,
    types: i32,
    c: Context,
)
    requires
        c.params[0] is Text,
        c.params[invalidated - 1] is Bool,
        c.params[superseded - 1] is Bool,
        c.params[tags - 1] is Texts,
        c.params[types - 1] is Texts,
    ensures
        sql::selects(row_condition(invalidated, superseded, tags, types), c) <==> {
            &&& c.row.profile == c.params[0]->Text_0
            &&& c.params[invalidated - 1]->Bool_0 ==> c.row.invalidated_at is None
            &&& c.params[superseded - 1]->Bool_0 ==> c.row.superseded_by is None
            &&& c.params[tags - 1]->Texts_0.len() > 0 ==> share_a_text(
                c.row.tags,
                c.params[tags - 1]->Texts_0,
            )
            &&& c.params[types - 1]->Texts_0.len() > 0 ==> c.params[types - 1]->Texts_0.contains(
                c.row.memory_type,
            )
        },
{
    sql::lemma_words(c);
    let profile = sql::column_is("profile", 1);
    let i = sql::nothing_if_asked(invalidated, "invalidated_at");
    let s = sql::nothing_if_asked(superseded, "superseded_by");
    let t = sql::if_named(tags, sql::column_to("tags", "&&", tags));
    let m = sql::if_named(types, sql::column_in("memory_type", types));
    sql::lemma_column_is("profile", 1, c);
    sql::lemma_nothing_if_asked(invalidated, "invalidated_at", c);
    sql::lemma_nothing_if_asked(superseded, "superseded_by", c);
    sql::lemma_column_to("tags", tags, c);
    sql::lemma_if_named(tags, sql::column_to("tags", "&&", tags), c);
    sql::lemma_column_in("memory_type", types, c);
    sql::lemma_if_named(types, sql::column_in("memory_type", types), c);
    let there = sql::both_hold(profile, i);
    let current = sql::both_hold(there, s);
    let tagged = sql::both_hold(current, t);
    sql::lemma_both_hold(profile, i, c);
    sql::lemma_both_hold(there, s, c);
    sql::lemma_both_hold(current, t, c);
    sql::lemma_both_hold(tagged, m, c);
}

/// The total of a search counts exactly the rows that it ranges over: with the values
/// that are bound, the condition of the statement holds of those rows and of no
/// others.
pub proof fn lemma_total_counts_the_range(
    p: SearchParams,
    st: Statement,
    number: spec_fn(u32) -> int,
    c: Context,
)
    requires
        st@ == counting(p@.filter),
        c.params == bound_values(st, number),
    ensures
        st.sql@ == "SELECT count(*)::bigint FROM memories WHERE "@ + sql::written(
            count_condition(),
        ),
        sql::selects(count_condition(), c) <==> in_range(c.row, p, c.contains),
{
    let binds = counting(p@.filter).binds;
    assert(st@.binds == st.binds@.map_values(|b: Bind| b@));
    assert(st.binds@.len() == binds.len());
    assert forall|i: int| 0 <= i < binds.len() implies #[trigger] c.params[i] == bound_value(
        binds[i],
        number,
    ) by {
        assert(st@.binds[i] == st.binds@[i]@);
    }
    assert(c.params[0] == bound_value(binds[0], number));
    lemma_row_condition(4, 5, 2, 3, c);
    sql::lemma_words(c);
    sql::lemma_contains_if_given(6, "external_refs", c);
    let rows = row_condition(4, 5, 2, 3);
    let refs = sql::contains_if_given(6, "external_refs");
    sql::lemma_both_hold(rows, refs, c);
    lemma_facet_condition(sql::both_hold(rows, refs), 7, c);
    assert(text::texts(p.tags@).len() == p.tags@.len());
    assert(text::texts(p.memory_types@).len() == p.memory_types@.len());
}

/// A search finds exactly the rows that it ranges over and that are no less similar
/// than the floor: with the values that are bound, the condition of the statement holds
/// of those rows and of no others. They come nearest first, up to the number of rows
/// that are to be fetched.
pub proof fn lemma_search_finds_what_it_asks_for(
    p: SearchParams,
    st: Statement,
    number: spec_fn(u32) -> int,
    c: Context,
)
    requires
        i64::MIN <= rows_fetched(p@) <= i64::MAX,
        st@ == searching(p@),
        c.params == bound_values(st, number),
    ensures
        st.sql@ == "SELECT id, content, event_time, record_time, tags, "@ + sql::written(
            similarity(),
        ) + " AS similarity, source, metadata, memory_type, external_refs, confidence FROM memories WHERE "@
            + sql::written(search_condition()) + " ORDER BY "@ + sql::written(distance())
            + " LIMIT "@ + sql::written(Expr::Param(5)),
        sql::selects(search_condition(), c) <==> in_range(c.row, p, c.contains) && 100 - c.distance
            >= number(p.min_similarity),
        sql::value(similarity(), c) == Value::Number(100 - c.distance),
        sql::value(distance(), c) == Value::Number(c.distance),
        sql::value(Expr::Param(5), c) == Value::Number(
            if crate::floats::greater(p.recency_weight, 0) {
                p.k * 2
            } else {
                p.k as int
            },
        ),
{
    let binds = searching(p@).binds;
    assert(st@.binds == st.binds@.map_values(|b: Bind| b@));
    assert(st.binds@.len() == binds.len());
    assert forall|i: int| 0 <= i < binds.len() implies #[trigger] c.params[i] == bound_value(
        binds[i],
        number,
    ) by {
        assert(st@.binds[i] == st.binds@[i]@);
    }
    assert(c.params[0] == bound_value(binds[0], number));
    assert(c.params[1] == bound_value(binds[1], number));
    assert(c.params[3] == bound_value(binds[3], number));
    assert(c.params[4] == bound_value(binds[4], number));
    lemma_row_condition(7, 8, 3, 6, c);
    sql::lemma_words(c);
    reveal_with_fuel(sql::value, 7);
    sql::lemma_operators(Value::Vector, Value::Vector, c);
    sql::lemma_operators(Value::Number(100), Value::Number(c.distance), c);
    sql::lemma_operators(
        Value::Number(100 - c.distance),
        Value::Number(number(p.min_similarity)),
        c,
    );
    let near = Expr::Between(Box::new(similarity()), ">=", Box::new(Expr::Param(4)));
    sql::lemma_contains_if_given(9, "external_refs", c);
    let rows = row_condition(7, 8, 3, 6);
    let refs = sql::contains_if_given(9, "external_refs");
    sql::lemma_both_hold(rows, near, c);
    sql::lemma_both_hold(sql::both_hold(rows, near), refs, c);
    lemma_facet_condition(sql::both_hold(sql::both_hold(rows, near), refs), 10, c);
    assert(text::texts(p.tags@).len() == p.tags@.len());
    assert(text::texts(p.memory_types@).len() == p.memory_types@.len());
}

// ---- Derivations and runs -------------------------------------------------------------

/// One row of `derivations`: a link from a memory to what it was derived from.
#[derive(Debug, PartialEq, Eq)]
pub struct DerivationRow {
    pub id: MemoryId,
    pub derived_id: MemoryId,
    pub source_id: MemoryId,
    pub derivation_type: String,
    pub created_at: Timestamp,
}

/// The columns that a link is stored in.
pub open spec fn link_columns() -> Seq<Seq<char>> {
    seq!["derived_id"@, "source_id"@, "derivation_type"@]
}

/// The statement that links a memory to one that it was derived from.
pub open spec fn linking(
    derived_id: MemoryId,
    source_id: MemoryId,
    derivation_type: Seq<char>,
) -> StatementView {
    StatementView {
        sql: "INSERT INTO derivations ("@ + text::joined(link_columns(), ", "@)
            + ") VALUES ($1, $2, $3) RETURNING id, derived_id, source_id, derivation_type, created_at"@,
        binds: seq![
            BindView::Id(derived_id),
            BindView::Id(source_id),
            BindView::Text(derivation_type),
        ],
    }
}

/// The statement that links a memory to one that it was derived from.
pub fn derivation_statement(
    derived_id: MemoryId,
    source_id: MemoryId,
    derivation_type: &str,
) -> (r: Statement)
    ensures
        r@ == linking(derived_id, source_id, derivation_type@),
{
    let mut columns: Vec<String> = Vec::new();
    columns.push("derived_id".to_owned());
    columns.push("source_id".to_owned());
    columns.push("derivation_type".to_owned());
    assert(text::texts(columns@) =~= link_columns());
    let mut binds: Vec<Bind> = Vec::new();
    binds.push(Bind::Id(derived_id));
    binds.push(Bind::Id(source_id));
    binds.push(Bind::Text(derivation_type.to_owned()));
    let r = Statement {
        sql: concat3(
            "INSERT INTO derivations (",
            join(columns.as_slice(), ", ").as_str(),
            ") VALUES ($1, $2, $3) RETURNING id, derived_id, source_id, derivation_type, created_at",
        ),
        binds,
    };
    assert(r@.binds =~= linking(derived_id, source_id, derivation_type@).binds);
    r
}

/// A link stores the memory that was derived, the one that it was derived from, and how,
/// each in the column of that name.
pub proof fn lemma_link_names_its_ends(
    derived_id: MemoryId,
    source_id: MemoryId,
    derivation_type: Seq<char>,
    i: int,
)
    requires
        0 <= i < link_columns().len(),
    ensures
        linking(derived_id, source_id, derivation_type).binds.len() == link_columns().len() == 3,
        link_columns()[i] == "derived_id"@ ==> linking(
            derived_id,
            source_id,
            derivation_type,
        ).binds[i] == BindView::Id(derived_id),
        link_columns()[i] == "source_id"@ ==> linking(
            derived_id,
            source_id,
            derivation_type,
        ).binds[i] == BindView::Id(source_id),
        link_columns()[i] == "derivation_type"@ ==> linking(
            derived_id,
            source_id,
            derivation_type,
        ).binds[i] == BindView::Text(derivation_type),
        link_columns().contains("derived_id"@),
        link_columns().contains("source_id"@),
        link_columns().contains("derivation_type"@),
{
    reveal_strlit("derived_id");
    reveal_strlit("source_id");
    reveal_strlit("derivation_type");
    let c = link_columns();
    assert(c[0] == "derived_id"@ && c[1] == "source_id"@ && c[2] == "derivation_type"@);
    assert("derived_id"@.len() == 10);
    assert("source_id"@.len() == 9);
    assert("derivation_type"@.len() == 15);
}

/// Which row is marked: the one with the identifier of the second parameter.
pub open spec fn marked_row() -> Expr {
    sql::column_is("id", 2)
}

/// What is marked: by which memory, that of the first parameter, the row is superseded.
pub open spec fn mark() -> Assignment {
    Assignment { column: "superseded_by", to: Expr::Param(1) }
}

/// The statement that marks a memory as superseded by another.
pub open spec fn marking(old_id: MemoryId, new_id: MemoryId) -> StatementView {
    StatementView {
        sql: "UPDATE memories SET "@ + (mark().column@ + " = "@ + sql::written(mark().to))
            + " WHERE "@ + sql::written(marked_row()),
        binds: seq![BindView::Id(new_id), BindView::Id(old_id)],
    }
}

/// The statements, in order, by which one memory takes the place of another: the
/// old memory is marked, and the new one is linked to it as what it supersedes.
pub fn supersede_statements(old_id: MemoryId, new_id: MemoryId) -> (r: (Statement, Statement))
    ensures
        r.0@ == marking(old_id, new_id),
        r.1@ == linking(new_id, old_id, "supersedes"@),
{
    let mut binds: Vec<Bind> = Vec::new();
    binds.push(Bind::Id(new_id));
    binds.push(Bind::Id(old_id));
    let mut text = "UPDATE memories SET superseded_by = ".to_owned();
    assert(text@ =~= "UPDATE memories SET "@ + ("superseded_by"@ + " = "@)) by {
        reveal_strlit("UPDATE memories SET superseded_by = ");
        reveal_strlit("UPDATE memories SET ");
        reveal_strlit("superseded_by");
        reveal_strlit(" = ");
    }
    text.append(Expr::Param(1).write().as_str());
    text.append(" WHERE ");
    text.append(make_column_is("id", 2).write().as_str());
    assert(text@ =~= marking(old_id, new_id).sql);
    let mark = Statement { sql: text, binds };
    assert(mark@.binds =~= marking(old_id, new_id).binds);
    (mark, derivation_statement(new_id, old_id, "supersedes"))
}

/// To supersede marks the old memory and no other, and marks it as superseded by the
/// new one.
pub proof fn lemma_marking_marks_the_old_memory(
    old_id: MemoryId,
    new_id: MemoryId,
    st: Statement,
    number: spec_fn(u32) -> int,
    c: Context,
)
    requires
        st@ == marking(old_id, new_id),
        c.params == bound_values(st, number),
    ensures
        st.sql@ == "UPDATE memories SET "@ + (mark().column@ + " = "@ + sql::written(mark().to))
            + " WHERE "@ + sql::written(marked_row()),
        sql::selects(marked_row(), c) <==> c.row.id == old_id,
        sql::assigned(seq![mark()], "superseded_by"@, c) == Some(Value::Id(new_id)),
{
    assert(st@.binds == st.binds@.map_values(|b: Bind| b@));
    assert(st.binds@.len() == 2);
    assert(st@.binds[0] == st.binds@[0]@);
    assert(st@.binds[1] == st.binds@[1]@);
    assert(c.params[0] == Value::Id(new_id));
    assert(c.params[1] == Value::Id(old_id));
    sql::lemma_words(c);
    sql::lemma_column_is("id", 2, c);
    let sets = seq![mark()];
    assert(sets.last() == mark());
    reveal_with_fuel(sql::assigned, 2);
}

/// One row of `reflect_runs`.
#[derive(Debug, PartialEq, Eq)]
pub struct ReflectRunRow {
    pub id: MemoryId,
    pub profile: String,
    pub started_at: Timestamp,
    pub completed_at: Option<Timestamp>,
    pub rows_scanned: i32,
    pub summary: Option<Json>,
}

/// When a run, if any, was completed.
pub open spec fn completed_at(run: Option<ReflectRunRow>) -> Option<Timestamp> {
    match run {
        Some(r) => r.completed_at,
        None => None,
    }
}

/// Since when a survey looks at rows: since the last run was completed.
pub fn survey_since(last_run: &Option<ReflectRunRow>) -> (r: Option<Timestamp>)
    ensures
        r == completed_at(*last_run),
{
    match last_run {
        Some(run) => run.completed_at,
        None => None,
    }
}

/// When a run, if any, was started.
pub open spec fn started_at(run: Option<ReflectRunRow>) -> Option<Timestamp> {
    match run {
        Some(r) => Some(r.started_at),
        None => None,
    }
}

/// Since when a synthesis looks at rows: since the last run was started, so that
/// what was recorded while it ran is looked at now.
pub fn synthesis_since(last_run: &Option<ReflectRunRow>) -> (r: Option<Timestamp>)
    ensures
        r == started_at(*last_run),
{
    match last_run {
        Some(run) => Some(run.started_at),
        None => None,
    }
}

// ---- Hydration ----------------------------------------------------------------------

/// The position of an identifier in a list: the last that holds it, or
/// `usize::MAX` where none does.
pub open spec fn last_position(ids: Seq<MemoryId>, id: MemoryId) -> usize
    decreases ids.len(),
{
    if ids.len() == 0 {
        usize::MAX
    } else if ids.last() == id {
        (ids.len() - 1) as usize
    } else {
        last_position(ids.drop_last(), id)
    }
}

fn position_of(ids: &[MemoryId], id: MemoryId) -> (r: usize)
    ensures
        r == last_position(ids@, id),
{
    let mut n: usize = ids.len();
    assert(ids@.take(n as int) =~= ids@);
    while n > 0
        invariant
            n <= ids@.len(),
            last_position(ids@, id) == last_position(ids@.take(n as int), id),
        decreases n,
    {
        if ids[n - 1] == id {
            return n - 1;
        }
        assert(ids@.take(n as int).drop_last() =~= ids@.take(n - 1));
        n = n - 1;
    }
    usize::MAX
}

/// A position: lower positions come first.
#[derive(Clone, Copy, Debug, PartialEq, Eq, Structural)]
pub struct Position {
    pub at: usize,
}

impl Ranked for Position {
    open spec fn le(&self, other: &Self) -> bool {
        self.at <= other.at
    }

    proof fn lemma_le_total(&self, other: &Self) {
    }

    fn is_le(&self, other: &Self) -> (r: bool) {
        self.at <= other.at
    }
}

/// The position of each fetched row in the list that was asked for.
pub open spec fn positions_in(fetched: Seq<MemoryId>, ids: Seq<MemoryId>) -> Seq<Position> {
    fetched.map_values(|id: MemoryId| Position { at: last_position(ids, id) })
}

/// The order that puts fetched rows as they were asked for: `fetched` are the
/// identifiers of the rows, `ids` those that were asked for. Rows that were not
/// asked for come last.
pub fn hydration_order(fetched: &[MemoryId], ids: &[MemoryId]) -> (r: Vec<usize>)
    ensures
        crate::order::is_stable_order(positions_in(fetched@, ids@), r@),
        crate::order::consistent(positions_in(fetched@, ids@)),
{
    let mut keys: Vec<Position> = Vec::new();
    for i in 0..fetched.len()
        invariant
            keys@ == positions_in(fetched@.take(i as int), ids@),
    {
        keys.push(Position { at: position_of(ids, fetched[i]) });
        assert(keys@ =~= positions_in(fetched@.take(i + 1), ids@));
    }
    assert(fetched@.take(fetched@.len() as int) =~= fetched@);
    stable_order(keys.as_slice())
}

/// Rows that were fetched are put as they were asked for: every row stays, and of two
/// that were asked for, the one that was asked for first comes first; a row that was
/// not asked for comes behind all that were.
pub proof fn lemma_hydrated_as_asked_for(
    fetched: Seq<MemoryId>,
    ids: Seq<MemoryId>,
    order: Seq<usize>,
)
    requires
        ids.no_duplicates(),
        ids.len() < usize::MAX,
        crate::order::is_stable_order(positions_in(fetched, ids), order),
        crate::order::consistent(positions_in(fetched, ids)),
    ensures
        order.len() == fetched.len(),
        order.no_duplicates(),
        forall|i: int, j: int, a: int, b: int|
            0 <= i < j < order.len() && 0 <= a < ids.len() && 0 <= b < ids.len() && ids[a]
                == fetched[#[trigger] order[i] as int] && ids[b] == fetched[
                #[trigger] order[j] as int] ==> #[trigger] before_or_at(a, b),
        forall|i: int, j: int|
            0 <= i < j < order.len() && !ids.contains(fetched[#[trigger] order[i] as int])
                ==> !ids.contains(fetched[#[trigger] order[j] as int]),
{
    let keys = positions_in(fetched, ids);
    assert forall|i: int, j: int, a: int, b: int|
        0 <= i < j < order.len() && 0 <= a < ids.len() && 0 <= b < ids.len() && ids[a]
            == fetched[#[trigger] order[i] as int] && ids[b] == fetched[
            #[trigger] order[j] as int] implies #[trigger] before_or_at(a, b) by {
        assert(crate::order::in_place(keys, order[i], order[j]));
        lemma_position(ids, fetched[order[i] as int]);
        lemma_position(ids, fetched[order[j] as int]);
    }
    assert forall|i: int, j: int|
        0 <= i < j < order.len() && !ids.contains(fetched[#[trigger] order[i] as int]) implies
        !ids.contains(fetched[#[trigger] order[j] as int]) by {
        assert(crate::order::in_place(keys, order[i], order[j]));
        lemma_position(ids, fetched[order[i] as int]);
        lemma_position(ids, fetched[order[j] as int]);
    }
}

/// Whether a place is not behind another.
pub open spec fn before_or_at(a: int, b: int) -> bool {
    a <= b
}

proof fn lemma_position(ids: Seq<MemoryId>, id: MemoryId)
    requires
        ids.len() < usize::MAX,
    ensures
        ids.contains(id) ==> last_position(ids, id) < ids.len() && ids[last_position(
            ids,
            id,
        ) as int] == id,
        !ids.contains(id) ==> last_position(ids, id) == usize::MAX,
    decreases ids.len(),
{
    if ids.len() > 0 {
        let rest = ids.drop_last();
        lemma_position(rest, id);
        if ids.last() != id {
            if ids.contains(id) {
                let k = choose|k: int| 0 <= k < ids.len() && ids[k] == id;
                assert(rest[k] == id);
            }
            if rest.contains(id) {
                let k = choose|k: int| 0 <= k < rest.len() && rest[k] == id;
                assert(ids[k] == id);
            }
        } else {
            assert(ids[ids.len() - 1] == id);
        }
    }
}

} // verus!
