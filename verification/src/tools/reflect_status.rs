//! `reflect_status`: what there is to reflect on since the last time.

use vstd::prelude::*;

use crate::db::{self, MemoryRow, RowView};
use crate::error::{self, ChittaError, ErrorView};
use crate::facets::{self, Facets};
use crate::ids::MemoryId;
use crate::json::{self, Json, JsonView};
use crate::synthesis::disagree::{self, tags_disagree};
use crate::text::{self, is_text_before, str_eq, take_chars};
use crate::time::Timestamp;
use crate::tools::survey::{self, SurveyAction, SurveyCall, SurveyReport};
use crate::tools::validate;

verus! {

/// The name of the tool.
pub const TOOL: &'static str = "reflect_status";

/// The arguments of the tool.
#[derive(Debug, PartialEq, Eq)]
pub struct ReflectStatusArgs {
    /// Profile to reflect on.
    pub profile: String,
}

/// From when to when rows were recorded.
#[derive(Clone, Copy, Debug, PartialEq, Eq, Structural)]
pub struct DateRange {
    pub earliest: Timestamp,
    pub latest: Timestamp,
}

/// A row that is feedback that disagrees.
#[derive(Debug, PartialEq, Eq)]
pub struct DisagreeFlagged {
    pub memory_id: MemoryId,
    pub content_snippet: String,
    pub record_time: Timestamp,
}

/// What a [`DisagreeFlagged`] stands for.
pub struct FlaggedView {
    pub memory_id: MemoryId,
    pub content_snippet: Seq<char>,
    pub record_time: Timestamp,
}

impl View for DisagreeFlagged {
    type V = FlaggedView;

    open spec fn view(&self) -> FlaggedView {
        FlaggedView {
            memory_id: self.memory_id,
            content_snippet: self.content_snippet@,
            record_time: self.record_time,
        }
    }
}

/// The views of flagged rows.
pub open spec fn flagged_views(v: Seq<DisagreeFlagged>) -> Seq<FlaggedView> {
    v.map_values(|f: DisagreeFlagged| f@)
}

/// What the tool returns. The counts are in the order of the types.
#[derive(Debug, PartialEq, Eq)]
pub struct ReflectStatusOutput {
    pub profile: String,
    pub since: Option<Timestamp>,
    pub last_run_id: Option<MemoryId>,
    pub counts: Vec<(String, usize)>,
    pub total: usize,
    pub date_range: Option<DateRange>,
    pub distinct_domains: Vec<String>,
    pub distinct_skills: Vec<String>,
    pub distinct_projects: Vec<String>,
    pub distinct_situations: Vec<String>,
    pub disagree_flagged: Vec<DisagreeFlagged>,
    pub run_id: MemoryId,
}

/// Checks the tool's arguments.
pub fn check_args(args: &ReflectStatusArgs) -> (r: Result<(), ChittaError>)
    ensures
        error::outcome(r) == validate::profile_check(TOOL@, args.profile@),
{
    validate::profile(TOOL, args.profile.as_str())
}

// ---- Counts -----------------------------------------------------------------------------

/// How many rows have the given type.
pub open spec fn rows_of_type(rows: Seq<RowView>, memory_type: Seq<char>) -> nat
    decreases rows.len(),
{
    if rows.len() == 0 {
        0
    } else {
        rows_of_type(rows.drop_last(), memory_type) + if rows.last().memory_type == memory_type {
            1nat
        } else {
            0nat
        }
    }
}

/// The types of counts.
pub open spec fn count_types(counts: Seq<(String, usize)>) -> Seq<Seq<char>> {
    counts.map_values(|c: (String, usize)| c.0@)
}

/// Whether the counts say, for each type that occurs, how many rows have it: the
/// types are in lexicographic order, each once, and none that does not occur.
pub open spec fn are_counts(counts: Seq<(String, usize)>, rows: Seq<RowView>) -> bool {
    &&& facets::ascending(count_types(counts))
    &&& forall|i: int|
        0 <= i < counts.len() ==> (#[trigger] counts[i]).1 == rows_of_type(rows, counts[i].0@)
            && counts[i].1 > 0
    &&& forall|t: Seq<char>|
        #[trigger] rows_of_type(rows, t) > 0 ==> count_types(counts).contains(t)
}

proof fn lemma_rows_of_type_bound(rows: Seq<RowView>, t: Seq<char>)
    ensures
        rows_of_type(rows, t) <= rows.len(),
    decreases rows.len(),
{
    if rows.len() > 0 {
        lemma_rows_of_type_bound(rows.drop_last(), t);
    }
}

/// Counts one more row.
pub(crate) fn count_type(
    counts: &mut Vec<(String, usize)>,
    memory_type: &str,
    Ghost(rows): Ghost<Seq<RowView>>,
    Ghost(row): Ghost<RowView>,
)
    requires
        are_counts(old(counts)@, rows),
        row.memory_type == memory_type@,
        rows.len() < usize::MAX,
    ensures
        are_counts(final(counts)@, rows.push(row)),
{
    let ghost before = counts@;
    let ghost types = count_types(before);
    let ghost more = rows.push(row);
    assert(more.drop_last() =~= rows);
    let mut p: usize = 0;
    while p < counts.len() && is_text_before(counts[p].0.as_str(), memory_type)
        invariant
            counts@ == before,
            types == count_types(before),
            p <= counts@.len(),
            forall|i: int| 0 <= i < p ==> text::text_before(#[trigger] types[i], memory_type@),
        decreases counts@.len() - p,
    {
        assert(types[p as int] == before[p as int].0@);
        p = p + 1;
    }
    if p < counts.len() && str_eq(counts[p].0.as_str(), memory_type) {
        let t = counts[p].0.clone();
        let n: usize = counts[p].1;
        proof {
            lemma_rows_of_type_bound(rows, memory_type@);
        }
        counts.set(p, (t, n + 1));
        proof {
            let after = counts@;
            assert(count_types(after) =~= types);
            assert forall|i: int| 0 <= i < after.len() implies (#[trigger] after[i]).1
                == rows_of_type(more, after[i].0@) && after[i].1 > 0 by {
                if i != p {
                    assert(after[i] == before[i]);
                    assert(types[i] == before[i].0@);
                    assert(types[p as int] == before[p as int].0@);
                    if i < p {
                        assert(text::text_before(types[i], types[p as int]));
                    } else {
                        assert(text::text_before(types[p as int], types[i]));
                    }
                    text::lemma_text_before_irreflexive(types[i]);
                }
            }
            assert forall|t: Seq<char>| #[trigger] rows_of_type(more, t) > 0 implies count_types(
                after,
            ).contains(t) by {
                if t == memory_type@ {
                    assert(count_types(after)[p as int] == t);
                } else {
                    assert(rows_of_type(rows, t) > 0);
                }
            }
        }
    } else {
        proof {
            assert(rows_of_type(rows, memory_type@) == 0) by {
                if rows_of_type(rows, memory_type@) > 0 {
                    assert(types.contains(memory_type@));
                    let k = choose|k: int| 0 <= k < types.len() && types[k] == memory_type@;
                    if k < p {
                        text::lemma_text_before_irreflexive(memory_type@);
                    } else if k > p {
                        assert(types[p as int] == before[p as int].0@);
                        assert(text::text_before(types[p as int], types[k]));
                    }
                }
            }
        }
        counts.insert(p, (memory_type.to_owned(), 1));
        proof {
            let after = counts@;
            let after_types = count_types(after);
            assert(after_types =~= types.insert(p as int, memory_type@));
            assert forall|i: int, j: int| 0 <= i < j < after_types.len() implies text::text_before(
                #[trigger] after_types[i],
                #[trigger] after_types[j],
            ) by {
                if i == p {
                    assert(after_types[j] == types[j - 1]);
                    assert(types[p as int] == before[p as int].0@);
                    text::lemma_text_before_total(types[p as int], memory_type@);
                    if p < j - 1 {
                        assert(text::text_before(types[p as int], types[j - 1]));
                        text::lemma_text_before_transitive(
                            memory_type@,
                            types[p as int],
                            types[j - 1],
                        );
                    }
                } else if j == p {
                    assert(after_types[i] == types[i]);
                } else {
                    let a = if i < p { i } else { i - 1 };
                    let b = if j < p { j } else { j - 1 };
                    assert(after_types[i] == types[a]);
                    assert(after_types[j] == types[b]);
                }
            }
            assert forall|i: int| 0 <= i < after.len() implies (#[trigger] after[i]).1
                == rows_of_type(more, after[i].0@) && after[i].1 > 0 by {
                if i != p {
                    let k = if i < p { i } else { i - 1 };
                    assert(after[i] == before[k]);
                    assert(types[k] == before[k].0@);
                    assert(before[k].1 > 0);
                }
            }
            assert forall|t: Seq<char>| #[trigger] rows_of_type(more, t) > 0 implies count_types(
                after,
            ).contains(t) by {
                if t == memory_type@ {
                    assert(after_types[p as int] == t);
                } else {
                    assert(rows_of_type(rows, t) > 0);
                    assert(types.contains(t));
                    let k = choose|k: int| 0 <= k < types.len() && types[k] == t;
                    let m = if k < p { k } else { k + 1 };
                    assert(after_types[m] == t);
                }
            }
        }
    }
}

/// The sum of the counts.
pub open spec fn counted(counts: Seq<(String, usize)>) -> int
    decreases counts.len(),
{
    if counts.len() == 0 {
        0
    } else {
        counted(counts.drop_last()) + counts.last().1
    }
}

/// How many rows have one of the types, where no type is listed twice.
spec fn rows_of_types(rows: Seq<RowView>, types: Seq<Seq<char>>) -> int
    decreases types.len(),
{
    if types.len() == 0 {
        0
    } else {
        rows_of_types(rows, types.drop_last()) + rows_of_type(rows, types.last())
    }
}

proof fn lemma_one_row_more(rows: Seq<RowView>, types: Seq<Seq<char>>)
    requires
        rows.len() > 0,
        types.no_duplicates(),
    ensures
        rows_of_types(rows, types) == rows_of_types(rows.drop_last(), types) + if types.contains(
            rows.last().memory_type,
        ) {
            1int
        } else {
            0int
        },
    decreases types.len(),
{
    if types.len() > 0 {
        let rest = types.drop_last();
        let t = rows.last().memory_type;
        lemma_one_row_more(rows, rest);
        assert(types =~= rest.push(types.last()));
        vstd::seq_lib::lemma_seq_contains_after_push(rest, types.last(), t);
        if types.last() == t && rest.contains(t) {
            let k = choose|k: int| 0 <= k < rest.len() && rest[k] == t;
            assert(types[k] == types[types.len() - 1]);
        }
    }
}

proof fn lemma_no_rows_of_types(types: Seq<Seq<char>>)
    ensures
        rows_of_types(Seq::empty(), types) == 0,
    decreases types.len(),
{
    if types.len() > 0 {
        lemma_no_rows_of_types(types.drop_last());
    }
}

proof fn lemma_rows_by_type(rows: Seq<RowView>, types: Seq<Seq<char>>)
    requires
        types.no_duplicates(),
        forall|t: Seq<char>| #[trigger] rows_of_type(rows, t) > 0 ==> types.contains(t),
    ensures
        rows_of_types(rows, types) == rows.len(),
    decreases rows.len(),
{
    if rows.len() == 0 {
        assert(rows =~= Seq::empty());
        lemma_no_rows_of_types(types);
    } else {
        assert forall|t: Seq<char>| #[trigger]
            rows_of_type(rows.drop_last(), t) > 0 implies types.contains(t) by {
            assert(rows_of_type(rows, t) > 0);
        }
        assert(rows_of_type(rows, rows.last().memory_type) > 0);
        lemma_rows_by_type(rows.drop_last(), types);
        lemma_one_row_more(rows, types);
    }
}

proof fn lemma_counted(counts: Seq<(String, usize)>, rows: Seq<RowView>)
    requires
        forall|i: int|
            0 <= i < counts.len() ==> (#[trigger] counts[i]).1 == rows_of_type(rows, counts[i].0@),
    ensures
        counted(counts) == rows_of_types(rows, count_types(counts)),
    decreases counts.len(),
{
    if counts.len() > 0 {
        lemma_counted(counts.drop_last(), rows);
        assert(count_types(counts).drop_last() =~= count_types(counts.drop_last()));
        assert(counts[counts.len() - 1].1 == rows_of_type(rows, counts.last().0@));
    }
}

/// The counts add up: every row is counted once, under its type.
pub proof fn lemma_counts_add_up(counts: Seq<(String, usize)>, rows: Seq<RowView>)
    requires
        are_counts(counts, rows),
    ensures
        counted(counts) == rows.len(),
{
    let types = count_types(counts);
    assert(types.no_duplicates()) by {
        assert forall|i: int, j: int|
            0 <= i < types.len() && 0 <= j < types.len() && i != j implies types[i] != types[j] by {
            if i < j {
                assert(text::text_before(types[i], types[j]));
            } else {
                assert(text::text_before(types[j], types[i]));
            }
            text::lemma_text_before_irreflexive(types[i]);
        }
    }
    lemma_counted(counts, rows);
    lemma_rows_by_type(rows, types);
}

// ---- Range and flags ------------------------------------------------------------------------

/// Whether `range` is from the earliest to the latest time at which one of the
/// rows was recorded; there is none where there are no rows.
pub open spec fn is_range(range: Option<DateRange>, rows: Seq<RowView>) -> bool {
    match range {
        None => rows.len() == 0,
        Some(r) => {
            &&& exists|i: int| 0 <= i < rows.len() && (#[trigger] rows[i]).record_time == r.earliest
            &&& exists|i: int| 0 <= i < rows.len() && (#[trigger] rows[i]).record_time == r.latest
            &&& forall|i: int|
                0 <= i < rows.len() ==> !(#[trigger] rows[i]).record_time.before(r.earliest)
                    && !r.latest.before(rows[i].record_time)
        },
    }
}

/// The most characters that a snippet shows of a row.
pub const SNIPPET_CHARS: usize = 120;

/// The rows that are feedback that disagrees, in order.
pub open spec fn flagged_rows(rows: Seq<RowView>) -> Seq<FlaggedView>
    decreases rows.len(),
{
    if rows.len() == 0 {
        Seq::empty()
    } else {
        let before = flagged_rows(rows.drop_last());
        let last = rows.last();
        if disagree::is_disagreement(last.tags) {
            before.push(
                FlaggedView {
                    memory_id: last.id,
                    content_snippet: text::prefix_of_len(last.content, SNIPPET_CHARS as nat),
                    record_time: last.record_time,
                },
            )
        } else {
            before
        }
    }
}

fn widen(
    range: Option<DateRange>,
    t: Timestamp,
    Ghost(rows): Ghost<Seq<RowView>>,
    Ghost(row): Ghost<RowView>,
) -> (r: Option<DateRange>)
    requires
        is_range(range, rows),
        row.record_time == t,
    ensures
        is_range(r, rows.push(row)),
{
    let ghost more = rows.push(row);
    let r = match range {
        None => DateRange { earliest: t, latest: t },
        Some(old) => DateRange {
            earliest: if t.is_before(&old.earliest) {
                t
            } else {
                old.earliest
            },
            latest: if old.latest.is_before(&t) {
                t
            } else {
                old.latest
            },
        },
    };
    proof {
        assert(more[rows.len() as int] == row);
        match range {
            Some(old) => {
                let a = choose|i: int|
                    0 <= i < rows.len() && (#[trigger] rows[i]).record_time == old.earliest;
                let b = choose|i: int|
                    0 <= i < rows.len() && (#[trigger] rows[i]).record_time == old.latest;
                assert(more[a] == rows[a]);
                assert(more[b] == rows[b]);
            },
            None => {},
        }
        assert forall|i: int| 0 <= i < more.len() implies !(#[trigger] more[i]).record_time.before(
            r.earliest,
        ) && !r.latest.before(more[i].record_time) by {
            if i < rows.len() {
                assert(more[i] == rows[i]);
            }
        }
    }
    Some(r)
}

// ---- The survey -------------------------------------------------------------------------------

/// What there is to reflect on.
#[derive(Debug, PartialEq, Eq)]
pub struct Survey {
    pub counts: Vec<(String, usize)>,
    pub total: usize,
    pub date_range: Option<DateRange>,
    pub facets: Facets,
    pub disagree_flagged: Vec<DisagreeFlagged>,
}

impl Survey {
    /// Whether the survey is that of the given rows.
    pub open spec fn is_of(self, rows: Seq<MemoryRow>) -> bool {
        &&& are_counts(self.counts@, db::row_views(rows))
        &&& self.total == rows.len()
        &&& is_range(self.date_range, db::row_views(rows))
        &&& facets::is_union(self.facets@.domains, facets::all_domains(rows))
        &&& facets::is_union(self.facets@.skills, facets::all_skills(rows))
        &&& facets::is_union(self.facets@.projects, facets::all_projects(rows))
        &&& facets::is_union(self.facets@.situations, facets::all_situations(rows))
        &&& flagged_views(self.disagree_flagged@) == flagged_rows(db::row_views(rows))
    }
}

/// Surveys the rows: how many there are of each type, from when to when they were
/// recorded, what they apply to, and which of them disagree with a memory.
pub fn survey(rows: &[MemoryRow]) -> (r: Survey)
    ensures
        r.is_of(rows@),
{
    let ghost views = db::row_views(rows@);
    let mut counts: Vec<(String, usize)> = Vec::new();
    let mut date_range: Option<DateRange> = None;
    let mut flagged: Vec<DisagreeFlagged> = Vec::new();
    assert(flagged_views(flagged@) =~= Seq::<FlaggedView>::empty());
    assert(are_counts(counts@, views.take(0)));
    for i in 0..rows.len()
        invariant
            views == db::row_views(rows@),
            are_counts(counts@, views.take(i as int)),
            is_range(date_range, views.take(i as int)),
            flagged_views(flagged@) == flagged_rows(views.take(i as int)),
    {
        let row = &rows[i];
        let ghost done = views.take(i as int);
        let ghost next = views.take(i + 1);
        assert(next =~= done.push(row@));
        assert(next.drop_last() =~= done);
        count_type(&mut counts, row.memory_type.as_str(), Ghost(done), Ghost(row@));
        date_range = widen(date_range, row.record_time, Ghost(done), Ghost(row@));
        if tags_disagree(row.tags.as_slice()) {
            let ghost before = flagged@;
            flagged.push(
                DisagreeFlagged {
                    memory_id: row.id,
                    content_snippet: take_chars(row.content.as_str(), SNIPPET_CHARS),
                    record_time: row.record_time,
                },
            );
            assert(flagged_views(flagged@) =~= flagged_views(before).push(
                flagged@[before.len() as int]@,
            ));
        }
    }
    assert(views.take(views.len() as int) =~= views);
    Survey {
        counts,
        total: rows.len(),
        date_range,
        facets: Facets::distinct_union(rows),
        disagree_flagged: flagged,
    }
}

/// The counts of a survey add up to its total.
pub proof fn lemma_survey_adds_up(s: Survey, rows: Seq<MemoryRow>)
    requires
        s.is_of(rows),
    ensures
        counted(s.counts@) == s.total,
{
    lemma_counts_add_up(s.counts@, db::row_views(rows));
}

/// The counts as the members of a JSON object.
pub open spec fn count_members(counts: Seq<(String, usize)>) -> Seq<(Seq<char>, JsonView)> {
    counts.map_values(|c: (String, usize)| (c.0@, json::int_value(c.1 as int)))
}

/// The summary of a survey that is kept with the run.
pub open spec fn summary_of(s: Survey) -> JsonView {
    JsonView::Object(
        seq![
            ("counts"@, JsonView::Object(count_members(s.counts@))),
            ("total"@, json::int_value(s.total as int)),
            ("disagree_flagged_count"@, json::int_value(s.disagree_flagged@.len() as int)),
        ],
    )
}

/// The summary of a survey that is kept with the run.
pub fn summary_json(s: &Survey) -> (r: Json)
    ensures
        r@ == summary_of(*s),
{
    let mut counts: Vec<(String, Json)> = Vec::new();
    for i in 0..s.counts.len()
        invariant
            counts@.len() == i,
            forall|j: int|
                0 <= j < i ==> (#[trigger] counts@[j]).0@ == s.counts@[j].0@ && counts@[j].1@
                    == json::int_value(s.counts@[j].1 as int),
    {
        counts.push((s.counts[i].0.clone(), json::unsigned(s.counts[i].1 as u64)));
    }
    let counts_json = Json::Object(counts);
    assert(counts_json@->Object_0 =~= count_members(s.counts@));
    let mut members: Vec<(String, Json)> = Vec::new();
    members.push(("counts".to_owned(), counts_json));
    members.push(("total".to_owned(), json::unsigned(s.total as u64)));
    members.push(
        (
            "disagree_flagged_count".to_owned(),
            json::unsigned(s.disagree_flagged.len() as u64),
        ),
    );
    let r = Json::Object(members);
    assert(r@->Object_0 =~= summary_of(*s)->Object_0);
    r
}

/// Begins the tool, and says what to do first; an error where its arguments break
/// a rule.
pub fn begin(args: ReflectStatusArgs) -> (r: Result<(SurveyCall, SurveyAction), ChittaError>)
    ensures
        match r {
            Ok((call, action)) => {
                &&& validate::profile_check(TOOL@, args.profile@) is Ok
                &&& survey::begins(args.profile@, Some("status"), call@, action)
            },
            Err(e) => validate::profile_check(TOOL@, args.profile@) == Err::<(), ErrorView>(e@),
        },
{
    match check_args(&args) {
        Ok(()) => Ok(SurveyCall::begin(args.profile, Some("status"))),
        Err(e) => Err(e),
    }
}

/// What the tool returns: the survey, since when, after which run, and the run
/// that it was recorded as.
pub fn make_output(report: SurveyReport) -> (r: ReflectStatusOutput)
    ensures
        r.profile == report.profile,
        r.since == report.since,
        r.last_run_id == report.last_run_id,
        r.counts == report.survey.counts,
        r.total == report.survey.total,
        r.date_range == report.survey.date_range,
        r.distinct_domains == report.survey.facets.domains,
        r.distinct_skills == report.survey.facets.skills,
        r.distinct_projects == report.survey.facets.projects,
        r.distinct_situations == report.survey.facets.situations,
        r.disagree_flagged == report.survey.disagree_flagged,
        r.run_id == report.run_id,
{
    let s = report.survey;
    ReflectStatusOutput {
        profile: report.profile,
        since: report.since,
        last_run_id: report.last_run_id,
        counts: s.counts,
        total: s.total,
        date_range: s.date_range,
        distinct_domains: s.facets.domains,
        distinct_skills: s.facets.skills,
        distinct_projects: s.facets.projects,
        distinct_situations: s.facets.situations,
        disagree_flagged: s.disagree_flagged,
        run_id: report.run_id,
    }
}

/// Rows are counted one by one: a row counts for its own type and for no other.
pub proof fn lemma_rows_count_for_their_type(
    a: Seq<MemoryRow>,
    b: Seq<MemoryRow>,
    row: MemoryRow,
    memory_type: Seq<char>,
)
    ensures
        rows_of_type(db::row_views(a + b), memory_type) == rows_of_type(
            db::row_views(a),
            memory_type,
        ) + rows_of_type(db::row_views(b), memory_type),
        rows_of_type(db::row_views(seq![row]), memory_type) == if row.memory_type@ == memory_type {
            1int
        } else {
            0
        },
    decreases b.len(),
{
    let one = db::row_views(seq![row]);
    assert(one.len() == 1 && one.last() == row@);
    assert(one.drop_last() =~= Seq::<RowView>::empty());
    reveal_with_fuel(rows_of_type, 2);
    let all = db::row_views(a + b);
    if b.len() == 0 {
        assert(a + b =~= a);
    } else {
        lemma_rows_count_for_their_type(a, b.drop_last(), row, memory_type);
        assert(all.drop_last() =~= db::row_views(a + b.drop_last()));
        assert(all.last() == b.last()@);
        assert(db::row_views(b).drop_last() =~= db::row_views(b.drop_last()));
        assert(db::row_views(b).last() == b.last()@);
    }
}

/// A range spans the rows: none was recorded before it or after it, and at either end of
/// it one was. There is a range where, and only where, there are rows.
pub proof fn lemma_range_spans_the_rows(range: Option<DateRange>, rows: Seq<MemoryRow>, i: int)
    requires
        is_range(range, db::row_views(rows)),
        0 <= i < rows.len(),
        forall|k: int| 0 <= k < rows.len() ==> (#[trigger] rows[k]).record_time.nanos < 1_000_000_000,
    ensures
        range is Some,
        crate::time::instant(range->0.earliest) <= crate::time::instant(rows[i].record_time)
            <= crate::time::instant(range->0.latest),
        exists|k: int| 0 <= k < rows.len() && (#[trigger] rows[k]).record_time == range->0.earliest,
        exists|k: int| 0 <= k < rows.len() && (#[trigger] rows[k]).record_time == range->0.latest,
{
    let views = db::row_views(rows);
    assert(views[i] == rows[i]@);
    let r = range->0;
    let a = choose|k: int| 0 <= k < views.len() && (#[trigger] views[k]).record_time == r.earliest;
    let b = choose|k: int| 0 <= k < views.len() && (#[trigger] views[k]).record_time == r.latest;
    assert(rows[a].record_time == r.earliest);
    assert(rows[b].record_time == r.latest);
    crate::time::lemma_times_are_instants(rows[i].record_time, r.earliest, 0);
    crate::time::lemma_times_are_instants(r.latest, rows[i].record_time, 0);
}

/// Rows are flagged one by one: a row is where it has the tags of feedback that
/// disagrees, and is then named by its own identifier and time, and shown by the first
/// hundred and twenty characters of its content, or by all of it.
pub proof fn lemma_rows_are_flagged_one_by_one(
    a: Seq<MemoryRow>,
    b: Seq<MemoryRow>,
    row: MemoryRow,
)
    ensures
        flagged_rows(db::row_views(a + b)) == flagged_rows(db::row_views(a)) + flagged_rows(
            db::row_views(b),
        ),
        text::texts(row.tags@).contains("feedback"@) && text::texts(row.tags@).contains(
            "disagree"@,
        ) ==> {
            let f = flagged_rows(db::row_views(seq![row]));
            &&& f.len() == 1
            &&& f[0].memory_id == row.id
            &&& f[0].record_time == row.record_time
            &&& f[0].content_snippet == row.content@.take(
                if row.content@.len() <= 120 {
                    row.content@.len() as int
                } else {
                    120
                },
            )
        },
        !(text::texts(row.tags@).contains("feedback"@) && text::texts(row.tags@).contains(
            "disagree"@,
        )) ==> flagged_rows(db::row_views(seq![row])).len() == 0,
    decreases b.len(),
{
    let one = db::row_views(seq![row]);
    assert(one.len() == 1 && one.last() == row@);
    assert(one.drop_last() =~= Seq::<RowView>::empty());
    reveal_with_fuel(flagged_rows, 2);
    if row.content@.len() <= 120 {
        assert(row.content@.take(row.content@.len() as int) =~= row.content@);
    }
    let all = db::row_views(a + b);
    if b.len() == 0 {
        assert(a + b =~= a);
        assert(flagged_rows(all) =~= flagged_rows(db::row_views(a)) + flagged_rows(
            db::row_views(b),
        ));
    } else {
        lemma_rows_are_flagged_one_by_one(a, b.drop_last(), row);
        assert(all.drop_last() =~= db::row_views(a + b.drop_last()));
        assert(all.last() == b.last()@);
        assert(db::row_views(b).drop_last() =~= db::row_views(b.drop_last()));
        assert(db::row_views(b).last() == b.last()@);
        assert(flagged_rows(all) =~= flagged_rows(db::row_views(a)) + flagged_rows(
            db::row_views(b),
        ));
    }
}

/// The summary says the total, how many rows disagree, and, under each type, how many rows
/// have it.
pub proof fn lemma_summary_says_the_counts(s: Survey, i: int)
    ensures
        summary_of(s).member("total"@) == Some(json::int_value(s.total as int)),
        summary_of(s).member("disagree_flagged_count"@) == Some(
            json::int_value(s.disagree_flagged@.len() as int),
        ),
        summary_of(s).member("counts"@) matches Some(JsonView::Object(counts)) && counts.len()
            == s.counts@.len() && (0 <= i < counts.len() ==> counts[i].0 == s.counts@[i].0@
            && counts[i].1 == json::int_value(s.counts@[i].1 as int)),
{
    reveal_strlit("counts");
    reveal_strlit("total");
    reveal_strlit("disagree_flagged_count");
    assert("counts"@.len() == 6);
    assert("total"@.len() == 5);
    assert("disagree_flagged_count"@.len() == 22);
    reveal_with_fuel(json::entry_from, 4);
}

} // verus!
