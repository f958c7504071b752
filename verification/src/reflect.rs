//! The reflection pipeline: what is done, in which order, and what is recorded.

use vstd::prelude::*;
use vstd::string::*;

use crate::db::{self, synthesis_since, ReflectRunRow};
use crate::json::{self, Json, JsonView};
use crate::synthesis::run::{empty_result, SynthesisResult};
use crate::synthesis::ExtractionStats;
use crate::text::{self, concat3, concat4, decimal_of};
use crate::time::Timestamp;

verus! {

/// The name of the file that keeps what was extracted, in case the rest fails.
pub open spec fn checkpoint_file(profile: Seq<char>) -> Seq<char> {
    "reflect-checkpoint-"@ + profile + ".json"@
}

/// The name of the file that keeps what was extracted, in case the rest fails.
pub fn checkpoint_name(profile: &str) -> (r: String)
    ensures
        r@ == checkpoint_file(profile@),
{
    concat3("reflect-checkpoint-", profile, ".json")
}

/// The summary of a run.
pub open spec fn run_summary(result: SynthesisResult) -> JsonView {
    JsonView::Object(
        seq![
            ("clusters_formed"@, json::int_value(result.clusters_formed as int)),
            ("clusters_emitted"@, json::int_value(result.clusters_emitted as int)),
            ("supersessions"@, json::int_value(result.supersessions as int)),
            ("rows_scanned"@, json::int_value(result.rows_scanned as int)),
            ("rows_skipped"@, json::int_value(result.rows_skipped as int)),
            ("extraction_errors"@, json::int_value(result.extraction_errors as int)),
        ],
    )
}

/// The summary of a run.
pub fn summary_json(result: &SynthesisResult) -> (r: Json)
    ensures
        r@ == run_summary(*result),
{
    let mut members: Vec<(String, Json)> = Vec::new();
    members.push(("clusters_formed".to_owned(), json::unsigned(result.clusters_formed as u64)));
    members.push(("clusters_emitted".to_owned(), json::unsigned(result.clusters_emitted as u64)));
    members.push(("supersessions".to_owned(), json::unsigned(result.supersessions as u64)));
    members.push(("rows_scanned".to_owned(), json::unsigned(result.rows_scanned as u64)));
    members.push(("rows_skipped".to_owned(), json::unsigned(result.rows_skipped as u64)));
    members.push(
        ("extraction_errors".to_owned(), json::unsigned(result.extraction_errors as u64)),
    );
    let r = Json::Object(members);
    assert(r@->Object_0 =~= run_summary(*result)->Object_0);
    r
}

/// What is said where there is nothing to work on.
pub fn nothing_line(profile: &str) -> (r: String)
    ensures
        r@ == "reflect: nothing to synthesize for profile '"@ + profile@ + "'"@,
{
    concat3("reflect: nothing to synthesize for profile '", profile, "'")
}

/// What is said before a run: how many rows there are, and since when.
pub fn start_line(rows: usize, since: Option<&str>) -> (r: String)
    ensures
        r@ == "reflect: "@ + text::decimal(rows as nat) + " raw rows since "@ + match since {
            Some(s) => s@,
            None => "(all time)"@,
        },
{
    let since = match since {
        Some(s) => s,
        None => "(all time)",
    };
    concat4("reflect: ", decimal_of(rows as u64).as_str(), " raw rows since ", since)
}

/// What is said of the result of a run.
pub open spec fn result_text(result: SynthesisResult) -> Seq<char> {
    "synthesis: clusters_formed="@ + text::decimal(result.clusters_formed as nat)
        + ", clusters_emitted="@ + text::decimal(result.clusters_emitted as nat)
        + ", supersessions="@ + text::decimal(result.supersessions as nat)
}

/// What is said of the result of a run.
pub fn result_line(result: &SynthesisResult) -> (r: String)
    ensures
        r@ == result_text(*result),
{
    let mut r = "synthesis: clusters_formed=".to_owned();
    r.append(decimal_of(result.clusters_formed as u64).as_str());
    r.append(", clusters_emitted=");
    r.append(decimal_of(result.clusters_emitted as u64).as_str());
    r.append(", supersessions=");
    r.append(decimal_of(result.supersessions as u64).as_str());
    r
}

/// What is recorded of a run: the next one looks at what came after the
/// watermark.
#[derive(Debug, PartialEq, Eq)]
pub struct RunRecord {
    pub profile: String,
    pub rows: usize,
    pub summary: Json,
    pub watermark: Timestamp,
    pub kind: &'static str,
}

/// Where the pipeline stands.
#[derive(Clone, Copy, Debug, PartialEq, Eq, Structural)]
pub enum Phase {
    /// It waits for the last run.
    Finding,
    /// It waits for the rows since the last run.
    Fetching,
    /// It waits for what an earlier run extracted.
    Resuming,
    /// It waits for what is extracted.
    Extracting,
    /// It waits for what is synthesised.
    Synthesising,
    /// It waits for the run to be recorded.
    Recording,
    /// It is done.
    Done,
}

/// What happened.
#[derive(Debug, PartialEq, Eq)]
pub enum ReflectEvent {
    /// The last run of a synthesis, if any, was looked up.
    LastRun(Option<ReflectRunRow>),
    /// So many rows were fetched.
    Fetched(usize),
    /// The checkpoint was read.
    CheckpointRead(ExtractionStats),
    /// There is no checkpoint, or it cannot be read.
    NoCheckpoint,
    /// Claims were extracted.
    Extracted(ExtractionStats),
    /// The clusters were written down.
    Synthesised(SynthesisResult),
    /// The run was recorded.
    Recorded,
}

/// What to do next.
#[derive(Debug, PartialEq, Eq)]
pub enum ReflectAction {
    /// Look up the last run of the given kind on the profile.
    FindLastRun(String, &'static str),
    /// Fetch the raw rows of the profile since the given time.
    Fetch(String, Option<Timestamp>),
    /// Read the checkpoint with the given name.
    ReadCheckpoint(String),
    /// Extract claims from the rows, and keep them under the given name.
    Extract(String),
    /// Synthesise what was extracted.
    Synthesise(ExtractionStats),
    /// Remove the checkpoint with the given name, and record the run.
    Record(String, RunRecord),
    /// Return the result.
    Finish(SynthesisResult),
}

/// A reflection under way.
#[derive(Debug, PartialEq, Eq)]
pub struct ReflectPipeline {
    profile: String,
    watermark: Timestamp,
    rows: usize,
    result: SynthesisResult,
    phase: Phase,
}

/// What a [`ReflectPipeline`] stands for.
pub struct PipelineView {
    pub profile: Seq<char>,
    pub watermark: Timestamp,
    pub rows: usize,
    pub result: SynthesisResult,
    pub phase: Phase,
}

impl View for ReflectPipeline {
    type V = PipelineView;

    closed spec fn view(&self) -> PipelineView {
        PipelineView {
            profile: self.profile@,
            watermark: self.watermark,
            rows: self.rows,
            result: self.result,
            phase: self.phase,
        }
    }
}

/// The result of a run that had nothing to work on.
pub open spec fn nothing() -> SynthesisResult {
    SynthesisResult {
        clusters_formed: 0,
        clusters_emitted: 0,
        supersessions: 0,
        rows_scanned: 0,
        rows_skipped: 0,
        extraction_errors: 0,
    }
}

/// The pipeline before anything happened.
pub open spec fn started(profile: Seq<char>, watermark: Timestamp) -> PipelineView {
    PipelineView { profile, watermark, rows: 0, result: nothing(), phase: Phase::Finding }
}

/// Whether the record is that of the run of the given pipeline.
pub open spec fn records(record: RunRecord, p: PipelineView, result: SynthesisResult) -> bool {
    &&& record.profile@ == p.profile
    &&& record.rows == p.rows
    &&& record.summary@ == run_summary(result)
    &&& record.watermark == p.watermark
    &&& record.kind@ == "synthesis"@
}

/// Whether the pipeline, on the event, goes on as it should: to the state
/// `after`, with the given action. An event that does not belong to the phase
/// changes nothing and calls for nothing.
pub open spec fn goes_on(
    before: PipelineView,
    event: ReflectEvent,
    after: PipelineView,
    action: Option<ReflectAction>,
) -> bool {
    let file = checkpoint_file(before.profile);
    match (before.phase, event) {
        (Phase::Finding, ReflectEvent::LastRun(run)) => {
            &&& after == (PipelineView { phase: Phase::Fetching, ..before })
            &&& action matches Some(ReflectAction::Fetch(profile, since)) && profile@
                == before.profile && since == db::started_at(run)
        },
        (Phase::Fetching, ReflectEvent::Fetched(n)) => if n == 0 {
            &&& after == (PipelineView { phase: Phase::Done, ..before })
            &&& action == Some(ReflectAction::Finish(before.result))
        } else {
            &&& after == (PipelineView { rows: n, phase: Phase::Resuming, ..before })
            &&& action matches Some(ReflectAction::ReadCheckpoint(f)) && f@ == file
        },
        (Phase::Resuming, ReflectEvent::CheckpointRead(stats)) => {
            &&& after == (PipelineView { phase: Phase::Synthesising, ..before })
            &&& action == Some(ReflectAction::Synthesise(stats))
        },
        (Phase::Resuming, ReflectEvent::NoCheckpoint) => {
            &&& after == (PipelineView { phase: Phase::Extracting, ..before })
            &&& action matches Some(ReflectAction::Extract(f)) && f@ == file
        },
        (Phase::Extracting, ReflectEvent::Extracted(stats)) => {
            &&& after == (PipelineView { phase: Phase::Synthesising, ..before })
            &&& action == Some(ReflectAction::Synthesise(stats))
        },
        (Phase::Synthesising, ReflectEvent::Synthesised(result)) => {
            &&& after == (PipelineView { result, phase: Phase::Recording, ..before })
            &&& action matches Some(ReflectAction::Record(f, record)) && f@ == file && records(
                record,
                before,
                result,
            )
        },
        (Phase::Recording, ReflectEvent::Recorded) => {
            &&& after == (PipelineView { phase: Phase::Done, ..before })
            &&& action == Some(ReflectAction::Finish(before.result))
        },
        _ => after == before && action is None,
    }
}

impl ReflectPipeline {
    /// Begins a reflection on a profile, and says what to do first. The watermark is
    /// taken before rows are fetched, so that a row that is written meanwhile is not
    /// lost to the next run.
    pub fn begin(profile: String, watermark: Timestamp) -> (r: (ReflectPipeline, ReflectAction))
        ensures
            r.0@ == started(profile@, watermark),
            r.1 matches ReflectAction::FindLastRun(p, kind) && p@ == profile@ && kind@
                == "synthesis"@,
    {
        let asked = profile.clone();
        (
            ReflectPipeline {
                profile,
                watermark,
                rows: 0,
                result: empty_result(),
                phase: Phase::Finding,
            },
            ReflectAction::FindLastRun(asked, "synthesis"),
        )
    }

    /// What to do next, now that the given event happened; `None` where the event
    /// does not belong to where the pipeline stands.
    pub fn step(&mut self, event: ReflectEvent) -> (r: Option<ReflectAction>)
        ensures
            goes_on(old(self)@, event, final(self)@, r),
    {
        match (self.phase, event) {
            (Phase::Finding, ReflectEvent::LastRun(run)) => {
                self.phase = Phase::Fetching;
                Some(ReflectAction::Fetch(self.profile.clone(), synthesis_since(&run)))
            },
            (Phase::Fetching, ReflectEvent::Fetched(n)) => {
                if n == 0 {
                    self.phase = Phase::Done;
                    Some(ReflectAction::Finish(self.result))
                } else {
                    self.rows = n;
                    self.phase = Phase::Resuming;
                    Some(ReflectAction::ReadCheckpoint(checkpoint_name(self.profile.as_str())))
                }
            },
            (Phase::Resuming, ReflectEvent::CheckpointRead(stats)) => {
                self.phase = Phase::Synthesising;
                Some(ReflectAction::Synthesise(stats))
            },
            (Phase::Resuming, ReflectEvent::NoCheckpoint) => {
                self.phase = Phase::Extracting;
                Some(ReflectAction::Extract(checkpoint_name(self.profile.as_str())))
            },
            (Phase::Extracting, ReflectEvent::Extracted(stats)) => {
                self.phase = Phase::Synthesising;
                Some(ReflectAction::Synthesise(stats))
            },
            (Phase::Synthesising, ReflectEvent::Synthesised(result)) => {
                let record = RunRecord {
                    profile: self.profile.clone(),
                    rows: self.rows,
                    summary: summary_json(&result),
                    watermark: self.watermark,
                    kind: "synthesis",
                };
                self.result = result;
                self.phase = Phase::Recording;
                Some(ReflectAction::Record(checkpoint_name(self.profile.as_str()), record))
            },
            (Phase::Recording, ReflectEvent::Recorded) => {
                self.phase = Phase::Done;
                Some(ReflectAction::Finish(self.result))
            },
            _ => None,
        }
    }
}

/// Nothing is recorded of a run that had nothing to work on: the pipeline ends
/// with an empty result at once.
pub proof fn lemma_empty_run_records_nothing(
    profile: Seq<char>,
    watermark: Timestamp,
    last_run: Option<ReflectRunRow>,
    fetching: PipelineView,
    fetch: Option<ReflectAction>,
    after: PipelineView,
    action: Option<ReflectAction>,
)
    requires
        goes_on(started(profile, watermark), ReflectEvent::LastRun(last_run), fetching, fetch),
        goes_on(fetching, ReflectEvent::Fetched(0), after, action),
    ensures
        after.phase == Phase::Done,
        action == Some(ReflectAction::Finish(nothing())),
{
}

/// Whatever happens, a reflection stays with its profile and its watermark, and,
/// once rows were fetched, with their number.
pub proof fn lemma_pipeline_keeps_its_run(
    before: PipelineView,
    event: ReflectEvent,
    after: PipelineView,
    action: Option<ReflectAction>,
)
    requires
        goes_on(before, event, after, action),
    ensures
        after.profile == before.profile,
        after.watermark == before.watermark,
        before.phase != Phase::Fetching ==> after.rows == before.rows,
        before.phase != Phase::Finding ==> after.phase != Phase::Finding,
        before.phase != Phase::Finding && before.phase != Phase::Fetching ==> after.phase
            != Phase::Fetching,
{
}

/// The next reflection looks at what came since the watermark of this one, where
/// the run that this one recorded, which starts at the watermark, is its last run:
/// no row that was written while this one worked is lost.
pub proof fn lemma_next_reflection_starts_at_the_watermark(
    before: PipelineView,
    result: SynthesisResult,
    after: PipelineView,
    file: String,
    record: RunRecord,
    run: ReflectRunRow,
    finding: PipelineView,
    fetching: PipelineView,
    fetch: Option<ReflectAction>,
)
    requires
        before.phase == Phase::Synthesising,
        goes_on(
            before,
            ReflectEvent::Synthesised(result),
            after,
            Some(ReflectAction::Record(file, record)),
        ),
        run.started_at == record.watermark,
        finding.phase == Phase::Finding,
        goes_on(finding, ReflectEvent::LastRun(Some(run)), fetching, fetch),
    ensures
        fetch matches Some(ReflectAction::Fetch(_, since)) && since == Some(before.watermark),
{
}

/// What came of a run is recorded, with its rows and its watermark, and the same
/// result is returned.
pub proof fn lemma_recorded_result_is_returned(
    p0: PipelineView,
    result: SynthesisResult,
    p1: PipelineView,
    recorded: Option<ReflectAction>,
    p2: PipelineView,
    finished: Option<ReflectAction>,
)
    requires
        p0.phase == Phase::Synthesising,
        goes_on(p0, ReflectEvent::Synthesised(result), p1, recorded),
        goes_on(p1, ReflectEvent::Recorded, p2, finished),
    ensures
        recorded matches Some(ReflectAction::Record(_, record)) && records(record, p0, result),
        finished == Some(ReflectAction::Finish(result)),
        p2.phase == Phase::Done,
{
}

/// A run that resumes does what it would have done had it extracted the same
/// claims anew.
pub proof fn lemma_resumed_run_is_the_same(
    before: PipelineView,
    stats: ExtractionStats,
    resumed: PipelineView,
    resumed_action: Option<ReflectAction>,
    waiting: PipelineView,
    waiting_action: Option<ReflectAction>,
    extracted: PipelineView,
    extracted_action: Option<ReflectAction>,
)
    requires
        before.phase == Phase::Resuming,
        goes_on(before, ReflectEvent::CheckpointRead(stats), resumed, resumed_action),
        goes_on(before, ReflectEvent::NoCheckpoint, waiting, waiting_action),
        goes_on(waiting, ReflectEvent::Extracted(stats), extracted, extracted_action),
    ensures
        resumed == extracted,
        resumed_action == extracted_action,
{
}

/// A reflection looks at what came since the last run was started, and at everything where
/// there was none. What was kept of an earlier attempt is taken up, and only where nothing
/// was kept is anything extracted; the run is recorded under the time at which this one
/// was started, with as many rows as were fetched.
pub proof fn lemma_reflection_goes_in_order(
    run: crate::db::ReflectRunRow,
    stats: ExtractionStats,
    before: PipelineView,
    event: ReflectEvent,
    after: PipelineView,
    action: Option<ReflectAction>,
)
    requires
        goes_on(before, event, after, action),
    ensures
        after.profile == before.profile && after.watermark == before.watermark,
        before.phase == Phase::Finding && event == ReflectEvent::LastRun(Some(run)) ==> (
        action matches Some(ReflectAction::Fetch(profile, since)) && profile@ == before.profile
            && since == Some(run.started_at)),
        before.phase == Phase::Finding && event == ReflectEvent::LastRun(None) ==> (
        action matches Some(ReflectAction::Fetch(profile, since)) && profile@ == before.profile
            && since is None),
        before.phase == Phase::Fetching ==> (event matches ReflectEvent::Fetched(n) ==> if n == 0 {
            action matches Some(ReflectAction::Finish(_)) && after.phase == Phase::Done
        } else {
            action matches Some(ReflectAction::ReadCheckpoint(f)) && f@ == "reflect-checkpoint-"@
                + before.profile + ".json"@ && after.rows == n
        }),
        before.phase == Phase::Resuming && event == ReflectEvent::CheckpointRead(stats) ==> action
            == Some(ReflectAction::Synthesise(stats)),
        action matches Some(ReflectAction::Extract(_)) ==> before.phase == Phase::Resuming && event
            == ReflectEvent::NoCheckpoint,
        before.phase == Phase::Extracting && event == ReflectEvent::Extracted(stats) ==> action
            == Some(ReflectAction::Synthesise(stats)),
        action matches Some(ReflectAction::Record(_, record)) ==> (event matches
            ReflectEvent::Synthesised(result) && record.profile@ == before.profile && record.rows
            == before.rows && record.watermark == before.watermark && record.kind@ == "synthesis"@
            && record.summary@ == run_summary(result) && after.result == result),
        before.phase == Phase::Recording && event == ReflectEvent::Recorded ==> action == Some(
            ReflectAction::Finish(before.result),
        ),
{
}

/// The summary of a run says each number under its name.
pub proof fn lemma_summary_says_each_number(result: SynthesisResult)
    ensures
        run_summary(result).member("clusters_formed"@) == Some(
            json::int_value(result.clusters_formed as int),
        ),
        run_summary(result).member("clusters_emitted"@) == Some(
            json::int_value(result.clusters_emitted as int),
        ),
        run_summary(result).member("supersessions"@) == Some(
            json::int_value(result.supersessions as int),
        ),
        run_summary(result).member("rows_scanned"@) == Some(
            json::int_value(result.rows_scanned as int),
        ),
        run_summary(result).member("rows_skipped"@) == Some(
            json::int_value(result.rows_skipped as int),
        ),
        run_summary(result).member("extraction_errors"@) == Some(
            json::int_value(result.extraction_errors as int),
        ),
{
    reveal_strlit("clusters_formed");
    reveal_strlit("clusters_emitted");
    reveal_strlit("supersessions");
    reveal_strlit("rows_scanned");
    reveal_strlit("rows_skipped");
    reveal_strlit("extraction_errors");
    assert("clusters_formed"@.len() == 15);
    assert("clusters_emitted"@.len() == 16);
    assert("supersessions"@.len() == 13);
    assert("rows_scanned"@.len() == 12 && "rows_scanned"@[6] == 'c');
    assert("rows_skipped"@.len() == 12 && "rows_skipped"@[6] == 'k');
    assert("extraction_errors"@.len() == 17);
    reveal_with_fuel(json::entry_from, 7);
}

} // verus!
