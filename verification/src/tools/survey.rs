//! The calls that survey what came since the last run, and record a run of their
//! own: `reflect_status` and `reflect_summary`.

use vstd::prelude::*;

use crate::db::{self, survey_since, MemoryRow, ReflectRunRow};
use crate::ids::MemoryId;
use crate::json::Json;
use crate::time::Timestamp;
use crate::tools::reflect_status::{self, summary_json, survey, Survey};

verus! {

/// What is recorded of a survey.
#[derive(Debug, PartialEq, Eq)]
pub struct SurveyRecord {
    pub profile: String,
    /// How many rows were surveyed.
    pub rows: usize,
    pub summary: Json,
    /// What kind of run it is, where that is said.
    pub kind: Option<&'static str>,
}

/// What a survey comes to.
#[derive(Debug, PartialEq, Eq)]
pub struct SurveyReport {
    pub profile: String,
    pub since: Option<Timestamp>,
    pub last_run_id: Option<MemoryId>,
    pub survey: Survey,
    pub run_id: MemoryId,
}

/// Where a survey stands.
#[derive(Debug, PartialEq, Eq)]
pub enum SurveyStage {
    /// It waits for the last run.
    Finding,
    /// It waits for the rows since the given time, after the given run.
    Fetching(Option<Timestamp>, Option<MemoryId>),
    /// It waits for its run to be recorded.
    Recording(Option<Timestamp>, Option<MemoryId>, Survey),
    /// It is done.
    Done,
}

/// What happened.
#[derive(Debug, PartialEq, Eq)]
pub enum SurveyEvent {
    /// The last run, if any, was looked up.
    LastRun(Option<ReflectRunRow>),
    /// These rows were fetched.
    Fetched(Vec<MemoryRow>),
    /// The run was recorded as the given one.
    Recorded(ReflectRunRow),
}

/// What to do next.
#[derive(Debug, PartialEq, Eq)]
pub enum SurveyAction {
    /// Look up the last run of the profile.
    FindLastRun(String),
    /// Fetch the raw rows of the profile since the given time.
    Fetch(String, Option<Timestamp>),
    /// Record the run.
    Record(SurveyRecord),
    /// Return the report.
    Return(SurveyReport),
}

/// A survey under way.
#[derive(Debug, PartialEq, Eq)]
pub struct SurveyCall {
    profile: String,
    kind: Option<&'static str>,
    stage: SurveyStage,
}

/// What a [`SurveyCall`] stands for.
pub struct SurveyCallView {
    pub profile: Seq<char>,
    pub kind: Option<&'static str>,
    pub stage: SurveyStage,
}

impl View for SurveyCall {
    type V = SurveyCallView;

    closed spec fn view(&self) -> SurveyCallView {
        SurveyCallView { profile: self.profile@, kind: self.kind, stage: self.stage }
    }
}

/// The identifier of a run, if any.
pub open spec fn id_of(run: Option<ReflectRunRow>) -> Option<MemoryId> {
    match run {
        Some(r) => Some(r.id),
        None => None,
    }
}

/// Whether a survey of the profile begins as it should: the last run is looked up.
pub open spec fn begins(
    profile: Seq<char>,
    kind: Option<&'static str>,
    start: SurveyCallView,
    action: SurveyAction,
) -> bool {
    &&& start == (SurveyCallView { profile, kind, stage: SurveyStage::Finding })
    &&& action matches SurveyAction::FindLastRun(p) && p@ == profile
}

/// Whether the survey, on the event, goes on as it should: to the state `after`,
/// with the given action. The rows since the last run was completed are fetched,
/// the survey of them is recorded as one run, and the report names both runs. An
/// event that does not belong to the stage changes nothing and calls for nothing.
pub open spec fn goes_on(
    before: SurveyCallView,
    event: SurveyEvent,
    after: SurveyCallView,
    action: Option<SurveyAction>,
) -> bool {
    match (before.stage, event) {
        (SurveyStage::Finding, SurveyEvent::LastRun(run)) => {
            &&& after == (SurveyCallView {
                stage: SurveyStage::Fetching(db::completed_at(run), id_of(run)),
                ..before
            })
            &&& action matches Some(SurveyAction::Fetch(profile, since)) && profile@
                == before.profile && since == db::completed_at(run)
        },
        (SurveyStage::Fetching(since, last_run_id), SurveyEvent::Fetched(rows)) => {
            &&& after.stage matches SurveyStage::Recording(_, _, s) && {
                &&& after == (SurveyCallView {
                    stage: SurveyStage::Recording(since, last_run_id, s),
                    ..before
                })
                &&& s.is_of(rows@)
                &&& action matches Some(SurveyAction::Record(record)) && {
                    &&& record.profile@ == before.profile
                    &&& record.rows == rows@.len()
                    &&& record.summary@ == reflect_status::summary_of(s)
                    &&& record.kind == before.kind
                }
            }
        },
        (SurveyStage::Recording(since, last_run_id, s), SurveyEvent::Recorded(run)) => {
            &&& after == (SurveyCallView { stage: SurveyStage::Done, ..before })
            &&& action matches Some(SurveyAction::Return(report)) && {
                &&& report.profile@ == before.profile
                &&& report.since == since
                &&& report.last_run_id == last_run_id
                &&& report.survey == s
                &&& report.run_id == run.id
            }
        },
        _ => after == before && action is None,
    }
}

impl SurveyCall {
    /// Begins a survey of the profile, whose run is of the given kind, and says
    /// what to do first.
    pub fn begin(profile: String, kind: Option<&'static str>) -> (r: (SurveyCall, SurveyAction))
        ensures
            begins(profile@, kind, r.0@, r.1),
    {
        let asked = profile.clone();
        (
            SurveyCall { profile, kind, stage: SurveyStage::Finding },
            SurveyAction::FindLastRun(asked),
        )
    }

    /// What to do next, now that the given event happened; `None` where the event
    /// does not belong to where the survey stands.
    pub fn step(self, event: SurveyEvent) -> (r: (SurveyCall, Option<SurveyAction>))
        ensures
            goes_on(self@, event, r.0@, r.1),
    {
        let SurveyCall { profile, kind, stage } = self;
        match (stage, event) {
            (SurveyStage::Finding, SurveyEvent::LastRun(run)) => {
                let since = survey_since(&run);
                let last_run_id = match &run {
                    Some(r) => Some(r.id),
                    None => None,
                };
                let asked = profile.clone();
                let stage = SurveyStage::Fetching(since, last_run_id);
                (SurveyCall { profile, kind, stage }, Some(SurveyAction::Fetch(asked, since)))
            },
            (SurveyStage::Fetching(since, last_run_id), SurveyEvent::Fetched(rows)) => {
                let s = survey(rows.as_slice());
                let record = SurveyRecord {
                    profile: profile.clone(),
                    rows: rows.len(),
                    summary: summary_json(&s),
                    kind,
                };
                let stage = SurveyStage::Recording(since, last_run_id, s);
                (SurveyCall { profile, kind, stage }, Some(SurveyAction::Record(record)))
            },
            (SurveyStage::Recording(since, last_run_id, s), SurveyEvent::Recorded(run)) => {
                let report = SurveyReport {
                    profile: profile.clone(),
                    since,
                    last_run_id,
                    survey: s,
                    run_id: run.id,
                };
                let stage = SurveyStage::Done;
                (SurveyCall { profile, kind, stage }, Some(SurveyAction::Return(report)))
            },
            (stage, _) => (SurveyCall { profile, kind, stage }, None),
        }
    }
}

// ---- Laws ---------------------------------------------------------------------------------

/// How far a survey has come.
pub open spec fn progress(stage: SurveyStage) -> int {
    match stage {
        SurveyStage::Finding => 0,
        SurveyStage::Fetching(_, _) => 1,
        SurveyStage::Recording(_, _, _) => 2,
        SurveyStage::Done => 3,
    }
}

/// A survey records one run, and does nothing else that could change what is
/// stored: each step that calls for something takes the survey one stage further,
/// none takes it back, and the run is recorded on the way from the rows to the
/// report.
pub proof fn lemma_one_run_is_recorded(
    before: SurveyCallView,
    event: SurveyEvent,
    after: SurveyCallView,
    action: Option<SurveyAction>,
)
    requires
        goes_on(before, event, after, action),
    ensures
        progress(after.stage) == progress(before.stage) + if action is Some {
            1int
        } else {
            0int
        },
        action matches Some(SurveyAction::Record(_)) <==> progress(before.stage) == 1
            && action is Some,
        action matches Some(SurveyAction::Return(_)) <==> progress(before.stage) == 2
            && action is Some,
{
}

/// The run that one survey recorded is the last run of the next: where the next
/// survey is given it as such, its report names it, and looks at what came since
/// it was completed.
pub proof fn lemma_next_survey_follows(
    recording: SurveyCallView,
    run: ReflectRunRow,
    recorded: SurveyCallView,
    report: SurveyReport,
    finding: SurveyCallView,
    fetching: SurveyCallView,
    fetch: Option<SurveyAction>,
    rows: Vec<MemoryRow>,
    next_recording: SurveyCallView,
    record: Option<SurveyAction>,
    next_run: ReflectRunRow,
    next_recorded: SurveyCallView,
    next_report: SurveyReport,
)
    requires
        goes_on(recording, SurveyEvent::Recorded(run), recorded, Some(SurveyAction::Return(report))),
        finding.stage == SurveyStage::Finding,
        goes_on(finding, SurveyEvent::LastRun(Some(run)), fetching, fetch),
        goes_on(fetching, SurveyEvent::Fetched(rows), next_recording, record),
        goes_on(
            next_recording,
            SurveyEvent::Recorded(next_run),
            next_recorded,
            Some(SurveyAction::Return(next_report)),
        ),
    ensures
        next_report.last_run_id == Some(report.run_id),
        next_report.since == run.completed_at,
        next_report.survey.is_of(rows@),
        next_report.run_id == next_run.id,
{
}

/// A survey looks at what came since the last run was completed, and at everything where
/// there was none; it records how many rows it looked at, and reports the survey of those
/// rows under the run that was recorded.
pub proof fn lemma_survey_looks_since_the_last_run(
    run: ReflectRunRow,
    rows: Vec<MemoryRow>,
    before: SurveyCallView,
    event: SurveyEvent,
    after: SurveyCallView,
    action: Option<SurveyAction>,
)
    requires
        goes_on(before, event, after, action),
    ensures
        after.profile == before.profile && after.kind == before.kind,
        before.stage == SurveyStage::Finding && event == SurveyEvent::LastRun(None) ==> (
        action matches Some(SurveyAction::Fetch(profile, since)) && profile@ == before.profile
            && since is None && after.stage == SurveyStage::Fetching(None, None)),
        before.stage == SurveyStage::Finding && event == SurveyEvent::LastRun(Some(run)) ==> (
        action matches Some(SurveyAction::Fetch(profile, since)) && profile@ == before.profile
            && since == run.completed_at && after.stage == SurveyStage::Fetching(
            run.completed_at,
            Some(run.id),
        )),
        before.stage is Fetching && event == SurveyEvent::Fetched(rows) ==> (action matches Some(
            SurveyAction::Record(record),
        ) && record.profile@ == before.profile && record.rows == rows@.len() && record.kind
            == before.kind && (after.stage matches SurveyStage::Recording(_, _, s) && s.is_of(
            rows@,
        ))),
        action matches Some(SurveyAction::Return(report)) ==> (before.stage matches
            SurveyStage::Recording(since, last, s) && event matches SurveyEvent::Recorded(r)
            && report.profile@ == before.profile && report.since == since && report.last_run_id
            == last && report.survey == s && report.run_id == r.id),
{
}

} // verus!
