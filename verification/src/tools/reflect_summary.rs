//! `reflect_summary`: what there is to reflect on since the last time, without
//! situations.

use vstd::prelude::*;

use crate::error::{self, ChittaError, ErrorView};
use crate::ids::MemoryId;
use crate::time::Timestamp;
use crate::tools::reflect_status::{DateRange, DisagreeFlagged};
use crate::tools::survey::{self, SurveyAction, SurveyCall, SurveyReport};
use crate::tools::validate;

verus! {

/// The name of the tool.
pub const TOOL: &'static str = "reflect_summary";

/// The arguments of the tool.
#[derive(Debug, PartialEq, Eq)]
pub struct ReflectSummaryArgs {
    /// Profile to reflect on.
    pub profile: String,
}

/// What the tool returns. The counts are in the order of the types.
#[derive(Debug, PartialEq, Eq)]
pub struct ReflectSummaryOutput {
    pub profile: String,
    pub since: Option<Timestamp>,
    pub last_run_id: Option<MemoryId>,
    pub counts: Vec<(String, usize)>,
    pub total: usize,
    pub date_range: Option<DateRange>,
    pub distinct_domains: Vec<String>,
    pub distinct_skills: Vec<String>,
    pub distinct_projects: Vec<String>,
    pub disagree_flagged: Vec<DisagreeFlagged>,
    pub run_id: MemoryId,
}

/// Checks the tool's arguments.
pub fn check_args(args: &ReflectSummaryArgs) -> (r: Result<(), ChittaError>)
    ensures
        error::outcome(r) == validate::profile_check(TOOL@, args.profile@),
{
    validate::profile(TOOL, args.profile.as_str())
}

/// Begins the tool, and says what to do first; an error where its arguments break
/// a rule.
pub fn begin(args: ReflectSummaryArgs) -> (r: Result<(SurveyCall, SurveyAction), ChittaError>)
    ensures
        match r {
            Ok((call, action)) => {
                &&& validate::profile_check(TOOL@, args.profile@) is Ok
                &&& survey::begins(args.profile@, None, call@, action)
            },
            Err(e) => validate::profile_check(TOOL@, args.profile@) == Err::<(), ErrorView>(e@),
        },
{
    match check_args(&args) {
        Ok(()) => Ok(SurveyCall::begin(args.profile, None)),
        Err(e) => Err(e),
    }
}

/// What the tool returns: the survey of the rows, since when, after which run,
/// and the run that it was recorded as.
pub fn make_output(report: SurveyReport) -> (r: ReflectSummaryOutput)
    ensures
        r.profile == report.profile,
        r.since == report.since,
        r.last_run_id == report.last_run_id,
        r.counts == report.survey.counts,
        r.total == report.survey.total,
        r.date_range == report.survey.date_range,
        r.distinct_domains == report.survey.facets.domains,
        r.distinct_skills == report.survey.facets.skills,
        r.distinct_projects == report.survey.facets.projects,
        r.disagree_flagged == report.survey.disagree_flagged,
        r.run_id == report.run_id,
{
    let s = report.survey;
    ReflectSummaryOutput {
        profile: report.profile,
        since: report.since,
        last_run_id: report.last_run_id,
        counts: s.counts,
        total: s.total,
        date_range: s.date_range,
        distinct_domains: s.facets.domains,
        distinct_skills: s.facets.skills,
        distinct_projects: s.facets.projects,
        disagree_flagged: s.disagree_flagged,
        run_id: report.run_id,
    }
}

} // verus!
