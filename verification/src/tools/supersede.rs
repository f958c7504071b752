//! `supersede_memory`: one memory takes the place of another.

use vstd::prelude::*;
use vstd::string::*;

use crate::db::{self, MemoryRow, RowView};
use crate::error::{self, make_invalid, ChittaError, ErrorView};
use crate::ids::{self, format_id, parse_id, MemoryId};
use crate::json::{self, JsonView};
use crate::text::{self, concat5, trim};
use crate::tools::validate;

verus! {

/// The name of the tool.
pub const TOOL: &'static str = "supersede_memory";

/// The arguments of the tool.
#[derive(Debug, PartialEq, Eq)]
pub struct SupersedeArgs {
    /// Target profile namespace.
    pub profile: String,
    /// UUID of the memory that is superseded.
    pub old_id: String,
    /// UUID of the memory that takes its place, which must exist.
    pub new_id: String,
    /// Why the old memory is superseded.
    pub reason: String,
}

/// What the tool returns.
#[derive(Debug, PartialEq, Eq)]
pub struct SupersedeOutput {
    pub old_id: MemoryId,
    pub new_id: MemoryId,
    pub derivation_id: MemoryId,
}

/// The outcome of the rules on the tool's arguments, where the two identifiers
/// were parsed as `old_parsed` and `new_parsed`.
pub open spec fn args_outcome(
    profile: Seq<char>,
    old_id: Seq<char>,
    new_id: Seq<char>,
    reason: Seq<char>,
    old_parsed: Option<MemoryId>,
    new_parsed: Option<MemoryId>,
) -> Result<(MemoryId, MemoryId), ErrorView> {
    let by_profile = validate::profile_check(TOOL@, profile);
    if by_profile is Err {
        Err(by_profile->Err_0)
    } else if old_parsed is None {
        Err(
            error::invalid(
                TOOL@,
                "old_id"@,
                "must be a valid UUID"@,
                JsonView::Text(old_id),
                "Pass a valid UUID for old_id."@,
            ),
        )
    } else if new_parsed is None {
        Err(
            error::invalid(
                TOOL@,
                "new_id"@,
                "must be a valid UUID"@,
                JsonView::Text(new_id),
                "Pass a valid UUID for new_id."@,
            ),
        )
    } else if text::trimmed(reason).len() == 0 {
        Err(
            ErrorView::InvalidArgument {
                tool: TOOL@,
                argument: "reason"@,
                constraint: "must be non-empty"@,
                received: None,
                next_action: "Provide a reason for the supersession."@,
            },
        )
    } else {
        Ok((old_parsed->0, new_parsed->0))
    }
}

/// The identifier that a text was parsed as, where it is one.
pub open spec fn parsed_id(s: Seq<char>) -> Option<MemoryId> {
    match ids::uuid_parse(s) {
        Ok(id) => Some(id),
        Err(_) => None,
    }
}

/// Checks the tool's arguments, where the two identifiers were parsed as
/// `old_parsed` and `new_parsed`, and gives the identifiers.
pub fn check_args_parsed(
    args: &SupersedeArgs,
    old_parsed: Option<MemoryId>,
    new_parsed: Option<MemoryId>,
) -> (r: Result<(MemoryId, MemoryId), ChittaError>)
    ensures
        error::outcome(r) == args_outcome(
            args.profile@,
            args.old_id@,
            args.new_id@,
            args.reason@,
            old_parsed,
            new_parsed,
        ),
{
    match validate::profile(TOOL, args.profile.as_str()) {
        Err(e) => {
            return Err(e);
        },
        Ok(()) => {},
    }
    let old_id = match old_parsed {
        Some(id) => id,
        None => {
            return Err(
                make_invalid(
                    TOOL,
                    "old_id",
                    "must be a valid UUID",
                    json::text_value(args.old_id.as_str()),
                    "Pass a valid UUID for old_id.",
                ),
            );
        },
    };
    let new_id = match new_parsed {
        Some(id) => id,
        None => {
            return Err(
                make_invalid(
                    TOOL,
                    "new_id",
                    "must be a valid UUID",
                    json::text_value(args.new_id.as_str()),
                    "Pass a valid UUID for new_id.",
                ),
            );
        },
    };
    if trim(args.reason.as_str()).unicode_len() == 0 {
        return Err(
            ChittaError::InvalidArgument {
                tool: TOOL,
                argument: "reason".to_owned(),
                constraint: "must be non-empty".to_owned(),
                received: None,
                next_action: "Provide a reason for the supersession.".to_owned(),
            },
        );
    }
    Ok((old_id, new_id))
}

fn parse_or_none(s: &str) -> (r: Option<MemoryId>)
    ensures
        r == parsed_id(s@),
{
    match parse_id(s) {
        Ok(id) => Some(id),
        Err(_) => None,
    }
}

/// Checks the tool's arguments, and gives the identifiers of the old memory and
/// of the new.
pub fn check_args(args: &SupersedeArgs) -> (r: Result<(MemoryId, MemoryId), ChittaError>)
    ensures
        error::outcome(r) == args_outcome(
            args.profile@,
            args.old_id@,
            args.new_id@,
            args.reason@,
            parsed_id(args.old_id@),
            parsed_id(args.new_id@),
        ),
{
    check_args_parsed(
        args,
        parse_or_none(args.old_id.as_str()),
        parse_or_none(args.new_id.as_str()),
    )
}

/// The outcome of the rules on the old memory: it exists, and nothing took its
/// place.
pub open spec fn old_outcome(
    profile: Seq<char>,
    given_id: Seq<char>,
    old_id: MemoryId,
    row: Option<RowView>,
) -> Result<(), ErrorView> {
    match row {
        None => Err(
            ErrorView::NotFound {
                tool: TOOL@,
                kind: "memory"@,
                next_action: "old_id "@ + ids::id_text(old_id) + " not found in profile '"@
                    + profile + "'. Check the id and profile."@,
            },
        ),
        Some(row) => match row.superseded_by {
            Some(by) => Err(
                error::invalid(
                    TOOL@,
                    "old_id"@,
                    "must not already be superseded"@,
                    JsonView::Text(given_id),
                    "Memory "@ + ids::id_text(old_id) + " is already superseded by "@
                        + ids::id_text(by) + "."@,
                ),
            ),
            None => Ok(()),
        },
    }
}

/// Checks the old memory, which was looked up by its identifier.
pub fn check_old(args: &SupersedeArgs, old_id: MemoryId, row: &Option<MemoryRow>) -> (r: Result<
    (),
    ChittaError,
>)
    ensures
        error::outcome(r) == old_outcome(
            args.profile@,
            args.old_id@,
            old_id,
            db::opt_row(*row),
        ),
{
    match row {
        None => Err(
            ChittaError::NotFound {
                tool: TOOL,
                kind: "memory",
                next_action: concat5(
                    "old_id ",
                    format_id(old_id).as_str(),
                    " not found in profile '",
                    args.profile.as_str(),
                    "'. Check the id and profile.",
                ),
            },
        ),
        Some(row) => match row.superseded_by {
            Some(by) => Err(
                make_invalid(
                    TOOL,
                    "old_id",
                    "must not already be superseded",
                    json::text_value(args.old_id.as_str()),
                    concat5(
                        "Memory ",
                        format_id(old_id).as_str(),
                        " is already superseded by ",
                        format_id(by).as_str(),
                        ".",
                    ).as_str(),
                ),
            ),
            None => Ok(()),
        },
    }
}

/// The outcome of the rule on the new memory: it exists.
pub open spec fn new_outcome(profile: Seq<char>, new_id: MemoryId, found: bool) -> Result<
    (),
    ErrorView,
> {
    if found {
        Ok(())
    } else {
        Err(
            ErrorView::NotFound {
                tool: TOOL@,
                kind: "memory"@,
                next_action: "new_id "@ + ids::id_text(new_id) + " not found in profile '"@
                    + profile
                    + "'. Store the new memory first, then call supersede_memory."@,
            },
        )
    }
}

/// Checks the new memory, which was looked up by its identifier.
pub fn check_new(args: &SupersedeArgs, new_id: MemoryId, found: bool) -> (r: Result<
    (),
    ChittaError,
>)
    ensures
        error::outcome(r) == new_outcome(args.profile@, new_id, found),
{
    if found {
        return Ok(());
    }
    Err(
        ChittaError::NotFound {
            tool: TOOL,
            kind: "memory",
            next_action: concat5(
                "new_id ",
                format_id(new_id).as_str(),
                " not found in profile '",
                args.profile.as_str(),
                "'. Store the new memory first, then call supersede_memory.",
            ),
        },
    )
}

/// A memory that was superseded is not superseded again.
pub proof fn lemma_superseded_at_most_once(
    profile: Seq<char>,
    given_id: Seq<char>,
    old_id: MemoryId,
    row: RowView,
)
    ensures
        old_outcome(profile, given_id, old_id, Some(row)) is Ok <==> row.superseded_by is None,
        old_outcome(profile, given_id, old_id, None) is Err,
{
}

// ---- The call ---------------------------------------------------------------------------

/// Where a call stands.
#[derive(Clone, Copy, Debug, PartialEq, Eq, Structural)]
pub enum SupersedePhase {
    /// It waits for the old memory.
    FindingOld,
    /// It waits for the new memory.
    FindingNew,
    /// It waits for the old memory to be marked, and linked to the new.
    Superseding,
    /// It is done.
    Done,
}

/// What happened.
#[derive(Debug, PartialEq, Eq)]
pub enum SupersedeEvent {
    /// A memory was looked up.
    Found(Option<MemoryRow>),
    /// The old memory was marked and linked: the link has the given identifier.
    Superseded(MemoryId),
}

/// What to do next.
#[derive(Debug, PartialEq, Eq)]
pub enum SupersedeAction {
    /// Look up the memory with the given profile and identifier.
    Find(String, MemoryId),
    /// Mark the first memory as superseded by the second, and link the second to
    /// the first.
    Supersede(MemoryId, MemoryId),
    /// Refuse the call.
    Refuse(ChittaError),
    /// Return the answer.
    Return(SupersedeOutput),
}

/// A call of the tool under way.
#[derive(Debug, PartialEq, Eq)]
pub struct SupersedeCall {
    args: SupersedeArgs,
    old_id: MemoryId,
    new_id: MemoryId,
    phase: SupersedePhase,
}

/// What a [`SupersedeCall`] stands for.
pub struct SupersedeCallView {
    pub profile: Seq<char>,
    /// The old identifier as it was given.
    pub given_id: Seq<char>,
    /// The new identifier as it was given.
    pub given_new_id: Seq<char>,
    pub reason: Seq<char>,
    pub old_id: MemoryId,
    pub new_id: MemoryId,
    pub phase: SupersedePhase,
}

impl View for SupersedeCall {
    type V = SupersedeCallView;

    closed spec fn view(&self) -> SupersedeCallView {
        SupersedeCallView {
            profile: self.args.profile@,
            given_id: self.args.old_id@,
            given_new_id: self.args.new_id@,
            reason: self.args.reason@,
            old_id: self.old_id,
            new_id: self.new_id,
            phase: self.phase,
        }
    }
}

/// Whether the call, on the event, goes on as it should: to the state `after`,
/// with the given action. The old memory is looked up and checked, then the new
/// one, and then the one takes the place of the other. An event that does not
/// belong to the phase changes nothing and calls for nothing.
pub open spec fn goes_on(
    before: SupersedeCallView,
    event: SupersedeEvent,
    after: SupersedeCallView,
    action: Option<SupersedeAction>,
) -> bool {
    match (before.phase, event) {
        (SupersedePhase::FindingOld, SupersedeEvent::Found(row)) => match old_outcome(
            before.profile,
            before.given_id,
            before.old_id,
            db::opt_row(row),
        ) {
            Ok(()) => {
                &&& after == (SupersedeCallView { phase: SupersedePhase::FindingNew, ..before })
                &&& action matches Some(SupersedeAction::Find(profile, id)) && profile@
                    == before.profile && id == before.new_id
            },
            Err(e) => {
                &&& after == (SupersedeCallView { phase: SupersedePhase::Done, ..before })
                &&& action matches Some(SupersedeAction::Refuse(error)) && error@ == e
            },
        },
        (SupersedePhase::FindingNew, SupersedeEvent::Found(row)) => match new_outcome(
            before.profile,
            before.new_id,
            row is Some,
        ) {
            Ok(()) => {
                &&& after == (SupersedeCallView { phase: SupersedePhase::Superseding, ..before })
                &&& action == Some(SupersedeAction::Supersede(before.old_id, before.new_id))
            },
            Err(e) => {
                &&& after == (SupersedeCallView { phase: SupersedePhase::Done, ..before })
                &&& action matches Some(SupersedeAction::Refuse(error)) && error@ == e
            },
        },
        (SupersedePhase::Superseding, SupersedeEvent::Superseded(derivation_id)) => {
            &&& after == (SupersedeCallView { phase: SupersedePhase::Done, ..before })
            &&& action == Some(
                SupersedeAction::Return(
                    SupersedeOutput {
                        old_id: before.old_id,
                        new_id: before.new_id,
                        derivation_id,
                    },
                ),
            )
        },
        _ => after == before && action is None,
    }
}

/// Whether a call was begun for arguments that pass the rules, where the two
/// identifiers were parsed as `old_parsed` and `new_parsed`, and looks for the old
/// memory; or else was refused as the rules say.
pub open spec fn begun(
    args: SupersedeArgs,
    old_parsed: Option<MemoryId>,
    new_parsed: Option<MemoryId>,
    r: Result<(SupersedeCall, SupersedeAction), ChittaError>,
) -> bool {
    match (
        args_outcome(
            args.profile@,
            args.old_id@,
            args.new_id@,
            args.reason@,
            old_parsed,
            new_parsed,
        ),
        r,
    ) {
        (Ok((old_id, new_id)), Ok((call, action))) => {
            &&& call@ == (SupersedeCallView {
                profile: args.profile@,
                given_id: args.old_id@,
                given_new_id: args.new_id@,
                reason: args.reason@,
                old_id,
                new_id,
                phase: SupersedePhase::FindingOld,
            })
            &&& action matches SupersedeAction::Find(profile, id) && profile@ == args.profile@
                && id == old_id
        },
        (Err(e), Err(error)) => error@ == e,
        _ => false,
    }
}

impl SupersedeCall {
    /// Begins a call, where the two identifiers were parsed as `old_parsed` and
    /// `new_parsed`, and says what to do first.
    pub fn begin_parsed(
        args: SupersedeArgs,
        old_parsed: Option<MemoryId>,
        new_parsed: Option<MemoryId>,
    ) -> (r: Result<(SupersedeCall, SupersedeAction), ChittaError>)
        ensures
            begun(args, old_parsed, new_parsed, r),
    {
        match check_args_parsed(&args, old_parsed, new_parsed) {
            Err(e) => Err(e),
            Ok((old_id, new_id)) => {
                let action = SupersedeAction::Find(args.profile.clone(), old_id);
                Ok(
                    (
                        SupersedeCall { args, old_id, new_id, phase: SupersedePhase::FindingOld },
                        action,
                    ),
                )
            },
        }
    }

    /// Begins a call, and says what to do first.
    pub fn begin(args: SupersedeArgs) -> (r: Result<(SupersedeCall, SupersedeAction), ChittaError>)
        ensures
            begun(args, parsed_id(args.old_id@), parsed_id(args.new_id@), r),
    {
        let old_parsed = parse_or_none(args.old_id.as_str());
        let new_parsed = parse_or_none(args.new_id.as_str());
        SupersedeCall::begin_parsed(args, old_parsed, new_parsed)
    }

    /// What to do next, now that the given event happened; `None` where the event
    /// does not belong to where the call stands.
    pub fn step(&mut self, event: SupersedeEvent) -> (r: Option<SupersedeAction>)
        ensures
            goes_on(old(self)@, event, final(self)@, r),
    {
        match (self.phase, event) {
            (SupersedePhase::FindingOld, SupersedeEvent::Found(row)) => {
                match check_old(&self.args, self.old_id, &row) {
                    Err(e) => {
                        self.phase = SupersedePhase::Done;
                        Some(SupersedeAction::Refuse(e))
                    },
                    Ok(()) => {
                        self.phase = SupersedePhase::FindingNew;
                        Some(SupersedeAction::Find(self.args.profile.clone(), self.new_id))
                    },
                }
            },
            (SupersedePhase::FindingNew, SupersedeEvent::Found(row)) => {
                match check_new(&self.args, self.new_id, row.is_some()) {
                    Err(e) => {
                        self.phase = SupersedePhase::Done;
                        Some(SupersedeAction::Refuse(e))
                    },
                    Ok(()) => {
                        self.phase = SupersedePhase::Superseding;
                        Some(SupersedeAction::Supersede(self.old_id, self.new_id))
                    },
                }
            },
            (SupersedePhase::Superseding, SupersedeEvent::Superseded(derivation_id)) => {
                self.phase = SupersedePhase::Done;
                Some(
                    SupersedeAction::Return(
                        SupersedeOutput {
                            old_id: self.old_id,
                            new_id: self.new_id,
                            derivation_id,
                        },
                    ),
                )
            },
            _ => None,
        }
    }
}

/// A memory takes the place of another only where both are there, and nothing took
/// the place of the other before; in every other case the call is refused.
pub proof fn lemma_supersedes_only_what_holds(
    p0: SupersedeCallView,
    old_row: Option<MemoryRow>,
    p1: SupersedeCallView,
    a1: Option<SupersedeAction>,
    new_row: Option<MemoryRow>,
    p2: SupersedeCallView,
    a2: Option<SupersedeAction>,
)
    requires
        p0.phase == SupersedePhase::FindingOld,
        goes_on(p0, SupersedeEvent::Found(old_row), p1, a1),
        goes_on(p1, SupersedeEvent::Found(new_row), p2, a2),
    ensures
        a2 matches Some(SupersedeAction::Supersede(_, _)) <==> old_row is Some
            && old_row->0.superseded_by is None && new_row is Some,
        a2 matches Some(SupersedeAction::Supersede(old_id, new_id)) ==> old_id == p0.old_id
            && new_id == p0.new_id,
        !(a2 matches Some(SupersedeAction::Supersede(_, _))) ==> p2.phase == SupersedePhase::Done
            && (a1 matches Some(SupersedeAction::Refuse(_)) || a2 matches Some(
            SupersedeAction::Refuse(_),
        )),
{
}

/// The arguments name the two memories in their places: what is accepted is the old one
/// and the new one as they were parsed, and a reason that is not blank was given.
pub proof fn lemma_accepted_arguments(
    args: SupersedeArgs,
    old_parsed: Option<MemoryId>,
    new_parsed: Option<MemoryId>,
    ids: (MemoryId, MemoryId),
)
    requires
        args_outcome(
            args.profile@,
            args.old_id@,
            args.new_id@,
            args.reason@,
            old_parsed,
            new_parsed,
        ) == Ok::<(MemoryId, MemoryId), ErrorView>(ids),
    ensures
        old_parsed == Some(ids.0),
        new_parsed == Some(ids.1),
        text::trimmed(args.reason@).len() > 0,
{
}

/// The old memory is looked up before the new one. It is marked as superseded by the new
/// one only where it was found, nothing took its place before, and the new one was found
/// too; and what is answered names the two in their places.
pub proof fn lemma_supersede_goes_in_order(
    found: Option<MemoryRow>,
    link: MemoryId,
    before: SupersedeCallView,
    event: SupersedeEvent,
    after: SupersedeCallView,
    action: Option<SupersedeAction>,
)
    requires
        goes_on(before, event, after, action),
    ensures
        after.old_id == before.old_id && after.new_id == before.new_id && after.profile
            == before.profile && after.reason == before.reason,
        before.phase == SupersedePhase::FindingOld && event == SupersedeEvent::Found(found)
            ==> if found is Some && found->0.superseded_by is None {
            action matches Some(SupersedeAction::Find(profile, id)) && profile@ == before.profile
                && id == before.new_id && after.phase == SupersedePhase::FindingNew
        } else {
            action matches Some(SupersedeAction::Refuse(_)) && after.phase == SupersedePhase::Done
        },
        before.phase == SupersedePhase::FindingOld && event == SupersedeEvent::Found(None) ==> (
        action matches Some(SupersedeAction::Refuse(e)) && e@ is NotFound),
        before.phase == SupersedePhase::FindingNew && event == SupersedeEvent::Found(found)
            ==> if found is Some {
            action == Some(SupersedeAction::Supersede(before.old_id, before.new_id))
                && after.phase == SupersedePhase::Superseding
        } else {
            action matches Some(SupersedeAction::Refuse(e)) && e@ is NotFound && after.phase
                == SupersedePhase::Done
        },
        action matches Some(SupersedeAction::Supersede(_, _)) ==> before.phase
            == SupersedePhase::FindingNew,
        before.phase == SupersedePhase::Superseding && event == SupersedeEvent::Superseded(link)
            ==> (action matches Some(SupersedeAction::Return(out)) && out.old_id == before.old_id
            && out.new_id == before.new_id && out.derivation_id == link),
        action is None ==> after == before,
{
}

/// A call looks for the old memory first, in the profile that was named.
pub proof fn lemma_supersede_begins(
    args: SupersedeArgs,
    old_parsed: Option<MemoryId>,
    new_parsed: Option<MemoryId>,
    r: Result<(SupersedeCall, SupersedeAction), ChittaError>,
)
    requires
        begun(args, old_parsed, new_parsed, r),
    ensures
        r matches Ok((call, action)) ==> {
            &&& old_parsed == Some(call@.old_id) && new_parsed == Some(call@.new_id)
            &&& call@.profile == args.profile@ && call@.reason == args.reason@
            &&& call@.phase == SupersedePhase::FindingOld
            &&& action matches SupersedeAction::Find(profile, id) && profile@ == args.profile@
                && old_parsed == Some(id)
        },
{
}

} // verus!
