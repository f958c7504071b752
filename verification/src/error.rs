//! Errors. Every error can say which tool failed, on which argument, what rule
//! was broken, what was received, and what the caller should do next.

use vstd::prelude::*;
use vstd::string::*;

use crate::json::{self, Json, JsonView};
use crate::text::{self, concat2, concat3, concat4, concat5, decimal_of};

pub mod codes;

verus! {

/// What can go wrong in a tool call.
#[derive(Debug, PartialEq, Eq)]
pub enum ChittaError {
    /// A configuration variable is not set.
    MissingConfig { name: &'static str, next_action: String },
    /// An argument of a tool call breaks a rule.
    InvalidArgument {
        tool: &'static str,
        argument: String,
        constraint: String,
        received: Option<Json>,
        next_action: String,
    },
    /// The content has more tokens than the embedding model takes.
    ContentTooLong { tool: &'static str, token_count: u64 },
    /// There is nothing of the kind that was asked for.
    NotFound { tool: &'static str, kind: &'static str, next_action: String },
    /// The embedding model failed.
    Embedding { tool: &'static str, message: String, next_action: String },
    /// The database failed.
    Db(String),
    /// A schema migration failed.
    Migrate(String),
    /// Anything else.
    Internal(String),
}

/// What a [`ChittaError`] stands for.
pub enum ErrorView {
    MissingConfig { name: Seq<char>, next_action: Seq<char> },
    InvalidArgument {
        tool: Seq<char>,
        argument: Seq<char>,
        constraint: Seq<char>,
        received: Option<JsonView>,
        next_action: Seq<char>,
    },
    ContentTooLong { tool: Seq<char>, token_count: u64 },
    NotFound { tool: Seq<char>, kind: Seq<char>, next_action: Seq<char> },
    Embedding { tool: Seq<char>, message: Seq<char>, next_action: Seq<char> },
    Db(Seq<char>),
    Migrate(Seq<char>),
    Internal(Seq<char>),
}

impl View for ChittaError {
    type V = ErrorView;

    open spec fn view(&self) -> ErrorView {
        match self {
            ChittaError::MissingConfig { name, next_action } => ErrorView::MissingConfig {
                name: name@,
                next_action: next_action@,
            },
            ChittaError::InvalidArgument { tool, argument, constraint, received, next_action } =>
            ErrorView::InvalidArgument {
                tool: tool@,
                argument: argument@,
                constraint: constraint@,
                received: json::opt_json(*received),
                next_action: next_action@,
            },
            ChittaError::ContentTooLong { tool, token_count } => ErrorView::ContentTooLong {
                tool: tool@,
                token_count: *token_count,
            },
            ChittaError::NotFound { tool, kind, next_action } => ErrorView::NotFound {
                tool: tool@,
                kind: kind@,
                next_action: next_action@,
            },
            ChittaError::Embedding { tool, message, next_action } => ErrorView::Embedding {
                tool: tool@,
                message: message@,
                next_action: next_action@,
            },
            ChittaError::Db(m) => ErrorView::Db(m@),
            ChittaError::Migrate(m) => ErrorView::Migrate(m@),
            ChittaError::Internal(m) => ErrorView::Internal(m@),
        }
    }
}

/// The view of a result: an error is taken by its view.
pub open spec fn outcome<T>(r: Result<T, ChittaError>) -> Result<T, ErrorView> {
    match r {
        Ok(v) => Ok(v),
        Err(e) => Err(e@),
    }
}

/// The error for an argument that breaks a rule.
pub open spec fn invalid(
    tool: Seq<char>,
    argument: Seq<char>,
    constraint: Seq<char>,
    received: JsonView,
    next_action: Seq<char>,
) -> ErrorView {
    ErrorView::InvalidArgument { tool, argument, constraint, received: Some(received), next_action }
}

/// The error for an argument that breaks a rule.
pub(crate) fn make_invalid(
    tool: &'static str,
    argument: &str,
    constraint: &str,
    received: Json,
    next_action: &str,
) -> (r: ChittaError)
    ensures
        r@ == invalid(tool@, argument@, constraint@, received@, next_action@),
{
    ChittaError::InvalidArgument {
        tool,
        argument: argument.to_owned(),
        constraint: constraint.to_owned(),
        received: Some(received),
        next_action: next_action.to_owned(),
    }
}

/// The report that goes to the caller with an error.
#[derive(Debug, PartialEq, Eq)]
pub struct ErrorData {
    /// The tool that failed.
    pub tool: String,
    /// The argument at fault, where one is.
    pub argument: Option<String>,
    /// The rule that was broken.
    pub constraint: String,
    /// What was received, where that says something.
    pub received: Option<Json>,
    /// What the caller should do.
    pub next_action: String,
}

/// What an [`ErrorData`] stands for.
pub struct ErrorDataView {
    pub tool: Seq<char>,
    pub argument: Option<Seq<char>>,
    pub constraint: Seq<char>,
    pub received: Option<JsonView>,
    pub next_action: Seq<char>,
}

impl View for ErrorData {
    type V = ErrorDataView;

    open spec fn view(&self) -> ErrorDataView {
        ErrorDataView {
            tool: self.tool@,
            argument: text::opt_text(self.argument),
            constraint: self.constraint@,
            received: json::opt_json(self.received),
            next_action: self.next_action@,
        }
    }
}

impl ErrorView {
    /// The report of the error.
    pub open spec fn report(self) -> ErrorDataView {
        match self {
            ErrorView::MissingConfig { name, next_action } => ErrorDataView {
                tool: "config"@,
                argument: Some(name),
                constraint: "must be set"@,
                received: None,
                next_action,
            },
            ErrorView::InvalidArgument { tool, argument, constraint, received, next_action } =>
            ErrorDataView { tool, argument: Some(argument), constraint, received, next_action },
            ErrorView::ContentTooLong { tool, token_count } => ErrorDataView {
                tool,
                argument: Some("content"@),
                constraint: "at most 7500 tokens"@,
                received: Some(json::int_value(token_count as int)),
                next_action: "Split the content into memories of at most 7500 tokens each."@,
            },
            ErrorView::NotFound { tool, kind, next_action } => ErrorDataView {
                tool,
                argument: None,
                constraint: kind + " must exist"@,
                received: None,
                next_action,
            },
            ErrorView::Embedding { tool, message, next_action } => ErrorDataView {
                tool,
                argument: None,
                constraint: "embedding must succeed: "@ + message,
                received: None,
                next_action,
            },
            ErrorView::Db(message) => ErrorDataView {
                tool: "database"@,
                argument: None,
                constraint: "database must answer: "@ + message,
                received: None,
                next_action: "Check that the database is reachable, then try again."@,
            },
            ErrorView::Migrate(message) => ErrorDataView {
                tool: "database"@,
                argument: None,
                constraint: "migrations must apply: "@ + message,
                received: None,
                next_action: "Check the schema against the migrations, then restart."@,
            },
            ErrorView::Internal(message) => ErrorDataView {
                tool: "chitta"@,
                argument: None,
                constraint: "internal invariant: "@ + message,
                received: None,
                next_action: "Report this as a fault of the server."@,
            },
        }
    }

    /// The error in one line.
    pub open spec fn line(self) -> Seq<char> {
        match self {
            ErrorView::MissingConfig { name, .. } => "missing configuration: "@ + name,
            ErrorView::InvalidArgument { tool, argument, constraint, .. } => tool
                + ": invalid argument `"@ + argument + "`: "@ + constraint,
            ErrorView::ContentTooLong { tool, token_count } => tool + ": content too long: "@
                + text::decimal(token_count as nat) + " tokens"@,
            ErrorView::NotFound { tool, kind, .. } => tool + ": "@ + kind + " not found"@,
            ErrorView::Embedding { tool, message, .. } => tool + ": embedding failed: "@ + message,
            ErrorView::Db(message) => "database error: "@ + message,
            ErrorView::Migrate(message) => "migration error: "@ + message,
            ErrorView::Internal(message) => "internal error: "@ + message,
        }
    }

    /// Whether the caller's parameters are at fault.
    pub open spec fn is_callers_fault(self) -> bool {
        self is MissingConfig || self is InvalidArgument || self is ContentTooLong
            || self is NotFound
    }

    /// Whether the texts that the error was made with are there.
    pub open spec fn is_filled(self) -> bool {
        match self {
            ErrorView::MissingConfig { name, next_action } => next_action.len() > 0,
            ErrorView::InvalidArgument { tool, argument, constraint, received, next_action } =>
            tool.len() > 0 && constraint.len() > 0 && next_action.len() > 0,
            ErrorView::ContentTooLong { tool, token_count } => tool.len() > 0,
            ErrorView::NotFound { tool, kind, next_action } => tool.len() > 0 && next_action.len()
                > 0,
            ErrorView::Embedding { tool, message, next_action } => tool.len() > 0
                && next_action.len() > 0,
            _ => true,
        }
    }
}

impl ErrorDataView {
    /// Whether the report says which tool failed, which rule was broken and what
    /// to do next.
    pub open spec fn is_complete(self) -> bool {
        self.tool.len() > 0 && self.constraint.len() > 0 && self.next_action.len() > 0
    }
}

/// Every error reports the tool, the broken rule and the next action, so long as
/// the texts that it was made with are not empty.
pub proof fn lemma_report_is_complete(e: ErrorView)
    requires
        e.is_filled(),
    ensures
        e.report().is_complete(),
{
    reveal_strlit("config");
    reveal_strlit("must be set");
    reveal_strlit("at most 7500 tokens");
    reveal_strlit("Split the content into memories of at most 7500 tokens each.");
    reveal_strlit(" must exist");
    reveal_strlit("embedding must succeed: ");
    reveal_strlit("database");
    reveal_strlit("database must answer: ");
    reveal_strlit("Check that the database is reachable, then try again.");
    reveal_strlit("migrations must apply: ");
    reveal_strlit("Check the schema against the migrations, then restart.");
    reveal_strlit("chitta");
    reveal_strlit("internal invariant: ");
    reveal_strlit("Report this as a fault of the server.");
}

impl ChittaError {
    /// The JSON-RPC code of the error.
    pub fn code(&self) -> (r: i32)
        ensures
            r == (if self@.is_callers_fault() {
                codes::INVALID_PARAMS
            } else {
                codes::INTERNAL_ERROR
            }),
            r == -32602 <==> *self is MissingConfig || *self is InvalidArgument
                || *self is ContentTooLong || *self is NotFound,
            r == -32603 <==> *self is Embedding || *self is Db || *self is Migrate
                || *self is Internal,
    {
        match self {
            ChittaError::MissingConfig { .. } => codes::INVALID_PARAMS,
            ChittaError::InvalidArgument { .. } => codes::INVALID_PARAMS,
            ChittaError::ContentTooLong { .. } => codes::INVALID_PARAMS,
            ChittaError::NotFound { .. } => codes::INVALID_PARAMS,
            ChittaError::Embedding { .. } => codes::INTERNAL_ERROR,
            ChittaError::Db(_) => codes::INTERNAL_ERROR,
            ChittaError::Migrate(_) => codes::INTERNAL_ERROR,
            ChittaError::Internal(_) => codes::INTERNAL_ERROR,
        }
    }

    /// The report that goes to the caller.
    pub fn data(&self) -> (r: ErrorData)
        ensures
            r@ == self@.report(),
    {
        match self {
            ChittaError::MissingConfig { name, next_action } => ErrorData {
                tool: "config".to_owned(),
                argument: Some((*name).to_owned()),
                constraint: "must be set".to_owned(),
                received: None,
                next_action: next_action.clone(),
            },
            ChittaError::InvalidArgument { tool, argument, constraint, received, next_action } => {
                let received = match received {
                    Some(j) => Some(j.copy()),
                    None => None,
                };
                ErrorData {
                    tool: (*tool).to_owned(),
                    argument: Some(argument.clone()),
                    constraint: constraint.clone(),
                    received,
                    next_action: next_action.clone(),
                }
            },
            ChittaError::ContentTooLong { tool, token_count } => ErrorData {
                tool: (*tool).to_owned(),
                argument: Some("content".to_owned()),
                constraint: "at most 7500 tokens".to_owned(),
                received: Some(json::unsigned(*token_count)),
                next_action:
                    "Split the content into memories of at most 7500 tokens each.".to_owned(),
            },
            ChittaError::NotFound { tool, kind, next_action } => ErrorData {
                tool: (*tool).to_owned(),
                argument: None,
                constraint: concat2(*kind, " must exist"),
                received: None,
                next_action: next_action.clone(),
            },
            ChittaError::Embedding { tool, message, next_action } => ErrorData {
                tool: (*tool).to_owned(),
                argument: None,
                constraint: concat2("embedding must succeed: ", message.as_str()),
                received: None,
                next_action: next_action.clone(),
            },
            ChittaError::Db(message) => ErrorData {
                tool: "database".to_owned(),
                argument: None,
                constraint: concat2("database must answer: ", message.as_str()),
                received: None,
                next_action: "Check that the database is reachable, then try again.".to_owned(),
            },
            ChittaError::Migrate(message) => ErrorData {
                tool: "database".to_owned(),
                argument: None,
                constraint: concat2("migrations must apply: ", message.as_str()),
                received: None,
                next_action: "Check the schema against the migrations, then restart.".to_owned(),
            },
            ChittaError::Internal(message) => ErrorData {
                tool: "chitta".to_owned(),
                argument: None,
                constraint: concat2("internal invariant: ", message.as_str()),
                received: None,
                next_action: "Report this as a fault of the server.".to_owned(),
            },
        }
    }

    /// The error in one line.
    pub fn message(&self) -> (r: String)
        ensures
            r@ == self@.line(),
    {
        match self {
            ChittaError::MissingConfig { name, next_action: _ } => concat2(
                "missing configuration: ",
                *name,
            ),
            ChittaError::InvalidArgument { tool, argument, constraint, .. } => concat5(
                *tool,
                ": invalid argument `",
                argument.as_str(),
                "`: ",
                constraint.as_str(),
            ),
            ChittaError::ContentTooLong { tool, token_count } => concat4(
                *tool,
                ": content too long: ",
                decimal_of(*token_count).as_str(),
                " tokens",
            ),
            ChittaError::NotFound { tool, kind, next_action: _ } => concat4(
                *tool,
                ": ",
                *kind,
                " not found",
            ),
            ChittaError::Embedding { tool, message, next_action: _ } => concat3(
                *tool,
                ": embedding failed: ",
                message.as_str(),
            ),
            ChittaError::Db(message) => concat2("database error: ", message.as_str()),
            ChittaError::Migrate(message) => concat2("migration error: ", message.as_str()),
            ChittaError::Internal(message) => concat2("internal error: ", message.as_str()),
        }
    }
}

/// The report of an error says what the error says: whose tool, which argument, which rule
/// and what to do, each in its place.
pub proof fn lemma_report_says_what_the_error_says(e: ChittaError)
    ensures
        e matches ChittaError::InvalidArgument {
            tool,
            argument,
            constraint,
            received,
            next_action,
        } ==> {
            let r = e@.report();
            &&& r.tool == tool@ && r.argument == Some(argument@) && r.constraint == constraint@
            &&& r.received == json::opt_json(received) && r.next_action == next_action@
        },
        e matches ChittaError::NotFound { tool, kind, next_action } ==> {
            let r = e@.report();
            &&& r.tool == tool@ && r.argument is None && r.received is None
            &&& r.constraint == kind@ + " must exist"@ && r.next_action == next_action@
        },
        e matches ChittaError::MissingConfig { name, next_action } ==> {
            let r = e@.report();
            &&& r.tool == "config"@ && r.argument == Some(name@) && r.next_action == next_action@
        },
        e matches ChittaError::ContentTooLong { tool, token_count } ==> {
            let r = e@.report();
            &&& r.tool == tool@ && r.argument == Some("content"@)
            &&& r.received == Some(json::int_value(token_count as int))
        },
        e matches ChittaError::Embedding { tool, message, next_action } ==> {
            let r = e@.report();
            &&& r.tool == tool@ && r.argument is None && r.next_action == next_action@
            &&& r.constraint == "embedding must succeed: "@ + message@
        },
        e matches ChittaError::Db(message) ==> e@.report().tool == "database"@
            && e@.report().constraint == "database must answer: "@ + message@,
        e matches ChittaError::Migrate(message) ==> e@.report().tool == "database"@
            && e@.report().constraint == "migrations must apply: "@ + message@,
        e matches ChittaError::Internal(message) ==> e@.report().tool == "chitta"@
            && e@.report().constraint == "internal invariant: "@ + message@,
{
}

/// The line of an error names the tool, where there is one, before anything else, and then
/// what went wrong.
pub proof fn lemma_line_says_what_went_wrong(e: ChittaError)
    ensures
        e matches ChittaError::InvalidArgument { tool, argument, constraint, .. } ==> e@.line()
            == tool@ + ": invalid argument `"@ + argument@ + "`: "@ + constraint@,
        e matches ChittaError::NotFound { tool, kind, .. } ==> e@.line() == tool@ + ": "@ + kind@
            + " not found"@,
        e matches ChittaError::Embedding { tool, message, .. } ==> e@.line() == tool@
            + ": embedding failed: "@ + message@,
        e matches ChittaError::ContentTooLong { tool, token_count } ==> e@.line() == tool@
            + ": content too long: "@ + text::decimal(token_count as nat) + " tokens"@,
        e matches ChittaError::Db(message) ==> e@.line() == "database error: "@ + message@,
        e matches ChittaError::Migrate(message) ==> e@.line() == "migration error: "@ + message@,
        e matches ChittaError::Internal(message) ==> e@.line() == "internal error: "@ + message@,
{
}

} // verus!
