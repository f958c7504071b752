//! The language model: how it is called, and how its answers are read.

use vstd::prelude::*;
use vstd::string::*;

use crate::error::{self, ChittaError, ErrorView};
use crate::json::{self, Json, JsonView};
use crate::text::{self, concat2, concat4, concat5, trim};

verus! {

/// The language model behind a command.
#[derive(Debug, PartialEq, Eq)]
pub struct ClaudeCliLlm {
    pub model: String,
}

/// The arguments of the command.
pub open spec fn cli_arguments(model: Seq<char>, system: Seq<char>) -> Seq<Seq<char>> {
    seq!["-p"@, "--output-format"@, "text"@, "--model"@, model, "--system-prompt"@, system]
}

impl ClaudeCliLlm {
    /// The given model behind the command.
    pub fn new(model: String) -> (r: ClaudeCliLlm)
        ensures
            r.model == model,
    {
        ClaudeCliLlm { model }
    }

    /// The arguments of the command for a system prompt. The user's prompt goes
    /// to its standard input.
    pub fn cli_args(&self, system: &str) -> (r: Vec<String>)
        ensures
            text::texts(r@) == cli_arguments(self.model@, system@),
    {
        let mut args: Vec<String> = Vec::new();
        args.push("-p".to_owned());
        args.push("--output-format".to_owned());
        args.push("text".to_owned());
        args.push("--model".to_owned());
        args.push(self.model.clone());
        args.push("--system-prompt".to_owned());
        args.push(system.to_owned());
        assert(text::texts(args@) =~= cli_arguments(self.model@, system@));
        args
    }
}

/// What the command's end comes to: a failure is told by its status and what it
/// wrote on standard error; an empty answer is a failure too.
pub open spec fn cli_outcome(
    command: Seq<char>,
    success: bool,
    status: Seq<char>,
    stdout: Seq<char>,
    stderr: Seq<char>,
) -> Result<Seq<char>, ErrorView> {
    if !success {
        Err(ErrorView::Internal(command + " CLI exited "@ + status + ": "@ + stderr))
    } else if text::trimmed(stdout).len() == 0 {
        Err(ErrorView::Internal(command + " CLI returned empty response"@))
    } else {
        Ok(text::trimmed(stdout))
    }
}

/// The view of an answer or of an error.
pub open spec fn answer_outcome(r: Result<String, ChittaError>) -> Result<Seq<char>, ErrorView> {
    match r {
        Ok(s) => Ok(s@),
        Err(e) => Err(e@),
    }
}

/// The answer of the command: its name, whether it succeeded, its status in
/// words, and what it wrote on standard output and standard error.
pub fn cli_answer(command: &str, success: bool, status: &str, stdout: &str, stderr: &str) -> (r:
    Result<String, ChittaError>)
    ensures
        answer_outcome(r) == cli_outcome(command@, success, status@, stdout@, stderr@),
{
    if !success {
        return Err(
            ChittaError::Internal(concat5(command, " CLI exited ", status, ": ", stderr)),
        );
    }
    let answer = trim(stdout);
    if answer.unicode_len() == 0 {
        return Err(ChittaError::Internal(concat2(command, " CLI returned empty response")));
    }
    Ok(answer.to_owned())
}

/// The most tokens that the model may answer with.
pub const MAX_ANSWER_TOKENS: u64 = 16384;

/// The body of a request to the API.
pub open spec fn api_request(model: Seq<char>, system: Seq<char>, user: Seq<char>) -> JsonView {
    JsonView::Object(
        seq![
            ("model"@, JsonView::Text(model)),
            ("max_tokens"@, json::int_value(MAX_ANSWER_TOKENS as int)),
            (
                "system"@,
                JsonView::Array(
                    seq![
                        JsonView::Object(
                            seq![
                                ("type"@, JsonView::Text("text"@)),
                                ("text"@, JsonView::Text(system)),
                                (
                                    "cache_control"@,
                                    json::object1("type"@, JsonView::Text("ephemeral"@)),
                                ),
                            ],
                        ),
                    ],
                ),
            ),
            (
                "messages"@,
                JsonView::Array(
                    seq![
                        json::object2(
                            "role"@,
                            JsonView::Text("user"@),
                            "content"@,
                            JsonView::Text(user),
                        ),
                    ],
                ),
            ),
        ],
    )
}

fn make_array1(j: Json) -> (r: Json)
    ensures
        r@ == JsonView::Array(seq![j@]),
{
    let mut v: Vec<Json> = Vec::new();
    v.push(j);
    let r = Json::Array(v);
    assert(r@->Array_0 =~= seq![j@]);
    r
}

/// The body of a request to the API: the system prompt is marked for caching.
pub fn api_body(model: &str, system: &str, user: &str) -> (r: Json)
    ensures
        r@ == api_request(model@, system@, user@),
{
    let mut block: Vec<(String, Json)> = Vec::new();
    block.push(("type".to_owned(), json::text_value("text")));
    block.push(("text".to_owned(), json::text_value(system)));
    block.push(
        ("cache_control".to_owned(), json::make_object1("type", json::text_value("ephemeral"))),
    );
    let block_json = Json::Object(block);
    assert(block_json@->Object_0 =~= seq![
        ("type"@, JsonView::Text("text"@)),
        ("text"@, JsonView::Text(system@)),
        ("cache_control"@, json::object1("type"@, JsonView::Text("ephemeral"@))),
    ]);
    let message = json::make_object2(
        "role",
        json::text_value("user"),
        "content",
        json::text_value(user),
    );
    let mut members: Vec<(String, Json)> = Vec::new();
    members.push(("model".to_owned(), json::text_value(model)));
    members.push(("max_tokens".to_owned(), json::unsigned(MAX_ANSWER_TOKENS)));
    members.push(("system".to_owned(), make_array1(block_json)));
    members.push(("messages".to_owned(), make_array1(message)));
    let r = Json::Object(members);
    assert(r@->Object_0 =~= api_request(model@, system@, user@)->Object_0);
    r
}

/// What the status of an answer of the API comes to: a failure is told by its
/// status and what was said.
pub open spec fn status_outcome(success: bool, status: Seq<char>, said: Seq<char>) -> Result<
    (),
    ErrorView,
> {
    if success {
        Ok(())
    } else {
        Err(ErrorView::Internal("API returned "@ + status + ": "@ + said))
    }
}

/// Checks the status of an answer of the API: whether it is one of success, the
/// status in words, and, where it is not, what was said.
pub fn check_status(success: bool, status: &str, said: &str) -> (r: Result<(), ChittaError>)
    ensures
        error::outcome(r) == status_outcome(success, status@, said@),
{
    if success {
        return Ok(());
    }
    Err(ChittaError::Internal(concat4("API returned ", status, ": ", said)))
}

/// The text of the first content block of an answer.
pub open spec fn first_text(answer: JsonView) -> Option<Seq<char>> {
    match answer.array_member("content"@) {
        Some(blocks) => if blocks.len() > 0 {
            blocks[0].text_member("text"@)
        } else {
            None
        },
        None => None,
    }
}

/// The text of an answer of the API: that of its first content block.
pub fn api_text(answer: &Json) -> (r: Result<String, ChittaError>)
    ensures
        answer_outcome(r) == match first_text(answer@) {
            Some(s) => Ok(s),
            None => Err(ErrorView::Internal("no text in API response"@)),
        },
{
    let found = match answer.get("content") {
        None => None,
        Some(content) => match content.as_array() {
            None => None,
            Some(blocks) => {
                if blocks.len() > 0 {
                    assert(json::views(blocks@)[0] == blocks@[0]@);
                    blocks[0].get_str("text")
                } else {
                    None
                }
            },
        },
    };
    match found {
        Some(s) => Ok(s.to_owned()),
        None => Err(ChittaError::Internal("no text in API response".to_owned())),
    }
}

/// The command is told the model and the system prompt, each behind its flag.
pub proof fn lemma_command_is_told(model: Seq<char>, system: Seq<char>)
    ensures
        exists|i: int|
            0 <= i < cli_arguments(model, system).len() - 1 && #[trigger] cli_arguments(
                model,
                system,
            )[i] == "--model"@ && cli_arguments(model, system)[i + 1] == model,
        exists|i: int|
            0 <= i < cli_arguments(model, system).len() - 1 && #[trigger] cli_arguments(
                model,
                system,
            )[i] == "--system-prompt"@ && cli_arguments(model, system)[i + 1] == system,
        cli_arguments(model, system).contains("-p"@),
        cli_arguments(model, system).len() == 7,
{
    let args = cli_arguments(model, system);
    assert(args[0] == "-p"@);
    assert(args[3] == "--model"@ && args[4] == model);
    assert(args[5] == "--system-prompt"@ && args[6] == system);
}

/// The answer of the command is what it wrote, without white space around it, where it
/// succeeded and wrote something, and an error otherwise.
pub proof fn lemma_command_answers(
    command: Seq<char>,
    success: bool,
    status: Seq<char>,
    stdout: Seq<char>,
    stderr: Seq<char>,
)
    ensures
        cli_outcome(command, success, status, stdout, stderr) is Ok <==> success && text::trimmed(
            stdout,
        ).len() > 0,
        cli_outcome(command, success, status, stdout, stderr) matches Ok(answer) ==> answer
            == text::trimmed(stdout),
        status_outcome(success, status, stderr) is Ok <==> success,
{
}

/// A request names the model, carries the two prompts in their places, and allows for
/// sixteen thousand three hundred and eighty-four tokens.
pub proof fn lemma_request_carries_the_prompts(
    model: Seq<char>,
    system: Seq<char>,
    user: Seq<char>,
)
    ensures
        api_request(model, system, user).member("model"@) == Some(JsonView::Text(model)),
        api_request(model, system, user).member("max_tokens"@) == Some(json::int_value(16384)),
        api_request(model, system, user).array_member("system"@) matches Some(blocks)
            && blocks.len() == 1 && blocks[0].text_member("type"@) == Some("text"@)
            && blocks[0].text_member("text"@) == Some(system),
        api_request(model, system, user).array_member("messages"@) matches Some(messages)
            && messages.len() == 1 && messages[0].text_member("role"@) == Some("user"@)
            && messages[0].text_member("content"@) == Some(user),
{
    reveal_strlit("model");
    reveal_strlit("max_tokens");
    reveal_strlit("system");
    reveal_strlit("messages");
    reveal_strlit("type");
    reveal_strlit("text");
    reveal_strlit("role");
    reveal_strlit("content");
    assert("model"@.len() == 5);
    assert("max_tokens"@.len() == 10);
    assert("system"@.len() == 6);
    assert("messages"@.len() == 8);
    assert("type"@.len() == 4 && "type"@[1] == 'y');
    assert("text"@.len() == 4 && "text"@[1] == 'e');
    assert("role"@.len() == 4);
    assert("content"@.len() == 7);
    reveal_with_fuel(json::entry_from, 5);
}

/// The text of an answer is that of its first block.
pub proof fn lemma_answer_is_the_first_block(answer: JsonView, blocks: Seq<JsonView>)
    requires
        answer.member("content"@) == Some(JsonView::Array(blocks)),
    ensures
        blocks.len() == 0 ==> first_text(answer) is None,
        blocks.len() > 0 ==> first_text(answer) == blocks[0].text_member("text"@),
{
}

} // verus!
