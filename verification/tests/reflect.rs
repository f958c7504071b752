use chitta::db::ReflectRunRow;
use chitta::json::{Json, Number};
use chitta::llm::{api_body, api_text, check_status, cli_answer, ClaudeCliLlm};
use chitta::error::ChittaError;
use chitta::reflect::{
    checkpoint_name, nothing_line, result_line, start_line, summary_json, ReflectAction,
    ReflectEvent, ReflectPipeline,
};
use chitta::synthesis::run::{empty_result, SynthesisResult};
use chitta::synthesis::ExtractionStats;
use chitta::time::Timestamp;

fn at(secs: i64) -> Timestamp {
    Timestamp { secs, nanos: 0 }
}

fn stats(rows: usize) -> ExtractionStats {
    ExtractionStats {
        candidates: vec![],
        rows_scanned: rows,
        rows_skipped: 0,
        extraction_errors: 0,
    }
}

fn result() -> SynthesisResult {
    SynthesisResult {
        clusters_formed: 3,
        clusters_emitted: 2,
        supersessions: 1,
        rows_scanned: 7,
        rows_skipped: 4,
        extraction_errors: 5,
    }
}

fn summary() -> Json {
    let n = |name: &str, n: u64| (name.to_string(), Json::Number(Number::PosInt(n)));
    Json::Object(vec![
        n("clusters_formed", 3),
        n("clusters_emitted", 2),
        n("supersessions", 1),
        n("rows_scanned", 7),
        n("rows_skipped", 4),
        n("extraction_errors", 5),
    ])
}

fn fetching() -> ReflectPipeline {
    let (mut p, action) = ReflectPipeline::begin("josh".into(), at(1));
    assert_eq!(action, ReflectAction::FindLastRun("josh".into(), "synthesis"));
    assert_eq!(
        p.step(ReflectEvent::LastRun(None)),
        Some(ReflectAction::Fetch("josh".into(), None))
    );
    p
}

#[test]
fn next_reflection_starts_at_the_watermark() {
    let mut p = fetching();
    p.step(ReflectEvent::Fetched(7));
    p.step(ReflectEvent::CheckpointRead(stats(7)));
    let record = match p.step(ReflectEvent::Synthesised(result())) {
        Some(ReflectAction::Record(_, record)) => record,
        other => panic!("expected Record, got {other:?}"),
    };
    let (mut next, _) = ReflectPipeline::begin("josh".into(), at(9));
    assert_eq!(next.step(ReflectEvent::Fetched(1)), None);
    let run = ReflectRunRow {
        id: 5,
        profile: record.profile,
        started_at: record.watermark,
        completed_at: Some(at(4)),
        rows_scanned: 7,
        summary: None,
    };
    assert_eq!(
        next.step(ReflectEvent::LastRun(Some(run))),
        Some(ReflectAction::Fetch("josh".into(), Some(at(1))))
    );
}

#[test]
fn nothing_to_reflect_on_records_nothing() {
    let mut p = fetching();
    assert_eq!(
        p.step(ReflectEvent::Fetched(0)),
        Some(ReflectAction::Finish(empty_result()))
    );
    assert_eq!(p.step(ReflectEvent::Recorded), None);
}

#[test]
fn pipeline_extracts_synthesises_and_records() {
    let file = "reflect-checkpoint-josh.json".to_string();
    let mut p = fetching();
    assert_eq!(
        p.step(ReflectEvent::Fetched(7)),
        Some(ReflectAction::ReadCheckpoint(file.clone()))
    );
    assert_eq!(
        p.step(ReflectEvent::NoCheckpoint),
        Some(ReflectAction::Extract(file.clone()))
    );
    assert_eq!(
        p.step(ReflectEvent::Extracted(stats(7))),
        Some(ReflectAction::Synthesise(stats(7)))
    );
    match p.step(ReflectEvent::Synthesised(result())) {
        Some(ReflectAction::Record(name, record)) => {
            assert_eq!(name, file);
            assert_eq!(record.profile, "josh");
            assert_eq!(record.rows, 7);
            assert_eq!(record.watermark, at(1));
            assert_eq!(record.kind, "synthesis");
            assert_eq!(record.summary, summary());
        }
        other => panic!("expected Record, got {other:?}"),
    }
    assert_eq!(
        p.step(ReflectEvent::Recorded),
        Some(ReflectAction::Finish(result()))
    );
}

#[test]
fn pipeline_resumes_from_a_checkpoint() {
    let mut p = fetching();
    p.step(ReflectEvent::Fetched(2));
    assert_eq!(
        p.step(ReflectEvent::CheckpointRead(stats(2))),
        Some(ReflectAction::Synthesise(stats(2)))
    );
}

#[test]
fn events_out_of_turn_change_nothing() {
    let mut p = fetching();
    assert_eq!(p.step(ReflectEvent::Recorded), None);
    assert_eq!(p.step(ReflectEvent::Extracted(stats(1))), None);
    assert!(p.step(ReflectEvent::Fetched(2)).is_some());
    assert_eq!(p.step(ReflectEvent::Fetched(0)), None);
    assert!(p.step(ReflectEvent::NoCheckpoint).is_some());
}

#[test]
fn checkpoint_and_summary() {
    assert_eq!(checkpoint_name("a-b"), "reflect-checkpoint-a-b.json");
    assert_eq!(summary_json(&result()), summary());
}

#[test]
fn model_is_passed_to_the_command() {
    let llm = ClaudeCliLlm::new("some-model".into());
    assert_eq!(
        llm.cli_args("be brief"),
        vec![
            "-p",
            "--output-format",
            "text",
            "--model",
            "some-model",
            "--system-prompt",
            "be brief"
        ]
    );
}

#[test]
fn command_answers_are_trimmed_and_failures_told() {
    assert_eq!(cli_answer("llm", true, "", " hello\n", "noise"), Ok("hello".to_string()));
    assert_eq!(
        cli_answer("llm", true, "", " \n", ""),
        Err(ChittaError::Internal("llm CLI returned empty response".into()))
    );
    assert_eq!(
        cli_answer("llm", false, "exit status: 1", "out", "boom"),
        Err(ChittaError::Internal("llm CLI exited exit status: 1: boom".into()))
    );
}

#[test]
fn api_answers_hold_text_in_their_first_block() {
    let block = |t: Json| Json::Object(vec![("text".into(), t)]);
    let answer = |content: Json| Json::Object(vec![("content".into(), content)]);
    let good = answer(Json::Array(vec![
        block(Json::Text("one".into())),
        block(Json::Text("two".into())),
    ]));
    assert_eq!(api_text(&good), Ok("one".to_string()));
    let missing = ChittaError::Internal("no text in API response".into());
    for bad in [
        Json::Null,
        answer(Json::Array(vec![])),
        answer(Json::Text("x".into())),
        answer(Json::Array(vec![block(Json::Null)])),
        answer(Json::Array(vec![Json::Text("x".into())])),
    ] {
        assert_eq!(api_text(&bad).unwrap_err(), missing);
    }
}

#[test]
fn api_requests_carry_both_prompts() {
    let body = api_body("m", "sys", "usr");
    assert_eq!(body.get("model"), Some(&Json::Text("m".into())));
    assert_eq!(
        body.get("max_tokens"),
        Some(&Json::Number(Number::PosInt(16384)))
    );
    let system = body.get("system").unwrap().as_array().unwrap();
    assert_eq!(system[0].get_str("text"), Some("sys"));
    assert_eq!(
        system[0].get("cache_control").unwrap().get_str("type"),
        Some("ephemeral")
    );
    let messages = body.get("messages").unwrap().as_array().unwrap();
    assert_eq!(messages[0].get_str("role"), Some("user"));
    assert_eq!(messages[0].get_str("content"), Some("usr"));
}

#[test]
fn lines_that_are_said_of_a_run() {
    assert_eq!(
        nothing_line("josh"),
        "reflect: nothing to synthesize for profile 'josh'"
    );
    assert_eq!(start_line(12, None), "reflect: 12 raw rows since (all time)");
    assert_eq!(
        start_line(1, Some("2026-05-11 00:00:00 UTC")),
        "reflect: 1 raw rows since 2026-05-11 00:00:00 UTC"
    );
    assert_eq!(
        result_line(&result()),
        "synthesis: clusters_formed=3, clusters_emitted=2, supersessions=1"
    );
}

#[test]
fn resumed_run_does_the_same() {
    let mut resumed = fetching();
    let mut fresh = fetching();
    resumed.step(ReflectEvent::Fetched(7));
    fresh.step(ReflectEvent::Fetched(7));
    fresh.step(ReflectEvent::NoCheckpoint);
    assert_eq!(
        resumed.step(ReflectEvent::CheckpointRead(stats(7))),
        fresh.step(ReflectEvent::Extracted(stats(7)))
    );
    assert_eq!(resumed, fresh);
}

#[test]
fn refused_request_is_told_with_its_status() {
    assert_eq!(check_status(true, "200 OK", "fine"), Ok(()));
    assert_eq!(
        check_status(false, "429 Too Many Requests", "slow down"),
        Err(ChittaError::Internal(
            "API returned 429 Too Many Requests: slow down".into()
        ))
    );
}
