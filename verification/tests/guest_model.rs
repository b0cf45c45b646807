//! Lending a workspace, tool calls, and judged questions.

use omnia::guest::model::{
    lend_subpath, resolve_lend, tool_result, workspace_grant, Error, Format, Function, Generation,
    McpGrant, Message, Reply, Request, Role, Tool, ToolCall, CHECK_TOOL,
};
use omnia::guest::question::{
    default_correction, route, Correction, DefaultCorrection, Question, Route, Session,
};
use serde_json::Value;

fn preopens() -> Vec<String> {
    vec![".".to_string(), "/emery-workspaces".to_string()]
}

fn lent(path: &str) -> Option<String> {
    resolve_lend(&preopens(), path).map(|(_, sub)| sub)
}

#[test]
fn resolves_mount() {
    assert_eq!(lent(".").as_deref(), Some(""));
    assert_eq!(lent("/emery-workspaces/ws-1").as_deref(), Some("ws-1"));
    assert_eq!(lent("/emery-workspaces/ws-1/nested").as_deref(), Some("ws-1/nested"));
}

#[test]
fn refuses_paths() {
    assert!(lent("/elsewhere").is_none());
    assert!(lent("/emery-workspaces-evil/x").is_none());
    assert!(lent("/emery-workspaces/").is_none());
}

#[test]
fn longest_preopen_is_lent() {
    let names = vec!["/a".to_owned(), "/a/b".to_owned(), "/a/b".to_owned(), "/a/bc".to_owned()];
    assert_eq!(resolve_lend(&names, "/a/b/c"), Some((2, "c".to_owned())));
    assert_eq!(resolve_lend(&names, "/a/b"), Some((2, String::new())));
    assert_eq!(resolve_lend(&names, "/a/x/y"), Some((0, "x/y".to_owned())));
    assert_eq!(lend_subpath("", "/x"), Some("x".to_owned()));
    assert_eq!(lend_subpath("/é", "/é/ü"), Some("ü".to_owned()));
}

#[test]
fn workspace_is_granted_or_refused() {
    assert_eq!(workspace_grant(&preopens(), &None), Ok(None));
    assert_eq!(
        workspace_grant(&preopens(), &Some("/emery-workspaces/a".to_owned())),
        Ok(Some((1, "a".to_owned())))
    );
    let refused = workspace_grant(&preopens(), &Some("/elsewhere".to_owned())).unwrap_err();
    assert_eq!(
        refused,
        Error::InvalidRequest("workspace lend `/elsewhere` matches no preopen".to_owned())
    );
    assert_eq!(refused.text(), "invalid request: workspace lend `/elsewhere` matches no preopen");
}

#[test]
fn failures_in_words() {
    assert_eq!(Error::BudgetExhausted("b".into()).text(), "budget exhausted: b");
    assert_eq!(Error::ToolFailed("t".into()).text(), "tool failed: t");
    assert_eq!(Error::Backend("p".into()).text(), "backend failure: p");
}

fn call(name: &str, arguments: &str) -> ToolCall {
    ToolCall {
        id: "call-1".to_owned(),
        name: name.to_owned(),
        arguments: arguments.to_owned(),
    }
}

#[derive(Debug, PartialEq, Clone)]
struct Verdict {
    verdict: String,
    findings: Vec<String>,
}

fn invalid(message: &str) -> serde_json::Error {
    <serde_json::Error as serde::de::Error>::custom(message)
}

fn parse_verdict(text: &str) -> Result<Verdict, serde_json::Error> {
    let value: Value = serde_json::from_str(text)?;
    let verdict = value["verdict"].as_str().ok_or_else(|| invalid("missing field `verdict`"))?;
    let findings = match value["findings"].as_array() {
        Some(list) => list.iter().map(|f| f.as_str().unwrap_or_default().to_owned()).collect(),
        None => Vec::new(),
    };
    Ok(Verdict { verdict: verdict.to_owned(), findings })
}

#[test]
fn tool_call_arguments() {
    let call = call("judge", r#"{"verdict":"pass"}"#);
    assert_eq!(call.arguments(parse_verdict).expect("valid arguments").verdict, "pass");
    let error = call
        .arguments(|text| serde_json::from_str::<Vec<u8>>(text))
        .expect_err("an object is not an array");
    assert!(error.starts_with("invalid arguments"), "{error}");
}

#[test]
fn unhandled_calls_fail_back() {
    assert_eq!(
        call("lookup", "{}").unhandled(),
        "tool `lookup` has no handler: answer tool calls with complete_with"
    );
    let result = tool_result(&call("lookup", "{}"), Ok("found".to_owned()));
    assert_eq!(result.id, "call-1");
    assert_eq!(result.output, Ok("found".to_owned()));
}

const SCHEMA: &str = r#"{"properties":{"verdict":{"type":"string"}},"required":["verdict"]}"#;

#[test]
fn schema_hint() {
    let question = Question::new("verdict", SCHEMA.to_owned()).schema(|mut schema| {
        schema["properties"]["verdict"]["enum"] = Value::from(vec!["pass", "fail"]);
        schema
    });
    let Format::Schema(steer) = &question.request().format else {
        panic!("a question steers by schema");
    };
    assert_eq!(steer.name, "verdict");
    let schema: Value = serde_json::from_str(&steer.schema).expect("schema is JSON");
    assert_eq!(schema["properties"]["verdict"]["enum"], Value::from(vec!["pass", "fail"]));
    assert!(question.request().check);
}

#[test]
fn schema_that_is_not_json_stays() {
    let question = Question::new("verdict", "{".to_owned()).schema(|_| panic!("never edited"));
    let Format::Schema(steer) = &question.request().format else {
        panic!("a question steers by schema");
    };
    assert_eq!(steer.schema, "{");
}

#[test]
fn correction_template() {
    let text =
        default_correction("{}", &vec!["missing verdict".to_owned(), "too short".to_owned()]);
    assert!(text.starts_with("## Previous answer (rejected)\n\n{}\n\n## Findings\n\n"));
    assert!(text.contains("missing verdict\ntoo short"), "{text}");
    assert!(text
        .ends_with("\n\nProduce a corrected, complete answer that resolves every finding."));
}

/// What a scripted completion saw and gave.
struct Exchange {
    tool: String,
    outcome: Result<String, String>,
}

/// A backend that first makes the given calls, then proposes the candidates in
/// turn until one is accepted, and runs out of rounds where none is.
fn ask<C: Correction>(
    question: &Question<C>,
    calls: Vec<ToolCall>,
    candidates: &[&str],
    handler: Option<fn(&ToolCall) -> Result<String, String>>,
) -> (Result<Verdict, Error>, Vec<Exchange>) {
    let mut session: Session<Verdict> = Session::new();
    let mut exchanges = Vec::new();
    for call in calls {
        let outcome = question.answer(&mut session, &call, parse_verdict, strict, handler);
        exchanges.push(Exchange { tool: call.name, outcome });
    }
    let mut outcome = Err(Error::BudgetExhausted(String::new()));
    for text in candidates {
        let candidate = call(CHECK_TOOL, text);
        let answer = question.answer(&mut session, &candidate, parse_verdict, strict, handler);
        exchanges.push(Exchange { tool: candidate.name, outcome: answer.clone() });
        match answer {
            Ok(_) => {
                outcome = Ok(Reply { answer: candidate.arguments, usage: None });
                break;
            }
            Err(correction) => outcome = Err(Error::BudgetExhausted(correction)),
        }
    }
    (session.finish(outcome), exchanges)
}

// Passes only a "pass" verdict with no findings.
fn strict(verdict: &Verdict) -> Result<(), Vec<String>> {
    let mut findings = Vec::new();
    if verdict.verdict != "pass" {
        findings.push("verdict must be `pass`".to_owned());
    }
    if !verdict.findings.is_empty() {
        findings.push("findings must be empty".to_owned());
    }
    if findings.is_empty() {
        Ok(())
    } else {
        Err(findings)
    }
}

fn question() -> Question<DefaultCorrection> {
    Question::new("verdict", SCHEMA.to_owned()).system("judge".to_owned())
}

#[test]
fn accepted() {
    let seen = question().begin("judge this".to_owned());
    assert!(seen.check);
    assert_eq!(seen.system.as_deref(), Some("judge"));
    assert_eq!(
        seen.messages,
        vec![Message { role: Role::User, content: "judge this".to_owned() }]
    );

    let (verdict, exchanges) =
        ask(&question(), vec![], &[r#"{"verdict":"pass","findings":[]}"#], None);
    assert_eq!(verdict.expect("a verdict").verdict, "pass");
    assert_eq!(exchanges[0].tool, "check");
}

#[test]
fn corrected() {
    let (verdict, exchanges) = ask(
        &question(),
        vec![],
        &[r#"{"verdict":"fail","findings":["x"]}"#, r#"{"verdict":"pass","findings":[]}"#],
        None,
    );
    assert_eq!(verdict.expect("a verdict").verdict, "pass");
    assert_eq!(exchanges.len(), 2);
    let correction = exchanges[0].outcome.clone().expect_err("the first candidate is rejected");
    assert!(correction.contains("## Previous answer (rejected)"), "{correction}");
    assert!(correction.contains(r#"{"verdict":"fail","findings":["x"]}"#), "{correction}");
    assert!(correction.contains("## Findings\n\nverdict must be `pass`\nfindings must be empty"));
    assert_eq!(exchanges[1].outcome, Ok(String::new()));
}

#[test]
fn exhausted() {
    let (outcome, _) = ask(&question(), vec![], &[r#"{"verdict":"fail","findings":[]}"#], None);
    let Err(Error::BudgetExhausted(correction)) = outcome else {
        panic!("expected budget-exhausted, got {outcome:?}");
    };
    assert!(correction.contains("verdict must be `pass`"), "{correction}");
}

#[test]
fn mismatch() {
    let (outcome, _) = ask(&question(), vec![], &[r#"{"other":1}"#], None);
    let Err(Error::InvalidRequest(detail)) = outcome else {
        panic!("expected invalid-request, got {outcome:?}");
    };
    assert!(detail.contains("schema and answer type disagree"), "{detail}");
    assert!(detail.contains("missing field"), "{detail}");
}

#[test]
fn mismatch_then_accepted_is_the_models_miss() {
    let (verdict, _) = ask(
        &question(),
        vec![],
        &[r#"{"other":1}"#, r#"{"verdict":"pass","findings":[]}"#],
        None,
    );
    assert_eq!(verdict.expect("a verdict").verdict, "pass");
}

#[test]
fn unchecked_backend() {
    // A backend that ignores `check` returns a reply nothing accepted.
    let session: Session<Verdict> = Session::new();
    let reply = Reply { answer: r#"{"verdict":"pass"}"#.to_owned(), usage: None };
    let error = session.finish(Ok(reply)).expect_err("no accepted answer");
    assert_eq!(
        error,
        Error::Backend("the backend finished without running the check".to_owned())
    );
}

#[test]
fn finish_after_a_rejection_is_a_backend_failure() {
    let mut session: Session<Verdict> = Session::new();
    let rejected = question().judge(
        &mut session,
        &call(CHECK_TOOL, "{}"),
        Ok(Verdict { verdict: "fail".to_owned(), findings: vec![] }),
        strict,
    );
    assert!(rejected.is_err());
    let reply = Reply { answer: String::new(), usage: None };
    assert_eq!(
        session.finish(Ok(reply)),
        Err(Error::Backend("the backend finished on a candidate the check rejected".to_owned()))
    );
}

#[test]
fn other_host_errors_pass_through() {
    let mut session: Session<Verdict> = Session::new();
    let _ = question().answer(
        &mut session,
        &call(CHECK_TOOL, "{}"),
        parse_verdict,
        strict,
        None::<fn(&ToolCall) -> Result<String, String>>,
    );
    assert!(session.mismatch.is_some());
    assert_eq!(
        session.finish(Err(Error::ToolFailed("boom".to_owned()))),
        Err(Error::ToolFailed("boom".to_owned()))
    );
}

fn look_up(call: &ToolCall) -> Result<String, String> {
    Ok(format!("looked up {}", call.arguments))
}

#[test]
fn other_tools_reach_the_callers_handler() {
    let (verdict, exchanges) = ask(
        &question(),
        vec![call("lookup", r#"{"id":1}"#)],
        &[r#"{"verdict":"pass","findings":[]}"#],
        Some(look_up),
    );
    verdict.expect("a verdict");
    assert_eq!(exchanges[0].tool, "lookup");
    assert_eq!(exchanges[0].outcome, Ok(r#"looked up {"id":1}"#.into()));
    assert_eq!(exchanges[1].tool, "check");
}

#[test]
fn no_tools_refuses_a_tool_call() {
    let (verdict, exchanges) = ask(
        &question(),
        vec![call("lookup", "{}")],
        &[r#"{"verdict":"pass","findings":[]}"#],
        None,
    );
    verdict.expect("a verdict");
    let refusal = exchanges[0].outcome.clone().expect_err("no handler");
    assert!(refusal.contains("tool `lookup` has no handler"), "{refusal}");
    assert_eq!(route(&call("check", ""), false), Route::Check);
    assert_eq!(route(&call("lookup", ""), true), Route::Tools);
}

struct Terse;

impl Correction for Terse {
    fn render(&self, previous: &str, findings: &Vec<String>) -> String {
        format!("{previous}: {}", findings.join(", "))
    }
}

#[test]
fn correction_is_replaceable() {
    let (_, exchanges) =
        ask(&question().correction(Terse), vec![], &[r#"{"verdict":"fail"}"#], None);
    assert_eq!(
        exchanges[0].outcome,
        Err(r#"{"verdict":"fail"}: verdict must be `pass`"#.to_owned())
    );
}

#[test]
fn questions_build_their_request() {
    let tools = vec![
        Tool::Function(Function {
            name: "judge".to_owned(),
            description: "judge a claim".to_owned(),
            parameters: "{}".to_owned(),
        }),
        Tool::Mcp(McpGrant {
            name: "docs".to_owned(),
            tools: vec!["search".to_owned()],
            url: "http://localhost".to_owned(),
        }),
    ];
    let question = question()
        .model("m-1".to_owned())
        .messages(vec![Message { role: Role::Assistant, content: "hi".to_owned() }])
        .tools(tools)
        .workspace(".".to_owned());
    let request = question.begin("turn".to_owned());
    assert_eq!(request.model.as_deref(), Some("m-1"));
    assert_eq!(request.workspace.as_deref(), Some("."));
    assert_eq!(request.messages.len(), 2);
    assert_eq!(request.messages[1].content, "turn");
    assert_eq!(&request.tools, &question.request().tools);
    assert_eq!(question.request().messages.len(), 1, "asking leaves the question as it was");
}

#[test]
fn requests_copy_whole() {
    let mut request = Request::new();
    request.generation = Some(Generation {
        temperature: Some(0.5_f32.to_bits()),
        top_p: None,
        max_tokens: Some(9),
        stop: vec!["###".to_owned()],
        seed: Some(1),
        effort: None,
    });
    assert_eq!(request.copy(), request);
}
