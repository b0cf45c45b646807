//! Command façade contracts: argv outcomes, the failure envelope, the
//! projector, and the exit boundary.

use std::fmt;

use clap::{Arg, Command as Grammar};
use omnia::guest::api::{Client, Context, Format, Metadata};
use omnia::guest::command::{
    env_key, parse, refused, write_channel, ChannelFault, Command, Failure, IntoExit, Parsed,
    Remedy, Response, UsageError, USAGE_EXIT,
};
use omnia::guest::error::{bad_request, not_found, Error};
use serde_json::Value;

#[test]
fn env_key_prefix() {
    assert_eq!(env_key("CLI", "request-id"), "CLI_REQUEST_ID");
    assert_eq!(env_key("CLI", "correlation-id"), "CLI_CORRELATION_ID");
    assert_eq!(env_key("EXIT_MAP", "causation-id"), "EXIT_MAP_CAUSATION_ID");
}

#[test]
fn broken_pipe() {
    assert_eq!(write_channel(Err(ChannelFault::BrokenPipe)), Ok(()));
}

#[test]
fn refused_channel() {
    assert_eq!(
        write_channel(Err(ChannelFault::Refused("permission denied".to_owned()))),
        Err(3)
    );
    assert_eq!(write_channel(Ok(())), Ok(()));
}

/// The grammar's verb and name, or what the argument parser says instead.
fn parse_argv(argv: &[&str]) -> Parsed<(String, String)> {
    let grammar = Grammar::new("app")
        .bin_name("app")
        .version("1.2.3")
        .subcommand_required(true)
        .arg(Arg::new("format").long("format").default_value("text").global(true))
        .subcommand(Grammar::new("greet").arg(Arg::new("name").required(true)));
    let outcome = grammar.try_get_matches_from(argv);
    parse(match outcome {
        Ok(matches) => {
            let (_, greet) = matches.subcommand().expect("a verb is required");
            Ok((
                greet.get_one::<String>("format").expect("defaulted").clone(),
                greet.get_one::<String>("name").expect("required").clone(),
            ))
        }
        Err(error) => Err(UsageError {
            rendered: error.render().to_string(),
            use_stderr: error.use_stderr(),
        }),
    })
}

#[test]
fn parse_app() {
    let Parsed::App((format, name)) = parse_argv(&["app", "--format", "json", "greet", "ada"])
    else {
        panic!("argv parses into the grammar");
    };
    assert_eq!(format, "json");
    assert_eq!(name, "ada");
}

#[test]
fn help_is_display_not_usage() {
    let Parsed::Display(text) = parse_argv(&["app", "--help"]) else {
        panic!("help is a display outcome");
    };
    assert!(text.contains("Usage: app"));
    assert!(text.contains("greet"));
}

#[test]
fn version_is_display() {
    let Parsed::Display(text) = parse_argv(&["app", "--version"]) else {
        panic!("version is a display outcome");
    };
    assert_eq!(text.trim(), "app 1.2.3");
}

#[test]
fn usage_error_exits_64() {
    let Parsed::Usage(error) = parse_argv(&["app", "bogus"]) else {
        panic!("an unknown verb is a usage error");
    };
    let response = Response::usage(&error);

    assert_eq!(response.exit, USAGE_EXIT);
    assert_eq!(response.exit, 64);
    assert!(response.stdout.is_empty());
    let stderr = String::from_utf8(response.stderr).expect("clap renders utf-8");
    assert!(stderr.contains("bogus"));
    assert!(stderr.contains("Usage: app"));
}

/// The flat wire shape of a failure.
fn failure_value(failure: &Failure) -> Value {
    let body = failure.body();
    let mut map = serde_json::Map::new();
    map.insert("error".to_owned(), Value::from(body.error));
    map.insert("message".to_owned(), Value::from(body.message));
    map.insert("exit-code".to_owned(), Value::from(failure.exit_code()));
    if let Some(hint) = failure.hint() {
        map.insert("hint".to_owned(), Value::from(hint));
    }
    Value::Object(map)
}

fn failure_json(failure: &Failure) -> Vec<u8> {
    serde_json::to_vec_pretty(&failure_value(failure)).expect("a value serializes")
}

fn json(text: &str) -> Value {
    serde_json::from_str(text).expect("valid JSON")
}

#[test]
fn failure_json_is_flat_kebab_envelope() {
    let plain = Failure::from(not_found("no item 42"));
    assert_eq!(plain.exit_code(), 2);
    assert_eq!(plain.hint(), None);
    assert_eq!(
        failure_value(&plain),
        json(r#"{ "error": "not_found", "message": "no item 42", "exit-code": 2 }"#)
    );

    let hinted =
        Failure::from(bad_request("name is required")).with_hint("pass --name".to_owned());
    assert_eq!(hinted.body().error, "bad_request");
    assert_eq!(
        failure_value(&hinted),
        json(
            r#"{ "error": "bad_request", "message": "name is required", "exit-code": 1,
                 "hint": "pass --name" }"#
        )
    );
}

#[test]
fn failure_text_with_hint() {
    let failure = Failure::from(not_found("no item 42")).with_hint("run `app list`".to_owned());
    let text = failure.text();
    assert_eq!(text, "error[not_found]: no item 42\nhint: run `app list`\n");

    let encoded = Format::Text.encode(&failure, Failure::text, failure_json);
    assert_eq!(encoded.bytes, text.into_bytes());
}

#[derive(Debug)]
struct Domain(Error);

impl fmt::Display for Domain {
    fn fmt(&self, f: &mut fmt::Formatter<'_>) -> fmt::Result {
        f.write_str(&self.0.text())
    }
}

impl std::error::Error for Domain {}

#[test]
fn failure_from_anyhow_classifies_through_error() {
    let foreign = Failure::from_anyhow(&anyhow::Error::msg("disk on fire"), None);
    assert_eq!(foreign.error().code(), "server_error");
    assert_eq!(foreign.error().description(), "disk on fire");
    assert_eq!(foreign.exit_code(), 3);

    let wrapped = anyhow::Error::from(Domain(not_found("gone")));
    let inner = wrapped.downcast_ref::<Domain>().map(|domain| &domain.0);
    let domain = Failure::from_anyhow(&wrapped, inner);
    assert_eq!(domain.exit_code(), 2);
}

#[test]
fn completions_bash_nonempty() {
    let mut grammar = Grammar::new("app").subcommand(Grammar::new("greet"));
    let mut out = Vec::new();
    clap_complete::generate(clap_complete::Shell::Bash, &mut grammar, "app", &mut out);
    let response = Response::success(out);

    assert_eq!(response.exit, 0);
    assert!(response.stderr.is_empty());
    let script = String::from_utf8(response.stdout).expect("completion script is utf-8");
    assert!(script.contains("_app"));
    assert!(script.contains("greet"));
}

#[test]
fn into_exit_passes_status() {
    assert_eq!(Response::success(Vec::new()).into_exit(Ok(()), Ok(())), Ok(()));
    assert_eq!(Response::failure(Vec::new(), 2).into_exit(Ok(()), Ok(())), Err(2));
    assert_eq!(Response::failure(Vec::new(), USAGE_EXIT).into_exit(Ok(()), Ok(())), Err(64));
}

#[test]
fn into_exit_prefers_a_refused_channel() {
    let refused = || Err(ChannelFault::Refused("closed".to_owned()));
    assert_eq!(Response::success(Vec::new()).into_exit(refused(), Ok(())), Err(3));
    assert_eq!(Response::failure(Vec::new(), 2).into_exit(Ok(()), refused()), Err(3));
    assert_eq!(
        Response::failure(Vec::new(), 2).into_exit(
            Err(ChannelFault::BrokenPipe),
            Err(ChannelFault::BrokenPipe)
        ),
        Err(2)
    );
}

#[test]
fn plain_entries_into_exit() {
    assert_eq!(().into_exit(), Ok(()));
    assert_eq!(Err(7).into_exit(), Err(7));
    assert_eq!(Ok(()).into_exit(), Ok(()));
}

struct Greeting {
    text: String,
}

fn greet(name: String, _context: Context<()>) -> Result<Greeting, Failure> {
    Ok(Greeting { text: format!("hello, {name}") })
}

fn render_greeting(greeting: &Greeting) -> String {
    format!("{}\n", greeting.text)
}

fn greeting_json(greeting: &Greeting) -> Vec<u8> {
    let mut map = serde_json::Map::new();
    map.insert("text".to_owned(), Value::from(greeting.text.as_str()));
    serde_json::to_vec_pretty(&Value::Object(map)).expect("a value serializes")
}

fn lookup(id: String, _context: Context<()>) -> Result<Greeting, Failure> {
    Err(Failure::from(not_found(&format!("no item {id}"))))
}

fn render_never(_: &Greeting) -> String {
    panic!("a failure never renders the success body")
}

fn json_never(_: &Greeting) -> Vec<u8> {
    panic!("a failure never renders the success body")
}

fn ada() -> Result<String, Error> {
    Ok("ada".to_owned())
}

fn item() -> Result<String, Error> {
    Ok("42".to_owned())
}

fn nameless() -> Result<String, Error> {
    Err(bad_request("name is required"))
}

fn stderr_json(response: &Response) -> Value {
    serde_json::from_slice(&response.stderr).expect("stderr carries the JSON envelope")
}

#[test]
fn call_success_text() {
    let client = Client::new("app".to_owned(), ());
    let metadata = Metadata::default();
    let response = Command::new(&client, &metadata, Format::Text).call(
        greet,
        ada,
        render_greeting,
        greeting_json,
        failure_json,
    );
    assert_eq!(response.exit, 0);
    assert!(response.stderr.is_empty());
    assert_eq!(response.stdout, b"hello, ada\n");
}

#[test]
fn call_success_json_pretty_with_newline() {
    let client = Client::new("app".to_owned(), ());
    let metadata = Metadata::default();
    let response = Command::new(&client, &metadata, Format::Json).call(
        greet,
        ada,
        render_greeting,
        greeting_json,
        failure_json,
    );
    assert_eq!(response.exit, 0);
    let stdout = String::from_utf8(response.stdout).expect("json is utf-8");
    assert!(stdout.ends_with("}\n"));
    assert!(stdout.contains("\n  \"text\""));
    assert_eq!(json(&stdout), json(r#"{ "text": "hello, ada" }"#));
}

#[test]
fn call_handler_error_envelope_exit() {
    let client = Client::new("app".to_owned(), ());
    let metadata = Metadata::default();
    let command = Command::new(&client, &metadata, Format::Json);
    let response = command.call(lookup, item, render_never, json_never, failure_json);
    assert_eq!(response.exit, 2);
    assert!(response.stdout.is_empty());
    assert_eq!(
        stderr_json(&response),
        json(r#"{ "error": "not_found", "message": "no item 42", "exit-code": 2 }"#)
    );

    let text = Command::new(&client, &metadata, Format::Text).call(
        lookup,
        item,
        render_never,
        json_never,
        failure_json,
    );
    assert_eq!(text.exit, 2);
    assert_eq!(text.stderr, b"error[not_found]: no item 42\n");
}

#[test]
fn call_decode_error_uses_error_exit() {
    let client = Client::new("app".to_owned(), ());
    let metadata = Metadata::default();
    let response = Command::new(&client, &metadata, Format::Json).call(
        greet,
        nameless,
        render_never,
        json_never,
        failure_json,
    );
    assert_eq!(response.exit, 1);
    assert_eq!(stderr_json(&response)["error"], "bad_request");
    assert_eq!(stderr_json(&response)["exit-code"], 1);
}

struct ListHint;

impl Remedy for ListHint {
    fn hint(&self, error: &Error) -> Option<String> {
        (error.code() == "not_found").then(|| "run `app list` to see the items".to_owned())
    }
}

#[test]
fn hints_apply_by_error() {
    let client = Client::new("app".to_owned(), ());
    let metadata = Metadata::default();
    let command = Command::new(&client, &metadata, Format::Text).hints(ListHint);

    let hinted = command.call(lookup, item, render_never, json_never, failure_json);
    assert_eq!(hinted.exit, 2);
    assert_eq!(
        hinted.stderr,
        b"error[not_found]: no item 42\nhint: run `app list` to see the items\n"
    );

    let unhinted = command.call(greet, nameless, render_never, json_never, failure_json);
    assert_eq!(unhinted.exit, 1);
    assert_eq!(unhinted.stderr, b"error[bad_request]: name is required\n");
}

#[test]
fn own_hint_stands() {
    let failure = Failure::from(not_found("gone")).with_hint("own".to_owned());
    let response = refused(Format::Text, failure, Some("other".to_owned()), failure_json);
    assert_eq!(response.stderr, b"error[not_found]: gone\nhint: own\n");
    assert_eq!(response.exit, 2);
}
