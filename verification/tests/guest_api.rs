//! Handler invocation, formats, and metadata.

use std::cell::Cell;
use std::future::{ready, Ready};

use futures::executor::block_on;
use omnia::guest::api::{
    request_id, Client, Context, DecodeError, Encoded, ErrorBody, Format, Metadata,
};
use omnia::guest::error::{not_found, Error};

struct EchoInput {
    name: String,
    count: Option<u32>,
}

#[derive(Debug)]
struct EchoOutput {
    owner: String,
    name: String,
    count: u32,
    correlation_id: Option<String>,
}

fn echo(input: EchoInput, context: Context<()>) -> Ready<Result<EchoOutput, Error>> {
    ready(Ok(EchoOutput {
        owner: context.owner().to_owned(),
        name: input.name,
        count: input.count.unwrap_or(1),
        correlation_id: context.metadata.correlation_id.clone(),
    }))
}

#[test]
fn invoke() {
    let client = Client::new("tenant".to_owned(), ());
    let metadata = Metadata {
        correlation_id: Some("call-1".to_string()),
        ..Metadata::default()
    };
    let output = block_on(client.call(
        echo,
        EchoInput { name: "core".to_string(), count: None },
        &metadata,
    ))
    .expect("handler succeeds");
    assert_eq!(output.owner, "tenant");
    assert_eq!(output.name, "core");
    assert_eq!(output.correlation_id.as_deref(), Some("call-1"));
}

#[test]
fn invoke_with_direct_context() {
    let context = Context::new("tenant".to_owned(), (), Metadata::default());
    let output = block_on(echo(
        EchoInput { name: "direct".to_string(), count: Some(2) },
        context,
    ))
    .expect("handler succeeds");
    assert_eq!(output.owner, "tenant");
    assert_eq!(output.count, 2);
}

fn observe(step: u32, context: Context<Cell<u32>>) -> (usize, u32) {
    let provider = context.provider();
    provider.set(provider.get() + step);
    (std::ptr::from_ref(provider).addr(), provider.get())
}

#[test]
fn clones_share_one_provider() {
    let client = Client::new("test".to_owned(), Cell::new(0));
    let (first, one) = client.clone().call(observe, 1, &Metadata::default());
    let (second, two) = client.call(observe, 1, &Metadata::default());
    assert_eq!(first, second);
    assert_eq!((one, two), (1, 2));
    assert_eq!(client.owner(), "test");
    assert_eq!(client.provider().get(), 2);
}

struct Summary {
    name: String,
    count: u32,
}

fn render_summary(summary: &Summary) -> String {
    format!("{} x{}", summary.name, summary.count)
}

fn summary_json(summary: &Summary) -> Vec<u8> {
    let mut map = serde_json::Map::new();
    map.insert("name".to_owned(), serde_json::Value::from(summary.name.as_str()));
    map.insert("count".to_owned(), serde_json::Value::from(summary.count));
    serde_json::to_vec_pretty(&serde_json::Value::Object(map)).expect("a value serializes")
}

#[test]
fn format_encode_text_and_json() {
    let summary = Summary {
        name: "widget".to_string(),
        count: 3,
    };
    let text = Format::Text.encode(&summary, render_summary, summary_json);
    assert_eq!(text.media_type, "text/plain; charset=utf-8");
    assert_eq!(text.bytes, b"widget x3");

    let json = Format::Json.encode(&summary, render_summary, summary_json);
    assert_eq!(json.media_type, "application/json");
    let json = String::from_utf8(json.bytes).expect("json is utf-8");
    assert!(json.ends_with('\n'));
    assert_eq!(
        serde_json::from_str::<serde_json::Value>(&json).expect("decode json"),
        serde_json::from_str::<serde_json::Value>(r#"{"name":"widget","count":3}"#).unwrap()
    );
}

fn never(_: &Summary) -> String {
    panic!("only the format's own encoder runs")
}

#[test]
fn encode_calls_one_encoder() {
    let summary = Summary { name: "é".to_string(), count: 1 };
    let json = Format::Json.encode(&summary, never, |_| b"{}".to_vec());
    assert_eq!(json, Encoded { bytes: b"{}\n".to_vec(), media_type: "application/json" });
    let text = Format::Text.encode(&summary, |s| s.name.clone(), |_| panic!("no json"));
    assert_eq!(text.bytes, "é".as_bytes());
}

fn is_minted_id(id: &str) -> bool {
    id.len() == 32 && id.bytes().all(|byte| matches!(byte, b'0'..=b'9' | b'a'..=b'f'))
}

#[test]
fn from_lookup_mints_distinct_request_ids() {
    let first = Metadata::from_lookup(|_| None);
    let second = Metadata::from_lookup(|_| None);

    let request_id = first.request_id.as_deref().expect("request id is minted");
    assert!(is_minted_id(request_id));
    assert_eq!(first.correlation_id, first.request_id);
    assert_eq!(first.causation_id, None);
    assert_ne!(first.request_id, second.request_id);
    assert_eq!(Metadata::default().request_id, None);
}

#[test]
fn from_lookup_reads_every_id() {
    let metadata = Metadata::from_lookup(|name| match name {
        "request-id" => Some("req-1".to_owned()),
        "correlation-id" => Some("corr-1".to_owned()),
        "causation-id" => Some("cause-1".to_owned()),
        _ => None,
    });

    assert_eq!(metadata.request_id.as_deref(), Some("req-1"));
    assert_eq!(metadata.correlation_id.as_deref(), Some("corr-1"));
    assert_eq!(metadata.causation_id.as_deref(), Some("cause-1"));
    assert_eq!(metadata.deadline, None);
}

#[test]
fn from_lookup_correlation_falls_back_to_request_id() {
    let metadata = Metadata::from_lookup(|name| (name == "request-id").then(|| "req-2".to_owned()));

    assert_eq!(metadata.request_id.as_deref(), Some("req-2"));
    assert_eq!(metadata.correlation_id.as_deref(), Some("req-2"));
    assert_eq!(metadata.causation_id, None);
}

#[test]
fn minted_id_doubles_as_correlation() {
    let metadata = Metadata::minted("m-1".to_owned());
    assert_eq!(metadata.request_id.as_deref(), Some("m-1"));
    assert_eq!(metadata.correlation_id.as_deref(), Some("m-1"));
    assert_eq!(metadata.causation_id, None);
    assert_eq!(metadata.copy(), metadata);
}

#[test]
fn request_ids_are_padded_hex() {
    assert_eq!(request_id(0, 0), "0".repeat(32));
    assert_eq!(request_id(0xdead_beef, u64::MAX), format!("{:016x}{:016x}", 0xdead_beef_u64, u64::MAX));
}

#[test]
fn error_body_mirrors_the_error() {
    let body = ErrorBody::from(&not_found("no item 42"));
    assert_eq!(
        body,
        ErrorBody { error: "not_found".to_owned(), message: "no item 42".to_owned() }
    );
}

#[test]
fn decode_error_describes_itself() {
    assert_eq!(DecodeError::new("bad count".to_owned()).description(), "bad count");
}
