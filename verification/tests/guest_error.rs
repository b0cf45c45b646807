//! The error taxonomy: exit and status maps, shortcuts, and conversions.

use std::fmt;

use anyhow::Context;
use omnia::guest::error::{bad_gateway, bad_request, not_found, server_error, Error};

/// A domain error as a standard one, so that `anyhow` can carry it.
#[derive(Debug)]
struct Domain(Error);

impl fmt::Display for Domain {
    fn fmt(&self, f: &mut fmt::Formatter<'_>) -> fmt::Result {
        f.write_str(&self.0.text())
    }
}

impl std::error::Error for Domain {}

fn classify(err: &anyhow::Error) -> Error {
    Error::from_anyhow(err, err.downcast_ref::<Domain>().map(|domain| &domain.0))
}

#[test]
fn with_context() {
    let result = Err::<(), Domain>(Domain(bad_request("invalid input")))
        .context("doing something")
        .context("more context");
    let err = classify(&result.unwrap_err());
    assert_eq!(
        err.text(),
        bad_request("more context: doing something: code: bad_request, description: invalid input")
            .text()
    );
}

#[test]
fn r9k_context() {
    let result =
        Err::<(), Domain>(Domain(server_error("server error"))).context("request context");
    let err = classify(&result.unwrap_err());
    assert_eq!(
        err.text(),
        "code: server_error, description: request context: code: server_error, description: server error"
    );
}

#[test]
fn anyhow_context() {
    let result = Err::<(), anyhow::Error>(anyhow::Error::msg("one-off error"))
        .context("error context");
    let err = classify(&result.unwrap_err());
    assert_eq!(err.text(), "code: server_error, description: error context: one-off error");
}

#[test]
fn serde_context() {
    let result: Result<serde_json::Value, anyhow::Error> =
        serde_json::from_str(r#"{"foo": "bar""#).context("error context");
    let err = classify(&result.unwrap_err());
    assert_eq!(
        err.text(),
        "code: server_error, description: error context: EOF while parsing an object at line 1 column 13"
    );
}

#[test]
fn shortcut_macros_format() {
    let field = "name";
    assert_eq!(
        bad_request(&format!("invalid field: {field}")).description(),
        "invalid field: name"
    );
    assert_eq!(not_found(&format!("missing {field}")).description(), "missing name");
    assert_eq!(server_error(&format!("failed {field}")).description(), "failed name");
    assert_eq!(bad_gateway(&format!("upstream {field}")).description(), "upstream name");

    let err = bad_request(&format!("invalid field: {field}", field = "other"));
    assert_eq!(err.code(), "bad_request");
    assert_eq!(err.description(), "invalid field: other");

    let id = "abc";
    let name = ["spec", "md"].join(".");
    let reason = "invalid utf-8";
    assert_eq!(
        server_error(&format!(
            "revision `{id}` contains `{name}` but it is not UTF-8 ({reason})"
        ))
        .description(),
        ["revision `abc` contains `spec", "md` but it is not UTF-8 (invalid utf-8)"].join(".")
    );
    assert_eq!(
        server_error(&format!(
            "revision `{}` contains `{}` but it is not UTF-8 ({})",
            id, name, reason
        ))
        .description(),
        ["revision `abc` contains `spec", "md` but it is not UTF-8 (invalid utf-8)"].join(".")
    );
}

#[test]
fn exit_map() {
    assert_eq!(bad_request("x").exit_code(), 1);
    assert_eq!(not_found("x").exit_code(), 2);
    assert_eq!(server_error("x").exit_code(), 3);
    assert_eq!(bad_gateway("x").exit_code(), 4);
}

#[test]
fn status_map() {
    assert_eq!(bad_request("x").status(), 400);
    assert_eq!(not_found("x").status(), 404);
    assert_eq!(server_error("x").status(), 500);
    assert_eq!(bad_gateway("x").status(), 502);
}

#[test]
fn shortcut_macros_display() {
    let msg = String::from("missing widget");
    let err = not_found(&msg);
    assert_eq!(err.code(), "not_found");
    assert_eq!(err.description(), "missing widget");

    let cause = anyhow::Error::msg("upstream timeout");
    let err = bad_gateway(&cause.to_string());
    assert_eq!(err.code(), "bad_gateway");
    assert_eq!(err.description(), "upstream timeout");
}

#[test]
fn refused_json_is_a_bad_request() {
    let error = serde_json::from_str::<serde_json::Value>("{").unwrap_err();
    let err = Error::from_json(&error);
    assert_eq!(err.exit_code(), 1);
    assert_eq!(err.code(), "serde_json");
    assert_eq!(err.description(), error.to_string());
}

#[test]
fn chains_keep_the_inner_code() {
    let inner = Error::BadGateway { code: "upstream".to_owned(), description: "x".to_owned() };
    let texts = vec!["outer".to_owned(), "inner".to_owned()];
    let err = Error::from_chain(&texts, Some(&inner));
    assert_eq!(
        err,
        Error::BadGateway { code: "upstream".to_owned(), description: "outer: inner".to_owned() }
    );
}
