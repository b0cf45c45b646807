//! Errors

use crate::text::join;
use anyhow::Error as AnyhowError;
use serde_json::Error as JsonError;
use vstd::prelude::*;
use vstd::string::StringExecFns;

verus! {

/// `anyhow::Error`: an error of any type, with the contexts attached to it.
#[verifier::external_type_specification]
#[verifier::external_body]
pub struct ExAnyhow(AnyhowError);

/// `serde_json::Error`: why a JSON document was refused.
#[verifier::external_type_specification]
#[verifier::external_body]
pub struct ExJson(JsonError);

/// `anyhow::Error::chain`, each link by its `Display` text: the error itself
/// first, then what caused it. There is always at least one link. The texts
/// are those of whatever types the error holds, so none of them is stated.
#[verifier::external_body]
fn chain_texts(err: &AnyhowError) -> (texts: Vec<String>)
    ensures
        texts@.len() >= 1,
{
    err.chain().map(ToString::to_string).collect()
}

/// The `Display` text of a `serde_json::Error`. It is read from an opaque
/// value, so nothing is stated of it.
#[verifier::external_body]
fn json_error_text(err: &JsonError) -> (text: String) {
    err.to_string()
}

/// The messages of an `anyhow` error: its own first, then those of what caused
/// it. They are read from an opaque value, so a contract speaks of them through
/// this function alone.
#[must_use]
pub fn messages(err: &AnyhowError) -> (texts: Vec<String>)
    ensures
        texts@.len() >= 1,
{
    chain_texts(err)
}

/// Why a JSON document was refused, in `serde_json`'s words. They are read from
/// an opaque value, so a contract speaks of them through this function alone.
#[must_use]
pub fn refusal_text(err: &JsonError) -> (text: String) {
    json_error_text(err)
}

/// Domain level error type returned by the adapter.
#[derive(Debug, Clone, PartialEq, Eq)]
pub enum Error {
    /// Request payload is invalid or missing required fields.
    BadRequest {
        /// The error code.
        code: String,
        /// The error description.
        description: String,
    },
    /// Resource or data not found.
    NotFound {
        /// The error code.
        code: String,
        /// The error description.
        description: String,
    },
    /// A non recoverable internal error occurred.
    ServerError {
        /// The error code.
        code: String,
        /// The error description.
        description: String,
    },
    /// An upstream dependency failed while fulfilling the request.
    BadGateway {
        /// The error code.
        code: String,
        /// The error description.
        description: String,
    },
}

/// What kind of failure an [`Error`] is.
pub enum Kind {
    BadRequest,
    NotFound,
    ServerError,
    BadGateway,
}

impl Error {
    pub open spec fn kind(self) -> Kind {
        match self {
            Error::BadRequest { .. } => Kind::BadRequest,
            Error::NotFound { .. } => Kind::NotFound,
            Error::ServerError { .. } => Kind::ServerError,
            Error::BadGateway { .. } => Kind::BadGateway,
        }
    }

    pub open spec fn code_spec(self) -> String {
        match self {
            Error::BadRequest { code, .. } => code,
            Error::NotFound { code, .. } => code,
            Error::ServerError { code, .. } => code,
            Error::BadGateway { code, .. } => code,
        }
    }

    pub open spec fn description_spec(self) -> String {
        match self {
            Error::BadRequest { description, .. } => description,
            Error::NotFound { description, .. } => description,
            Error::ServerError { description, .. } => description,
            Error::BadGateway { description, .. } => description,
        }
    }

    pub open spec fn exit_spec(self) -> u8 {
        match self.kind() {
            Kind::BadRequest => 1,
            Kind::NotFound => 2,
            Kind::ServerError => 3,
            Kind::BadGateway => 4,
        }
    }

    /// Returns the HTTP status code associated with the variant.
    #[must_use]
    pub fn status(&self) -> (status: u16)
        ensures
            status == match self.kind() {
                Kind::BadRequest => 400u16,
                Kind::NotFound => 404u16,
                Kind::ServerError => 500u16,
                Kind::BadGateway => 502u16,
            },
    {
        match self {
            Error::BadRequest { .. } => 400,
            Error::NotFound { .. } => 404,
            Error::ServerError { .. } => 500,
            Error::BadGateway { .. } => 502,
        }
    }

    /// Returns the process exit code associated with the variant.
    #[must_use]
    pub fn exit_code(&self) -> (exit: u8)
        ensures
            exit == self.exit_spec(),
            exit != 0,
    {
        match self {
            Error::BadRequest { .. } => 1,
            Error::NotFound { .. } => 2,
            Error::ServerError { .. } => 3,
            Error::BadGateway { .. } => 4,
        }
    }

    /// Returns the error code for the variant.
    #[must_use]
    pub fn code(&self) -> (code: String)
        ensures
            code == self.code_spec(),
    {
        match self {
            Error::BadRequest { code, .. } => code.clone(),
            Error::NotFound { code, .. } => code.clone(),
            Error::ServerError { code, .. } => code.clone(),
            Error::BadGateway { code, .. } => code.clone(),
        }
    }

    /// Returns the error description.
    #[must_use]
    pub fn description(&self) -> (description: String)
        ensures
            description == self.description_spec(),
    {
        match self {
            Error::BadRequest { description, .. } => description.clone(),
            Error::NotFound { description, .. } => description.clone(),
            Error::ServerError { description, .. } => description.clone(),
            Error::BadGateway { description, .. } => description.clone(),
        }
    }

    pub open spec fn text_spec(self) -> Seq<char> {
        "code: "@ + self.code_spec()@ + ", description: "@ + self.description_spec()@
    }

    /// The error in words.
    #[must_use]
    pub fn text(&self) -> (text: String)
        ensures
            text@ == self.text_spec(),
    {
        String::from_str("code: ").concat(self.code().as_str()).concat(", description: ").concat(
            self.description().as_str(),
        )
    }

    /// The error that a chain of messages reports: that of the `inner` error
    /// which the chain wraps, with the whole chain as its description, or an
    /// internal error where it wraps none.
    #[must_use]
    pub fn from_chain(texts: &Vec<String>, inner: Option<&Error>) -> (e: Error)
        ensures
            e.description_spec()@ == crate::text::joined(crate::text::views(texts@), ": "@),
            match inner {
                Some(error) => e.kind() == error.kind() && e.code_spec() == error.code_spec(),
                None => e.kind() is ServerError && e.code_spec()@ == "server_error"@,
            },
    {
        let description = join(texts, ": ");
        match inner {
            Some(Error::BadRequest { code, .. }) => Error::BadRequest {
                code: code.clone(),
                description,
            },
            Some(Error::NotFound { code, .. }) => Error::NotFound {
                code: code.clone(),
                description,
            },
            Some(Error::ServerError { code, .. }) => Error::ServerError {
                code: code.clone(),
                description,
            },
            Some(Error::BadGateway { code, .. }) => Error::BadGateway {
                code: code.clone(),
                description,
            },
            None => Error::ServerError { code: String::from_str("server_error"), description },
        }
    }

    /// The error that an `anyhow` error reports; `inner` is the [`Error`] that
    /// it wraps, if it wraps one.
    #[must_use]
    pub fn from_anyhow(err: &AnyhowError, inner: Option<&Error>) -> (e: Error)
        ensures
            exists|texts: Vec<String>| #[trigger]
                call_ensures(messages, (err,), texts) && e.description_spec()@
                    == crate::text::joined(crate::text::views(texts@), ": "@),
            match inner {
                Some(error) => e.kind() == error.kind() && e.code_spec() == error.code_spec(),
                None => e.kind() is ServerError && e.code_spec()@ == "server_error"@,
            },
    {
        let texts = messages(err);
        Error::from_chain(&texts, inner)
    }

    /// The error that a refused JSON document reports.
    #[must_use]
    pub fn from_json(err: &JsonError) -> (e: Error)
        ensures
            e.kind() is BadRequest,
            e.code_spec()@ == "serde_json"@,
            exists|text: String| #[trigger]
                call_ensures(refusal_text, (err,), text) && e.description_spec() == text,
    {
        Error::BadRequest {
            code: String::from_str("serde_json"),
            description: refusal_text(err),
        }
    }
}

/// Create a new `BadRequest` error.
#[must_use]
pub fn bad_request(description: &str) -> (e: Error)
    ensures
        e.kind() is BadRequest,
        e.code_spec()@ == "bad_request"@,
        e.description_spec()@ == description@,
{
    Error::BadRequest {
        code: String::from_str("bad_request"),
        description: String::from_str(description),
    }
}

/// Create a new `NotFound` error.
#[must_use]
pub fn not_found(description: &str) -> (e: Error)
    ensures
        e.kind() is NotFound,
        e.code_spec()@ == "not_found"@,
        e.description_spec()@ == description@,
{
    Error::NotFound {
        code: String::from_str("not_found"),
        description: String::from_str(description),
    }
}

/// Create a new `ServerError` error.
#[must_use]
pub fn server_error(description: &str) -> (e: Error)
    ensures
        e.kind() is ServerError,
        e.code_spec()@ == "server_error"@,
        e.description_spec()@ == description@,
{
    Error::ServerError {
        code: String::from_str("server_error"),
        description: String::from_str(description),
    }
}

/// Create a new `BadGateway` error.
#[must_use]
pub fn bad_gateway(description: &str) -> (e: Error)
    ensures
        e.kind() is BadGateway,
        e.code_spec()@ == "bad_gateway"@,
        e.description_spec()@ == description@,
{
    Error::BadGateway {
        code: String::from_str("bad_gateway"),
        description: String::from_str(description),
    }
}

/// Errors of different kinds never share an exit code, and errors of one kind
/// always do.
pub proof fn exit_tells_kind(a: Error, b: Error)
    ensures
        a.exit_spec() == b.exit_spec() <==> a.kind() == b.kind(),
{
}

/// A status is a client's fault exactly where the request was at fault, and
/// statuses and exit codes rank errors alike.
pub proof fn statuses_tell_kinds(a: Error, b: Error, one: u16, other: u16)
    requires
        call_ensures(Error::status, (&a,), one),
        call_ensures(Error::status, (&b,), other),
    ensures
        one == other <==> a.kind() == b.kind(),
        one < other <==> a.exit_spec() < b.exit_spec(),
        400 <= one < 500 <==> a.kind() is BadRequest || a.kind() is NotFound,
        500 <= one < 600 <==> a.kind() is ServerError || a.kind() is BadGateway,
{
}

/// Wrapping an error keeps its kind and its code, so also its status and its
/// exit code, and the whole chain is told.
pub proof fn wrapping_keeps_the_kind(texts: Vec<String>, inner: Error, e: Error, i: int)
    requires
        call_ensures(Error::from_chain, (&texts, Some(&inner)), e),
        0 <= i < texts@.len(),
    ensures
        e.kind() == inner.kind(),
        e.code_spec()@ == inner.code_spec()@,
        e.exit_spec() == inner.exit_spec(),
        crate::text::holds(e.description_spec()@, texts@[i]@),
{
    crate::text::joins_hold_their_parts(crate::text::views(texts@), ": "@, i);
    assert(crate::text::views(texts@)[i] == texts@[i]@);
}

/// A chain that wraps none of these errors is the server's fault.
pub proof fn strange_chains_are_the_servers_fault(texts: Vec<String>, e: Error, made: Error, description: &str)
    requires
        call_ensures(Error::from_chain, (&texts, None), e),
        call_ensures(server_error, (description,), made),
    ensures
        e.kind() == made.kind(),
        e.code_spec()@ == made.code_spec()@,
{
}

/// The ways to make an error give four kinds, each with what it was told, and
/// no two share a code.
pub proof fn made_errors_differ(
    description: &str,
    request: Error,
    found: Error,
    server: Error,
    gateway: Error,
)
    requires
        call_ensures(bad_request, (description,), request),
        call_ensures(not_found, (description,), found),
        call_ensures(server_error, (description,), server),
        call_ensures(bad_gateway, (description,), gateway),
    ensures
        request.exit_spec() < found.exit_spec() < server.exit_spec() < gateway.exit_spec(),
        0 < request.exit_spec(),
        request.description_spec()@ == description@,
        found.description_spec()@ == description@,
        server.description_spec()@ == description@,
        gateway.description_spec()@ == description@,
        seq![
            request.code_spec()@,
            found.code_spec()@,
            server.code_spec()@,
            gateway.code_spec()@,
        ].no_duplicates(),
{
    reveal_strlit("bad_request");
    reveal_strlit("not_found");
    reveal_strlit("server_error");
    reveal_strlit("bad_gateway");
    assert("bad_request"@.len() == 11);
    assert("bad_gateway"@.len() == 11);
    assert("bad_request"@[4] == 'r' && "bad_gateway"@[4] == 'g');
    assert("not_found"@.len() == 9);
    assert("server_error"@.len() == 12);
}

/// An error in words tells its code and its description.
pub proof fn errors_tell_all(e: Error)
    ensures
        crate::text::holds(e.text_spec(), e.code_spec()@),
        crate::text::holds(e.text_spec(), e.description_spec()@),
{
    crate::text::holding_goes_on(e.code_spec()@);
    crate::text::holding_goes_on(e.description_spec()@);
    let code = e.code_spec()@;
    assert(crate::text::holds("code: "@ + code, code));
    assert(crate::text::holds("code: "@ + code + ", description: "@, code));
}

} // verus!
