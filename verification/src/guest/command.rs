//! The command façade: argv in, buffered channels and an exit status out.
//!
//! [`Parsed`] classifies argv, and [`Command`] projects each verb (decode,
//! [`Client::call`], encode) onto a [`Response`]. A success body rides stdout
//! in the selected [`Format`]; a [`Failure`] envelope rides stderr with the
//! exit status from [`Error::exit_code`], and a usage error exits
//! [`USAGE_EXIT`].

use crate::guest::api::{Client, Context, ErrorBody, Format, Metadata};
use crate::guest::error::{server_error, Error};
use crate::text::chars_of;
use anyhow::Error as AnyhowError;
use vstd::prelude::*;
use vstd::string::{StrSliceExecFns, StringExecFns};

verus! {

/// The exit status of a command-line usage error (`EX_USAGE`).
pub const USAGE_EXIT: u8 = 64;

/// A character of a metadata field's name as its environment variable has it:
/// upper case, and an underscore for a hyphen.
pub open spec fn key_char(c: char) -> char {
    if 'a' <= c <= 'z' {
        ((c as u8) - 32) as char
    } else if c == '-' {
        '_'
    } else {
        c
    }
}

/// The environment variable carrying the metadata field `name` under `prefix`.
#[must_use]
pub fn env_key(prefix: &str, name: &str) -> (key: String)
    ensures
        key@ == prefix@ + "_"@ + name@.map_values(|c: char| key_char(c)),
{
    let chars = chars_of(name);
    let mut key = String::from_str(prefix).concat("_");
    let ghost head = key@;
    let mut i: usize = 0;
    assert(name@.subrange(0, 0).map_values(|c: char| key_char(c)) =~= Seq::empty());
    while i < chars.len()
        invariant
            i <= chars@.len(),
            chars@ == name@,
            key@ == head + name@.subrange(0, i as int).map_values(|c: char| key_char(c)),
        decreases chars@.len() - i,
    {
        let c = chars[i];
        let k = if 'a' <= c && c <= 'z' {
            ((c as u8) - 32) as char
        } else if c == '-' {
            '_'
        } else {
            c
        };
        key.push(k);
        assert(name@.subrange(0, i as int + 1).map_values(|c: char| key_char(c))
            =~= name@.subrange(0, i as int).map_values(|c: char| key_char(c)).push(k));
        i = i + 1;
    }
    assert(name@.subrange(0, chars@.len() as int) =~= name@);
    key
}

/// The exit status a command entry yields.
pub trait IntoExit {
    /// The status handed to the WASI CLI boundary.
    ///
    /// # Errors
    ///
    /// Returns the non-zero exit code the guest reports.
    fn into_exit(self) -> Result<(), u8>;
}

impl IntoExit for () {
    fn into_exit(self) -> (r: Result<(), u8>)
        ensures
            r is Ok,
    {
        Ok(())
    }
}

impl IntoExit for Result<(), u8> {
    fn into_exit(self) -> (r: Result<(), u8>)
        ensures
            r == self,
    {
        self
    }
}

/// Buffered command output and exit status.
///
/// Both channels are whole buffers written at the exit boundary; a command
/// that must stream writes to the process channels itself.
#[derive(Clone, Debug, Eq, PartialEq)]
pub struct Response {
    /// Bytes written to standard output.
    pub stdout: Vec<u8>,
    /// Bytes written to standard error.
    pub stderr: Vec<u8>,
    /// The process exit status.
    pub exit: u8,
}

/// A usage error or a display request of the argument parser: what it
/// rendered, and whether that is for stderr.
#[derive(Debug, PartialEq, Eq)]
pub struct UsageError {
    pub rendered: String,
    pub use_stderr: bool,
}

/// Why bytes could not be written to a process channel.
#[derive(Debug, PartialEq, Eq)]
pub enum ChannelFault {
    /// The reader has gone away.
    BrokenPipe,
    /// Any other refusal, in words.
    Refused(String),
}

/// What the fate of one channel makes of the exit status.
pub open spec fn channel_exit(written: Result<(), ChannelFault>) -> Option<u8> {
    if written matches Err(ChannelFault::Refused(_)) {
        Some(3u8)
    } else {
        None
    }
}

/// The status after writing one channel.
///
/// # Errors
///
/// Returns the exit code of an internal error if the channel refused the
/// bytes. A reader that has gone away (`head`, a closed pipe) is the
/// consumer's decision, not this command's failure.
pub fn write_channel(written: Result<(), ChannelFault>) -> (r: Result<(), u8>)
    ensures
        match channel_exit(written) {
            Some(code) => r == Err::<(), u8>(code),
            None => r is Ok,
        },
{
    match written {
        Ok(()) => Ok(()),
        Err(ChannelFault::BrokenPipe) => Ok(()),
        Err(ChannelFault::Refused(error)) => Err(
            server_error(String::from_str("process channel: ").concat(error.as_str()).as_str())
                .exit_code(),
        ),
    }
}

impl Response {
    /// A successful response carrying stdout.
    #[must_use]
    pub fn success(stdout: Vec<u8>) -> (r: Self)
        ensures
            r.stdout == stdout,
            r.stderr@.len() == 0,
            r.exit == 0,
    {
        Response { stdout, stderr: Vec::new(), exit: 0 }
    }

    /// A failed response carrying stderr and its exit status.
    #[must_use]
    pub fn failure(stderr: Vec<u8>, exit: u8) -> (r: Self)
        ensures
            r.stdout@.len() == 0,
            r.stderr == stderr,
            r.exit == exit,
    {
        Response { stdout: Vec::new(), stderr, exit }
    }

    /// A usage error rendered by the argument parser, exiting [`USAGE_EXIT`].
    #[must_use]
    pub fn usage(error: &UsageError) -> (r: Self)
        ensures
            r.stdout@.len() == 0,
            r.stderr@ == crate::guest::api::text_bytes(error.rendered@),
            r.exit == USAGE_EXIT,
    {
        Response::failure(error.rendered.as_str().as_bytes_vec(), USAGE_EXIT)
    }

    /// The status handed to the WASI CLI boundary, after both channels were
    /// written: stdout first, and stderr only where stdout was not refused.
    ///
    /// # Errors
    ///
    /// Returns the non-zero exit code the guest reports, or that of a refused
    /// channel.
    pub fn into_exit(
        self,
        stdout: Result<(), ChannelFault>,
        stderr: Result<(), ChannelFault>,
    ) -> (r: Result<(), u8>)
        ensures
            match (channel_exit(stdout), channel_exit(stderr)) {
                (Some(code), _) => r == Err::<(), u8>(code),
                (None, Some(code)) => r == Err::<(), u8>(code),
                (None, None) => if self.exit == 0 {
                    r is Ok
                } else {
                    r == Err::<(), u8>(self.exit)
                },
            },
    {
        if let Err(code) = write_channel(stdout) {
            return Err(code);
        }
        if let Err(code) = write_channel(stderr) {
            return Err(code);
        }
        if self.exit == 0 {
            Ok(())
        } else {
            Err(self.exit)
        }
    }
}

/// The failure envelope a command reports: the error, its exit status, and
/// an optional remedy hint.
#[derive(Debug, PartialEq, Eq)]
pub struct Failure {
    error: Error,
    hint: Option<String>,
}

impl vstd::std_specs::convert::FromSpecImpl<Error> for Failure {
    open spec fn obeys_from_spec() -> bool {
        true
    }

    closed spec fn from_spec(error: Error) -> Self {
        Failure { error, hint: None }
    }
}

impl From<Error> for Failure {
    fn from(error: Error) -> (r: Self)
        ensures
            r.error_spec() == error,
            r.hint_spec() is None,
    {
        Failure { error, hint: None }
    }
}

/// A bare error becomes an envelope without a hint.
pub proof fn bare_failure_has_no_hint(error: Error)
    ensures
        <Failure as vstd::std_specs::convert::FromSpec<Error>>::from_spec(error).error_spec()
            == error,
        <Failure as vstd::std_specs::convert::FromSpec<Error>>::from_spec(error).hint_spec()
            is None,
{
}

impl Failure {
    pub closed spec fn error_spec(&self) -> Error {
        self.error
    }

    pub closed spec fn hint_spec(&self) -> Option<Seq<char>> {
        crate::text::opt_view(self.hint)
    }

    /// The envelope of an `anyhow` error; `inner` is the [`Error`] that it
    /// wraps, if it wraps one.
    #[must_use]
    pub fn from_anyhow(err: &AnyhowError, inner: Option<&Error>) -> (r: Self)
        ensures
            r.hint_spec() is None,
            exists|texts: Vec<String>| #[trigger]
                call_ensures(crate::guest::error::messages, (err,), texts)
                    && r.error_spec().description_spec()@ == crate::text::joined(
                    crate::text::views(texts@),
                    ": "@,
                ),
            match inner {
                Some(error) => r.error_spec().kind() == error.kind() && r.error_spec().code_spec()
                    == error.code_spec(),
                None => r.error_spec().kind() is ServerError && r.error_spec().code_spec()@
                    == "server_error"@,
            },
    {
        Failure { error: Error::from_anyhow(err, inner), hint: None }
    }

    /// The underlying error.
    #[must_use]
    pub fn error(&self) -> (r: &Error)
        ensures
            *r == self.error_spec(),
    {
        &self.error
    }

    /// The transport-neutral wire body shared with HTTP.
    #[must_use]
    pub fn body(&self) -> (r: ErrorBody)
        ensures
            r.error == self.error_spec().code_spec(),
            r.message == self.error_spec().description_spec(),
    {
        ErrorBody::from(&self.error)
    }

    /// The exit status from the error's exit map.
    #[must_use]
    pub fn exit_code(&self) -> (r: u8)
        ensures
            r == self.error_spec().exit_spec(),
            r != 0,
    {
        self.error.exit_code()
    }

    /// The remedy hint, when one was attached.
    #[must_use]
    pub fn hint(&self) -> (r: Option<&str>)
        ensures
            match r {
                Some(hint) => self.hint_spec() == Some(hint@),
                None => self.hint_spec() is None,
            },
    {
        match &self.hint {
            Some(hint) => Some(hint.as_str()),
            None => None,
        }
    }

    /// Attach a remedy hint.
    #[must_use]
    pub fn with_hint(self, hint: String) -> (r: Self)
        ensures
            r.error_spec() == self.error_spec(),
            r.hint_spec() == Some(hint@),
    {
        Failure { error: self.error, hint: Some(hint) }
    }

    pub open spec fn text_spec(self) -> Seq<char> {
        let line = "error["@ + self.error_spec().code_spec()@ + "]: "@
            + self.error_spec().description_spec()@ + "\n"@;
        match self.hint_spec() {
            Some(hint) => line + "hint: "@ + hint + "\n"@,
            None => line,
        }
    }

    /// Render the envelope as `error[<code>]: <message>` and an optional
    /// `hint:` line; the text-mode counterpart of its JSON form.
    #[must_use]
    pub fn text(&self) -> (text: String)
        ensures
            text@ == self.text_spec(),
    {
        let ErrorBody { error, message } = self.body();
        let line = String::from_str("error[").concat(error.as_str()).concat("]: ").concat(
            message.as_str(),
        ).concat("\n");
        match &self.hint {
            Some(hint) => line.concat("hint: ").concat(hint.as_str()).concat("\n"),
            None => line,
        }
    }

    /// The failure with the hint that is left to show: its own, else the one
    /// given.
    pub open spec fn hinted(self, hint: Option<Seq<char>>, r: Failure) -> bool {
        &&& r.error_spec() == self.error_spec()
        &&& r.hint_spec() == match self.hint_spec() {
            Some(own) => Some(own),
            None => hint,
        }
    }

    /// The failure with `hint` attached where it carries no hint of its own.
    #[must_use]
    pub fn or_hint(self, hint: Option<String>) -> (r: Self)
        ensures
            self.hinted(crate::text::opt_view(hint), r),
    {
        match self.hint {
            Some(own) => Failure { error: self.error, hint: Some(own) },
            None => Failure { error: self.error, hint },
        }
    }
}

/// A source of remedy hints, consulted for every failure that carries no hint
/// of its own.
pub trait Remedy {
    /// The hint for an error, if there is one.
    fn hint(&self, error: &Error) -> Option<String>;
}

/// No hints.
pub struct NoHints;

impl Remedy for NoHints {
    fn hint(&self, error: &Error) -> (r: Option<String>)
        ensures
            r is None,
    {
        None
    }
}

/// Whether a response is the refusal that shows a failure: its envelope on
/// stderr in the format, nothing on stdout, and the error's exit status.
pub open spec fn shows<J: FnOnce(&Failure) -> Vec<u8>>(
    response: Response,
    format: Format,
    failure: Failure,
    json: J,
) -> bool {
    &&& response.stdout@.len() == 0
    &&& response.exit == failure.error_spec().exit_spec()
    &&& match format {
        Format::Text => response.stderr@ == crate::guest::api::text_bytes(failure.text_spec()),
        Format::Json => exists|out: Vec<u8>| #[trigger]
            json.ensures((&failure,), out) && response.stderr@ == out@.push(10u8),
    }
}

/// Whether a response refuses with a failure, shown with its own hint, or with
/// what the source of hints gives for its error where it has none.
pub open spec fn refuses<H: Remedy, J: FnOnce(&Failure) -> Vec<u8>>(
    response: Response,
    format: Format,
    remedy: H,
    failure: Failure,
    json: J,
) -> bool {
    exists|hint: Option<String>, shown: Failure|
        {
            &&& failure.hint_spec() is None ==> call_ensures(
                H::hint,
                (&remedy, &failure.error_spec()),
                hint,
            )
            &&& #[trigger] failure.hinted(crate::text::opt_view(hint), shown)
            &&& shows(response, format, shown, json)
        }
}

/// Whether a response carries an output on stdout in the format, with nothing
/// on stderr and exit status 0.
pub open spec fn answers<O, R: FnOnce(&O) -> String, J: FnOnce(&O) -> Vec<u8>>(
    response: Response,
    format: Format,
    output: O,
    render: R,
    json: J,
) -> bool {
    &&& response.stderr@.len() == 0
    &&& response.exit == 0
    &&& match format {
        Format::Text => exists|out: String| #[trigger]
            render.ensures((&output,), out) && response.stdout@ == crate::guest::api::text_bytes(
                out@,
            ),
        Format::Json => exists|out: Vec<u8>| #[trigger]
            json.ensures((&output,), out) && response.stdout@ == out@.push(10u8),
    }
}

/// The response to a failure: its envelope in the format, with `hint` where it
/// carries none of its own, and the error's exit status. `json` serializes the
/// envelope.
pub fn refused<J: FnOnce(&Failure) -> Vec<u8>>(
    format: Format,
    failure: Failure,
    hint: Option<String>,
    json: J,
) -> (r: Response)
    requires
        forall|f: Failure| #[trigger] json.requires((&f,)),
    ensures
        exists|shown: Failure|
            failure.hinted(crate::text::opt_view(hint), shown) && #[trigger] shows(
                r,
                format,
                shown,
                json,
            ),
{
    let shown = failure.or_hint(hint);
    let exit = shown.exit_code();
    let encoded = format.encode(&shown, failure_text, json);
    let r = Response::failure(encoded.bytes, exit);
    assert(shows(r, format, shown, json));
    r
}

fn failure_text(failure: &Failure) -> (text: String)
    ensures
        text@ == failure.text_spec(),
{
    failure.text()
}

/// The command projector: decode, [`Client::call`], encode onto a
/// [`Response`], with the [`Failure`] envelope on stderr.
pub struct Command<'a, P, H> {
    client: &'a Client<P>,
    metadata: &'a Metadata,
    format: Format,
    remedy: H,
}

impl<'a, P> Command<'a, P, NoHints> {
    /// Project verbs over `client` with `metadata`, encoding bodies as
    /// `format`.
    #[must_use]
    pub fn new(client: &'a Client<P>, metadata: &'a Metadata, format: Format) -> (r: Self)
        ensures
            r.client_spec() == *client,
            r.metadata_spec() == *metadata,
            r.format_spec() == format,
            r.remedy_spec() == NoHints,
    {
        Command { client, metadata, format, remedy: NoHints }
    }
}

impl<'a, P, H> Command<'a, P, H> {
    pub closed spec fn client_spec(&self) -> Client<P> {
        *self.client
    }

    pub closed spec fn metadata_spec(&self) -> Metadata {
        *self.metadata
    }

    pub closed spec fn format_spec(&self) -> Format {
        self.format
    }

    pub closed spec fn remedy_spec(&self) -> H {
        self.remedy
    }

    /// Attach a source of remedy hints, consulted for every failure that
    /// carries no hint of its own.
    #[must_use]
    pub fn hints<R: Remedy>(self, remedy: R) -> (r: Command<'a, P, R>)
        ensures
            r.client_spec() == self.client_spec(),
            r.metadata_spec() == self.metadata_spec(),
            r.format_spec() == self.format_spec(),
            r.remedy_spec() == remedy,
    {
        Command { client: self.client, metadata: self.metadata, format: self.format, remedy }
    }
}

impl<'a, P, H: Remedy> Command<'a, P, H> {
    /// The response to a failed verb.
    fn refuse<J: FnOnce(&Failure) -> Vec<u8>>(&self, failure: Failure, json: J) -> (r: Response)
        requires
            forall|f: Failure| #[trigger] json.requires((&f,)),
        ensures
            refuses(r, self.format_spec(), self.remedy_spec(), failure, json),
    {
        let hint = match &failure.hint {
            Some(_) => None,
            None => self.remedy.hint(&failure.error),
        };
        let ghost given = hint;
        let r = refused(self.format, failure, hint, json);
        proof {
            let shown = choose|shown: Failure|
                failure.hinted(crate::text::opt_view(given), shown) && #[trigger] shows(
                    r,
                    self.format,
                    shown,
                    json,
                );
            assert(failure.hinted(crate::text::opt_view(given), shown));
        }
        r
    }

    /// The response to what a handler gave: its encoded output, or the
    /// envelope of its failure. `render` is the output's text form and `json`
    /// its JSON form; `failure_json` is the JSON form of a failure.
    pub fn respond<
        O,
        R: FnOnce(&O) -> String,
        J: FnOnce(&O) -> Vec<u8>,
        K: FnOnce(&Failure) -> Vec<u8>,
    >(&self, outcome: Result<O, Failure>, render: R, json: J, failure_json: K) -> (r: Response)
        requires
            forall|o: O| #[trigger] render.requires((&o,)),
            forall|o: O| #[trigger] json.requires((&o,)),
            forall|f: Failure| #[trigger] failure_json.requires((&f,)),
        ensures
            match outcome {
                Ok(output) => answers(r, self.format_spec(), output, render, json),
                Err(failure) => refuses(
                    r,
                    self.format_spec(),
                    self.remedy_spec(),
                    failure,
                    failure_json,
                ),
            },
    {
        match outcome {
            Ok(output) => Response::success(self.format.encode(&output, render, json).bytes),
            Err(failure) => self.refuse(failure, failure_json),
        }
    }

    /// Run one verb: `decode` the input, invoke `handler` through the client,
    /// and encode the output as [`Command::respond`] does. Where the input is
    /// refused, the handler is not invoked.
    pub fn call<
        I,
        O,
        D: FnOnce() -> Result<I, Error>,
        F: FnOnce(I, Context<P>) -> Result<O, Failure>,
        R: FnOnce(&O) -> String,
        J: FnOnce(&O) -> Vec<u8>,
        K: FnOnce(&Failure) -> Vec<u8>,
    >(&self, handler: F, decode: D, render: R, json: J, failure_json: K) -> (r: Response)
        requires
            decode.requires(()),
            forall|i: I, c: Context<P>| #[trigger] handler.requires((i, c)),
            forall|o: O| #[trigger] render.requires((&o,)),
            forall|o: O| #[trigger] json.requires((&o,)),
            forall|f: Failure| #[trigger] failure_json.requires((&f,)),
        ensures
            exists|decoded: Result<I, Error>| #[trigger]
                decode.ensures((), decoded) && match decoded {
                    Err(error) => exists|bare: Failure|
                        bare.error_spec() == error && bare.hint_spec() is None
                            && #[trigger] refuses(
                            r,
                            self.format_spec(),
                            self.remedy_spec(),
                            bare,
                            failure_json,
                        ),
                    Ok(input) => exists|context: Context<P>, out: Result<O, Failure>|
                        {
                            &&& self.client_spec().builds(context, self.metadata_spec())
                            &&& #[trigger] handler.ensures((input, context), out)
                            &&& match out {
                                Ok(output) => answers(
                                    r,
                                    self.format_spec(),
                                    output,
                                    render,
                                    json,
                                ),
                                Err(failure) => refuses(
                                    r,
                                    self.format_spec(),
                                    self.remedy_spec(),
                                    failure,
                                    failure_json,
                                ),
                            }
                        },
                },
    {
        let decoded = decode();
        let input = match decoded {
            Ok(input) => input,
            Err(error) => {
                return self.refuse(Failure::from(error), failure_json);
            },
        };
        let outcome = self.client.call(handler, input, self.metadata);
        self.respond(outcome, render, json, failure_json)
    }
}

/// The outcome of parsing argv: the grammar, or one of the argument parser's
/// own complete responses.
#[derive(Debug, PartialEq, Eq)]
pub enum Parsed<A> {
    /// The parsed grammar.
    App(A),
    /// Help or version text destined for stdout with exit 0.
    Display(String),
    /// A usage error destined for stderr; see [`Response::usage`].
    Usage(UsageError),
}

/// Classify what the argument parser made of argv.
#[must_use]
pub fn parse<A>(outcome: Result<A, UsageError>) -> (r: Parsed<A>)
    ensures
        r == match outcome {
            Ok(app) => Parsed::App(app),
            Err(error) => if error.use_stderr {
                Parsed::Usage(error)
            } else {
                Parsed::Display(error.rendered)
            },
        },
{
    match outcome {
        Ok(app) => Parsed::App(app),
        Err(error) => {
            if error.use_stderr {
                Parsed::Usage(error)
            } else {
                Parsed::Display(error.rendered)
            }
        },
    }
}

/// A failed command never exits with success: where a failure is shown, the
/// exit boundary reports a non-zero status, whatever became of the channels.
pub proof fn failures_exit_nonzero<H: Remedy, J: FnOnce(&Failure) -> Vec<u8>>(
    response: Response,
    format: Format,
    remedy: H,
    failure: Failure,
    json: J,
)
    requires
        refuses(response, format, remedy, failure, json),
    ensures
        response.exit == failure.error_spec().exit_spec(),
        response.exit != 0,
        response.stdout@.len() == 0,
{
}

/// Without a source of hints, a failure is shown with its own hint or with none.
pub proof fn unsourced_failures_keep_their_hint<J: FnOnce(&Failure) -> Vec<u8>>(
    response: Response,
    format: Format,
    failure: Failure,
    json: J,
)
    requires
        refuses(response, format, NoHints, failure, json),
    ensures
        exists|shown: Failure|
            {
                &&& shown.error_spec() == failure.error_spec()
                &&& shown.hint_spec() == failure.hint_spec()
                &&& #[trigger] shows(response, format, shown, json)
            },
{
}

/// A failure's own hint goes before whatever the source of hints gives.
pub proof fn own_hints_come_first<H: Remedy, J: FnOnce(&Failure) -> Vec<u8>>(
    response: Response,
    format: Format,
    remedy: H,
    failure: Failure,
    json: J,
)
    requires
        refuses(response, format, remedy, failure, json),
        failure.hint_spec() is Some,
    ensures
        exists|shown: Failure|
            {
                &&& shown.error_spec() == failure.error_spec()
                &&& shown.hint_spec() == failure.hint_spec()
                &&& #[trigger] shows(response, format, shown, json)
            },
{
}

/// A metadata field's environment variable begins with the prefix and an
/// underscore, keeps the length of the field's name, and has in the name's
/// place no lower-case letter and no hyphen.
pub proof fn keys_are_environment_names(prefix: &str, name: &str, key: String, i: int)
    requires
        call_ensures(env_key, (prefix, name), key),
        0 <= i < name@.len(),
    ensures
        key@.len() == prefix@.len() + 1 + name@.len(),
        key@.subrange(0, prefix@.len() as int) == prefix@,
        key@[prefix@.len() as int] == '_',
        ({
            let c = key@[prefix@.len() + 1 + i];
            &&& !('a' <= c <= 'z')
            &&& c != '-'
            &&& 'a' <= name@[i] <= 'z' <==> c as int == name@[i] as int - 32 && 'A' <= c <= 'Z'
            &&& name@[i] == '-' ==> c == '_'
            &&& !('a' <= name@[i] <= 'z') && name@[i] != '-' ==> c == name@[i]
        }),
{
    reveal_strlit("_");
    assert("_"@.len() == 1);
    assert(key@.subrange(0, prefix@.len() as int) =~= prefix@);
}

/// Names that differ in case only, or in hyphens for underscores, share their
/// environment variable.
pub proof fn keys_fold_alike(prefix: &str, one: &str, other: &str, a: String, b: String)
    requires
        call_ensures(env_key, (prefix, one), a),
        call_ensures(env_key, (prefix, other), b),
    ensures
        a@ == b@ <==> one@.len() == other@.len() && forall|i: int|
            0 <= i < one@.len() ==> key_char(#[trigger] one@[i]) == key_char(other@[i]),
{
    let fold = |c: char| key_char(c);
    let head = prefix@ + "_"@;
    assert(a@.len() == head.len() + one@.len());
    assert(b@.len() == head.len() + other@.len());
    if a@ == b@ {
        assert forall|i: int| 0 <= i < one@.len() implies key_char(#[trigger] one@[i]) == key_char(
            other@[i],
        ) by {
            assert(a@[head.len() + i] == one@.map_values(fold)[i]);
            assert(b@[head.len() + i] == other@.map_values(fold)[i]);
        }
    } else if one@.len() == other@.len() && forall|i: int|
        0 <= i < one@.len() ==> key_char(#[trigger] one@[i]) == key_char(other@[i]) {
        assert(one@.map_values(fold) =~= other@.map_values(fold));
    }
}

/// A reader that went away is no failure: the exit is what it would have been
/// had the channel taken everything.
pub proof fn readers_may_leave(
    response: Response,
    written: Result<(), ChannelFault>,
    a: Result<(), u8>,
    b: Result<(), u8>,
    c: Result<(), u8>,
    d: Result<(), u8>,
)
    requires
        call_ensures(
            Response::into_exit,
            (response, Err(ChannelFault::BrokenPipe), written),
            a,
        ),
        call_ensures(Response::into_exit, (response, Ok(()), written), b),
        call_ensures(
            Response::into_exit,
            (response, written, Err(ChannelFault::BrokenPipe)),
            c,
        ),
        call_ensures(Response::into_exit, (response, written, Ok(())), d),
    ensures
        a is Ok <==> b is Ok,
        a is Err ==> a->Err_0 == b->Err_0,
        c is Ok <==> d is Ok,
        c is Err ==> c->Err_0 == d->Err_0,
{
}

/// A command ends in success exactly where its response did and neither channel
/// refused its bytes; a refused channel ends it as an internal error does, any
/// other failure with the response's own status.
pub proof fn exits_tell_the_response(
    response: Response,
    stdout: Result<(), ChannelFault>,
    stderr: Result<(), ChannelFault>,
    r: Result<(), u8>,
    internal: Error,
)
    requires
        call_ensures(Response::into_exit, (response, stdout, stderr), r),
        internal.kind() is ServerError,
    ensures
        ({
            let refused = stdout matches Err(ChannelFault::Refused(_)) || stderr matches Err(
                ChannelFault::Refused(_),
            );
            &&& r is Ok <==> response.exit == 0 && !refused
            &&& refused ==> r is Err && r->Err_0 == internal.exit_spec()
            &&& !refused && r is Err ==> r->Err_0 == response.exit
        }),
{
}

/// A success says nothing on stderr and a failure nothing on stdout; a usage
/// error is a failure that no error's exit code stands for.
pub proof fn responses_keep_to_their_channel(
    bytes: Vec<u8>,
    exit: u8,
    error: UsageError,
    other: Error,
    success: Response,
    failure: Response,
    usage: Response,
)
    requires
        call_ensures(Response::success, (bytes,), success),
        call_ensures(Response::failure, (bytes, exit), failure),
        call_ensures(Response::usage, (&error,), usage),
    ensures
        success.stdout@ == bytes@ && success.stderr@.len() == 0 && success.exit == 0,
        failure.stderr@ == bytes@ && failure.stdout@.len() == 0 && failure.exit == exit,
        usage.stdout@.len() == 0,
        usage.exit != 0,
        usage.exit != other.exit_spec(),
{
}

/// A failure in words tells its code, its description and its hint, and ends
/// its last line.
pub proof fn failures_tell_all(failure: Failure)
    ensures
        crate::text::holds(failure.text_spec(), failure.error_spec().code_spec()@),
        crate::text::holds(failure.text_spec(), failure.error_spec().description_spec()@),
        failure.hint_spec() matches Some(hint) ==> crate::text::holds(failure.text_spec(), hint),
        failure.text_spec().last() == '\n',
{
    let code = failure.error_spec().code_spec()@;
    let description = failure.error_spec().description_spec()@;
    reveal_strlit("\n");
    assert("\n"@.len() == 1 && "\n"@[0] == '\n');
    let line = "error["@ + code + "]: "@ + description + "\n"@;
    crate::text::holding_goes_on(code);
    assert(crate::text::holds("error["@ + code, code));
    assert(crate::text::holds("error["@ + code + "]: "@, code));
    assert(crate::text::holds("error["@ + code + "]: "@ + description, code));
    assert(crate::text::holds(line, code));
    crate::text::holding_goes_on(description);
    assert(crate::text::holds("error["@ + code + "]: "@ + description, description));
    assert(crate::text::holds(line, description));
    if let Some(hint) = failure.hint_spec() {
        assert(crate::text::holds(line + "hint: "@, code));
        assert(crate::text::holds(line + "hint: "@, description));
        assert(crate::text::holds(line + "hint: "@ + hint, code));
        assert(crate::text::holds(line + "hint: "@ + hint, description));
        crate::text::holding_goes_on(hint);
        assert(crate::text::holds(line + "hint: "@ + hint, hint));
        assert(crate::text::holds(line + "hint: "@ + hint + "\n"@, hint));
    }
}

/// What the argument parser refused is a usage error exactly where it is for
/// stderr, and else what there is to show; a grammar is handed on.
pub proof fn only_refusals_are_usage<A>(outcome: Result<A, UsageError>, r: Parsed<A>)
    requires
        call_ensures(parse::<A>, (outcome,), r),
    ensures
        r is App <==> outcome is Ok,
        r is App ==> r->App_0 == outcome->Ok_0,
        r is Usage <==> outcome is Err && outcome->Err_0.use_stderr,
        r is Display ==> r->Display_0@ == outcome->Err_0.rendered@,
        r is Usage ==> r->Usage_0.rendered@ == outcome->Err_0.rendered@,
{
}

} // verus!
