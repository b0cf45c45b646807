//! A completion whose answer is one value of a type.
//!
//! The request's `format` is the type's JSON Schema (a steering hint for the
//! provider) and acceptance is the request's `check`, answered here: each
//! candidate is deserialized and handed to the caller's check; a miss becomes
//! the correction turn (one default template, replaceable per question), a hit
//! is captured and returned. The reply text is never re-parsed.

use crate::guest::error::refusal_text;
use crate::guest::model::{
    Error, Format, FormatModel, Message, Reply, Request, RequestModel, Role, SchemaFormat, Tool,
    ToolCall, CHECK_TOOL,
};
use crate::text::{join, str_eq};
use serde_json::Error as JsonError;
use serde_json::Value as JsonValue;
use vstd::prelude::*;
use vstd::string::StringExecFns;

verus! {

/// `serde_json::Value`: a JSON document.
#[verifier::external_type_specification]
#[verifier::external_body]
pub struct ExJsonValue(JsonValue);

/// Whether `serde_json::from_str` reads a text as a JSON document.
pub uninterp spec fn is_json(text: Seq<char>) -> bool;

/// `serde_json::from_str` into a `serde_json::Value`: whether there is a
/// document depends on the text alone. The document is opaque, so which one it
/// is is not stated.
#[verifier::external_body]
fn parse_value(text: &str) -> (r: Option<JsonValue>)
    ensures
        r is Some == is_json(text@),
{
    serde_json::from_str(text).ok()
}

/// The compact JSON text of a `serde_json::Value` (its `Display`). It is read
/// from an opaque value, so nothing is stated of it.
#[verifier::external_body]
fn value_text(value: &JsonValue) -> (r: String) {
    value.to_string()
}

/// The JSON document that a text holds, if it holds one.
#[must_use]
pub fn document(text: &str) -> (r: Option<JsonValue>)
    ensures
        r is Some == is_json(text@),
{
    parse_value(text)
}

/// The compact text of a JSON document. It is read from an opaque value, so a
/// contract speaks of it through this function alone.
#[must_use]
pub fn compact(value: &JsonValue) -> (text: String) {
    value_text(value)
}

/// Renders the correction turn for a rejected candidate from the previous
/// answer and the findings against it.
pub trait Correction {
    /// The user message a rejected candidate earns: `previous` is the candidate
    /// text and `findings` what the check held against it (or the one
    /// deserialization failure).
    fn render(&self, previous: &str, findings: &Vec<String>) -> String;
}

/// Whether a text is one that the template renders of an answer and its
/// findings.
pub open spec fn renders<C: Correction>(
    correction: C,
    previous: Seq<char>,
    findings: Seq<Seq<char>>,
    text: String,
) -> bool {
    exists|answer: &str, list: &Vec<String>|
        answer@ == previous && crate::text::views(list@) == findings && #[trigger] call_ensures(
            C::render,
            (&correction, answer, list),
            text,
        )
}

/// The default correction turn: a `## Previous answer (rejected)` /
/// `## Findings` template.
pub struct DefaultCorrection;

/// The default correction turn for a rejected candidate.
pub open spec fn default_text(previous: Seq<char>, findings: Seq<Seq<char>>) -> Seq<char> {
    "## Previous answer (rejected)\n\n"@ + previous + "\n\n## Findings\n\n"@
        + crate::text::joined(findings, "\n"@)
        + "\n\nProduce a corrected, complete answer that resolves every finding."@
}

/// The default correction turn for a rejected candidate.
#[must_use]
pub fn default_correction(previous: &str, findings: &Vec<String>) -> (text: String)
    ensures
        text@ == default_text(previous@, crate::text::views(findings@)),
{
    String::from_str("## Previous answer (rejected)\n\n").concat(previous).concat(
        "\n\n## Findings\n\n",
    ).concat(join(findings, "\n").as_str()).concat(
        "\n\nProduce a corrected, complete answer that resolves every finding.",
    )
}

impl Correction for DefaultCorrection {
    fn render(&self, previous: &str, findings: &Vec<String>) -> (text: String)
        ensures
            text@ == default_text(previous@, crate::text::views(findings@)),
    {
        default_correction(previous, findings)
    }
}

/// The default template renders the default text and no other.
pub proof fn default_renders_default_text(
    previous: Seq<char>,
    findings: Seq<Seq<char>>,
    text: String,
)
    requires
        renders(DefaultCorrection, previous, findings, text),
    ensures
        text@ == default_text(previous, findings),
{
}

/// A question whose answers are judged by the guest.
pub struct Question<C> {
    request: Request,
    correction: C,
}

impl Question<DefaultCorrection> {
    /// A question steered by `schema` under `name`, with `check` set.
    #[must_use]
    pub fn new(name: &str, schema: String) -> (r: Self)
        ensures
            r.request_spec() == (RequestModel {
                model: None,
                system: None,
                messages: Seq::empty(),
                generation: None,
                format: FormatModel::Schema { name: name@, schema: schema@ },
                tools: Seq::empty(),
                check: true,
                workspace: None,
            }),
            r.correction_spec() == DefaultCorrection,
    {
        let mut request = Request::new();
        request.format = Format::Schema(SchemaFormat { name: String::from_str(name), schema });
        request.check = true;
        Question { request, correction: DefaultCorrection }
    }
}

impl<C> Question<C> {
    /// The request as built so far.
    pub closed spec fn request_spec(&self) -> RequestModel {
        self.request@
    }

    /// The correction template.
    pub closed spec fn correction_spec(&self) -> C {
        self.correction
    }

    /// The system / instructions channel.
    #[must_use]
    pub fn system(self, prose: String) -> (r: Self)
        ensures
            r.request_spec() == (RequestModel { system: Some(prose@), ..self.request_spec() }),
            r.correction_spec() == self.correction_spec(),
    {
        let mut request = self.request;
        request.system = Some(prose);
        Question { request, correction: self.correction }
    }

    /// Opaque model id hint.
    #[must_use]
    pub fn model(self, model: String) -> (r: Self)
        ensures
            r.request_spec() == (RequestModel { model: Some(model@), ..self.request_spec() }),
            r.correction_spec() == self.correction_spec(),
    {
        let mut request = self.request;
        request.model = Some(model);
        Question { request, correction: self.correction }
    }

    /// Chat turns preceding the one a completion adds.
    #[must_use]
    pub fn messages(self, turns: Vec<Message>) -> (r: Self)
        ensures
            r.request_spec() == (RequestModel {
                messages: crate::guest::model::message_models(turns@),
                ..self.request_spec()
            }),
            r.correction_spec() == self.correction_spec(),
    {
        let mut request = self.request;
        request.messages = turns;
        Question { request, correction: self.correction }
    }

    /// Function tools and MCP grants offered to the model.
    #[must_use]
    pub fn tools(self, tools: Vec<Tool>) -> (r: Self)
        ensures
            r.request_spec() == (RequestModel {
                tools: crate::guest::model::tool_models(tools@),
                ..self.request_spec()
            }),
            r.correction_spec() == self.correction_spec(),
    {
        let mut request = self.request;
        request.tools = tools;
        Question { request, correction: self.correction }
    }

    /// The directory lent to the backend; see [`Request::workspace`].
    #[must_use]
    pub fn workspace(self, lend: String) -> (r: Self)
        ensures
            r.request_spec() == (RequestModel { workspace: Some(lend@), ..self.request_spec() }),
            r.correction_spec() == self.correction_spec(),
    {
        let mut request = self.request;
        request.workspace = Some(lend);
        Question { request, correction: self.correction }
    }

    /// Edit the steering schema: subject enums, exact counts, id patterns.
    /// Hints for the model, which decide nothing. The new schema is the compact
    /// text of what `edit` makes of the document that the old one holds; a
    /// schema that is not JSON stays as it is.
    #[must_use]
    pub fn schema<F: FnOnce(JsonValue) -> JsonValue>(self, edit: F) -> (r: Self)
        requires
            forall|value: JsonValue| #[trigger] edit.requires((value,)),
        ensures
            r.correction_spec() == self.correction_spec(),
            !edits(self.request_spec()) ==> r.request_spec() == self.request_spec(),
            edits(self.request_spec()) ==> exists|
                old_text: &str,
                value: JsonValue,
                edited: JsonValue,
                text: String,
            |
                {
                    &&& old_text@ == self.request_spec().format->schema
                    &&& #[trigger] call_ensures(document, (old_text,), Some(value))
                    &&& #[trigger] edit.ensures((value,), edited)
                    &&& #[trigger] call_ensures(compact, (&edited,), text)
                    &&& r.request_spec() == with_schema(self.request_spec(), text@)
                },
    {
        let Question { request, correction } = self;
        let (name, value) = match &request.format {
            Format::Schema(spec) => match document(spec.schema.as_str()) {
                Some(value) => (spec.name.clone(), value),
                None => {
                    return Question { request, correction };
                },
            },
            _ => {
                return Question { request, correction };
            },
        };
        let ghost before = request@;
        let edited = edit(value);
        let schema = compact(&edited);
        let ghost text = schema@;
        let mut request = request;
        request.format = Format::Schema(SchemaFormat { name, schema });
        assert(request@ == with_schema(before, text));
        Question { request, correction }
    }

    /// Replace the correction turn's template.
    #[must_use]
    pub fn correction<D: Correction>(self, template: D) -> (r: Question<D>)
        ensures
            r.request_spec() == self.request_spec(),
            r.correction_spec() == template,
    {
        Question { request: self.request, correction: template }
    }

    /// The request as built so far.
    #[must_use]
    pub fn request(&self) -> (r: &Request)
        ensures
            r@ == self.request_spec(),
    {
        &self.request
    }

    /// The request of one completion: as built so far, with `turn` appended as
    /// the user message.
    #[must_use]
    pub fn begin(&self, turn: String) -> (r: Request)
        ensures
            r@ == (RequestModel {
                messages: self.request_spec().messages.push((Role::User, turn@)),
                ..self.request_spec()
            }),
    {
        let mut request = self.request.copy();
        let ghost before = request.messages@;
        let ghost content = turn@;
        request.messages.push(Message { role: Role::User, content: turn });
        assert(crate::guest::model::message_models(request.messages@)
            =~= crate::guest::model::message_models(before).push((Role::User, content)));
        request
    }
}

/// Whether a request is steered by a schema that is JSON.
pub open spec fn edits(request: RequestModel) -> bool {
    request.format is Schema && is_json(request.format->schema)
}

/// A request steered by another schema under the same name.
pub open spec fn with_schema(request: RequestModel, schema: Seq<char>) -> RequestModel {
    RequestModel {
        format: FormatModel::Schema { name: request.format->name, schema },
        ..request
    }
}

/// Who answers a tool call.
#[derive(Debug, PartialEq, Eq)]
pub enum Route {
    /// The question itself: the call carries a candidate.
    Check,
    /// The caller's handler for the declared function tools.
    Tools,
    /// Nobody; the model is told so.
    Refuse(String),
}

/// Route a tool call: the reserved `check` in front of the caller's handler,
/// if there is one (`handled`).
#[must_use]
pub fn route(call: &ToolCall, handled: bool) -> (r: Route)
    ensures
        if call.name@ == CHECK_TOOL@ {
            r is Check
        } else if handled {
            r is Tools
        } else {
            r matches Route::Refuse(text) && text@ == "tool `"@ + call.name@
                + "` has no handler: pass one to Question::ask"@
        },
{
    if str_eq(call.name.as_str(), CHECK_TOOL) {
        Route::Check
    } else if handled {
        Route::Tools
    } else {
        Route::Refuse(
            String::from_str("tool `").concat(call.name.as_str()).concat(
                "` has no handler: pass one to Question::ask",
            ),
        )
    }
}

/// What one completion has come to so far.
pub struct Session<T> {
    /// The candidate that the check accepted last.
    pub accepted: Option<T>,
    /// Why the last candidate that did not deserialize did not.
    pub mismatch: Option<String>,
    /// Whether any candidate was proposed.
    pub checked: bool,
}

impl<T> Session<T> {
    /// A completion that has just begun.
    #[must_use]
    pub fn new() -> (r: Self)
        ensures
            r.accepted is None,
            r.mismatch is None,
            !r.checked,
    {
        Session { accepted: None, mismatch: None, checked: false }
    }

    /// What the completion came to.
    ///
    /// # Errors
    ///
    /// - `InvalidRequest` when the rounds ran out with no accepted answer
    ///   after a candidate failed to deserialize: the schema and the answer
    ///   type disagree, which more rounds will not fix.
    /// - `BudgetExhausted(correction)` when the backend ran out of rounds on
    ///   a rejected candidate.
    /// - `Backend` when the backend finished with no accepted answer: it
    ///   never ran the check, or returned after a rejection.
    /// - Any other host error, unchanged.
    pub fn finish(self, outcome: Result<Reply, Error>) -> (r: Result<T, Error>)
        ensures
            match (outcome, self.accepted, self.mismatch) {
                (Ok(_), Some(answer), _) => r == Ok::<T, Error>(answer),
                (Ok(_), None, _) => r matches Err(Error::Backend(detail)) && detail@ == if
                    !self.checked {
                    "the backend finished without running the check"@
                } else {
                    "the backend finished on a candidate the check rejected"@
                },
                (Err(Error::BudgetExhausted(_)), None, Some(mismatch)) => r matches Err(
                    Error::InvalidRequest(detail),
                ) && detail@ == "schema and answer type disagree: "@ + mismatch@,
                (Err(error), _, _) => r == Err::<T, Error>(error),
            },
    {
        match outcome {
            Ok(_) => match self.accepted {
                Some(answer) => Ok(answer),
                None => {
                    if !self.checked {
                        Err(
                            Error::Backend(
                                String::from_str("the backend finished without running the check"),
                            ),
                        )
                    } else {
                        Err(
                            Error::Backend(
                                String::from_str(
                                    "the backend finished on a candidate the check rejected",
                                ),
                            ),
                        )
                    }
                },
            },
            Err(error) => match (error, self.accepted, self.mismatch) {
                (Error::BudgetExhausted(_), None, Some(mismatch)) => Err(
                    Error::InvalidRequest(
                        String::from_str("schema and answer type disagree: ").concat(
                            mismatch.as_str(),
                        ),
                    ),
                ),
                (error, _, _) => Err(error),
            },
        }
    }
}

/// Whether judging a candidate, given what its text deserialized to, takes one
/// session to another and is answered with `r`.
pub open spec fn judged<C: Correction, T, F: FnOnce(&T) -> Result<(), Vec<String>>>(
    correction: C,
    before: Session<T>,
    after: Session<T>,
    candidate_text: Seq<char>,
    parsed: Result<T, JsonError>,
    check: F,
    r: Result<String, String>,
) -> bool {
    &&& after.checked
    &&& match parsed {
        Err(error) => {
            &&& after.accepted == before.accepted
            &&& after.mismatch matches Some(finding)
            &&& exists|detail: String| #[trigger]
                call_ensures(refusal_text, (&error,), detail) && finding@
                    == "the answer does not match the expected shape: "@ + detail@
            &&& r matches Err(text)
            &&& renders(correction, candidate_text, seq![finding@], text)
        },
        Ok(candidate) => {
            &&& after.mismatch == before.mismatch
            &&& exists|verdict: Result<(), Vec<String>>| #[trigger]
                check.ensures((&candidate,), verdict) && match verdict {
                    Ok(()) => {
                        &&& after.accepted == Some(candidate)
                        &&& r matches Ok(text)
                        &&& text@ == Seq::<char>::empty()
                    },
                    Err(findings) => {
                        &&& after.accepted == before.accepted
                        &&& r matches Err(text)
                        &&& renders(
                            correction,
                            candidate_text,
                            crate::text::views(findings@),
                            text,
                        )
                    },
                }
        },
    }
}

impl<C: Correction> Question<C> {
    /// Judge one candidate, given what its text deserialized to: a
    /// deserialization failure or the check's findings are answered with the
    /// correction turn, and an accepted candidate is captured.
    ///
    /// # Errors
    ///
    /// Returns the correction turn for a candidate that is not accepted.
    pub fn judge<T, F: FnOnce(&T) -> Result<(), Vec<String>>>(
        &self,
        session: &mut Session<T>,
        call: &ToolCall,
        parsed: Result<T, JsonError>,
        check: F,
    ) -> (r: Result<String, String>)
        requires
            forall|candidate: T| #[trigger] check.requires((&candidate,)),
        ensures
            judged(
                self.correction_spec(),
                *old(session),
                *final(session),
                call.arguments@,
                parsed,
                check,
                r,
            ),
    {
        session.checked = true;
        match parsed {
            Err(error) => {
                let detail = refusal_text(&error);
                let finding = String::from_str(
                    "the answer does not match the expected shape: ",
                ).concat(detail.as_str());
                session.mismatch = Some(finding.clone());
                let mut findings: Vec<String> = Vec::new();
                findings.push(finding);
                assert(crate::text::views(findings@) =~= seq![finding@]);
                Err(self.correction.render(call.arguments.as_str(), &findings))
            },
            Ok(candidate) => match check(&candidate) {
                Ok(()) => {
                    session.accepted = Some(candidate);
                    Ok(String::new())
                },
                Err(findings) => Err(self.correction.render(call.arguments.as_str(), &findings)),
            },
        }
    }

    /// Answer one tool call of a completion: a candidate is deserialized with
    /// `parse` and judged by `check`; any other call goes to the caller's
    /// handler, if there is one.
    ///
    /// # Errors
    ///
    /// Returns the correction turn for a candidate that is not accepted, or
    /// what the handler refused, or that there is none.
    pub fn answer<
        T,
        P: FnOnce(&str) -> Result<T, JsonError>,
        F: FnOnce(&T) -> Result<(), Vec<String>>,
        H: FnOnce(&ToolCall) -> Result<String, String>,
    >(
        &self,
        session: &mut Session<T>,
        call: &ToolCall,
        parse: P,
        check: F,
        tools: Option<H>,
    ) -> (r: Result<String, String>)
        requires
            forall|text: &str| #[trigger] parse.requires((text,)),
            forall|candidate: T| #[trigger] check.requires((&candidate,)),
            tools matches Some(handler) ==> handler.requires((call,)),
        ensures
            if call.name@ == CHECK_TOOL@ {
                exists|text: &str, parsed: Result<T, JsonError>|
                    {
                        &&& text@ == call.arguments@
                        &&& #[trigger] parse.ensures((text,), parsed)
                        &&& judged(
                            self.correction_spec(),
                            *old(session),
                            *final(session),
                            call.arguments@,
                            parsed,
                            check,
                            r,
                        )
                    }
            } else {
                &&& *final(session) == *old(session)
                &&& match tools {
                    Some(handler) => handler.ensures((call,), r),
                    None => r matches Err(text) && text@ == "tool `"@ + call.name@
                        + "` has no handler: pass one to Question::ask"@,
                }
            },
    {
        match route(call, tools.is_some()) {
            Route::Check => {
                let parsed = parse(call.arguments.as_str());
                self.judge(session, call, parsed, check)
            },
            Route::Tools => match tools {
                Some(handler) => handler(call),
                None => Err(String::new()),
            },
            Route::Refuse(text) => Err(text),
        }
    }
}

/// A completion only ever answers with a candidate that the check accepted:
/// judging changes the accepted candidate to one for which the check gave
/// `Ok`, or not at all.
pub proof fn answers_are_checked<C: Correction, T, F: FnOnce(&T) -> Result<(), Vec<String>>>(
    correction: C,
    before: Session<T>,
    after: Session<T>,
    candidate_text: Seq<char>,
    parsed: Result<T, JsonError>,
    check: F,
    r: Result<String, String>,
)
    requires
        judged(correction, before, after, candidate_text, parsed, check, r),
    ensures
        after.accepted == before.accepted || (parsed matches Ok(candidate) && after.accepted
            == Some(candidate) && check.ensures((&candidate,), Ok::<(), Vec<String>>(())) && r
            is Ok),
{
    if let Ok(candidate) = parsed {
        let verdict = choose|verdict: Result<(), Vec<String>>| #[trigger]
            check.ensures((&candidate,), verdict) && match verdict {
                Ok(()) => after.accepted == Some(candidate) && r is Ok,
                Err(_) => after.accepted == before.accepted,
            };
        if let Ok(unit) = verdict {
            assert(unit == ());
            assert(verdict == Ok::<(), Vec<String>>(()));
        }
    }
}

/// The default correction shows the rejected answer and every finding.
pub proof fn corrections_show_every_finding(
    previous: Seq<char>,
    findings: Seq<Seq<char>>,
    i: int,
)
    requires
        0 <= i < findings.len(),
    ensures
        crate::text::holds(default_text(previous, findings), previous),
        crate::text::holds(default_text(previous, findings), findings[i]),
{
    let list = crate::text::joined(findings, "\n"@);
    let head = "## Previous answer (rejected)\n\n"@ + previous;
    let body = head + "\n\n## Findings\n\n"@;
    crate::text::holding_goes_on(previous);
    assert(crate::text::holds(head, previous));
    assert(crate::text::holds(body, previous));
    assert(crate::text::holds(body + list, previous));
    crate::text::joins_hold_their_parts(findings, "\n"@, i);
    crate::text::holding_goes_on(findings[i]);
    assert(crate::text::holds(body + list, findings[i]));
}

/// Judging counts as a check; a candidate that was not accepted is answered
/// with a correction and changes no answer; one that does not deserialize is
/// remembered as a mismatch, and no other is.
pub proof fn rejected_candidates_change_no_answer<
    C: Correction,
    T,
    F: FnOnce(&T) -> Result<(), Vec<String>>,
>(
    correction: C,
    before: Session<T>,
    after: Session<T>,
    candidate_text: Seq<char>,
    parsed: Result<T, JsonError>,
    check: F,
    r: Result<String, String>,
)
    requires
        judged(correction, before, after, candidate_text, parsed, check, r),
    ensures
        after.checked,
        r is Err ==> after.accepted == before.accepted,
        r is Ok ==> parsed is Ok && after.accepted == Some(parsed->Ok_0),
        parsed is Err ==> r is Err && after.mismatch is Some,
        parsed is Ok ==> after.mismatch == before.mismatch,
{
}

/// A completion gives an answer exactly where the backend finished and a
/// candidate had been accepted, and gives that one.
pub proof fn answers_are_what_was_accepted<T>(
    session: Session<T>,
    outcome: Result<Reply, Error>,
    r: Result<T, Error>,
)
    requires
        call_ensures(Session::<T>::finish, (session, outcome), r),
    ensures
        r is Ok <==> outcome is Ok && session.accepted is Some,
        r is Ok ==> session.accepted == Some(r->Ok_0),
        outcome is Ok && r is Err ==> r->Err_0 is Backend,
{
}

/// What the host refused is handed on as it is, but where the rounds ran out
/// with nothing accepted after a candidate that did not deserialize: then the
/// request is at fault, and the refusal tells the mismatch.
pub proof fn host_errors_are_handed_on<T>(
    session: Session<T>,
    error: Error,
    r: Result<T, Error>,
)
    requires
        call_ensures(Session::<T>::finish, (session, Err(error)), r),
    ensures
        r is Err,
        !(error is BudgetExhausted) || session.accepted is Some || session.mismatch is None
            ==> r->Err_0 == error,
        error is BudgetExhausted && session.accepted is None && session.mismatch is Some
            ==> r->Err_0 is InvalidRequest && crate::text::holds(
            r->Err_0->InvalidRequest_0@,
            session.mismatch->0@,
        ),
{
    if let Some(mismatch) = session.mismatch {
        crate::text::holding_goes_on(mismatch@);
    }
}

/// A candidate reaches the check whether or not the caller handles tools; any
/// other call reaches the handler exactly where there is one, and else is
/// refused by name.
pub proof fn candidates_reach_the_check(call: ToolCall, with: Route, without: Route)
    requires
        call_ensures(route, (&call, true), with),
        call_ensures(route, (&call, false), without),
    ensures
        with is Check <==> without is Check,
        with is Check <==> call.name@ == CHECK_TOOL@,
        with is Check || with is Tools,
        without is Check || without is Refuse,
        without matches Route::Refuse(text) ==> crate::text::holds(text@, call.name@),
{
    crate::text::holding_goes_on(call.name@);
}

/// Beginning a completion adds one turn of the user behind the others and
/// leaves the rest of the request alone.
pub proof fn turns_are_added_last<C: Correction>(
    question: Question<C>,
    turn: String,
    r: Request,
)
    requires
        call_ensures(Question::<C>::begin, (&question, turn), r),
    ensures
        r@.messages.len() == question.request_spec().messages.len() + 1,
        r@.messages.last() == (Role::User, turn@),
        r@.messages.drop_last() == question.request_spec().messages,
        (RequestModel { messages: question.request_spec().messages, ..r@ })
            == question.request_spec(),
{
    assert(r@.messages.drop_last() =~= question.request_spec().messages);
}

/// Of two schemas the last steers the request; its name and all else stay.
pub proof fn the_last_schema_steers(request: RequestModel, one: Seq<char>, other: Seq<char>)
    requires
        request.format is Schema,
    ensures
        with_schema(with_schema(request, one), other) == with_schema(request, other),
        with_schema(request, one).format->schema == one,
        with_schema(request, one).format->name == request.format->name,
        with_schema(request, request.format->schema) == request,
        (RequestModel { format: request.format, ..with_schema(request, one) }) == request,
{
}

} // verus!
