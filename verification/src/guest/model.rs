//! Prompt-completion (model) capability.
//!
//! A guest names the directory to lend with the plain [`Request::workspace`]
//! path, resolved against the guest's preopens at the call site: the longest
//! preopen whose name prefixes the path becomes the lent root and the
//! remainder rides as the grant's subpath.
//!
//! Acceptance of an answer is the guest's: a request with [`Request::check`]
//! set receives each candidate as a tool call named `check` and answers
//! `Ok` to finish or `Err(correction)` to send the model round again.

use crate::guest::error::refusal_text;
use crate::text::{chars_of, str_eq};
use serde_json::Error as JsonError;
use vstd::prelude::*;
use vstd::string::StringExecFns;

verus! {

/// The reserved tool name a `check` candidate arrives under.
pub const CHECK_TOOL: &'static str = "check";

/// Complete request for one completion.
#[derive(Debug, PartialEq, Eq)]
pub struct Request {
    /// Opaque model id hint; passed through unchanged. Backend may override.
    pub model: Option<String>,
    /// System / instructions channel.
    pub system: Option<String>,
    /// Chat turns sent to the provider. Must not be empty.
    pub messages: Vec<Message>,
    /// Sampling and length controls.
    pub generation: Option<Generation>,
    /// Output shape hint steering the provider; nothing is validated
    /// against it.
    pub format: Format,
    /// Guest-declared functions and MCP grants merged with host-injected
    /// tools at the backend. The names `read`, `list`, `write`, and `check`
    /// are reserved.
    pub tools: Vec<Tool>,
    /// Ask the guest to accept each candidate answer: the candidate arrives
    /// as a [`ToolCall`] named `check` whose `arguments` are the candidate
    /// text. `Ok` accepts it as the reply; `Err(text)` is appended to the
    /// conversation verbatim as the correction turn and the backend goes round
    /// again.
    pub check: bool,
    /// Deployment-local path of the directory to lend, giving the backend (and
    /// any spawned agent) that directory. `None` lends nothing.
    pub workspace: Option<String>,
}

/// One chat turn passed to the provider API.
#[derive(Debug, PartialEq, Eq)]
pub struct Message {
    /// Turn author.
    pub role: Role,
    /// Turn body text.
    pub content: String,
}

/// Chat turn author.
#[derive(Clone, Copy, Debug, PartialEq, Eq)]
pub enum Role {
    /// System / instructions channel.
    System,
    /// End-user turn.
    User,
    /// Model turn.
    Assistant,
}

/// Sampling and length controls. Omitted fields defer to backend defaults.
#[derive(Debug, PartialEq, Eq)]
pub struct Generation {
    /// Sampling temperature, as the bits of an IEEE 754 single.
    pub temperature: Option<u32>,
    /// Nucleus sampling threshold, as the bits of an IEEE 754 single.
    pub top_p: Option<u32>,
    /// Maximum output tokens.
    pub max_tokens: Option<u32>,
    /// Sequences that halt generation.
    pub stop: Vec<String>,
    /// Seed for reproducible sampling when the provider supports it.
    pub seed: Option<u64>,
    /// Reasoning-effort hint for thinking-capable models.
    pub effort: Option<Effort>,
}

/// Reasoning-effort hint for models that expose a thinking budget.
#[derive(Clone, Copy, Debug, PartialEq, Eq)]
pub enum Effort {
    /// Least reasoning; lowest latency and cost.
    Minimal,
    /// Reduced reasoning.
    Low,
    /// Balanced reasoning.
    Medium,
    /// Most reasoning; highest latency and cost.
    High,
}

/// Output shape hint steering the provider.
///
/// Nothing is validated against it; acceptance is the request's `check`.
#[derive(Debug, PartialEq, Eq)]
pub enum Format {
    /// Plain text.
    Text,
    /// Steer toward a JSON object.
    Json,
    /// Steer toward the given JSON Schema.
    Schema(SchemaFormat),
}

/// JSON Schema steering output.
#[derive(Debug, PartialEq, Eq)]
pub struct SchemaFormat {
    /// Schema name passed to the provider (e.g. `review_result`).
    pub name: String,
    /// JSON Schema document the answer should conform to.
    pub schema: String,
}

/// A tool offered to the model: a guest-declared function or an MCP server
/// grant carrying its own endpoint URL.
#[derive(Debug, PartialEq, Eq)]
pub enum Tool {
    /// Guest-declared function tool.
    Function(Function),
    /// MCP server grant.
    Mcp(McpGrant),
}

/// Guest-declared function tool advertised to the model.
#[derive(Debug, PartialEq, Eq)]
pub struct Function {
    /// Tool name. Must not collide with the reserved names (`read`, `list`,
    /// `write`, `check`).
    pub name: String,
    /// Natural-language description for the model.
    pub description: String,
    /// JSON Schema for the tool's arguments object.
    pub parameters: String,
}

/// Remote MCP server offered to the model for this completion.
#[derive(Debug, PartialEq, Eq)]
pub struct McpGrant {
    /// Logical server name identifying the server.
    pub name: String,
    /// Tool allowlist; empty exposes every tool the server advertises.
    pub tools: Vec<String>,
    /// MCP server endpoint URL.
    pub url: String,
}

/// One completion result.
#[derive(Debug, PartialEq, Eq)]
pub struct Reply {
    /// The text the request's `check` accepted, or, without a check, the
    /// model's final text as the backend received it.
    pub answer: String,
    /// Token accounting, when the backend reports it.
    pub usage: Option<Usage>,
}

/// Token accounting for one completion, when the backend reports it.
#[derive(Clone, Copy, Debug, PartialEq, Eq)]
pub struct Usage {
    /// Prompt tokens consumed.
    pub input_tokens: u32,
    /// Completion tokens produced.
    pub output_tokens: u32,
    /// Reasoning tokens, for models that bill them separately.
    pub reasoning_tokens: Option<u32>,
}

/// What [`Generation`] holds.
#[verifier::ext_equal]
pub struct GenerationModel {
    pub temperature: Option<u32>,
    pub top_p: Option<u32>,
    pub max_tokens: Option<u32>,
    pub stop: Seq<Seq<char>>,
    pub seed: Option<u64>,
    pub effort: Option<Effort>,
}

/// What [`Format`] holds.
#[verifier::ext_equal]
pub enum FormatModel {
    Text,
    Json,
    Schema { name: Seq<char>, schema: Seq<char> },
}

/// What [`Tool`] holds.
#[verifier::ext_equal]
pub enum ToolModel {
    Function { name: Seq<char>, description: Seq<char>, parameters: Seq<char> },
    Mcp { name: Seq<char>, tools: Seq<Seq<char>>, url: Seq<char> },
}

/// What [`Request`] holds.
#[verifier::ext_equal]
pub struct RequestModel {
    pub model: Option<Seq<char>>,
    pub system: Option<Seq<char>>,
    pub messages: Seq<(Role, Seq<char>)>,
    pub generation: Option<GenerationModel>,
    pub format: FormatModel,
    pub tools: Seq<ToolModel>,
    pub check: bool,
    pub workspace: Option<Seq<char>>,
}

impl View for Message {
    type V = (Role, Seq<char>);

    open spec fn view(&self) -> (Role, Seq<char>) {
        (self.role, self.content@)
    }
}

impl View for Generation {
    type V = GenerationModel;

    open spec fn view(&self) -> GenerationModel {
        GenerationModel {
            temperature: self.temperature,
            top_p: self.top_p,
            max_tokens: self.max_tokens,
            stop: crate::text::views(self.stop@),
            seed: self.seed,
            effort: self.effort,
        }
    }
}

impl View for Format {
    type V = FormatModel;

    open spec fn view(&self) -> FormatModel {
        match self {
            Format::Text => FormatModel::Text,
            Format::Json => FormatModel::Json,
            Format::Schema(spec) => FormatModel::Schema {
                name: spec.name@,
                schema: spec.schema@,
            },
        }
    }
}

impl View for Tool {
    type V = ToolModel;

    open spec fn view(&self) -> ToolModel {
        match self {
            Tool::Function(f) => ToolModel::Function {
                name: f.name@,
                description: f.description@,
                parameters: f.parameters@,
            },
            Tool::Mcp(m) => ToolModel::Mcp {
                name: m.name@,
                tools: crate::text::views(m.tools@),
                url: m.url@,
            },
        }
    }
}

/// What chat turns hold.
pub open spec fn message_models(messages: Seq<Message>) -> Seq<(Role, Seq<char>)> {
    messages.map_values(|m: Message| m@)
}

/// What tools hold.
pub open spec fn tool_models(tools: Seq<Tool>) -> Seq<ToolModel> {
    tools.map_values(|t: Tool| t@)
}

impl View for Request {
    type V = RequestModel;

    open spec fn view(&self) -> RequestModel {
        RequestModel {
            model: crate::text::opt_view(self.model),
            system: crate::text::opt_view(self.system),
            messages: message_models(self.messages@),
            generation: match self.generation {
                Some(g) => Some(g@),
                None => None,
            },
            format: self.format@,
            tools: tool_models(self.tools@),
            check: self.check,
            workspace: crate::text::opt_view(self.workspace),
        }
    }
}

fn copy_text(text: &Option<String>) -> (r: Option<String>)
    ensures
        r == *text,
{
    match text {
        Some(text) => Some(text.clone()),
        None => None,
    }
}

fn copy_texts(texts: &Vec<String>) -> (r: Vec<String>)
    ensures
        crate::text::views(r@) == crate::text::views(texts@),
{
    let mut r: Vec<String> = Vec::new();
    let mut i: usize = 0;
    while i < texts.len()
        invariant
            i <= texts@.len(),
            r@.len() == i,
            forall|k: int| 0 <= k < i ==> (#[trigger] r@[k])@ == texts@[k]@,
        decreases texts@.len() - i,
    {
        r.push(texts[i].clone());
        i = i + 1;
    }
    assert(crate::text::views(r@) =~= crate::text::views(texts@));
    r
}

impl Tool {
    /// A copy of the tool.
    #[must_use]
    pub fn copy(&self) -> (r: Self)
        ensures
            r@ == self@,
    {
        match self {
            Tool::Function(f) => Tool::Function(
                Function {
                    name: f.name.clone(),
                    description: f.description.clone(),
                    parameters: f.parameters.clone(),
                },
            ),
            Tool::Mcp(m) => Tool::Mcp(
                McpGrant {
                    name: m.name.clone(),
                    tools: copy_texts(&m.tools),
                    url: m.url.clone(),
                },
            ),
        }
    }
}

impl Request {
    /// A request that names nothing.
    #[must_use]
    pub fn new() -> (r: Self)
        ensures
            r@ == (RequestModel {
                model: None,
                system: None,
                messages: Seq::empty(),
                generation: None,
                format: FormatModel::Text,
                tools: Seq::empty(),
                check: false,
                workspace: None,
            }),
    {
        let r = Request {
            model: None,
            system: None,
            messages: Vec::new(),
            generation: None,
            format: Format::Text,
            tools: Vec::new(),
            check: false,
            workspace: None,
        };
        assert(r@.messages =~= Seq::empty());
        assert(r@.tools =~= Seq::empty());
        r
    }

    /// A copy of the request.
    #[must_use]
    pub fn copy(&self) -> (r: Self)
        ensures
            r@ == self@,
    {
        let mut messages: Vec<Message> = Vec::new();
        let mut i: usize = 0;
        while i < self.messages.len()
            invariant
                i <= self.messages@.len(),
                messages@.len() == i,
                forall|k: int| 0 <= k < i ==> (#[trigger] messages@[k])@ == self.messages@[k]@,
            decreases self.messages@.len() - i,
        {
            let message = &self.messages[i];
            messages.push(Message { role: message.role, content: message.content.clone() });
            i = i + 1;
        }
        let mut tools: Vec<Tool> = Vec::new();
        let mut k: usize = 0;
        while k < self.tools.len()
            invariant
                k <= self.tools@.len(),
                tools@.len() == k,
                forall|j: int| 0 <= j < k ==> (#[trigger] tools@[j])@ == self.tools@[j]@,
            decreases self.tools@.len() - k,
        {
            tools.push(self.tools[k].copy());
            k = k + 1;
        }
        assert(message_models(messages@) =~= message_models(self.messages@));
        assert(tool_models(tools@) =~= tool_models(self.tools@));
        let generation = match &self.generation {
            Some(g) => Some(
                Generation {
                    temperature: g.temperature,
                    top_p: g.top_p,
                    max_tokens: g.max_tokens,
                    stop: copy_texts(&g.stop),
                    seed: g.seed,
                    effort: g.effort,
                },
            ),
            None => None,
        };
        let format = match &self.format {
            Format::Text => Format::Text,
            Format::Json => Format::Json,
            Format::Schema(spec) => Format::Schema(
                SchemaFormat { name: spec.name.clone(), schema: spec.schema.clone() },
            ),
        };
        Request {
            model: copy_text(&self.model),
            system: copy_text(&self.system),
            messages,
            generation,
            format,
            tools,
            check: self.check,
            workspace: copy_text(&self.workspace),
        }
    }
}

/// Typed completion failure.
#[derive(Debug, PartialEq, Eq)]
pub enum Error {
    /// The request itself is malformed (empty `messages`, reserved tool
    /// name, schema that is not JSON); retrying without changing it is
    /// pointless.
    InvalidRequest(String),
    /// Iteration, token, or time budget exhausted. When the last round ended
    /// on a rejected `check`, the detail is that correction text.
    BudgetExhausted(String),
    /// Non-repairable tool error.
    ToolFailed(String),
    /// Transport, process, or provider failure.
    Backend(String),
}

impl Error {
    pub open spec fn text_spec(self) -> Seq<char> {
        match self {
            Error::InvalidRequest(detail) => "invalid request: "@ + detail@,
            Error::BudgetExhausted(detail) => "budget exhausted: "@ + detail@,
            Error::ToolFailed(detail) => "tool failed: "@ + detail@,
            Error::Backend(detail) => "backend failure: "@ + detail@,
        }
    }

    /// The failure in words.
    #[must_use]
    pub fn text(&self) -> (text: String)
        ensures
            text@ == self.text_spec(),
    {
        match self {
            Error::InvalidRequest(detail) => String::from_str("invalid request: ").concat(
                detail.as_str(),
            ),
            Error::BudgetExhausted(detail) => String::from_str("budget exhausted: ").concat(
                detail.as_str(),
            ),
            Error::ToolFailed(detail) => String::from_str("tool failed: ").concat(
                detail.as_str(),
            ),
            Error::Backend(detail) => String::from_str("backend failure: ").concat(
                detail.as_str(),
            ),
        }
    }
}

/// One tool invocation the model asked the guest to run.
#[derive(Debug, PartialEq, Eq)]
pub struct ToolCall {
    /// Correlation id the session answers by; the handler never needs it.
    pub id: String,
    /// The declared function-tool name the model called, or the reserved
    /// `check` when the request asked for one.
    pub name: String,
    /// JSON arguments object for the tool, per its declared parameters
    /// schema; the candidate text for `check`.
    pub arguments: String,
}

impl ToolCall {
    /// Deserialize the call's `arguments` with `parse`.
    ///
    /// # Errors
    ///
    /// Returns model-visible failure text when the arguments do not match.
    pub fn arguments<T, F: FnOnce(&str) -> Result<T, JsonError>>(&self, parse: F) -> (r: Result<
        T,
        String,
    >)
        requires
            forall|text: &str| #[trigger] parse.requires((text,)),
        ensures
            exists|text: &str, parsed: Result<T, JsonError>|
                {
                    &&& text@ == self.arguments@
                    &&& #[trigger] parse.ensures((text,), parsed)
                    &&& match parsed {
                        Ok(value) => r == Ok::<T, String>(value),
                        Err(error) => r matches Err(message) && exists|detail: String| #[trigger]
                            call_ensures(refusal_text, (&error,), detail) && message@
                                == "invalid arguments: "@ + detail@,
                    }
                },
    {
        match parse(self.arguments.as_str()) {
            Ok(value) => Ok(value),
            Err(error) => {
                let detail = refusal_text(&error);
                Err(String::from_str("invalid arguments: ").concat(detail.as_str()))
            },
        }
    }

    /// The answer to a tool call that nothing handles: a single-shot
    /// completion fails it back to the model.
    #[must_use]
    pub fn unhandled(&self) -> (text: String)
        ensures
            text@ == "tool `"@ + self.name@
                + "` has no handler: answer tool calls with complete_with"@,
    {
        String::from_str("tool `").concat(self.name.as_str()).concat(
            "` has no handler: answer tool calls with complete_with",
        )
    }
}

/// What a tool call came to, correlated by id.
#[derive(Debug, PartialEq, Eq)]
pub struct ToolResult {
    pub id: String,
    pub output: Result<String, String>,
}

/// The result that answers a call.
pub fn tool_result(call: &ToolCall, output: Result<String, String>) -> (r: ToolResult)
    ensures
        r.id == call.id,
        r.output == output,
{
    ToolResult { id: call.id.clone(), output }
}

/// The subpath of `path` beneath the preopen `name`, when `name` covers it:
/// empty for the preopen itself, else what follows the name and a slash.
pub open spec fn subpath(name: Seq<char>, path: Seq<char>) -> Option<Seq<char>> {
    if path == name {
        Some(Seq::empty())
    } else if name.len() + 1 < path.len() && name == path.subrange(0, name.len() as int)
        && path[name.len() as int] == '/' {
        Some(path.subrange(name.len() as int + 1, path.len() as int))
    } else {
        None
    }
}

/// The subpath of `path` beneath the preopen `name`, when `name` covers it.
#[must_use]
pub fn lend_subpath(name: &str, path: &str) -> (r: Option<String>)
    ensures
        crate::text::opt_view(r) == subpath(name@, path@),
{
    if str_eq(path, name) {
        return Some(String::new());
    }
    let names = chars_of(name);
    let chars = chars_of(path);
    if chars.len() <= 1 || names.len() >= chars.len() - 1 {
        return None;
    }
    let mut i: usize = 0;
    while i < names.len()
        invariant
            i <= names@.len(),
            names@.len() < chars@.len(),
            chars@ == path@,
            names@ == name@,
            name@.subrange(0, i as int) == path@.subrange(0, i as int),
        decreases names@.len() - i,
    {
        if names[i] != chars[i] {
            assert(name@[i as int] != path@.subrange(0, name@.len() as int)[i as int]);
            return None;
        }
        assert(name@.subrange(0, i + 1) =~= name@.subrange(0, i as int).push(name@[i as int]));
        assert(path@.subrange(0, i + 1) =~= path@.subrange(0, i as int).push(path@[i as int]));
        i = i + 1;
    }
    assert(name@.subrange(0, name@.len() as int) =~= name@);
    if chars[names.len()] != '/' {
        return None;
    }
    let mut rest = String::new();
    let mut k: usize = names.len() + 1;
    let ghost start = k as int;
    assert(path@.subrange(start, start) =~= Seq::empty());
    while k < chars.len()
        invariant
            0 <= start <= k <= chars@.len(),
            chars@ == path@,
            rest@ == path@.subrange(start, k as int),
        decreases chars@.len() - k,
    {
        rest.push(chars[k]);
        assert(path@.subrange(start, k + 1) =~= path@.subrange(start, k as int).push(
            path@[k as int],
        ));
        k = k + 1;
    }
    Some(rest)
}

/// Whether the preopen at `i` is the one to lend for the path: it covers the
/// path, no other that does leaves a shorter subpath, and none behind it
/// leaves one as short.
pub open spec fn lends(names: Seq<Seq<char>>, path: Seq<char>, i: int) -> bool {
    &&& 0 <= i < names.len()
    &&& subpath(names[i], path) is Some
    &&& forall|k: int|
        0 <= k < names.len() && (#[trigger] subpath(names[k], path)) is Some ==> {
            &&& subpath(names[i], path)->0.len() <= subpath(names[k], path)->0.len()
            &&& k > i ==> subpath(names[i], path)->0.len() < subpath(names[k], path)->0.len()
        }
}

/// Resolve a lend path against the names of the guest's preopens: the longest
/// preopen name that equals the path or prefixes it at a `/` boundary wins, by
/// its place; the remainder becomes the grant's subpath (empty for the mount
/// itself).
#[must_use]
pub fn resolve_lend(names: &Vec<String>, path: &str) -> (r: Option<(usize, String)>)
    ensures
        match r {
            Some((i, rest)) => lends(crate::text::views(names@), path@, i as int) && subpath(
                names@[i as int]@,
                path@,
            ) == Some(rest@),
            None => forall|k: int|
                0 <= k < names@.len() ==> (#[trigger] subpath(
                    crate::text::views(names@)[k],
                    path@,
                )) is None,
        },
{
    let ghost all = crate::text::views(names@);
    let mut best: Option<(usize, String)> = None;
    let mut n: usize = 0;
    while n < names.len()
        invariant
            n <= names@.len(),
            all == crate::text::views(names@),
            match best {
                Some((i, rest)) => lends(all.subrange(0, n as int), path@, i as int) && subpath(
                    all[i as int],
                    path@,
                ) == Some(rest@),
                None => forall|k: int| 0 <= k < n ==> (#[trigger] subpath(all[k], path@)) is None,
            },
        decreases names@.len() - n,
    {
        let found = lend_subpath(names[n].as_str(), path);
        let ghost before = all.subrange(0, n as int);
        let ghost now = all.subrange(0, n + 1);
        assert(forall|k: int| 0 <= k < n ==> now[k] == before[k]);
        assert(forall|k: int| 0 <= k <= n ==> now[k] == all[k]);
        let ghost held = best;
        if let Some(rest) = found {
            let better = match &best {
                Some((_, old_rest)) => char_count(rest.as_str()) <= char_count(old_rest.as_str()),
                None => true,
            };
            if better {
                best = Some((n, rest));
            }
        }
        proof {
            if let Some((i, _)) = best {
                assert(subpath(now[i as int], path@) is Some);
                assert forall|k: int|
                    0 <= k < now.len() && (#[trigger] subpath(now[k], path@)) is Some implies ({
                    &&& subpath(now[i as int], path@)->0.len() <= subpath(now[k], path@)->0.len()
                    &&& k > i ==> subpath(now[i as int], path@)->0.len() < subpath(
                        now[k],
                        path@,
                    )->0.len()
                }) by {
                    if k < n {
                        assert(subpath(before[k], path@) is Some);
                    }
                }
            }
        }
        n = n + 1;
    }
    assert(all.subrange(0, names@.len() as int) =~= all);
    best
}

fn char_count(text: &str) -> (n: usize)
    ensures
        n == text@.len(),
{
    chars_of(text).len()
}

/// The longest covering preopen wins: where one preopen is lent, no other
/// that covers the path has a longer name.
pub proof fn longest_preopen_wins(names: Seq<Seq<char>>, path: Seq<char>, i: int, k: int)
    requires
        lends(names, path, i),
        0 <= k < names.len(),
        subpath(names[k], path) is Some,
    ensures
        names[k].len() <= names[i].len(),
{
    lemma_subpath_length(names[i], path);
    lemma_subpath_length(names[k], path);
    if subpath(names[k], path)->0.len() == 0 {
        assert(subpath(names[i], path)->0.len() == 0);
    }
}

/// A subpath leaves of the path what its preopen's name does not cover.
proof fn lemma_subpath_length(name: Seq<char>, path: Seq<char>)
    ensures
        subpath(name, path) matches Some(rest) ==> if rest.len() == 0 {
            path == name
        } else {
            rest.len() + name.len() + 1 == path.len()
        },
{
}

/// The workspace to lend for a request: the place of a preopen and the
/// subpath beneath it.
///
/// # Errors
///
/// Returns [`Error::InvalidRequest`] when the request names a directory that no
/// preopen covers.
pub fn workspace_grant(names: &Vec<String>, workspace: &Option<String>) -> (r: Result<
    Option<(usize, String)>,
    Error,
>)
    ensures
        match workspace {
            None => r == Ok::<Option<(usize, String)>, Error>(None),
            Some(path) => if exists|k: int|
                0 <= k < names@.len() && (#[trigger] subpath(
                    crate::text::views(names@)[k],
                    path@,
                )) is Some {
                r matches Ok(Some((i, rest))) && lends(
                    crate::text::views(names@),
                    path@,
                    i as int,
                ) && subpath(names@[i as int]@, path@) == Some(rest@)
            } else {
                r matches Err(Error::InvalidRequest(detail)) && detail@ == "workspace lend `"@
                    + path@ + "` matches no preopen"@
            },
        },
{
    match workspace {
        None => Ok(None),
        Some(path) => match resolve_lend(names, path.as_str()) {
            Some(found) => {
                assert(subpath(crate::text::views(names@)[found.0 as int], path@) is Some);
                Ok(Some(found))
            },
            None => Err(
                Error::InvalidRequest(
                    String::from_str("workspace lend `").concat(path.as_str()).concat(
                        "` matches no preopen",
                    ),
                ),
            ),
        },
    }
}

/// A preopen and the subpath beneath it make up the path again: the preopen
/// itself, or its name, a slash and what is left.
pub proof fn lends_make_up_the_path(name: Seq<char>, path: Seq<char>)
    ensures
        subpath(name, path) matches Some(rest) ==> path == if rest.len() == 0 {
            name
        } else {
            name + seq!['/'] + rest
        },
{
    if let Some(rest) = subpath(name, path) {
        if path != name {
            assert(path =~= name + seq!['/'] + rest);
        }
    }
}

/// A preopen covers itself and every path beneath it, and no path that merely
/// begins with its name.
pub proof fn preopens_cover_what_is_beneath(name: Seq<char>, rest: Seq<char>, c: char)
    ensures
        subpath(name, name) == Some(Seq::<char>::empty()),
        rest.len() > 0 ==> subpath(name, name + seq!['/'] + rest) == Some(rest),
        c != '/' ==> subpath(name, name + seq![c] + rest) is None,
{
    let path = name + seq!['/'] + rest;
    assert(path.subrange(0, name.len() as int) =~= name);
    if rest.len() > 0 {
        assert(path.subrange(name.len() as int + 1, path.len() as int) =~= rest);
        assert(path.len() != name.len());
    }
    let other = name + seq![c] + rest;
    assert(other.len() > name.len());
    assert(other[name.len() as int] == c);
}

/// Of preopens that cover a path alike, the last is lent.
pub proof fn the_last_of_equals_is_lent(
    names: Seq<Seq<char>>,
    path: Seq<char>,
    i: int,
    k: int,
)
    requires
        lends(names, path, i),
        0 <= k < names.len(),
        names[k] == names[i],
    ensures
        k <= i,
{
    assert(subpath(names[k], path) is Some);
}

/// What is granted is a place of the list whose preopen and subpath make up the
/// directory that was asked for; nothing is granted exactly where nothing was
/// asked for; a directory is refused exactly where no preopen covers it, and
/// the refusal tells which it is.
pub proof fn grants_are_what_was_asked(
    names: Vec<String>,
    workspace: Option<String>,
    r: Result<Option<(usize, String)>, Error>,
    k: int,
)
    requires
        call_ensures(workspace_grant, (&names, &workspace), r),
    ensures
        (r matches Ok(None)) <==> workspace is None,
        r matches Ok(Some((i, rest))) ==> {
            let name = names@[i as int]@;
            &&& i < names@.len()
            &&& workspace->0@ == (if rest@.len() == 0 {
                name
            } else {
                name + seq!['/'] + rest@
            })
        },
        r is Err ==> workspace is Some && r->Err_0 is InvalidRequest && crate::text::holds(
            r->Err_0->InvalidRequest_0@,
            workspace->0@,
        ),
        r is Err && 0 <= k < names@.len() ==> workspace->0@ != names@[k]@,
{
    if let Some(path) = workspace {
        crate::text::holding_goes_on(path@);
        if let Ok(Some((i, rest))) = r {
            lends_make_up_the_path(names@[i as int]@, path@);
        }
        if r is Err && 0 <= k < names@.len() {
            assert(crate::text::views(names@)[k] == names@[k]@);
            assert(subpath(crate::text::views(names@)[k], path@) is None);
        }
    }
}

/// A tool's result answers the call it was made for, as it was given; a call
/// that nothing handles is answered with the tool's name.
pub proof fn tool_results_answer_their_call(
    call: ToolCall,
    output: Result<String, String>,
    r: ToolResult,
    text: String,
)
    requires
        call_ensures(tool_result, (&call, output), r),
        call_ensures(ToolCall::unhandled, (&call,), text),
    ensures
        r.id@ == call.id@,
        r.output == output,
        crate::text::holds(text@, call.name@),
{
    crate::text::holding_goes_on(call.name@);
}

} // verus!
