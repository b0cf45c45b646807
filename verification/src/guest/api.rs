//! Transport-neutral handler invocation.
//!
//! [`Client`] owns the provider and builds the [`Context`] each call receives.

use crate::guest::error::Error;
use std::sync::Arc;
use std::time::Duration;
use vstd::prelude::*;
use vstd::string::{StrSliceExecFns, StringExecFns};

verus! {

/// An input that could not be decoded into handler input.
#[derive(Debug, PartialEq, Eq)]
pub struct DecodeError {
    description: String,
}

impl DecodeError {
    pub closed spec fn description_spec(&self) -> Seq<char> {
        self.description@
    }

    /// Create a decode error from its description.
    pub fn new(description: String) -> (e: Self)
        ensures
            e.description_spec() == description@,
    {
        DecodeError { description }
    }

    /// Describe why the input could not be decoded.
    #[must_use]
    pub fn description(&self) -> (r: &str)
        ensures
            r@ == self.description_spec(),
    {
        self.description.as_str()
    }
}

/// The transport-neutral wire body of a failed invocation.
#[derive(Clone, Debug, PartialEq, Eq)]
pub struct ErrorBody {
    /// The error code discriminant.
    pub error: String,
    /// The human-readable error description.
    pub message: String,
}

impl vstd::std_specs::convert::FromSpecImpl<&Error> for ErrorBody {
    open spec fn obeys_from_spec() -> bool {
        true
    }

    open spec fn from_spec(error: &Error) -> Self {
        ErrorBody { error: error.code_spec(), message: error.description_spec() }
    }
}

impl From<&Error> for ErrorBody {
    fn from(error: &Error) -> (r: Self) {
        ErrorBody { error: error.code(), message: error.description() }
    }
}

/// The wire format a handler output is encoded into.
#[derive(Clone, Copy, Debug, Eq, PartialEq)]
pub enum Format {
    /// Human-readable text produced by a render fn.
    Text,
    /// Pretty-printed JSON with a trailing newline.
    Json,
}

/// An encoded body with its media type.
#[derive(Clone, Debug, Eq, PartialEq)]
pub struct Encoded {
    /// The encoded body bytes.
    pub bytes: Vec<u8>,
    /// The media type describing `bytes`.
    pub media_type: &'static str,
}

/// The bytes of a rendered text.
pub open spec fn text_bytes(text: Seq<char>) -> Seq<u8> {
    vstd::utf8::encode_utf8(text)
}

impl Format {
    /// Encode a body: what `render` gives for [`Format::Text`], what `json`
    /// gives and a newline for [`Format::Json`]. Only the one that the format
    /// needs is called.
    pub fn encode<T, R: FnOnce(&T) -> String, J: FnOnce(&T) -> Vec<u8>>(
        self,
        body: &T,
        render: R,
        json: J,
    ) -> (r: Encoded)
        requires
            self is Text ==> render.requires((body,)),
            self is Json ==> json.requires((body,)),
        ensures
            match self {
                Format::Text => r.media_type@ == "text/plain; charset=utf-8"@ && exists|out: String|
                    #[trigger] render.ensures((body,), out) && r.bytes@ == text_bytes(out@),
                Format::Json => r.media_type@ == "application/json"@ && exists|out: Vec<u8>|
                    #[trigger] json.ensures((body,), out) && r.bytes@ == out@.push(10u8),
            },
    {
        match self {
            Format::Text => {
                let out = render(body);
                Encoded {
                    bytes: out.as_str().as_bytes_vec(),
                    media_type: "text/plain; charset=utf-8",
                }
            },
            Format::Json => {
                let out = json(body);
                let mut bytes = out;
                bytes.push(10u8);
                Encoded { bytes, media_type: "application/json" }
            },
        }
    }
}

/// Transport-neutral invocation metadata.
#[derive(Clone, Debug, Eq, PartialEq)]
pub struct Metadata {
    /// Identifies this invocation at its transport boundary.
    pub request_id: Option<String>,
    /// Correlates work across transport and capability boundaries.
    pub correlation_id: Option<String>,
    /// Identifies the invocation that directly caused this work.
    pub causation_id: Option<String>,
    /// The latest instant at which the caller considers the work useful, as
    /// the time since the Unix epoch.
    pub deadline: Option<Duration>,
}

impl Default for Metadata {
    fn default() -> (r: Self)
        ensures
            r.request_id is None,
            r.correlation_id is None,
            r.causation_id is None,
            r.deadline is None,
    {
        Metadata { request_id: None, correlation_id: None, causation_id: None, deadline: None }
    }
}

/// The metadata that a transport's named values give; `minted` is the request
/// id where they give none.
pub open spec fn looked_up(
    request: Option<String>,
    correlation: Option<String>,
    causation: Option<String>,
    minted: String,
) -> Metadata {
    let request_id = match request {
        Some(id) => id,
        None => minted,
    };
    Metadata {
        request_id: Some(request_id),
        correlation_id: Some(
            match correlation {
                Some(id) => id,
                None => request_id,
            },
        ),
        causation_id: causation,
        deadline: None,
    }
}

impl Metadata {
    /// Build metadata from a transport's named values. A missing request id is
    /// minted so every invocation is observable; the correlation id falls back
    /// to the request id.
    pub fn from_values(
        request: Option<String>,
        correlation: Option<String>,
        causation: Option<String>,
    ) -> (r: Self)
        ensures
            exists|minted: String|
                (request is None ==> is_request_id(minted@)) && r == #[trigger] looked_up(
                    request,
                    correlation,
                    causation,
                    minted,
                ),
    {
        let request_id = match request {
            Some(id) => id,
            None => mint_request_id(),
        };
        let ghost fresh = request_id;
        let correlation_id = match correlation {
            Some(id) => id,
            None => request_id.clone(),
        };
        let r = Metadata {
            correlation_id: Some(correlation_id),
            request_id: Some(request_id),
            causation_id: causation,
            deadline: None,
        };
        assert(r == looked_up(request, correlation, causation, fresh));
        r
    }

    /// Build metadata from a transport's named-value lookup.
    ///
    /// Names are the transport-neutral `request-id` / `correlation-id` /
    /// `causation-id`. A missing request id is minted so every invocation
    /// is observable; the correlation id falls back to the request id.
    pub fn from_lookup<F: Fn(&str) -> Option<String>>(lookup: F) -> (r: Self)
        requires
            lookup.requires(("request-id",)),
            lookup.requires(("correlation-id",)),
            lookup.requires(("causation-id",)),
        ensures
            exists|request: Option<String>, correlation: Option<String>, causation: Option<
                String,
            >, minted: String|
                {
                    &&& lookup.ensures(("request-id",), request)
                    &&& lookup.ensures(("correlation-id",), correlation)
                    &&& lookup.ensures(("causation-id",), causation)
                    &&& request is None ==> is_request_id(minted@)
                    &&& r == #[trigger] looked_up(request, correlation, causation, minted)
                },
    {
        let request = lookup("request-id");
        let correlation = lookup("correlation-id");
        let causation = lookup("causation-id");
        Metadata::from_values(request, correlation, causation)
    }

    /// Mint metadata for a transport-initiated invocation.
    ///
    /// The freshly minted request id doubles as the correlation id.
    #[must_use]
    pub fn minted(request_id: String) -> (r: Self)
        ensures
            r.request_id == Some(request_id),
            r.correlation_id == Some(request_id),
            r.causation_id is None,
            r.deadline is None,
    {
        Metadata {
            correlation_id: Some(request_id.clone()),
            request_id: Some(request_id),
            causation_id: None,
            deadline: None,
        }
    }

    /// A copy of the metadata.
    #[must_use]
    pub fn copy(&self) -> (r: Self)
        ensures
            r == *self,
    {
        Metadata {
            request_id: copy_id(&self.request_id),
            correlation_id: copy_id(&self.correlation_id),
            causation_id: copy_id(&self.causation_id),
            deadline: self.deadline,
        }
    }
}

fn copy_id(id: &Option<String>) -> (r: Option<String>)
    ensures
        r == *id,
{
    match id {
        Some(id) => Some(id.clone()),
        None => None,
    }
}

/// Metadata always names its invocation and what it belongs to: by the caller's
/// ids where it gives them, and by the request id where it gives no
/// correlation id.
pub proof fn correlation_falls_back(
    request: Option<String>,
    correlation: Option<String>,
    causation: Option<String>,
    minted: String,
)
    ensures
        ({
            let metadata = looked_up(request, correlation, causation, minted);
            &&& metadata.request_id is Some
            &&& metadata.correlation_id is Some
            &&& request is Some ==> metadata.request_id == request
            &&& correlation is Some ==> metadata.correlation_id == correlation
            &&& correlation is None ==> metadata.correlation_id == metadata.request_id
            &&& metadata.causation_id == causation
        }),
{
}

/// The lowercase hexadecimal digit.
pub open spec fn hex_digit(d: nat) -> char {
    if d < 10 {
        (('0' as nat) + d) as char
    } else {
        (('a' as nat) + d - 10) as char
    }
}

/// The last `n` hexadecimal digits of a number, the most significant first.
pub open spec fn hex_digits(value: nat, n: nat) -> Seq<char>
    decreases n,
{
    if n == 0 {
        Seq::empty()
    } else {
        hex_digits(value / 16, (n - 1) as nat).push(hex_digit(value % 16))
    }
}

/// Whether a text has the shape of a minted request id: 32 lowercase
/// hexadecimal digits.
pub open spec fn is_request_id(text: Seq<char>) -> bool {
    text.len() == 32 && forall|i: int|
        0 <= i < text.len() ==> ('0' <= (#[trigger] text[i]) <= '9' || 'a' <= text[i] <= 'f')
}

proof fn lemma_hex_digits(value: nat, n: nat)
    ensures
        hex_digits(value, n).len() == n,
        forall|i: int|
            0 <= i < n ==> ('0' <= (#[trigger] hex_digits(value, n)[i]) <= '9' || 'a'
                <= hex_digits(value, n)[i] <= 'f'),
    decreases n,
{
    if n > 0 {
        lemma_hex_digits(value / 16, (n - 1) as nat);
    }
}

fn push_hex(out: &mut String, value: u64, n: usize)
    ensures
        final(out)@ == old(out)@ + hex_digits(value as nat, n as nat),
    decreases n,
{
    if n > 0 {
        push_hex(out, value / 16, n - 1);
        let d = (value % 16) as u8;
        let c = if d < 10 {
            (48u8 + d) as char
        } else {
            (87u8 + d) as char
        };
        out.push(c);
    }
}

/// The request id that 128 random bits give: 32 lowercase hexadecimal digits.
#[must_use]
pub fn request_id(high: u64, low: u64) -> (id: String)
    ensures
        id@ == hex_digits(high as nat, 16) + hex_digits(low as nat, 16),
        is_request_id(id@),
{
    let mut id = String::new();
    push_hex(&mut id, high, 16);
    push_hex(&mut id, low, 16);
    proof {
        lemma_hex_digits(high as nat, 16);
        lemma_hex_digits(low as nat, 16);
    }
    id
}

/// `std::hash::RandomState::new`: fresh random keys. Which they are is left to
/// chance.
#[verifier::external_body]
fn fresh_keys() -> (keys: std::hash::RandomState) {
    std::hash::RandomState::new()
}

/// `std::hash::BuildHasher::hash_one` under the keys of a
/// `std::hash::RandomState`: some number. It rests on keys left to chance.
#[verifier::external_body]
fn hash_under(keys: &std::hash::RandomState, seed: u8) -> (r: u64) {
    std::hash::BuildHasher::hash_one(keys, seed)
}

fn mint_request_id() -> (id: String)
    ensures
        is_request_id(id@),
{
    request_id(hash_under(&fresh_keys(), 0), hash_under(&fresh_keys(), 1))
}

/// Context owned by one handler call.
pub struct Context<P> {
    owner: Arc<String>,
    provider: Arc<P>,
    /// Transport-neutral invocation metadata.
    pub metadata: Metadata,
}

impl<P> Context<P> {
    pub closed spec fn owner_spec(&self) -> Seq<char> {
        self.owner@
    }

    pub closed spec fn provider_spec(&self) -> P {
        *self.provider
    }

    pub closed spec fn metadata_spec(&self) -> Metadata {
        self.metadata
    }

    /// Create a context outside a [`Client`], typically to unit-test a handler.
    pub fn new(owner: String, provider: P, metadata: Metadata) -> (context: Self)
        ensures
            context.owner_spec() == owner@,
            context.provider_spec() == provider,
            context.metadata_spec() == metadata,
    {
        Context { owner: Arc::new(owner), provider: Arc::new(provider), metadata }
    }

    /// Return the owning tenant or namespace.
    #[must_use]
    pub fn owner(&self) -> (owner: &str)
        ensures
            owner@ == self.owner_spec(),
    {
        self.owner.as_str()
    }

    /// Return the provider used to fulfil the call.
    #[must_use]
    pub fn provider(&self) -> (provider: &P)
        ensures
            *provider == self.provider_spec(),
    {
        &self.provider
    }
}

impl<P> Clone for Context<P> {
    fn clone(&self) -> (r: Self)
        ensures
            r == *self,
    {
        Context {
            owner: Arc::clone(&self.owner),
            provider: Arc::clone(&self.provider),
            metadata: self.metadata.copy(),
        }
    }
}

/// Provider-owning handler client.
///
/// Clones share one provider allocation. Transports define its lifetime.
pub struct Client<P> {
    owner: Arc<String>,
    provider: Arc<P>,
}

impl<P> Client<P> {
    pub closed spec fn owner_spec(&self) -> Seq<char> {
        self.owner@
    }

    pub closed spec fn provider_spec(&self) -> P {
        *self.provider
    }

    /// Create a client with one clone-shared provider allocation.
    pub fn new(owner: String, provider: P) -> (client: Self)
        ensures
            client.owner_spec() == owner@,
            client.provider_spec() == provider,
    {
        Client { owner: Arc::new(owner), provider: Arc::new(provider) }
    }

    /// Return the owning tenant or namespace.
    #[must_use]
    pub fn owner(&self) -> (owner: &str)
        ensures
            owner@ == self.owner_spec(),
    {
        self.owner.as_str()
    }

    /// Return the shared provider.
    #[must_use]
    pub fn provider(&self) -> (provider: &P)
        ensures
            *provider == self.provider_spec(),
    {
        &self.provider
    }

    /// Whether a context is the one that this client builds for a call with
    /// the metadata.
    pub open spec fn builds(&self, context: Context<P>, metadata: Metadata) -> bool {
        &&& context.owner_spec() == self.owner_spec()
        &&& context.provider_spec() == self.provider_spec()
        &&& context.metadata_spec() == metadata
    }

    /// Invoke a handler with the given input and metadata. An `async` handler
    /// is invoked by this call, and what it returns is the future to await.
    pub fn call<F: FnOnce(I, Context<P>) -> R, I, R>(
        &self,
        handler: F,
        input: I,
        metadata: &Metadata,
    ) -> (r: R)
        requires
            forall|context: Context<P>| #[trigger]
                self.builds(context, *metadata) ==> handler.requires((input, context)),
        ensures
            exists|context: Context<P>| #[trigger]
                self.builds(context, *metadata) && handler.ensures((input, context), r),
    {
        let context = Context {
            owner: Arc::clone(&self.owner),
            provider: Arc::clone(&self.provider),
            metadata: metadata.copy(),
        };
        assert(self.builds(context, *metadata));
        handler(input, context)
    }
}

impl<P> Clone for Client<P> {
    fn clone(&self) -> (r: Self)
        ensures
            r == *self,
    {
        Client { owner: Arc::clone(&self.owner), provider: Arc::clone(&self.provider) }
    }
}

/// The value of a lowercase hexadecimal digit.
pub open spec fn hex_value(c: char) -> int {
    if '0' <= c <= '9' {
        c as int - '0' as int
    } else {
        c as int - 'a' as int + 10
    }
}

/// The number that hexadecimal digits write.
pub open spec fn hex_number(digits: Seq<char>) -> int
    decreases digits.len(),
{
    if digits.len() == 0 {
        0
    } else {
        hex_number(digits.drop_last()) * 16 + hex_value(digits.last())
    }
}

/// A number that fits into so many hexadecimal digits is read back from them.
pub proof fn hex_digits_are_read_back(value: nat, n: nat)
    requires
        value < vstd::arithmetic::power::pow(16, n),
    ensures
        hex_number(hex_digits(value, n)) == value,
    decreases n,
{
    vstd::arithmetic::power::lemma_pow0(16);
    if n > 0 {
        let p = (n - 1) as nat;
        vstd::arithmetic::power::lemma_pow1(16);
        vstd::arithmetic::power::lemma_pow_adds(16, p, 1);
        let low = vstd::arithmetic::power::pow(16, p);
        assert(vstd::arithmetic::power::pow(16, n) == low * 16);
        assert(value / 16 < low);
        hex_digits_are_read_back(value / 16, p);
        assert(hex_digits(value, n).drop_last() =~= hex_digits(value / 16, p));
        assert(hex_value(hex_digit(value % 16)) == value % 16);
    }
}

/// Request ids are as apart as the bits they were made of.
pub proof fn request_ids_tell_their_bits(
    high: u64,
    low: u64,
    other_high: u64,
    other_low: u64,
    a: String,
    b: String,
)
    requires
        call_ensures(request_id, (high, low), a),
        call_ensures(request_id, (other_high, other_low), b),
    ensures
        a@ == b@ <==> high == other_high && low == other_low,
        hex_number(a@.subrange(0, 16)) == high,
        hex_number(a@.subrange(16, 32)) == low,
{
    lemma_word_digits(high);
    lemma_word_digits(low);
    lemma_word_digits(other_high);
    lemma_word_digits(other_low);
    assert(a@.subrange(0, 16) =~= hex_digits(high as nat, 16));
    assert(a@.subrange(16, 32) =~= hex_digits(low as nat, 16));
    assert(b@.subrange(0, 16) =~= hex_digits(other_high as nat, 16));
    assert(b@.subrange(16, 32) =~= hex_digits(other_low as nat, 16));
}

proof fn lemma_word_digits(word: u64)
    ensures
        hex_digits(word as nat, 16).len() == 16,
        hex_number(hex_digits(word as nat, 16)) == word,
{
    lemma_hex_digits(word as nat, 16);
    vstd::arithmetic::power2::lemma2_to64();
    vstd::arithmetic::power2::lemma_pow2(64);
    vstd::arithmetic::power::lemma_pow_multiplies(2, 4, 16);
    vstd::arithmetic::power2::lemma_pow2(4);
    assert(4 * 16 == 64nat);
    hex_digits_are_read_back(word as nat, 16);
}

/// A text body is what was rendered; a JSON body what was serialized, with a
/// newline behind it; the two never share a media type.
pub proof fn bodies_tell_their_format<T, R: FnOnce(&T) -> String, J: FnOnce(&T) -> Vec<u8>>(
    body: &T,
    render: R,
    json: J,
    text: Encoded,
    data: Encoded,
)
    requires
        call_ensures(Format::encode::<T, R, J>, (Format::Text, body, render, json), text),
        call_ensures(Format::encode::<T, R, J>, (Format::Json, body, render, json), data),
    ensures
        text.media_type@ != data.media_type@,
        data.bytes@.len() > 0 && data.bytes@.last() == 10,
        exists|out: Vec<u8>| #[trigger]
            json.ensures((body,), out) && data.bytes@.drop_last() == out@,
        exists|out: String| #[trigger]
            render.ensures((body,), out) && text.bytes@ == text_bytes(out@),
{
    reveal_strlit("text/plain; charset=utf-8");
    reveal_strlit("application/json");
    assert("text/plain; charset=utf-8"@[0] == 't');
    assert("application/json"@[0] == 'a');
    let out = choose|out: Vec<u8>| #[trigger]
        json.ensures((body,), out) && data.bytes@ == out@.push(10u8);
    assert(data.bytes@.drop_last() =~= out@);
}

/// A handler works in the client's name: a context that the client builds has
/// the client's owner and provider, and the metadata of the call.
pub proof fn contexts_are_the_clients<P>(
    client: Client<P>,
    context: Context<P>,
    metadata: Metadata,
)
    requires
        client.builds(context, metadata),
    ensures
        context.owner_spec() == client.owner_spec(),
        context.provider_spec() == client.provider_spec(),
        context.metadata_spec() == metadata,
{
}

} // verus!
