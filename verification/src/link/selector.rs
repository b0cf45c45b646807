//! Guest selector: which registered guest serves a host-mediated call.
//!
//! That decision is a consumer-policy detail, so it is a pluggable
//! [`GuestSelector`] strategy with one default. The strategy runs on the typed
//! call before the invocation is encoded onto the carrier.

use crate::registry::GuestId;
use crate::text::decimal_text;
use crate::value::Val;
use vstd::prelude::*;
use vstd::string::StringExecFns;

verus! {

/// The parameters that a selector forwards.
#[derive(Debug, PartialEq, Eq)]
pub enum Forwarded {
    /// Those of the call, unchanged.
    AsGiven,
    /// Reshaped ones.
    Reshaped(Vec<Val>),
}

/// The chosen target and the parameters to forward to it.
#[derive(Debug, PartialEq, Eq)]
pub struct Selection {
    pub id: GuestId,
    pub params: Forwarded,
}

/// Why no target could be derived from a call.
#[derive(Debug, PartialEq, Eq)]
pub struct SelectError {
    pub reason: String,
}

/// Chooses the target guest for a host-mediated call and the parameters to
/// forward to it.
///
/// An implementation sees only the opaque interface and function names and the
/// typed parameters, and returns an opaque [`GuestId`].
pub trait GuestSelector {
    /// Select the target guest for a call to `func` on `interface`, given its
    /// decoded `params`, returning the chosen identity and the parameters to
    /// forward to the target's matching export.
    ///
    /// # Errors
    ///
    /// Returns an error if no target identity can be derived from the call.
    fn select(&self, interface: &str, func: &str, params: &Vec<Val>) -> Result<
        Selection,
        SelectError,
    >;
}

/// The default strategy: the first parameter is a string identity.
///
/// The leading argument names the target and is forwarded through: the adapter
/// imports and exports the same interface, so the target's export expects the
/// identity argument too.
#[derive(Clone, Copy, Debug)]
pub struct FirstArgSelector;

/// The identity that a call's first parameter names.
pub open spec fn first_arg(params: Seq<Val>) -> Option<Seq<char>> {
    if params.len() > 0 {
        match params[0] {
            Val::Str(id) => Some(id@),
            _ => None,
        }
    } else {
        None
    }
}

/// A number in decimal, behind a minus sign where it is negative.
pub open spec fn signed(n: int) -> Seq<char> {
    if n < 0 {
        "-"@ + crate::text::decimal((-n) as nat)
    } else {
        crate::text::decimal(n as nat)
    }
}

/// The debug form of a character.
pub uninterp spec fn char_quoted(c: char) -> Seq<char>;

/// The debug form of a text.
pub uninterp spec fn text_quoted(text: Seq<char>) -> Seq<char>;

/// How an optional value is shown.
pub open spec fn shown_payload(payload: Option<Box<Val>>) -> Seq<char>
    decreases payload, 0nat,
{
    match payload {
        None => "None"@,
        Some(val) => "Some("@ + shown(*val) + ")"@,
    }
}

/// How the first `n` values of a list are shown, between commas.
pub open spec fn shown_items(vals: Seq<Val>, n: nat) -> Seq<char>
    decreases vals, n + 1,
{
    if n == 0 || n > vals.len() {
        Seq::empty()
    } else {
        shown_items(vals, (n - 1) as nat) + (if n == 1 {
            ""@
        } else {
            ", "@
        }) + shown(vals[n - 1])
    }
}

/// How the first `n` named values of a record are shown, between commas.
pub open spec fn shown_fields(fields: Seq<(String, Val)>, n: nat) -> Seq<char>
    decreases fields, n + 1,
{
    if n == 0 || n > fields.len() {
        Seq::empty()
    } else {
        shown_fields(fields, (n - 1) as nat) + (if n == 1 {
            ""@
        } else {
            ", "@
        }) + "("@ + text_quoted(fields[n - 1].0@) + ", "@ + shown(fields[n - 1].1) + ")"@
    }
}

/// How the first `n` entries of a map are shown, between commas.
pub open spec fn shown_entries(entries: Seq<(Val, Val)>, n: nat) -> Seq<char>
    decreases entries, n + 1,
{
    if n == 0 || n > entries.len() {
        Seq::empty()
    } else {
        shown_entries(entries, (n - 1) as nat) + (if n == 1 {
            ""@
        } else {
            ", "@
        }) + "("@ + shown(entries[n - 1].0) + ", "@ + shown(entries[n - 1].1) + ")"@
    }
}

/// How the first `n` of a number of names are shown, between commas.
pub open spec fn shown_names(names: Seq<String>, n: nat) -> Seq<char>
    decreases n,
{
    if n == 0 || n > names.len() {
        Seq::empty()
    } else {
        shown_names(names, (n - 1) as nat) + (if n == 1 {
            ""@
        } else {
            ", "@
        }) + text_quoted(names[n - 1]@)
    }
}

/// How a value is shown: its debug form. A floating-point number, a handle and
/// an error context are shown by their kind.
pub open spec fn shown(val: Val) -> Seq<char>
    decreases val, 0nat,
{
    match val {
        Val::Bool(true) => "Bool(true)"@,
        Val::Bool(false) => "Bool(false)"@,
        Val::S8(n) => "S8("@ + signed(n as int) + ")"@,
        Val::U8(n) => "U8("@ + signed(n as int) + ")"@,
        Val::S16(n) => "S16("@ + signed(n as int) + ")"@,
        Val::U16(n) => "U16("@ + signed(n as int) + ")"@,
        Val::S32(n) => "S32("@ + signed(n as int) + ")"@,
        Val::U32(n) => "U32("@ + signed(n as int) + ")"@,
        Val::S64(n) => "S64("@ + signed(n as int) + ")"@,
        Val::U64(n) => "U64("@ + signed(n as int) + ")"@,
        Val::Float32(_) => "Float32(..)"@,
        Val::Float64(_) => "Float64(..)"@,
        Val::Char(c) => "Char("@ + char_quoted(c) + ")"@,
        Val::Str(text) => "String("@ + text_quoted(text@) + ")"@,
        Val::List(vals) => "List(["@ + shown_items(vals@, vals@.len()) + "])"@,
        Val::Record(fields) => "Record(["@ + shown_fields(fields@, fields@.len()) + "])"@,
        Val::Tuple(vals) => "Tuple(["@ + shown_items(vals@, vals@.len()) + "])"@,
        Val::Variant(name, payload) => "Variant("@ + text_quoted(name@) + ", "@ + shown_payload(
            payload,
        ) + ")"@,
        Val::Enum(name) => "Enum("@ + text_quoted(name@) + ")"@,
        Val::Opt(payload) => "Option("@ + shown_payload(payload) + ")"@,
        Val::Res(Ok(payload)) => "Result(Ok("@ + shown_payload(payload) + "))"@,
        Val::Res(Err(payload)) => "Result(Err("@ + shown_payload(payload) + "))"@,
        Val::Flags(names) => "Flags(["@ + shown_names(names@, names@.len()) + "])"@,
        Val::Resource => "Resource(..)"@,
        Val::Mapping(entries) => "Map(["@ + shown_entries(entries@, entries@.len()) + "])"@,
        Val::Future => "Future(..)"@,
        Val::Stream => "Stream(..)"@,
        Val::ErrorContext => "ErrorContext(..)"@,
    }
}

/// How what stands first among a call's parameters is shown.
pub open spec fn found(params: Seq<Val>) -> Seq<char> {
    if params.len() == 0 {
        "None"@
    } else {
        "Some("@ + shown(params[0]) + ")"@
    }
}

/// What is said of a call that names no target.
pub open spec fn first_arg_missing(
    interface: Seq<char>,
    func: Seq<char>,
    params: Seq<Val>,
) -> Seq<char> {
    "selector: call to `"@ + interface + "/"@ + func
        + "` must carry a leading string identity argument, found "@ + found(params)
}

/// The `Debug` form of a `char`, as `format!` writes it with `{:?}`.
#[verifier::external_body]
fn quote_char(c: char) -> (text: String)
    ensures
        text@ == char_quoted(c),
{
    format!("{c:?}")
}

/// The `Debug` form of a `str`, as `format!` writes it with `{:?}`.
#[verifier::external_body]
fn quote_text(s: &str) -> (text: String)
    ensures
        text@ == text_quoted(s@),
{
    format!("{s:?}")
}

fn number(kind: &str, n: i64) -> (text: String)
    ensures
        text@ == kind@ + signed(n as int) + ")"@,
{
    let digits = if n >= 0 {
        decimal_text(n as u64)
    } else if n == i64::MIN {
        String::from_str("-").concat(decimal_text(0x8000_0000_0000_0000).as_str())
    } else {
        String::from_str("-").concat(decimal_text((-n) as u64).as_str())
    };
    String::from_str(kind).concat(digits.as_str()).concat(")")
}

fn within(before: &str, inner: &str, after: &str) -> (text: String)
    ensures
        text@ == before@ + inner@ + after@,
{
    String::from_str(before).concat(inner).concat(after)
}

fn comma(i: usize) -> (text: &'static str)
    ensures
        text@ == (if i == 0 {
            ""@
        } else {
            ", "@
        }),
{
    if i == 0 {
        ""
    } else {
        ", "
    }
}

fn show_payload(payload: &Option<Box<Val>>) -> (text: String)
    ensures
        text@ == shown_payload(*payload),
    decreases payload,
{
    match payload {
        None => String::from_str("None"),
        Some(val) => {
            let inner = show(&**val);
            within("Some(", inner.as_str(), ")")
        },
    }
}

fn show_items(vals: &Vec<Val>) -> (text: String)
    ensures
        text@ == shown_items(vals@, vals@.len()),
    decreases vals,
{
    let mut text = String::from_str("");
    proof {
        reveal_strlit("");
    }
    assert(text@ =~= Seq::<char>::empty());
    let mut i: usize = 0;
    while i < vals.len()
        invariant
            i <= vals@.len(),
            text@ == shown_items(vals@, i as nat),
        decreases vals@.len() - i,
    {
        let item = show(&vals[i]);
        text = text.concat(comma(i)).concat(item.as_str());
        i = i + 1;
    }
    text
}

fn show_fields(fields: &Vec<(String, Val)>) -> (text: String)
    ensures
        text@ == shown_fields(fields@, fields@.len()),
    decreases fields,
{
    let mut text = String::from_str("");
    proof {
        reveal_strlit("");
    }
    assert(text@ =~= Seq::<char>::empty());
    let mut i: usize = 0;
    while i < fields.len()
        invariant
            i <= fields@.len(),
            text@ == shown_fields(fields@, i as nat),
        decreases fields@.len() - i,
    {
        let item = show(&fields[i].1);
        text = text.concat(comma(i)).concat("(").concat(
            quote_text(fields[i].0.as_str()).as_str(),
        ).concat(", ").concat(item.as_str()).concat(")");
        i = i + 1;
    }
    text
}

fn show_entries(entries: &Vec<(Val, Val)>) -> (text: String)
    ensures
        text@ == shown_entries(entries@, entries@.len()),
    decreases entries,
{
    let mut text = String::from_str("");
    proof {
        reveal_strlit("");
    }
    assert(text@ =~= Seq::<char>::empty());
    let mut i: usize = 0;
    while i < entries.len()
        invariant
            i <= entries@.len(),
            text@ == shown_entries(entries@, i as nat),
        decreases entries@.len() - i,
    {
        let key = show(&entries[i].0);
        let item = show(&entries[i].1);
        text = text.concat(comma(i)).concat("(").concat(key.as_str()).concat(", ").concat(
            item.as_str(),
        ).concat(")");
        i = i + 1;
    }
    text
}

fn show_names(names: &Vec<String>) -> (text: String)
    ensures
        text@ == shown_names(names@, names@.len()),
{
    let mut text = String::from_str("");
    proof {
        reveal_strlit("");
    }
    assert(text@ =~= Seq::<char>::empty());
    let mut i: usize = 0;
    while i < names.len()
        invariant
            i <= names@.len(),
            text@ == shown_names(names@, i as nat),
        decreases names@.len() - i,
    {
        text = text.concat(comma(i)).concat(quote_text(names[i].as_str()).as_str());
        i = i + 1;
    }
    text
}

fn show(val: &Val) -> (text: String)
    ensures
        text@ == shown(*val),
    decreases val,
{
    match val {
        Val::Bool(true) => String::from_str("Bool(true)"),
        Val::Bool(false) => String::from_str("Bool(false)"),
        Val::S8(n) => number("S8(", *n as i64),
        Val::U8(n) => number("U8(", *n as i64),
        Val::S16(n) => number("S16(", *n as i64),
        Val::U16(n) => number("U16(", *n as i64),
        Val::S32(n) => number("S32(", *n as i64),
        Val::U32(n) => number("U32(", *n as i64),
        Val::S64(n) => number("S64(", *n),
        Val::U64(n) => String::from_str("U64(").concat(decimal_text(*n).as_str()).concat(")"),
        Val::Float32(_) => String::from_str("Float32(..)"),
        Val::Float64(_) => String::from_str("Float64(..)"),
        Val::Char(c) => within("Char(", quote_char(*c).as_str(), ")"),
        Val::Str(s) => within("String(", quote_text(s.as_str()).as_str(), ")"),
        Val::List(vals) => within("List([", show_items(vals).as_str(), "])"),
        Val::Record(fields) => within("Record([", show_fields(fields).as_str(), "])"),
        Val::Tuple(vals) => within("Tuple([", show_items(vals).as_str(), "])"),
        Val::Variant(name, payload) => String::from_str("Variant(").concat(
            quote_text(name.as_str()).as_str(),
        ).concat(", ").concat(show_payload(payload).as_str()).concat(")"),
        Val::Enum(name) => within("Enum(", quote_text(name.as_str()).as_str(), ")"),
        Val::Opt(payload) => within("Option(", show_payload(payload).as_str(), ")"),
        Val::Res(Ok(payload)) => within("Result(Ok(", show_payload(payload).as_str(), "))"),
        Val::Res(Err(payload)) => within("Result(Err(", show_payload(payload).as_str(), "))"),
        Val::Flags(names) => within("Flags([", show_names(names).as_str(), "])"),
        Val::Resource => String::from_str("Resource(..)"),
        Val::Mapping(entries) => within("Map([", show_entries(entries).as_str(), "])"),
        Val::Future => String::from_str("Future(..)"),
        Val::Stream => String::from_str("Stream(..)"),
        Val::ErrorContext => String::from_str("ErrorContext(..)"),
    }
}

impl GuestSelector for FirstArgSelector {
    fn select(&self, interface: &str, func: &str, params: &Vec<Val>) -> (r: Result<
        Selection,
        SelectError,
    >)
        ensures
            match r {
                Ok(selection) => first_arg(params@) == Some(selection.id@)
                    && selection.params is AsGiven,
                Err(e) => first_arg(params@) is None && e.reason@ == first_arg_missing(
                    interface@,
                    func@,
                    params@,
                ),
            },
    {
        if params.len() > 0 {
            if let Val::Str(id) = &params[0] {
                return Ok(
                    Selection { id: GuestId::new(id.as_str()), params: Forwarded::AsGiven },
                );
            }
        }
        let first = if params.len() == 0 {
            String::from_str("None")
        } else {
            String::from_str("Some(").concat(show(&params[0]).as_str()).concat(")")
        };
        Err(
            SelectError {
                reason: String::from_str("selector: call to `").concat(interface).concat(
                    "/",
                ).concat(func).concat(
                    "` must carry a leading string identity argument, found ",
                ).concat(first.as_str()),
            },
        )
    }
}

/// The leading text of a call names its target, whatever follows it, and is
/// handed on; a call that does not lead with a text has none.
pub proof fn leading_texts_name_the_target(
    interface: &str,
    func: &str,
    params: Vec<Val>,
    r: Result<Selection, SelectError>,
)
    requires
        call_ensures(FirstArgSelector::select, (&FirstArgSelector, interface, func, &params), r),
    ensures
        r is Ok <==> params@.len() > 0 && params@[0] is Str,
        r is Ok ==> r->Ok_0.id@ == params@[0]->Str_0@ && r->Ok_0.params is AsGiven,
        r is Err ==> crate::text::holds(r->Err_0.reason@, interface@ + "/"@ + func@),
        r is Err && params@.len() > 0 ==> crate::text::holds(r->Err_0.reason@, shown(params@[0])),
{
    if r is Err {
        let named = interface@ + "/"@ + func@;
        let head = "selector: call to `"@ + interface@ + "/"@ + func@;
        let more = head + "` must carry a leading string identity argument, found "@;
        assert(head =~= "selector: call to `"@ + named);
        crate::text::holding_goes_on(named);
        assert(crate::text::holds(head, named));
        assert(crate::text::holds(more, named));
        if params@.len() > 0 {
            let value = shown(params@[0]);
            crate::text::holding_goes_on(value);
            assert(crate::text::holds("Some("@ + value, value));
            assert(crate::text::holds(found(params@), value));
        }
    }
}

/// A number is shown as itself: no two numbers alike.
pub proof fn numbers_are_shown_apart(a: int, b: int)
    ensures
        signed(a) == signed(b) <==> a == b,
        a < 0 <==> signed(a)[0] == '-',
{
    reveal_strlit("-");
    assert("-"@.len() == 1 && "-"@[0] == '-');
    lemma_shown_number(a);
    lemma_shown_number(b);
}

proof fn lemma_shown_number(a: int)
    ensures
        signed(a).len() > 0,
        a < 0 ==> signed(a)[0] == '-' && crate::text::number_of(
            signed(a).subrange(1, signed(a).len() as int),
        ) == -a,
        a >= 0 ==> '0' <= signed(a)[0] <= '9' && crate::text::number_of(signed(a)) == a,
{
    reveal_strlit("-");
    assert("-"@.len() == 1 && "-"@[0] == '-');
    if a < 0 {
        let digits = crate::text::decimal((-a) as nat);
        crate::text::decimals_are_read_back((-a) as nat);
        assert(signed(a).subrange(1, signed(a).len() as int) =~= digits);
    } else {
        crate::text::decimals_are_read_back(a as nat);
        assert('0' <= crate::text::decimal(a as nat)[0] <= '9');
    }
}

proof fn lemma_items_shown(vals: Seq<Val>, n: nat, i: int)
    requires
        0 <= i < n <= vals.len(),
    ensures
        crate::text::holds(shown_items(vals, n), shown(vals[i])),
    decreases n,
{
    let part = shown(vals[i]);
    let comma = if n == 1 {
        ""@
    } else {
        ", "@
    };
    crate::text::holding_goes_on(part);
    if i < n - 1 {
        lemma_items_shown(vals, (n - 1) as nat, i);
        assert(crate::text::holds(shown_items(vals, (n - 1) as nat) + comma, part));
    }
}

/// A list and a tuple show every value they hold, and a payload is shown with
/// what carries it.
pub proof fn shown_values_show_their_parts(val: Val, i: int)
    ensures
        match val {
            Val::List(vals) => 0 <= i < vals@.len() ==> crate::text::holds(
                shown(val),
                shown(vals@[i]),
            ),
            Val::Tuple(vals) => 0 <= i < vals@.len() ==> crate::text::holds(
                shown(val),
                shown(vals@[i]),
            ),
            Val::Opt(Some(payload)) => crate::text::holds(shown(val), shown(*payload)),
            Val::Res(Ok(Some(payload))) => crate::text::holds(shown(val), shown(*payload)),
            Val::Res(Err(Some(payload))) => crate::text::holds(shown(val), shown(*payload)),
            _ => true,
        },
{
    match val {
        Val::List(vals) => {
            if 0 <= i < vals@.len() {
                lemma_items_shown(vals@, vals@.len(), i);
                crate::text::holding_goes_on(shown(vals@[i]));
                assert(crate::text::holds(
                    "List(["@ + shown_items(vals@, vals@.len()),
                    shown(vals@[i]),
                ));
            }
        },
        Val::Tuple(vals) => {
            if 0 <= i < vals@.len() {
                lemma_items_shown(vals@, vals@.len(), i);
                crate::text::holding_goes_on(shown(vals@[i]));
                assert(crate::text::holds(
                    "Tuple(["@ + shown_items(vals@, vals@.len()),
                    shown(vals@[i]),
                ));
            }
        },
        Val::Opt(Some(payload)) => {
            let text = shown(*payload);
            crate::text::holding_goes_on(text);
            assert(crate::text::holds("Some("@ + text, text));
            assert(crate::text::holds(shown_payload(Some(payload)), text));
            assert(crate::text::holds("Option("@ + shown_payload(Some(payload)), text));
        },
        Val::Res(Ok(Some(payload))) => {
            let text = shown(*payload);
            crate::text::holding_goes_on(text);
            assert(crate::text::holds("Some("@ + text, text));
            assert(crate::text::holds(shown_payload(Some(payload)), text));
            assert(crate::text::holds("Result(Ok("@ + shown_payload(Some(payload)), text));
        },
        Val::Res(Err(Some(payload))) => {
            let text = shown(*payload);
            crate::text::holding_goes_on(text);
            assert(crate::text::holds("Some("@ + text, text));
            assert(crate::text::holds(shown_payload(Some(payload)), text));
            assert(crate::text::holds("Result(Err("@ + shown_payload(Some(payload)), text));
        },
        _ => {},
    }
}

} // verus!
