//! The function that an instrumented one is re-emitted as.

use crate::text::join;
use quote::ToTokens;
use vstd::prelude::*;
use vstd::string::StringExecFns;

verus! {

/// A function of the given parts around a body.
pub open spec fn emitted(
    attributes: Seq<Seq<char>>,
    visibility: Seq<char>,
    signature: Seq<char>,
    body: Seq<char>,
) -> Seq<char> {
    crate::text::joined(attributes, " "@) + " "@ + visibility + " "@ + signature + " { "@ + body
        + " }"@
}

/// Re-emit a function around its instrumented `body`: its own attributes,
/// visibility and signature stay, so that the wrapper keeps its docs, `pub`,
/// and any `#[cfg]` or `#[allow]`.
#[must_use]
pub fn instrumented(attributes: &Vec<String>, visibility: &str, signature: &str, body: &str) -> (r:
    String)
    ensures
        r@ == emitted(crate::text::views(attributes@), visibility@, signature@, body@),
{
    join(attributes, " ").concat(" ").concat(visibility).concat(" ").concat(signature).concat(
        " { ",
    ).concat(body).concat(" }")
}

/// The attributes, the visibility and the signature, as text, of the function
/// that a source text is for `syn`; or what `syn` says of a text that is none.
pub uninterp spec fn function_parts(item: Seq<char>) -> Result<
    (Seq<Seq<char>>, Seq<char>, Seq<char>),
    Seq<char>,
>;

/// `syn`'s parse of a source text as an `ItemFn`, over `proc_macro2`'s own
/// lexer: each attribute, the visibility and the signature as `quote` prints
/// their tokens, or the parser's message.
#[verifier::external_body]
fn parts_of(item: &str) -> (r: Result<(Vec<String>, String, String), String>)
    ensures
        match r {
            Ok((attributes, visibility, signature)) => function_parts(item@) == Ok::<
                (Seq<Seq<char>>, Seq<char>, Seq<char>),
                Seq<char>,
            >((crate::text::views(attributes@), visibility@, signature@)),
            Err(message) => function_parts(item@) == Err::<
                (Seq<Seq<char>>, Seq<char>, Seq<char>),
                Seq<char>,
            >(message@),
        },
{
    proc_macro2::fallback::force();
    let parts = match syn::parse_str::<syn::ItemFn>(item) {
        Ok(function) => Ok((
            function.attrs.iter().map(|a| a.to_token_stream().to_string()).collect(),
            function.vis.to_token_stream().to_string(),
            function.sig.to_token_stream().to_string(),
        )),
        Err(error) => Err(error.to_string()),
    };
    proc_macro2::fallback::unforce();
    parts
}

/// Re-emit the function that the source text `item` is around its instrumented
/// `body`.
///
/// # Errors
///
/// Returns the parser's message for a text that is no function.
pub fn instrument(item: &str, body: &str) -> (r: Result<String, String>)
    ensures
        match function_parts(item@) {
            Ok((attributes, visibility, signature)) => r is Ok && r->Ok_0@ == emitted(
                attributes,
                visibility,
                signature,
                body@,
            ),
            Err(message) => r is Err && r->Err_0@ == message,
        },
{
    match parts_of(item) {
        Ok((attributes, visibility, signature)) => Ok(
            instrumented(&attributes, visibility.as_str(), signature.as_str(), body),
        ),
        Err(message) => Err(message),
    }
}

/// A re-emitted function begins with its attributes, each of them, and ends
/// with its visibility, its signature and the body in braces, in that order.
pub proof fn emitted_functions_keep_their_parts(
    attributes: Seq<Seq<char>>,
    visibility: Seq<char>,
    signature: Seq<char>,
    body: Seq<char>,
    i: int,
)
    requires
        0 <= i < attributes.len(),
    ensures
        ({
            let text = emitted(attributes, visibility, signature, body);
            let tail = visibility + " "@ + signature + " { "@ + body + " }"@;
            let head = text.len() - tail.len();
            &&& head >= 0
            &&& text.subrange(head, text.len() as int) == tail
            &&& crate::text::holds(text.subrange(0, head), attributes[i])
        }),
{
    let text = emitted(attributes, visibility, signature, body);
    let tail = visibility + " "@ + signature + " { "@ + body + " }"@;
    let front = crate::text::joined(attributes, " "@) + " "@;
    assert(text =~= front + tail);
    assert(text.subrange(front.len() as int, text.len() as int) =~= tail);
    assert(text.subrange(0, front.len() as int) =~= front);
    crate::text::joins_hold_their_parts(attributes, " "@, i);
    crate::text::holding_goes_on(attributes[i]);
}

} // verus!
