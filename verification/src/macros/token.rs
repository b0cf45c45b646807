//! Token trees, and what the Rust grammar says of them.
//!
//! A token carries a mark `at` by which its place in the source is found
//! again; diagnostics point at marks. The extent of an expression or a path is
//! the Rust grammar's business and asked of `syn`, over the lexer that
//! `proc_macro2` brings (`fallback::force`): inside a procedural macro it would
//! otherwise ask the compiler's, which goes by the edition, and the answer would
//! not be one of the text alone. `fallback::unforce` gives the compiler's back
//! before the answer is handed on.

use quote::ToTokens;
use vstd::prelude::*;
use vstd::string::StringExecFns;

verus! {

/// How a group of tokens is delimited. A group without visible delimiters, such
/// as a macro's fragment, is opened before (see [`crate::macros::tree`]).
#[derive(Clone, Copy, Debug, PartialEq, Eq, Structural)]
pub enum Delim {
    Paren,
    Brace,
    Bracket,
}

/// A token tree.
#[derive(Debug, PartialEq, Eq)]
pub struct Tok {
    /// The mark of the token's place.
    pub at: usize,
    /// The mark of a group's closing delimiter; any other token's own.
    pub close: usize,
    pub kind: TokKind,
}

/// The kinds of token trees.
#[derive(Debug, PartialEq, Eq)]
pub enum TokKind {
    Ident(String),
    /// A punctuation character, and whether the next one joins it.
    Punct(char, bool),
    Literal(String),
    Group(Delim, Vec<Tok>),
}

/// A diagnostic that points at a mark.
#[derive(Debug, PartialEq, Eq)]
pub struct Fault {
    pub at: usize,
    pub message: String,
}

/// A diagnostic, as the contracts speak of it.
pub struct FaultModel {
    pub at: usize,
    pub message: Seq<char>,
}

impl View for Fault {
    type V = FaultModel;

    open spec fn view(&self) -> FaultModel {
        FaultModel { at: self.at, message: self.message@ }
    }
}

impl Fault {
    pub fn new(at: usize, message: &str) -> (fault: Fault)
        ensures
            fault@ == (FaultModel { at, message: message@ }),
    {
        Fault { at, message: String::from_str(message) }
    }
}

/// What opens a group.
pub open spec fn open_text(delim: Delim) -> Seq<char> {
    match delim {
        Delim::Paren => "( "@,
        Delim::Brace => "{ "@,
        Delim::Bracket => "[ "@,
    }
}

/// What closes a group.
pub open spec fn close_text(delim: Delim) -> Seq<char> {
    match delim {
        Delim::Paren => ") "@,
        Delim::Brace => "} "@,
        Delim::Bracket => "] "@,
    }
}

/// A token tree as source text, a space behind it unless the next token joins.
pub open spec fn tok_text(tok: Tok) -> Seq<char>
    decreases tok, 0nat,
{
    match tok.kind {
        TokKind::Ident(text) => text@ + " "@,
        TokKind::Literal(text) => text@ + " "@,
        TokKind::Punct(c, joint) => if joint {
            seq![c]
        } else {
            seq![c] + " "@
        },
        TokKind::Group(delim, body) => open_text(delim) + render_first(body@, body@.len())
            + close_text(delim),
    }
}

/// The first `n` token trees as source text.
pub open spec fn render_first(toks: Seq<Tok>, n: nat) -> Seq<char>
    decreases toks, n + 1,
{
    if n == 0 || n > toks.len() {
        Seq::empty()
    } else {
        render_first(toks, (n - 1) as nat) + tok_text(toks[n - 1])
    }
}

/// Token trees as source text.
pub open spec fn render(toks: Seq<Tok>) -> Seq<char> {
    render_first(toks, toks.len())
}

fn tok_source(tok: &Tok) -> (text: String)
    ensures
        text@ == tok_text(*tok),
    decreases tok, 0nat,
{
    match &tok.kind {
        TokKind::Ident(text) => text.clone().concat(" "),
        TokKind::Literal(text) => text.clone().concat(" "),
        TokKind::Punct(c, joint) => {
            let mut text = String::new();
            text.push(*c);
            assert(text@ =~= seq![*c]);
            if *joint {
                text
            } else {
                text.concat(" ")
            }
        },
        TokKind::Group(delim, body) => {
            let inner = source_range(body, 0, body.len());
            assert(body@.subrange(0, body@.len() as int) =~= body@);
            let (open, close) = match delim {
                Delim::Paren => ("( ", ") "),
                Delim::Brace => ("{ ", "} "),
                Delim::Bracket => ("[ ", "] "),
            };
            String::from_str(open).concat(inner.as_str()).concat(close)
        },
    }
}

/// The tokens from `from` up to `to` as source text.
pub fn source_range(toks: &Vec<Tok>, from: usize, to: usize) -> (text: String)
    requires
        from <= to <= toks@.len(),
    ensures
        text@ == render(toks@.subrange(from as int, to as int)),
    decreases toks, 1nat,
{
    let ghost part = toks@.subrange(from as int, to as int);
    let mut text = String::new();
    let mut i: usize = from;
    assert(text@ =~= Seq::<char>::empty());
    while i < to
        invariant
            from <= i <= to <= toks@.len(),
            part == toks@.subrange(from as int, to as int),
            text@ == render_first(part, (i - from) as nat),
        decreases to - i,
    {
        assert(part[i - from] == toks@[i as int]);
        let next = tok_source(&toks[i]);
        text.append(next.as_str());
        i = i + 1;
    }
    text
}

/// The expression that a source text starts with: how many token trees `syn`
/// leaves behind it, and how it prints the expression; or what it says if the
/// text starts with none.
pub uninterp spec fn expr_piece(text: Seq<char>) -> Result<(nat, Seq<char>), Seq<char>>;

/// The path that a source text starts with: how many token trees `syn` leaves
/// behind it, and how it prints the path; or what it says if the text starts
/// with none.
pub uninterp spec fn path_piece(text: Seq<char>) -> Result<(nat, Seq<char>), Seq<char>>;

/// What `syn` says of a source text that is no identifier; nothing of one that
/// is.
pub uninterp spec fn ident_objection(text: Seq<char>) -> Option<Seq<char>>;

/// The name of the last segment of the path that a source text is, for `syn`.
pub uninterp spec fn last_segment(text: Seq<char>) -> Option<Seq<char>>;

/// `syn`'s parse of an `Expr` from the front of a source text that
/// `proc_macro2`'s own lexer reads: how many token trees follow it and its
/// tokens as text, or the parser's message.
#[verifier::external_body]
pub(crate) fn front_expr(text: &str) -> (r: Result<(usize, String), String>)
    ensures
        match r {
            Ok((n, printed)) => expr_piece(text@) == Ok::<(nat, Seq<char>), Seq<char>>(
                (n as nat, printed@),
            ),
            Err(message) => expr_piece(text@) == Err::<(nat, Seq<char>), Seq<char>>(message@),
        },
{
    let grammar = |input: syn::parse::ParseStream| {
        let front = input.parse::<syn::Expr>()?;
        Ok((input.parse::<proc_macro2::TokenStream>()?, front))
    };
    proc_macro2::fallback::force();
    let parsed = match syn::parse::Parser::parse_str(grammar, text) {
        Ok((rest, front)) => Ok((rest.into_iter().count(), front.to_token_stream().to_string())),
        Err(error) => Err(error.to_string()),
    };
    proc_macro2::fallback::unforce();
    parsed
}

/// `syn`'s parse of a `Path` from the front of a source text that
/// `proc_macro2`'s own lexer reads: how many token trees follow it and its
/// tokens as text, or the parser's message.
#[verifier::external_body]
pub(crate) fn front_path(text: &str) -> (r: Result<(usize, String), String>)
    ensures
        match r {
            Ok((n, printed)) => path_piece(text@) == Ok::<(nat, Seq<char>), Seq<char>>(
                (n as nat, printed@),
            ),
            Err(message) => path_piece(text@) == Err::<(nat, Seq<char>), Seq<char>>(message@),
        },
{
    let grammar = |input: syn::parse::ParseStream| {
        let front = input.parse::<syn::Path>()?;
        Ok((input.parse::<proc_macro2::TokenStream>()?, front))
    };
    proc_macro2::fallback::force();
    let parsed = match syn::parse::Parser::parse_str(grammar, text) {
        Ok((rest, front)) => Ok((rest.into_iter().count(), front.to_token_stream().to_string())),
        Err(error) => Err(error.to_string()),
    };
    proc_macro2::fallback::unforce();
    parsed
}

/// `syn`'s parse of a source text as an `Ident`, over `proc_macro2`'s own
/// lexer: its message where the text is none, a reserved word for example.
#[verifier::external_body]
pub(crate) fn ident_refusal(text: &str) -> (r: Option<String>)
    ensures
        match r {
            Some(message) => ident_objection(text@) == Some(message@),
            None => ident_objection(text@) is None,
        },
{
    proc_macro2::fallback::force();
    let refusal = match syn::parse_str::<syn::Ident>(text) {
        Ok(_) => None,
        Err(error) => Some(error.to_string()),
    };
    proc_macro2::fallback::unforce();
    refusal
}

/// The name of the last segment of the `syn::Path` that a source text parses
/// as, over `proc_macro2`'s own lexer.
#[verifier::external_body]
pub(crate) fn path_last_segment(text: &str) -> (r: Option<String>)
    ensures
        match r {
            Some(name) => last_segment(text@) == Some(name@),
            None => last_segment(text@) is None,
        },
{
    proc_macro2::fallback::force();
    let name = match syn::parse_str::<syn::Path>(text) {
        Ok(path) => path.segments.last().map(|segment| segment.ident.to_string()),
        Err(_) => None,
    };
    proc_macro2::fallback::unforce();
    name
}

proof fn lemma_rendered_prefix(a: Seq<Tok>, b: Seq<Tok>, n: nat)
    requires
        n <= a.len(),
    ensures
        render_first(a + b, n) == render_first(a, n),
    decreases n,
{
    if n > 0 {
        lemma_rendered_prefix(a, b, (n - 1) as nat);
        assert((a + b)[n - 1] == a[n - 1]);
    }
}

proof fn lemma_rendered_suffix(a: Seq<Tok>, b: Seq<Tok>, n: nat)
    requires
        n <= b.len(),
    ensures
        render_first(a + b, a.len() + n) == render(a) + render_first(b, n),
    decreases n,
{
    if n == 0 {
        lemma_rendered_prefix(a, b, a.len());
        assert(render(a) + render_first(b, 0) =~= render(a));
    } else {
        lemma_rendered_suffix(a, b, (n - 1) as nat);
        assert((a + b)[a.len() + n - 1] == b[n - 1]);
        assert(render_first(a + b, a.len() + n) == render_first(a + b, (a.len() + n - 1) as nat)
            + tok_text(b[n - 1]));
        assert(render(a) + render_first(b, (n - 1) as nat) + tok_text(b[n - 1]) =~= render(a)
            + render_first(b, n));
    }
}

/// Tokens are written one behind the other: the text of two runs of tokens
/// together is that of the first, then that of the second.
pub proof fn tokens_are_written_in_order(a: Seq<Tok>, b: Seq<Tok>)
    ensures
        render(a + b) == render(a) + render(b),
{
    lemma_rendered_suffix(a, b, b.len());
}

/// A token's text is written out, and a group's body between delimiters that
/// match; only a punctuation character that joins the next has no space behind
/// it.
pub proof fn tokens_are_written_whole(tok: Tok)
    ensures
        match tok.kind {
            TokKind::Ident(text) => crate::text::holds(tok_text(tok), text@) && tok_text(tok).len()
                == text@.len() + 1,
            TokKind::Literal(text) => crate::text::holds(tok_text(tok), text@) && tok_text(
                tok,
            ).len() == text@.len() + 1,
            TokKind::Punct(c, _) => tok_text(tok)[0] == c,
            TokKind::Group(delim, body) => {
                let text = tok_text(tok);
                let (open, close) = match delim {
                    Delim::Paren => ('(', ')'),
                    Delim::Brace => ('{', '}'),
                    Delim::Bracket => ('[', ']'),
                };
                &&& text[0] == open
                &&& text[text.len() - 2] == close
                &&& text.subrange(2, text.len() - 2) == render(body@)
            },
        },
        match tok.kind {
            TokKind::Punct(_, joint) => tok_text(tok).len() == (if joint {
                1nat
            } else {
                2nat
            }),
            _ => tok_text(tok).len() > 0,
        },
        tok_text(tok).last() != ' ' ==> tok.kind is Punct,
{
    reveal_strlit(" ");
    assert(" "@.len() == 1 && " "@[0] == ' ');
    reveal_strlit("( ");
    reveal_strlit("{ ");
    reveal_strlit("[ ");
    reveal_strlit(") ");
    reveal_strlit("} ");
    reveal_strlit("] ");
    match tok.kind {
        TokKind::Ident(text) => crate::text::holding_goes_on(text@),
        TokKind::Literal(text) => crate::text::holding_goes_on(text@),
        TokKind::Punct(_, _) => {},
        TokKind::Group(delim, body) => {
            assert("( "@.len() == 2 && "( "@[0] == '(');
            assert("{ "@.len() == 2 && "{ "@[0] == '{');
            assert("[ "@.len() == 2 && "[ "@[0] == '[');
            assert(") "@.len() == 2 && ") "@[0] == ')' && ") "@[1] == ' ');
            assert("} "@.len() == 2 && "} "@[0] == '}' && "} "@[1] == ' ');
            assert("] "@.len() == 2 && "] "@[0] == ']' && "] "@[1] == ' ');
            let text = tok_text(tok);
            assert(text.subrange(2, text.len() - 2) =~= render(body@));
        },
    }
}

} // verus!
