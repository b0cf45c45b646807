//! The primitive parses of the `runtime!` grammar.
//!
//! Each looks at a list of token trees from a position on. `end` is the mark
//! that a diagnostic about the end of the list points at.

use crate::macros::token::{
    front_expr, front_path, ident_refusal, source_range, Delim, Fault, FaultModel, Tok,
    TokKind,
};
use vstd::prelude::*;
use vstd::string::StringExecFns;

verus! {

/// A piece of source: an expression or a path, and the mark where it starts.
#[derive(Debug, PartialEq, Eq)]
pub struct Source {
    pub text: String,
    pub at: usize,
}

/// A piece of source, as the contracts speak of it.
pub struct SourceModel {
    pub text: Seq<char>,
    pub at: usize,
}

impl View for Source {
    type V = SourceModel;

    open spec fn view(&self) -> SourceModel {
        SourceModel { text: self.text@, at: self.at }
    }
}

/// The models of a list of pieces of source.
pub open spec fn source_models(list: Seq<Source>) -> Seq<SourceModel> {
    list.map_values(|s: Source| s@)
}

/// The model of an optional piece of source.
pub open spec fn source_model(source: Option<Source>) -> Option<SourceModel> {
    match source {
        Some(s) => Some(s@),
        None => None,
    }
}

impl Source {
    /// The same piece of source once more.
    pub fn copy(&self) -> (r: Source)
        ensures
            r@ == self@,
    {
        Source { text: self.text.clone(), at: self.at }
    }
}

/// The same list of pieces of source once more.
pub fn copy_sources(list: &Vec<Source>) -> (r: Vec<Source>)
    ensures
        source_models(r@) == source_models(list@),
{
    let mut r: Vec<Source> = Vec::new();
    let mut i: usize = 0;
    while i < list.len()
        invariant
            i <= list@.len(),
            r@.len() == i,
            forall|j: int| 0 <= j < i ==> #[trigger] r@[j]@ == list@[j]@,
        decreases list@.len() - i,
    {
        r.push(list[i].copy());
        i = i + 1;
    }
    assert(source_models(r@) =~= source_models(list@));
    r
}

/// The mark at a position, the end's behind the last token.
pub open spec fn mark(toks: Seq<Tok>, end: usize, pos: int) -> usize {
    if 0 <= pos < toks.len() {
        toks[pos].at
    } else {
        end
    }
}

/// The diagnostic that something else was expected at a position.
pub open spec fn expected(toks: Seq<Tok>, end: usize, pos: int, what: Seq<char>) -> FaultModel {
    FaultModel {
        at: mark(toks, end, pos),
        message: if pos < toks.len() {
            what
        } else {
            "unexpected end of input, "@ + what
        },
    }
}

/// The mark at a position.
pub fn mark_at(toks: &Vec<Tok>, end: usize, pos: usize) -> (at: usize)
    ensures
        at == mark(toks@, end, pos as int),
{
    if pos < toks.len() {
        toks[pos].at
    } else {
        end
    }
}

/// The diagnostic that something else was expected at a position.
pub fn expected_at(toks: &Vec<Tok>, end: usize, pos: usize, what: &str) -> (fault: Fault)
    ensures
        fault@ == expected(toks@, end, pos as int, what@),
{
    let at = mark_at(toks, end, pos);
    if pos < toks.len() {
        Fault::new(at, what)
    } else {
        Fault { at, message: String::from_str("unexpected end of input, ").concat(what) }
    }
}

/// The position behind the punctuation character `c`.
pub open spec fn behind_punct(toks: Seq<Tok>, end: usize, pos: int, c: char) -> Result<
    int,
    FaultModel,
> {
    if 0 <= pos < toks.len() && (toks[pos].kind matches TokKind::Punct(p, _) && p == c) {
        Ok(pos + 1)
    } else {
        Err(FaultModel { at: mark(toks, end, pos), message: "expected `"@ + seq![c] + "`"@ })
    }
}

/// Step over the punctuation character `c`.
pub fn step_punct(toks: &Vec<Tok>, end: usize, pos: usize, c: char) -> (r: Result<usize, Fault>)
    ensures
        match r {
            Ok(next) => behind_punct(toks@, end, pos as int, c) == Ok::<int, FaultModel>(
                next as int,
            ),
            Err(f) => behind_punct(toks@, end, pos as int, c) == Err::<int, FaultModel>(f@),
        },
{
    if pos < toks.len() {
        if let TokKind::Punct(p, _) = &toks[pos].kind {
            if *p == c {
                return Ok(pos + 1);
            }
        }
    }
    let mut shown = String::new();
    shown.push(c);
    assert(shown@ =~= seq![c]);
    let message = String::from_str("expected `").concat(shown.as_str()).concat("`");
    Err(Fault { at: mark_at(toks, end, pos), message })
}

/// Whether the token at a position is the punctuation character `c`.
pub open spec fn is_punct(toks: Seq<Tok>, pos: int, c: char) -> bool {
    0 <= pos < toks.len() && (toks[pos].kind matches TokKind::Punct(p, _) && p == c)
}

/// Whether the token at a position is the punctuation character `c`.
pub fn at_punct(toks: &Vec<Tok>, pos: usize, c: char) -> (r: bool)
    ensures
        r == is_punct(toks@, pos as int, c),
{
    if pos < toks.len() {
        match &toks[pos].kind {
            TokKind::Punct(p, _) => *p == c,
            _ => false,
        }
    } else {
        false
    }
}

/// Whether the token at a position is the given word.
pub open spec fn is_word(toks: Seq<Tok>, pos: int, word: Seq<char>) -> bool {
    0 <= pos < toks.len() && (toks[pos].kind matches TokKind::Ident(text) && text@ == word)
}

/// Whether the token at a position is the given word.
pub fn at_word(toks: &Vec<Tok>, pos: usize, word: &str) -> (r: bool)
    ensures
        r == is_word(toks@, pos as int, word@),
        r ==> pos < usize::MAX,
{
    if pos < toks.len() {
        match &toks[pos].kind {
            TokKind::Ident(text) => crate::text::str_eq(text.as_str(), word),
            _ => false,
        }
    } else {
        false
    }
}

/// The identifier at a position: its text and its mark.
pub open spec fn ident(toks: Seq<Tok>, end: usize, pos: int) -> Result<
    SourceModel,
    FaultModel,
> {
    if 0 <= pos < toks.len() && toks[pos].kind is Ident {
        let text = toks[pos].kind->Ident_0@;
        match crate::macros::token::ident_objection(text) {
            Some(message) => Err(FaultModel { at: toks[pos].at, message }),
            None => Ok(SourceModel { text, at: toks[pos].at }),
        }
    } else {
        Err(expected(toks, end, pos, "expected identifier"@))
    }
}

/// The identifier at a position.
pub fn ident_at(toks: &Vec<Tok>, end: usize, pos: usize) -> (r: Result<Source, Fault>)
    ensures
        match r {
            Ok(s) => ident(toks@, end, pos as int) == Ok::<SourceModel, FaultModel>(s@),
            Err(f) => ident(toks@, end, pos as int) == Err::<SourceModel, FaultModel>(f@),
        },
        r is Ok ==> pos < toks@.len() && pos < usize::MAX,
{
    if pos < toks.len() {
        if let TokKind::Ident(text) = &toks[pos].kind {
            return match ident_refusal(text.as_str()) {
                Some(message) => Err(Fault { at: toks[pos].at, message }),
                None => Ok(Source { text: text.clone(), at: toks[pos].at }),
            };
        }
    }
    Err(expected_at(toks, end, pos, "expected identifier"))
}

/// What a group is called in a diagnostic.
pub open spec fn delim_name(delim: Delim) -> Seq<char> {
    match delim {
        Delim::Paren => "expected parentheses"@,
        Delim::Brace => "expected curly braces"@,
        Delim::Bracket => "expected square brackets"@,
    }
}

/// Whether a group with the delimiter stands at a position.
pub open spec fn is_group(toks: Seq<Tok>, pos: int, delim: Delim) -> bool {
    0 <= pos < toks.len() && (toks[pos].kind matches TokKind::Group(d, _) && d == delim)
}

/// The tokens of the group at a position.
pub open spec fn body(toks: Seq<Tok>, pos: int) -> Seq<Tok> {
    toks[pos].kind->Group_1@
}

/// Whether a group with the delimiter stands at a position.
pub fn at_group(toks: &Vec<Tok>, pos: usize, delim: Delim) -> (r: bool)
    ensures
        r == is_group(toks@, pos as int, delim),
{
    if pos < toks.len() {
        match &toks[pos].kind {
            TokKind::Group(d, _) => *d == delim,
            _ => false,
        }
    } else {
        false
    }
}

/// The tokens of the group with the delimiter at a position.
pub fn group_at(toks: &Vec<Tok>, end: usize, pos: usize, delim: Delim) -> (r: Result<
    &Vec<Tok>,
    Fault,
>)
    ensures
        match r {
            Ok(inner) => is_group(toks@, pos as int, delim) && inner@ == body(toks@, pos as int)
                && pos < usize::MAX,
            Err(f) => !is_group(toks@, pos as int, delim) && f@ == expected(
                toks@,
                end,
                pos as int,
                delim_name(delim),
            ),
        },
{
    if pos < toks.len() {
        if let TokKind::Group(d, inner) = &toks[pos].kind {
            if *d == delim {
                return Ok(inner);
            }
        }
    }
    let what = match delim {
        Delim::Paren => "expected parentheses",
        Delim::Brace => "expected curly braces",
        Delim::Bracket => "expected square brackets",
    };
    Err(expected_at(toks, end, pos, what))
}

/// The piece of source from a position on, given how many token trees it
/// leaves behind it and how it is printed. What the parser says of a piece that
/// it cannot read points at the start: the lexer it runs over keeps no places.
pub open spec fn piece(
    toks: Seq<Tok>,
    end: usize,
    pos: int,
    front: Result<(nat, Seq<char>), Seq<char>>,
) -> Result<(SourceModel, int), FaultModel> {
    match front {
        Err(message) => Err(FaultModel { at: mark(toks, end, pos), message }),
        Ok((n, text)) => if n <= toks.len() - pos {
            Ok((SourceModel { text, at: mark(toks, end, pos) }, toks.len() - n))
        } else {
            Err(FaultModel { at: mark(toks, end, pos), message: "unexpected token"@ })
        },
    }
}

/// The expression at a position, and the position behind it.
pub open spec fn expr(toks: Seq<Tok>, end: usize, pos: int) -> Result<
    (SourceModel, int),
    FaultModel,
> {
    piece(
        toks,
        end,
        pos,
        crate::macros::token::expr_piece(
            crate::macros::token::render(toks.subrange(pos, toks.len() as int)),
        ),
    )
}

/// The path at a position, and the position behind it.
pub open spec fn path(toks: Seq<Tok>, end: usize, pos: int) -> Result<
    (SourceModel, int),
    FaultModel,
> {
    piece(
        toks,
        end,
        pos,
        crate::macros::token::path_piece(
            crate::macros::token::render(toks.subrange(pos, toks.len() as int)),
        ),
    )
}

fn piece_at(
    toks: &Vec<Tok>,
    end: usize,
    pos: usize,
    front: Result<(usize, String), String>,
) -> (r: Result<(Source, usize), Fault>)
    requires
        pos <= toks@.len(),
    ensures
        ({
            let left = match front {
                Ok((n, text)) => Ok::<(nat, Seq<char>), Seq<char>>((n as nat, text@)),
                Err(message) => Err(message@),
            };
            match r {
                Ok((s, next)) => piece(toks@, end, pos as int, left) == Ok::<
                    (SourceModel, int),
                    FaultModel,
                >((s@, next as int)) && pos <= next <= toks@.len(),
                Err(f) => piece(toks@, end, pos as int, left) == Err::<
                    (SourceModel, int),
                    FaultModel,
                >(f@),
            }
        }),
{
    let at = mark_at(toks, end, pos);
    match front {
        Err(message) => Err(Fault { at, message }),
        Ok((n, text)) => if n <= toks.len() - pos {
            let next: usize = toks.len() - n;
            Ok((Source { text, at }, next))
        } else {
            Err(Fault::new(at, "unexpected token"))
        },
    }
}

/// Read the expression at a position.
pub fn expr_at(toks: &Vec<Tok>, end: usize, pos: usize) -> (r: Result<(Source, usize), Fault>)
    requires
        pos <= toks@.len(),
    ensures
        match r {
            Ok((s, next)) => expr(toks@, end, pos as int) == Ok::<(SourceModel, int), FaultModel>(
                (s@, next as int),
            ) && pos <= next <= toks@.len(),
            Err(f) => expr(toks@, end, pos as int) == Err::<(SourceModel, int), FaultModel>(f@),
        },
{
    let text = source_range(toks, pos, toks.len());
    piece_at(toks, end, pos, front_expr(text.as_str()))
}

/// Read the path at a position.
pub fn path_at(toks: &Vec<Tok>, end: usize, pos: usize) -> (r: Result<(Source, usize), Fault>)
    requires
        pos <= toks@.len(),
    ensures
        match r {
            Ok((s, next)) => path(toks@, end, pos as int) == Ok::<(SourceModel, int), FaultModel>(
                (s@, next as int),
            ) && pos <= next <= toks@.len(),
            Err(f) => path(toks@, end, pos as int) == Err::<(SourceModel, int), FaultModel>(f@),
        },
{
    let text = source_range(toks, pos, toks.len());
    piece_at(toks, end, pos, front_path(text.as_str()))
}

/// The position of the next item of a comma-separated list, where one item
/// ends at `next`: the end of the list, or behind a comma.
pub open spec fn next_item(toks: Seq<Tok>, end: usize, next: int) -> Result<int, FaultModel> {
    if next >= toks.len() {
        Ok(next)
    } else {
        behind_punct(toks, end, next, ',')
    }
}

/// Step to the next item of a comma-separated list.
pub fn step_item(toks: &Vec<Tok>, end: usize, next: usize) -> (r: Result<usize, Fault>)
    requires
        next <= toks@.len(),
    ensures
        match r {
            Ok(p) => next_item(toks@, end, next as int) == Ok::<int, FaultModel>(p as int) && p
                <= toks@.len(),
            Err(f) => next_item(toks@, end, next as int) == Err::<int, FaultModel>(f@),
        },
{
    if next >= toks.len() {
        Ok(next)
    } else {
        step_punct(toks, end, next, ',')
    }
}

/// The expressions of a comma-separated list, from a position on, behind those
/// already read.
pub open spec fn exprs(toks: Seq<Tok>, end: usize, pos: int, read: Seq<SourceModel>) -> Result<
    Seq<SourceModel>,
    FaultModel,
>
    decreases toks.len() - pos,
{
    if pos >= toks.len() {
        Ok(read)
    } else {
        match expr(toks, end, pos) {
            Err(f) => Err(f),
            Ok((item, next)) => match next_item(toks, end, next) {
                Err(f) => Err(f),
                Ok(p) => if p > pos {
                    exprs(toks, end, p, read.push(item))
                } else {
                    Ok(read.push(item))
                },
            },
        }
    }
}

/// Read the expressions of a comma-separated list.
pub fn exprs_in(toks: &Vec<Tok>, end: usize) -> (r: Result<Vec<Source>, Fault>)
    ensures
        match r {
            Ok(list) => exprs(toks@, end, 0, Seq::empty()) == Ok::<Seq<SourceModel>, FaultModel>(
                source_models(list@),
            ),
            Err(f) => exprs(toks@, end, 0, Seq::empty()) == Err::<Seq<SourceModel>, FaultModel>(f@),
        },
{
    let mut list: Vec<Source> = Vec::new();
    let mut pos: usize = 0;
    assert(source_models(list@) =~= Seq::empty());
    while pos < toks.len()
        invariant
            pos <= toks@.len(),
            exprs(toks@, end, 0, Seq::empty()) == exprs(
                toks@,
                end,
                pos as int,
                source_models(list@),
            ),
        decreases toks@.len() - pos,
    {
        let (item, next) = match expr_at(toks, end, pos) {
            Ok(item) => item,
            Err(f) => {
                return Err(f);
            },
        };
        let ghost before = list@;
        let ghost model = item@;
        list.push(item);
        assert(source_models(list@) =~= source_models(before).push(model));
        match step_item(toks, end, next) {
            Ok(p) => {
                if p <= pos {
                    return Ok(list);
                }
                pos = p;
            },
            Err(f) => {
                return Err(f);
            },
        }
    }
    Ok(list)
}

/// A diagnostic points at the token that stands there, at the end behind the
/// last, and tells what was expected.
pub proof fn diagnostics_point_at_the_token(
    toks: Seq<Tok>,
    end: usize,
    pos: int,
    what: Seq<char>,
)
    ensures
        0 <= pos < toks.len() ==> expected(toks, end, pos, what).at == toks[pos].at,
        pos >= toks.len() ==> expected(toks, end, pos, what).at == end,
        crate::text::holds(expected(toks, end, pos, what).message, what),
{
    crate::text::holding_goes_on(what);
}

/// Whether the item of a list at `pos` is the given one, and the next begins at
/// `next`.
pub open spec fn item_at(
    toks: Seq<Tok>,
    end: usize,
    pos: int,
    next: int,
    item: SourceModel,
) -> bool {
    expr(toks, end, pos) matches Ok((read, behind)) && read == item && next_item(
        toks,
        end,
        behind,
    ) == Ok::<int, FaultModel>(next)
}

/// A list that is read gives, behind what was read before, the expression that
/// stands at each item's place, one item after the other, to the end.
pub proof fn lists_give_their_items(
    toks: Seq<Tok>,
    end: usize,
    pos: int,
    read: Seq<SourceModel>,
    list: Seq<SourceModel>,
) -> (starts: Seq<int>)
    requires
        0 <= pos,
        exprs(toks, end, pos, read) == Ok::<Seq<SourceModel>, FaultModel>(list),
    ensures
        list.len() >= read.len(),
        list.subrange(0, read.len() as int) == read,
        starts.len() == list.len() - read.len() + 1,
        starts[0] == pos,
        starts.last() >= toks.len() || (starts.len() > 1 && starts.last()
            <= starts[starts.len() - 2]),
        forall|k: int|
            #![trigger list[read.len() + k]]
            0 <= k < list.len() - read.len() ==> item_at(
                toks,
                end,
                starts[k],
                starts[k + 1],
                list[read.len() + k],
            ),
    decreases toks.len() - pos,
{
    if pos >= toks.len() {
        assert(list.subrange(0, read.len() as int) =~= read);
        seq![pos]
    } else {
        let (item, next) = expr(toks, end, pos)->Ok_0;
        let p = next_item(toks, end, next)->Ok_0;
        if p > pos {
            let rest = lists_give_their_items(toks, end, p, read.push(item), list);
            let starts = seq![pos] + rest;
            assert(starts.last() == rest.last());
            if rest.len() > 1 {
                assert(starts[starts.len() - 2] == rest[rest.len() - 2]);
            }
            assert(list.subrange(0, read.len() as int) =~= list.subrange(
                0,
                read.len() as int + 1,
            ).drop_last());
            assert(read.push(item).drop_last() =~= read);
            assert(list[read.len() as int] == list.subrange(
                0,
                read.len() as int + 1,
            )[read.len() as int]);
            assert forall|k: int|
                #![trigger list[read.len() + k]]
                0 <= k < list.len() - read.len() implies item_at(
                toks,
                end,
                starts[k],
                starts[k + 1],
                list[read.len() + k],
            ) by {
                if k > 0 {
                    assert(starts[k] == rest[k - 1] && starts[k + 1] == rest[k]);
                    assert(list[read.push(item).len() + (k - 1)] == list[read.len() + k]);
                } else {
                    assert(starts[0] == pos && starts[1] == p);
                }
            }
            starts
        } else {
            assert(list.subrange(0, read.len() as int) =~= read);
            seq![pos, p]
        }
    }
}

/// Items stand apart by a comma, and one may end the list.
pub proof fn items_stand_between_commas(toks: Seq<Tok>, end: usize, next: int)
    requires
        0 <= next <= toks.len(),
    ensures
        next == toks.len() ==> next_item(toks, end, next) == Ok::<int, FaultModel>(next),
        next < toks.len() ==> (next_item(toks, end, next) is Ok <==> is_punct(toks, next, ',')),
        next < toks.len() && next_item(toks, end, next) is Ok ==> next_item(toks, end, next)->Ok_0
            == next + 1,
{
}

} // verus!
