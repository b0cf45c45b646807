//! Token trees as a macro gets them, opened into those that its grammar reads.
//!
//! A macro's fragment arrives as a group without visible delimiters. The
//! grammar looks through such a group: a path or a single token stands there as
//! it is, and anything else as an expression of its own, in parentheses.

use crate::macros::token::{Delim, Tok, TokKind};
use vstd::prelude::*;

verus! {

/// A token tree as a macro gets it.
#[derive(Debug, PartialEq, Eq)]
pub struct Tree {
    /// The mark of the tree's place.
    pub at: usize,
    /// The mark of a group's closing delimiter; any other tree's own.
    pub close: usize,
    pub kind: TreeKind,
}

/// The kinds of token trees that a macro gets.
#[derive(Debug, PartialEq, Eq)]
pub enum TreeKind {
    Ident(String),
    /// A punctuation character, and whether the next one joins it.
    Punct(char, bool),
    Literal(String),
    Group(Delim, Vec<Tree>),
    /// A group without visible delimiters.
    Hidden(Vec<Tree>),
}

/// A token tree, as the contracts speak of it.
pub struct TokModel {
    pub at: usize,
    pub close: usize,
    pub kind: TokKindModel,
}

/// The kinds of token trees, as the contracts speak of them.
pub enum TokKindModel {
    Ident(Seq<char>),
    Punct(char, bool),
    Literal(Seq<char>),
    Group(Delim, Seq<TokModel>),
}

/// The model of a token tree.
pub open spec fn tok_model(tok: Tok) -> TokModel
    decreases tok,
{
    TokModel {
        at: tok.at,
        close: tok.close,
        kind: match tok.kind {
            TokKind::Ident(text) => TokKindModel::Ident(text@),
            TokKind::Punct(c, joint) => TokKindModel::Punct(c, joint),
            TokKind::Literal(text) => TokKindModel::Literal(text@),
            TokKind::Group(delim, body) => TokKindModel::Group(delim, tok_models(body@)),
        },
    }
}

/// The models of token trees.
pub open spec fn tok_models(toks: Seq<Tok>) -> Seq<TokModel>
    decreases toks,
{
    Seq::new(
        toks.len(),
        |i: int|
            if 0 <= i < toks.len() {
                tok_model(toks[i])
            } else {
                TokModel { at: 0, close: 0, kind: TokKindModel::Ident(Seq::empty()) }
            },
    )
}

/// Whether a token can stand in a path.
pub open spec fn in_path(tok: TokModel) -> bool {
    match tok.kind {
        TokKindModel::Ident(_) => true,
        TokKindModel::Punct(c, _) => c == ':' || c == '<' || c == '>' || c == ',',
        _ => false,
    }
}

/// Whether the tokens of a hidden group stand as they are: there is at most
/// one, or all of them can stand in a path.
pub open spec fn bare(toks: Seq<TokModel>) -> bool {
    toks.len() <= 1 || forall|i: int| 0 <= i < toks.len() ==> in_path(#[trigger] toks[i])
}

/// The tokens that a tree opens into.
pub open spec fn opened_tree(tree: Tree) -> Seq<TokModel>
    decreases tree, 0nat,
{
    match tree.kind {
        TreeKind::Ident(text) => seq![
            TokModel { at: tree.at, close: tree.close, kind: TokKindModel::Ident(text@) },
        ],
        TreeKind::Punct(c, joint) => seq![
            TokModel { at: tree.at, close: tree.close, kind: TokKindModel::Punct(c, joint) },
        ],
        TreeKind::Literal(text) => seq![
            TokModel { at: tree.at, close: tree.close, kind: TokKindModel::Literal(text@) },
        ],
        TreeKind::Group(delim, body) => seq![
            TokModel {
                at: tree.at,
                close: tree.close,
                kind: TokKindModel::Group(delim, opened_first(body@, body@.len())),
            },
        ],
        TreeKind::Hidden(body) => {
            let inner = opened_first(body@, body@.len());
            if bare(inner) {
                inner
            } else {
                seq![
                    TokModel {
                        at: tree.at,
                        close: tree.close,
                        kind: TokKindModel::Group(Delim::Paren, inner),
                    },
                ]
            }
        },
    }
}

/// The tokens that the first `n` trees open into.
pub open spec fn opened_first(trees: Seq<Tree>, n: nat) -> Seq<TokModel>
    decreases trees, n + 1,
{
    if n == 0 || n > trees.len() {
        Seq::empty()
    } else {
        opened_first(trees, (n - 1) as nat) + opened_tree(trees[n - 1])
    }
}

/// The tokens that trees open into.
pub open spec fn opened(trees: Seq<Tree>) -> Seq<TokModel> {
    opened_first(trees, trees.len())
}

fn stands_bare(toks: &Vec<Tok>) -> (r: bool)
    ensures
        r == bare(tok_models(toks@)),
{
    let ghost models = tok_models(toks@);
    if toks.len() <= 1 {
        return true;
    }
    let mut i: usize = 0;
    while i < toks.len()
        invariant
            i <= toks@.len(),
            toks@.len() > 1,
            models == tok_models(toks@),
            forall|k: int| 0 <= k < i ==> in_path(#[trigger] models[k]),
        decreases toks@.len() - i,
    {
        let fits = match &toks[i].kind {
            TokKind::Ident(_) => true,
            TokKind::Punct(c, _) => *c == ':' || *c == '<' || *c == '>' || *c == ',',
            _ => false,
        };
        assert(models[i as int] == tok_model(toks@[i as int]));
        if !fits {
            return false;
        }
        i = i + 1;
    }
    true
}

/// Open trees into the tokens that the grammar reads.
#[must_use]
pub fn open(trees: &Vec<Tree>) -> (toks: Vec<Tok>)
    ensures
        tok_models(toks@) == opened(trees@),
    decreases trees,
{
    let mut toks: Vec<Tok> = Vec::new();
    let mut i: usize = 0;
    assert(tok_models(toks@) =~= Seq::empty());
    while i < trees.len()
        invariant
            i <= trees@.len(),
            tok_models(toks@) == opened_first(trees@, i as nat),
        decreases trees@.len() - i,
    {
        let ghost before = toks@;
        let (at, close) = (trees[i].at, trees[i].close);
        match &trees[i].kind {
            TreeKind::Ident(text) => {
                toks.push(Tok { at, close, kind: TokKind::Ident(text.clone()) });
            },
            TreeKind::Punct(c, joint) => {
                toks.push(Tok { at, close, kind: TokKind::Punct(*c, *joint) });
            },
            TreeKind::Literal(text) => {
                toks.push(Tok { at, close, kind: TokKind::Literal(text.clone()) });
            },
            TreeKind::Group(delim, body) => {
                let inner = open(body);
                toks.push(Tok { at, close, kind: TokKind::Group(*delim, inner) });
            },
            TreeKind::Hidden(body) => {
                let mut inner = open(body);
                let ghost held = inner@;
                if stands_bare(&inner) {
                    toks.append(&mut inner);
                    assert(toks@ =~= before + held);
                } else {
                    toks.push(Tok { at, close, kind: TokKind::Group(Delim::Paren, inner) });
                }
            },
        }
        assert(tok_models(toks@) =~= tok_models(before) + opened_tree(trees@[i as int]));
        i = i + 1;
    }
    toks
}

proof fn lemma_opened_prefix(a: Seq<Tree>, b: Seq<Tree>, n: nat)
    requires
        n <= a.len(),
    ensures
        opened_first(a + b, n) == opened_first(a, n),
    decreases n,
{
    if n > 0 {
        lemma_opened_prefix(a, b, (n - 1) as nat);
        assert((a + b)[n - 1] == a[n - 1]);
    }
}

proof fn lemma_opened_suffix(a: Seq<Tree>, b: Seq<Tree>, n: nat)
    requires
        n <= b.len(),
    ensures
        opened_first(a + b, a.len() + n) == opened(a) + opened_first(b, n),
    decreases n,
{
    if n == 0 {
        lemma_opened_prefix(a, b, a.len());
        assert(opened(a) + opened_first(b, 0) =~= opened(a));
    } else {
        lemma_opened_suffix(a, b, (n - 1) as nat);
        assert((a + b)[a.len() + n - 1] == b[n - 1]);
        assert(opened_first(a + b, a.len() + n) == opened_first(a + b, (a.len() + n - 1) as nat)
            + opened_tree(b[n - 1]));
        assert(opened(a) + opened_first(b, (n - 1) as nat) + opened_tree(b[n - 1]) =~= opened(a)
            + opened_first(b, n));
    }
}

/// Trees open one behind the other: what two runs of trees open into together
/// is what they open into apart, in order.
pub proof fn trees_open_in_order(a: Seq<Tree>, b: Seq<Tree>)
    ensures
        opened(a + b) == opened(a) + opened(b),
{
    lemma_opened_suffix(a, b, b.len());
}

/// A tree that is no hidden group stands as it is: one token of its kind and
/// text, at its place, a group's delimiter and its opened body within.
pub proof fn visible_trees_stand(tree: Tree)
    requires
        !(tree.kind is Hidden),
    ensures
        opened_tree(tree).len() == 1,
        opened_tree(tree)[0].at == tree.at,
        opened_tree(tree)[0].close == tree.close,
        match (tree.kind, opened_tree(tree)[0].kind) {
            (TreeKind::Ident(text), TokKindModel::Ident(shown)) => text@ == shown,
            (TreeKind::Punct(c, joint), TokKindModel::Punct(d, joined)) => c == d && joint
                == joined,
            (TreeKind::Literal(text), TokKindModel::Literal(shown)) => text@ == shown,
            (TreeKind::Group(delim, body), TokKindModel::Group(d, inner)) => delim == d && inner
                == opened(body@),
            _ => false,
        },
{
}

/// The grammar looks through a hidden group: a single token of it, or a path,
/// stands bare, and whatever holds anything else stands as one group in
/// parentheses, with nothing lost.
pub proof fn fragments_are_looked_through(tree: Tree, i: int)
    requires
        tree.kind is Hidden,
    ensures
        ({
            let inner = opened(tree.kind->Hidden_0@);
            let out = opened_tree(tree);
            &&& inner.len() <= 1 ==> out == inner
            &&& inner.len() > 1 && 0 <= i < inner.len() && (inner[i].kind is Literal
                || inner[i].kind is Group) ==> out.len() == 1
            &&& inner.len() > 1 && 0 <= i < inner.len() && (inner[i].kind matches TokKindModel::Punct(
                c,
                _,
            ) && c != ':' && c != '<' && c != '>' && c != ',') ==> out.len() == 1
            &&& (forall|k: int|
                0 <= k < inner.len() ==> match (#[trigger] inner[k]).kind {
                    TokKindModel::Ident(_) => true,
                    TokKindModel::Punct(c, _) => seq![':', '<', '>', ','].contains(c),
                    _ => false,
                }) ==> out == inner
            &&& out == inner || (out.len() == 1 && out[0].kind == TokKindModel::Group(
                Delim::Paren,
                inner,
            ) && out[0].at == tree.at && out[0].close == tree.close)
        }),
{
    let inner = opened(tree.kind->Hidden_0@);
    if inner.len() > 1 && 0 <= i < inner.len() && !in_path(inner[i]) {
        assert(!bare(inner));
    }
}

} // verus!
