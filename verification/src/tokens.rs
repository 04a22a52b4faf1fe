//! Lexical tokens and their specification-level models.
//!
//! A token is the smallest lexical unit: an operator, a numeric literal, a
//! single-character variable, the distinguished free variable `x`, or a
//! function call carrying its already-lexed argument groups. Every token is
//! annotated with the parenthesis nesting depth at which it was produced;
//! depth ordering is what the precedence resolver uses to respect explicit
//! grouping without building a bracket tree.
//!
//! Numeric literals are kept as the scanned character run (digits and at most
//! one `.`): the engine never computes with machine reals, so a literal's
//! numeric value is only given meaning by the host that runs the compiled
//! numeric programs.

use vstd::prelude::*;

verus! {

broadcast use vstd::std_specs::vec::axiom_vec_decreases_to_view, vstd::seq::axiom_seq_index_decreases;

/// Model of a token kind: the same shape as [`LexerTokenType`], over `Seq`.
pub enum SpecTokenType {
    Add,
    Sub,
    Div,
    Mul,
    Func(Seq<Seq<SpecToken>>, Seq<char>),
    X,
    Var(char),
    Num(Seq<char>),
    IndefiniteFunction(char),
}

/// Model of a token: a kind at a nesting depth.
pub struct SpecToken {
    pub token_type: SpecTokenType,
    pub bracket_depth: nat,
}

/// The kind of a lexical token.
///
/// `Func` holds one token list per argument group, in source order, plus the
/// function's name as scanned (the suffix of the identifier run from the
/// first registry match onward — so a name need not be a registered one).
/// `Num` holds the literal's characters. `IndefiniteFunction` is the
/// synthetic reference, inside an `int` call, to a previously defined curve.
#[derive(Debug)]
pub enum LexerTokenType {
    Add,
    Sub,
    Div,
    Mul,
    Func(Vec<Vec<LexerToken>>, Vec<char>),
    X,
    Var(char),
    Num(Vec<char>),
    IndefiniteFunction(char),
}

/// A lexical token: a kind at the parenthesis depth where it was produced.
#[derive(Debug)]
pub struct LexerToken {
    pub token_type: LexerTokenType,
    pub bracket_depth: usize,
}

pub open spec fn spec_token_type_of(t: LexerTokenType) -> SpecTokenType
    decreases t,
{
    match t {
        LexerTokenType::Add => SpecTokenType::Add,
        LexerTokenType::Sub => SpecTokenType::Sub,
        LexerTokenType::Div => SpecTokenType::Div,
        LexerTokenType::Mul => SpecTokenType::Mul,
        LexerTokenType::X => SpecTokenType::X,
        LexerTokenType::Var(c) => SpecTokenType::Var(c),
        LexerTokenType::Num(cs) => SpecTokenType::Num(cs@),
        LexerTokenType::IndefiniteFunction(c) => SpecTokenType::IndefiniteFunction(c),
        LexerTokenType::Func(groups, name) => SpecTokenType::Func(
            Seq::new(
                groups@.len(),
                |i: int|
                    if 0 <= i < groups@.len() {
                        Seq::new(
                            groups@[i]@.len(),
                            |j: int|
                                if 0 <= j < groups@[i]@.len() {
                                    SpecToken {
                                        token_type: spec_token_type_of(groups@[i]@[j].token_type),
                                        bracket_depth: groups@[i]@[j].bracket_depth as nat,
                                    }
                                } else {
                                    arbitrary()
                                },
                        )
                    } else {
                        arbitrary()
                    },
            ),
            name@,
        ),
    }
}

impl View for LexerTokenType {
    type V = SpecTokenType;

    open spec fn view(&self) -> SpecTokenType {
        spec_token_type_of(*self)
    }
}

impl View for LexerToken {
    type V = SpecToken;

    open spec fn view(&self) -> SpecToken {
        SpecToken {
            token_type: spec_token_type_of(self.token_type),
            bracket_depth: self.bracket_depth as nat,
        }
    }
}

/// Reads one character out of a buffer. Fetching through a function gives
/// the character a first-class value that can be stored into token payloads.
pub(crate) fn char_at(v: &Vec<char>, i: usize) -> (c: char)
    requires
        i < v@.len(),
    ensures
        c == v@[i as int],
{
    v[i]
}

/// An owned copy of a character buffer.
pub(crate) fn copy_chars(v: &Vec<char>) -> (r: Vec<char>)
    ensures
        r@ == v@,
{
    let mut out: Vec<char> = Vec::new();
    let mut i: usize = 0;
    while i < v.len()
        invariant
            i <= v@.len(),
            out@ == v@.take(i as int),
        decreases v@.len() - i,
    {
        out.push(char_at(v, i));
        i += 1;
        proof {
            assert(out@ =~= v@.take(i as int));
        }
    }
    proof {
        assert(out@ =~= v@);
    }
    out
}

/// The model of a token sequence: each token's model, in order.
pub open spec fn view_tokens(ts: Seq<LexerToken>) -> Seq<SpecToken> {
    Seq::new(ts.len(), |i: int| ts[i]@)
}

/// The model of a list of token groups.
pub open spec fn view_groups(gs: Seq<Vec<LexerToken>>) -> Seq<Seq<SpecToken>> {
    Seq::new(gs.len(), |i: int| view_tokens(gs[i]@))
}

/// The model of a list of character groups.
pub open spec fn view_char_groups(gs: Seq<Vec<char>>) -> Seq<Seq<char>> {
    Seq::new(gs.len(), |i: int| gs[i]@)
}

/// A function token's model is built from the models of its groups.
pub proof fn lemma_func_token_view(groups: Vec<Vec<LexerToken>>, name: Vec<char>)
    ensures
        spec_token_type_of(LexerTokenType::Func(groups, name)) == SpecTokenType::Func(
            view_groups(groups@),
            name@,
        ),
{
    let direct = spec_token_type_of(LexerTokenType::Func(groups, name));
    let via_views = SpecTokenType::Func(view_groups(groups@), name@);
    assert(direct->Func_0 =~~= via_views->Func_0);
}

} // verus!
