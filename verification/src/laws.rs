//! What holds of every expression: how negation, precedence and exclusive or
//! behave.

use vstd::prelude::*;
use crate::evaluator::tokens_value;
use crate::expr::{lemma_binary_value, Expr};
use crate::parser::{joined, negated, parse_spec};
use crate::registry::{CapRef, Error, Registry, TypeRef};
use crate::grammar::{law_canonical_parses, law_precedence_of_operands, lemma_split_point_of_tree};
use crate::token::{lemma_split_behind_not, lemma_split_point_in_range, split_point, Token};

verus! {

/// The negation of a value, an error left as it is.
pub open spec fn negation(value: Result<bool, Error>) -> Result<bool, Error> {
    match value {
        Ok(b) => Ok(!b),
        Err(e) => Err(e),
    }
}

/// Negation of an operand: where `toks` hold no operator at the top level,
/// `!` in front of them negates their value.
pub proof fn law_negation(reg: Registry, ty: TypeRef, toks: Seq<Token>)
    requires
        split_point(toks) is None,
    ensures
        tokens_value(reg, ty, seq![Token::Not] + toks) == negation(tokens_value(reg, ty, toks)),
{
    let longer = seq![Token::Not] + toks;
    lemma_split_behind_not(toks);
    assert(longer[0] == Token::Not);
    assert(longer.skip(1) =~= toks);
}

/// Double negation cancels: `!!` in front of any tokens changes neither
/// their value nor whether they are an expression.
pub proof fn law_double_negation(reg: Registry, ty: TypeRef, toks: Seq<Token>)
    ensures
        tokens_value(reg, ty, seq![Token::Not, Token::Not] + toks) == tokens_value(reg, ty, toks),
    decreases toks.len(),
{
    let once = seq![Token::Not] + toks;
    let twice = seq![Token::Not, Token::Not] + toks;
    assert(twice =~= seq![Token::Not] + once);
    lemma_split_behind_not(toks);
    lemma_split_behind_not(once);
    lemma_split_point_in_range(toks);
    match split_point(toks) {
        Some((op, at)) => {
            assert(twice.skip(at + 2 + 1) =~= toks.skip(at + 1));
            assert(twice.take(at + 2) =~= seq![Token::Not, Token::Not] + toks.take(at));
            law_double_negation(reg, ty, toks.take(at));
            let left = parse_spec(toks.take(at));
            let left_twice = parse_spec(twice.take(at + 2));
            let right = parse_spec(toks.skip(at + 1));
            assert(parse_spec(twice) == joined(op, left_twice, right));
            assert(parse_spec(toks) == joined(op, left, right));
            if left is Some && right is Some {
                lemma_binary_value(op, left->0, right->0, reg, ty);
                lemma_binary_value(op, left_twice->0, right->0, reg, ty);
            }
        },
        None => {
            assert(twice[0] == Token::Not);
            assert(once[0] == Token::Not);
            assert(twice.skip(1) =~= once);
            assert(once.skip(1) =~= toks);
            assert(parse_spec(once) == negated(parse_spec(toks)));
            assert(parse_spec(twice) == negated(parse_spec(once)));
            reveal_with_fuel(Expr::value, 3);
        },
    }
}

/// One capability reference is an expression, and its value is what the
/// probe answers.
pub proof fn law_leaf(reg: Registry, ty: TypeRef, cap: CapRef)
    ensures
        split_point(seq![Token::Cap(cap)]) is None,
        parse_spec(seq![Token::Cap(cap)]) == Some(Expr::Leaf(cap)),
        tokens_value(reg, ty, seq![Token::Cap(cap)]) == Ok::<bool, Error>(reg.satisfies(ty, cap)),
{
    let leaf = Expr::Leaf(cap);
    lemma_split_point_of_tree(leaf);
    law_canonical_parses(leaf);
}

/// `!C` is the negation of `C`, and `!!C` is `C`, for every capability `C`.
pub proof fn law_negated_capability(reg: Registry, ty: TypeRef, cap: CapRef)
    ensures
        tokens_value(reg, ty, seq![Token::Not, Token::Cap(cap)]) == Ok::<bool, Error>(
            !reg.satisfies(ty, cap),
        ),
        tokens_value(reg, ty, seq![Token::Not, Token::Not, Token::Cap(cap)]) == Ok::<bool, Error>(
            reg.satisfies(ty, cap),
        ),
{
    let leaf = seq![Token::Cap(cap)];
    law_leaf(reg, ty, cap);
    law_negation(reg, ty, leaf);
    law_double_negation(reg, ty, leaf);
    assert(seq![Token::Not, Token::Cap(cap)] =~= seq![Token::Not] + leaf);
    assert(seq![Token::Not, Token::Not, Token::Cap(cap)] =~= seq![Token::Not, Token::Not] + leaf);
}

/// Precedence: `A | B ^ C & D` has the value of `A | (B ^ (C & D))` for all
/// capabilities `A`, `B`, `C` and `D`: `&` binds tighter than `^`, which
/// binds tighter than `|`.
pub proof fn law_precedence(reg: Registry, ty: TypeRef, a: CapRef, b: CapRef, c: CapRef, d: CapRef)
    ensures
        tokens_value(
            reg,
            ty,
            seq![
                Token::Cap(a),
                Token::Or,
                Token::Cap(b),
                Token::Xor,
                Token::Cap(c),
                Token::And,
                Token::Cap(d),
            ],
        ) == Ok::<bool, Error>(
            reg.satisfies(ty, a) || (reg.satisfies(ty, b) != (reg.satisfies(ty, c) && reg.satisfies(
                ty,
                d,
            ))),
        ),
{
    let (la, lb, lc, ld) = (Expr::Leaf(a), Expr::Leaf(b), Expr::Leaf(c), Expr::Leaf(d));
    law_precedence_of_operands(reg, ty, la, lb, lc, ld);
    assert(la.tokens() + seq![Token::Or] + (lb.tokens() + seq![Token::Xor] + (lc.tokens() + seq![
        Token::And,
    ] + ld.tokens())) =~= seq![
        Token::Cap(a),
        Token::Or,
        Token::Cap(b),
        Token::Xor,
        Token::Cap(c),
        Token::And,
        Token::Cap(d),
    ]);
}

/// Mutual exclusion: for a type that satisfies exactly one of two
/// capabilities, `A ^ B` is `true`; in general it is `true` exactly where
/// the two probes differ.
pub proof fn law_exclusive_or(reg: Registry, ty: TypeRef, a: CapRef, b: CapRef)
    ensures
        tokens_value(reg, ty, seq![Token::Cap(a), Token::Xor, Token::Cap(b)]) == Ok::<bool, Error>(
            reg.satisfies(ty, a) != reg.satisfies(ty, b),
        ),
        reg.satisfies(ty, a) != reg.satisfies(ty, b) ==> tokens_value(
            reg,
            ty,
            seq![Token::Cap(a), Token::Xor, Token::Cap(b)],
        ) == Ok::<bool, Error>(true),
{
    let node = Expr::Xor(Box::new(Expr::Leaf(a)), Box::new(Expr::Leaf(b)));
    reveal_with_fuel(Expr::canonical, 2);
    reveal_with_fuel(Expr::tokens, 2);
    reveal_with_fuel(Expr::value, 2);
    law_canonical_parses(node);
    assert(node.tokens() =~= seq![Token::Cap(a), Token::Xor, Token::Cap(b)]);
}

/// Parentheses override precedence: `((A | B) ^ C) & D` has the value that
/// its parentheses say, which differs from that of `A | B ^ C & D` for
/// every type that satisfies `A` and not `D`.
pub proof fn law_parentheses_override(
    reg: Registry,
    ty: TypeRef,
    a: CapRef,
    b: CapRef,
    c: CapRef,
    d: CapRef,
)
    ensures
        tokens_value(
            reg,
            ty,
            seq![
                Token::Open,
                Token::Open,
                Token::Cap(a),
                Token::Or,
                Token::Cap(b),
                Token::Close,
                Token::Xor,
                Token::Cap(c),
                Token::Close,
                Token::And,
                Token::Cap(d),
            ],
        ) == Ok::<bool, Error>(
            ((reg.satisfies(ty, a) || reg.satisfies(ty, b)) != reg.satisfies(ty, c))
                && reg.satisfies(ty, d),
        ),
        reg.satisfies(ty, a) && !reg.satisfies(ty, d) ==> tokens_value(
            reg,
            ty,
            seq![
                Token::Open,
                Token::Open,
                Token::Cap(a),
                Token::Or,
                Token::Cap(b),
                Token::Close,
                Token::Xor,
                Token::Cap(c),
                Token::Close,
                Token::And,
                Token::Cap(d),
            ],
        ) != tokens_value(
            reg,
            ty,
            seq![
                Token::Cap(a),
                Token::Or,
                Token::Cap(b),
                Token::Xor,
                Token::Cap(c),
                Token::And,
                Token::Cap(d),
            ],
        ),
{
    let either = Expr::Group(
        Box::new(Expr::Or(Box::new(Expr::Leaf(a)), Box::new(Expr::Leaf(b)))),
    );
    let differ = Expr::Group(Box::new(Expr::Xor(Box::new(either), Box::new(Expr::Leaf(c)))));
    let node = Expr::And(Box::new(differ), Box::new(Expr::Leaf(d)));
    reveal_with_fuel(Expr::canonical, 6);
    reveal_with_fuel(Expr::tokens, 6);
    reveal_with_fuel(Expr::value, 6);
    law_canonical_parses(node);
    assert(node.tokens() =~= seq![
        Token::Open,
        Token::Open,
        Token::Cap(a),
        Token::Or,
        Token::Cap(b),
        Token::Close,
        Token::Xor,
        Token::Cap(c),
        Token::Close,
        Token::And,
        Token::Cap(d),
    ]);
    law_precedence(reg, ty, a, b, c, d);
}

} // verus!
