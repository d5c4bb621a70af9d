//! The trees that the parser builds are the canonical ones: every canonical
//! tree is read back from its own tokens, and every tree that is read is
//! canonical.

use vstd::prelude::*;
use crate::evaluator::tokens_value;
use crate::expr::{first_of, Expr};
use crate::parser::parse_spec;
use crate::registry::{Error, Registry, TypeRef};
use crate::token::{
    first_top_level,
    lemma_scan_in_range,
    lemma_split_behind_not,
    lemma_split_point_in_range,
    scan,
    split_point,
    BinOp,
    Token,
};

verus! {

/// Whether `toks` hold the tokens `part` from position `start` on.
pub open spec fn holds_at(toks: Seq<Token>, start: int, part: Seq<Token>) -> bool {
    0 <= start && start + part.len() <= toks.len() && toks.subrange(start, start + part.len())
        == part
}

/// Where `toks` hold `part` at `start`, they hold each piece of `part` at its
/// place.
pub proof fn lemma_holds_piece(
    toks: Seq<Token>,
    start: int,
    part: Seq<Token>,
    offset: int,
    piece: Seq<Token>,
)
    requires
        holds_at(toks, start, part),
        holds_at(part, offset, piece),
    ensures
        holds_at(toks, start + offset, piece),
{
    assert(toks.subrange(start + offset, start + offset + piece.len()) =~= toks.subrange(
        start,
        start + part.len(),
    ).subrange(offset, offset + piece.len()));
}

/// A walk that comes to the tokens of a canonical tree finds the tree's
/// first operator outside every parenthesis, if the walk is outside every
/// parenthesis itself; else it goes on behind the tree at the depth at which
/// it came.
pub proof fn lemma_scan_across(e: Expr, toks: Seq<Token>, start: int, op: BinOp, depth: nat)
    requires
        e.canonical(),
        holds_at(toks, start, e.tokens()),
    ensures
        scan(toks, op, start, depth) == if depth == 0 && e.first_operator(op) is Some {
            Some(start + e.first_operator(op)->0)
        } else {
            scan(toks, op, start + e.tokens().len(), depth)
        },
    decreases e,
{
    let part = e.tokens();
    assert(toks[start] == toks.subrange(start, start + part.len())[0]);
    match e {
        Expr::Leaf(cap) => {
            assert(part[0] == Token::Cap(cap));
        },
        Expr::Not(inner) => {
            let width = inner.tokens().len() as int;
            assert(part[0] == Token::Not);
            assert(holds_at(part, 1, inner.tokens())) by {
                assert(part.subrange(1, 1 + width) =~= inner.tokens());
            }
            lemma_holds_piece(toks, start, part, 1, inner.tokens());
            lemma_scan_across(*inner, toks, start + 1, op, depth);
        },
        Expr::Group(inner) => {
            let width = inner.tokens().len() as int;
            assert(part[0] == Token::Open);
            assert(holds_at(part, 1, inner.tokens())) by {
                assert(part.subrange(1, 1 + width) =~= inner.tokens());
            }
            lemma_holds_piece(toks, start, part, 1, inner.tokens());
            lemma_scan_across(*inner, toks, start + 1, op, depth + 1);
            assert(toks[start + 1 + width] == toks.subrange(start, start + part.len())[1 + width]);
            assert(part[1 + width] == Token::Close);
            assert(scan(toks, op, start + 1 + width, depth + 1) == scan(
                toks,
                op,
                start + 2 + width,
                depth,
            ));
        },
        _ => {
            let (sign, left, right) = e.parts()->0;
            let width = left.tokens().len() as int;
            assert(part == left.tokens() + seq![sign.token()] + right.tokens());
            assert(holds_at(part, 0, left.tokens())) by {
                assert(part.subrange(0, width) =~= left.tokens());
            }
            assert(holds_at(part, width + 1, right.tokens())) by {
                assert(part.subrange(width + 1, part.len() as int) =~= right.tokens());
            }
            lemma_holds_piece(toks, start, part, 0, left.tokens());
            lemma_holds_piece(toks, start, part, width + 1, right.tokens());
            lemma_scan_across(left, toks, start, op, depth);
            assert(toks[start + width] == toks.subrange(start, start + part.len())[width]);
            assert(part[width] == sign.token());
            lemma_scan_across(right, toks, start + width + 1, op, depth);
            assert(e.first_operator(op) == first_of(
                left.first_operator(op),
                op == sign,
                right.first_operator(op),
                width,
            ));
        },
    }
}

/// The leftmost operator outside every parenthesis, among the tokens of a
/// canonical tree, is where the tree has it.
pub proof fn lemma_first_top_level(e: Expr, op: BinOp)
    requires
        e.canonical(),
    ensures
        first_top_level(e.tokens(), op) == e.first_operator(op),
{
    let toks = e.tokens();
    assert(toks.subrange(0, toks.len() as int) =~= toks);
    lemma_scan_across(e, toks, 0, op, 0);
}

/// A canonical tree has outside its parentheses no operator that binds more
/// loosely than the one at its root.
pub proof fn lemma_operator_rank(e: Expr, op: BinOp)
    requires
        e.canonical(),
        e.first_operator(op) is Some,
    ensures
        op.rank() <= e.level(),
    decreases e,
{
    match e {
        Expr::Leaf(_) => {},
        Expr::Not(_) => {},
        Expr::Group(_) => {},
        _ => {
            let (sign, left, right) = e.parts()->0;
            if left.first_operator(op) is Some {
                lemma_operator_rank(left, op);
            } else if op != sign {
                lemma_operator_rank(right, op);
            }
        },
    }
}

/// The tokens of a canonical tree split at the operator of its root, if it
/// has one there, and else not at all.
pub proof fn lemma_split_point_of_tree(e: Expr)
    requires
        e.canonical(),
    ensures
        split_point(e.tokens()) == match e.parts() {
            Some((sign, left, _)) => Some((sign, left.tokens().len() as int)),
            None => None,
        },
{
    lemma_first_top_level(e, BinOp::Or);
    lemma_first_top_level(e, BinOp::Xor);
    lemma_first_top_level(e, BinOp::And);
    if e.first_operator(BinOp::Or) is Some {
        lemma_operator_rank(e, BinOp::Or);
    }
    if e.first_operator(BinOp::Xor) is Some {
        lemma_operator_rank(e, BinOp::Xor);
    }
    if e.first_operator(BinOp::And) is Some {
        lemma_operator_rank(e, BinOp::And);
    }
    match e.parts() {
        Some((sign, left, right)) => {
            if left.first_operator(sign) is Some {
                lemma_operator_rank(left, sign);
            }
        },
        None => {},
    }
}

/// Reading is the inverse of writing: the tokens of a canonical tree are
/// read as that tree. So the operators of an expression are grouped by
/// precedence, whatever the operands are.
pub proof fn law_canonical_parses(e: Expr)
    requires
        e.canonical(),
    ensures
        parse_spec(e.tokens()) == Some(e),
    decreases e,
{
    let toks = e.tokens();
    lemma_split_point_of_tree(e);
    match e {
        Expr::Leaf(cap) => {
            assert(toks[0] == Token::Cap(cap));
        },
        Expr::Not(inner) => {
            assert(toks[0] == Token::Not);
            assert(toks.skip(1) =~= inner.tokens());
            law_canonical_parses(*inner);
        },
        Expr::Group(inner) => {
            assert(toks[0] == Token::Open);
            assert(toks.last() == Token::Close);
            assert(toks.subrange(1, toks.len() - 1) =~= inner.tokens());
            law_canonical_parses(*inner);
        },
        _ => {
            let (sign, left, right) = e.parts()->0;
            let width = left.tokens().len() as int;
            assert(toks.take(width) =~= left.tokens());
            assert(toks.skip(width + 1) =~= right.tokens());
            law_canonical_parses(left);
            law_canonical_parses(right);
        },
    }
}

/// A tree reads as the tokens it was parsed from: whatever parses is written
/// by the grammar, operand for operand and operator for operator.
pub proof fn law_parse_keeps_tokens(toks: Seq<Token>)
    ensures
        parse_spec(toks) matches Some(e) ==> e.tokens() == toks,
    decreases toks.len(),
{
    lemma_split_point_in_range(toks);
    match split_point(toks) {
        Some((op, at)) => {
            law_parse_keeps_tokens(toks.take(at));
            law_parse_keeps_tokens(toks.skip(at + 1));
            if parse_spec(toks) is Some {
                assert(toks =~= toks.take(at) + seq![op.token()] + toks.skip(at + 1));
            }
        },
        None => {
            if toks.len() > 0 {
                if toks[0] == Token::Not {
                    law_parse_keeps_tokens(toks.skip(1));
                    assert(toks =~= seq![Token::Not] + toks.skip(1));
                } else if toks[0] == Token::Open {
                    if toks.len() >= 2 && toks.last() == Token::Close {
                        let inner = toks.subrange(1, toks.len() - 1);
                        law_parse_keeps_tokens(inner);
                        assert(toks =~= seq![Token::Open] + inner + seq![Token::Close]);
                    }
                } else if toks.len() == 1 && toks[0] is Cap {
                    assert(toks =~= seq![Token::Cap(toks[0]->Cap_0)]);
                }
            }
        },
    }
}

/// A position moved to the right by `by`.
pub open spec fn moved(at: Option<int>, by: int) -> Option<int> {
    match at {
        Some(i) => Some(i + by),
        None => None,
    }
}

/// What a walk finds among the first `len` tokens, it finds among all of
/// them.
pub proof fn lemma_scan_prefix(toks: Seq<Token>, len: int, op: BinOp, from: int, depth: nat)
    requires
        0 <= from,
        0 <= len <= toks.len(),
        scan(toks.take(len), op, from, depth) is Some,
    ensures
        scan(toks, op, from, depth) == scan(toks.take(len), op, from, depth),
    decreases len - from,
{
    let front = toks.take(len);
    if from < len {
        assert(front[from] == toks[from]);
        if toks[from] == Token::Open {
            lemma_scan_prefix(toks, len, op, from + 1, depth + 1);
        } else if toks[from] == Token::Close {
            if depth > 0 {
                lemma_scan_prefix(toks, len, op, from + 1, (depth - 1) as nat);
            }
        } else if !(depth == 0 && toks[from] == op.token()) {
            lemma_scan_prefix(toks, len, op, from + 1, depth);
        }
    }
}

/// A walk behind the first `len` tokens finds what a walk of the rest finds,
/// `len` further to the right.
pub proof fn lemma_scan_skip(toks: Seq<Token>, len: int, op: BinOp, from: int, depth: nat)
    requires
        0 <= from,
        0 <= len <= toks.len(),
    ensures
        scan(toks, op, from + len, depth) == moved(scan(toks.skip(len), op, from, depth), len),
    decreases toks.len() - len - from,
{
    let rest = toks.skip(len);
    if from < rest.len() {
        assert(rest[from] == toks[from + len]);
        if rest[from] == Token::Open {
            lemma_scan_skip(toks, len, op, from + 1, depth + 1);
        } else if rest[from] == Token::Close {
            if depth > 0 {
                lemma_scan_skip(toks, len, op, from + 1, (depth - 1) as nat);
            }
        } else if !(depth == 0 && rest[from] == op.token()) {
            lemma_scan_skip(toks, len, op, from + 1, depth);
        }
    }
}

/// Where the walk for `op` finds it at `at`, the walk for another operator
/// finds that one too if it stands outside every parenthesis behind `at`.
pub proof fn lemma_scan_other(
    toks: Seq<Token>,
    op: BinOp,
    other: BinOp,
    from: int,
    depth: nat,
    at: int,
)
    requires
        0 <= from,
        other != op,
        scan(toks, op, from, depth) == Some(at),
        scan(toks, other, at + 1, 0) is Some,
    ensures
        scan(toks, other, from, depth) is Some,
    decreases toks.len() - from,
{
    if from < toks.len() {
        if toks[from] == Token::Open {
            lemma_scan_other(toks, op, other, from + 1, depth + 1, at);
        } else if toks[from] == Token::Close {
            if depth > 0 {
                lemma_scan_other(toks, op, other, from + 1, (depth - 1) as nat, at);
            }
        } else if depth == 0 && toks[from] == op.token() {
        } else if depth == 0 && toks[from] == other.token() {
        } else {
            lemma_scan_other(toks, op, other, from + 1, depth, at);
        }
    }
}

/// Left of the split point no operator stands outside every parenthesis
/// that binds as loosely as the one at the split point; right of it, none
/// that binds more loosely.
pub proof fn lemma_split_sides(toks: Seq<Token>, other: BinOp)
    requires
        split_point(toks) is Some,
    ensures
        ({
            let (op, at) = split_point(toks)->0;
            &&& first_top_level(toks.take(at), other) is Some ==> other.rank() < op.rank()
            &&& first_top_level(toks.skip(at + 1), other) is Some ==> other.rank() <= op.rank()
        }),
{
    let (op, at) = split_point(toks)->0;
    lemma_split_point_in_range(toks);
    if first_top_level(toks.take(at), other) is Some {
        lemma_scan_prefix(toks, at, other, 0, 0);
        lemma_scan_in_range(toks.take(at), other, 0, 0);
    }
    if first_top_level(toks.skip(at + 1), other) is Some && other != op {
        lemma_scan_skip(toks, at + 1, other, 0, 0);
        lemma_scan_other(toks, op, other, 0, 0, at);
    }
}

/// Every tree that is read is canonical. With `law_canonical_parses` and
/// `law_parse_keeps_tokens`: the tokens that write an expression are those
/// of the canonical trees, and reading gives back the tree.
pub proof fn law_parse_is_canonical(toks: Seq<Token>)
    ensures
        parse_spec(toks) matches Some(e) ==> e.canonical(),
    decreases toks.len(),
{
    lemma_split_point_in_range(toks);
    match split_point(toks) {
        Some((op, at)) => {
            let left = parse_spec(toks.take(at));
            let right = parse_spec(toks.skip(at + 1));
            if left is Some && right is Some {
                law_parse_is_canonical(toks.take(at));
                law_parse_is_canonical(toks.skip(at + 1));
                law_parse_keeps_tokens(toks.take(at));
                law_parse_keeps_tokens(toks.skip(at + 1));
                lemma_split_point_of_tree(left->0);
                lemma_split_point_of_tree(right->0);
                lemma_split_sides(toks, BinOp::Or);
                lemma_split_sides(toks, BinOp::Xor);
                lemma_split_sides(toks, BinOp::And);
                assert(left->0.level() < op.rank());
                assert(right->0.level() <= op.rank());
            }
        },
        None => {
            if toks.len() > 0 {
                if toks[0] == Token::Not {
                    let rest = toks.skip(1);
                    law_parse_is_canonical(rest);
                    if parse_spec(rest) is Some {
                        law_parse_keeps_tokens(rest);
                        lemma_split_point_of_tree(parse_spec(rest)->0);
                        assert(toks =~= seq![Token::Not] + rest);
                        lemma_split_behind_not(rest);
                    }
                } else if toks[0] == Token::Open {
                    if toks.len() >= 2 && toks.last() == Token::Close {
                        law_parse_is_canonical(toks.subrange(1, toks.len() - 1));
                    }
                }
            }
        },
    }
}

/// Parentheses around an expression keep its value.
pub proof fn law_group(reg: Registry, ty: TypeRef, toks: Seq<Token>)
    requires
        parse_spec(toks) is Some,
    ensures
        tokens_value(reg, ty, seq![Token::Open] + toks + seq![Token::Close]) == tokens_value(
            reg,
            ty,
            toks,
        ),
{
    let e = parse_spec(toks)->0;
    law_parse_is_canonical(toks);
    law_parse_keeps_tokens(toks);
    law_canonical_parses(Expr::Group(Box::new(e)));
}

/// Precedence, whatever the operands are: for operands `a`, `b`, `c` and
/// `d`, each a capability, a negation or a group, `a | b ^ c & d` has the
/// value of `a | (b ^ (c & d))`.
pub proof fn law_precedence_of_operands(
    reg: Registry,
    ty: TypeRef,
    a: Expr,
    b: Expr,
    c: Expr,
    d: Expr,
)
    requires
        a.canonical() && a.level() == 0,
        b.canonical() && b.level() == 0,
        c.canonical() && c.level() == 0,
        d.canonical() && d.level() == 0,
    ensures
        tokens_value(
            reg,
            ty,
            a.tokens() + seq![Token::Or] + (b.tokens() + seq![Token::Xor] + (c.tokens() + seq![
                Token::And,
            ] + d.tokens())),
        ) == Ok::<bool, Error>(
            a.value(reg, ty) || (b.value(reg, ty) != (c.value(reg, ty) && d.value(reg, ty))),
        ),
{
    let conj = Expr::And(Box::new(c), Box::new(d));
    let excl = Expr::Xor(Box::new(b), Box::new(conj));
    let all = Expr::Or(Box::new(a), Box::new(excl));
    assert(conj.canonical());
    assert(excl.canonical());
    assert(all.canonical());
    reveal_with_fuel(Expr::tokens, 4);
    reveal_with_fuel(Expr::value, 4);
    law_canonical_parses(all);
}

} // verus!
