//! From tokens to the expression tree, by precedence.

use vstd::prelude::*;
use vstd::slice::slice_subrange;
use crate::expr::Expr;
use crate::registry::Error;
use crate::token::{find_split, lemma_split_point_in_range, split_point, BinOp, Token};

verus! {

/// Applies `Expr::Not` to a tree, if there is one.
pub open spec fn negated(inner: Option<Expr>) -> Option<Expr> {
    match inner {
        Some(e) => Some(Expr::Not(Box::new(e))),
        None => None,
    }
}

/// Applies `Expr::Group` to a tree, if there is one.
pub open spec fn grouped(inner: Option<Expr>) -> Option<Expr> {
    match inner {
        Some(e) => Some(Expr::Group(Box::new(e))),
        None => None,
    }
}

/// Joins two trees by `op`, if both are there.
pub open spec fn joined(op: BinOp, left: Option<Expr>, right: Option<Expr>) -> Option<Expr> {
    match (left, right) {
        (Some(l), Some(r)) => Some(Expr::binary(op, l, r)),
        _ => None,
    }
}

/// The tree that `toks` writes down, or `None` where they write none.
///
/// Where an operator stands at the top level, the tokens split at the
/// leftmost operator of the lowest precedence present, and both sides are
/// read in the same way. Without one, the tokens are one operand: `!` before
/// an operand, an expression in parentheses, or one capability reference.
pub open spec fn parse_spec(toks: Seq<Token>) -> Option<Expr>
    decreases toks.len(),
{
    match split_point(toks) {
        Some((op, at)) => {
            proof {
                lemma_split_point_in_range(toks);
            }
            joined(op, parse_spec(toks.take(at)), parse_spec(toks.skip(at + 1)))
        },
        None => {
            if toks.len() == 0 {
                None
            } else if toks[0] == Token::Not {
                negated(parse_spec(toks.skip(1)))
            } else if toks[0] == Token::Open {
                if toks.len() >= 2 && toks.last() == Token::Close {
                    grouped(parse_spec(toks.subrange(1, toks.len() - 1)))
                } else {
                    None
                }
            } else if toks.len() == 1 && toks[0] is Cap {
                Some(Expr::Leaf(toks[0]->Cap_0))
            } else {
                None
            }
        },
    }
}

/// Reads the tree that `toks` writes down. Tokens that write none are
/// `Error::Malformed`.
pub fn parse(toks: &[Token]) -> (tree: Result<Expr, Error>)
    ensures
        match parse_spec(toks@) {
            Some(e) => tree == Ok::<Expr, Error>(e),
            None => tree == Err::<Expr, Error>(Error::Malformed),
        },
    decreases toks@.len(),
{
    let n = toks.len();
    match find_split(toks) {
        Some((op, at)) => {
            let left = slice_subrange(toks, 0, at);
            let right = slice_subrange(toks, at + 1, n);
            assert(left@ == toks@.take(at as int));
            assert(right@ == toks@.skip(at + 1));
            match parse(left) {
                Ok(l) => match parse(right) {
                    Ok(r) => Ok(Expr::join(op, l, r)),
                    Err(e) => Err(e),
                },
                Err(e) => Err(e),
            }
        },
        None => {
            if n == 0 {
                return Err(Error::Malformed);
            }
            match toks[0] {
                Token::Not => {
                    let rest = slice_subrange(toks, 1, n);
                    assert(rest@ == toks@.skip(1));
                    match parse(rest) {
                        Ok(e) => Ok(Expr::Not(Box::new(e))),
                        Err(e) => Err(e),
                    }
                },
                Token::Open => {
                    if n < 2 {
                        return Err(Error::Malformed);
                    }
                    match toks[n - 1] {
                        Token::Close => {
                            let inner = slice_subrange(toks, 1, n - 1);
                            match parse(inner) {
                                Ok(e) => Ok(Expr::Group(Box::new(e))),
                                Err(e) => Err(e),
                            }
                        },
                        _ => Err(Error::Malformed),
                    }
                },
                Token::Cap(cap) => {
                    if n == 1 {
                        Ok(Expr::Leaf(cap))
                    } else {
                        Err(Error::Malformed)
                    }
                },
                _ => Err(Error::Malformed),
            }
        },
    }
}

} // verus!
