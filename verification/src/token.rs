//! The tokens of an expression, and the search for the operator at which an
//! expression splits.

use vstd::prelude::*;
use crate::registry::CapRef;

verus! {

/// One token of an expression.
#[derive(Clone, Copy, Debug, PartialEq, Eq, Structural)]
pub enum Token {
    /// `!`
    Not,
    /// `&`
    And,
    /// `^`
    Xor,
    /// `|`
    Or,
    /// `(`
    Open,
    /// `)`
    Close,
    /// A capability reference, resolved to its handle.
    Cap(CapRef),
}

/// A binary operator. `And` binds tighter than `Xor`, which binds tighter
/// than `Or`.
#[derive(Clone, Copy, Debug, PartialEq, Eq, Structural)]
pub enum BinOp {
    And,
    Xor,
    Or,
}

impl BinOp {
    /// The token that writes this operator.
    pub open spec fn token(self) -> Token {
        match self {
            BinOp::And => Token::And,
            BinOp::Xor => Token::Xor,
            BinOp::Or => Token::Or,
        }
    }

    /// How loosely the operator binds: `&` tightest, `|` loosest.
    pub open spec fn rank(self) -> nat {
        match self {
            BinOp::And => 1,
            BinOp::Xor => 2,
            BinOp::Or => 3,
        }
    }

    /// The operator on two truth values.
    pub open spec fn apply(self, left: bool, right: bool) -> bool {
        match self {
            BinOp::And => left && right,
            BinOp::Xor => left != right,
            BinOp::Or => left || right,
        }
    }
}

/// Walks `toks` from position `from`, where `depth` parentheses are open, to
/// the first `op` outside every parenthesis. A `)` that closes nothing ends
/// the walk: nothing after it is at the top level.
pub open spec fn scan(toks: Seq<Token>, op: BinOp, from: int, depth: nat) -> Option<int>
    decreases toks.len() - from,
{
    if from < 0 || from >= toks.len() {
        None
    } else if toks[from] == Token::Open {
        scan(toks, op, from + 1, depth + 1)
    } else if toks[from] == Token::Close {
        if depth == 0 {
            None
        } else {
            scan(toks, op, from + 1, (depth - 1) as nat)
        }
    } else if depth == 0 && toks[from] == op.token() {
        Some(from)
    } else {
        scan(toks, op, from + 1, depth)
    }
}

/// The position of the leftmost `op` of `toks` that stands outside every
/// parenthesis.
pub open spec fn first_top_level(toks: Seq<Token>, op: BinOp) -> Option<int> {
    scan(toks, op, 0, 0)
}

/// The operator at which `toks` splits, with its position: the leftmost `|`
/// at the top level; without one, the leftmost `^`; without one, the leftmost
/// `&`.
pub open spec fn split_point(toks: Seq<Token>) -> Option<(BinOp, int)> {
    if first_top_level(toks, BinOp::Or) is Some {
        Some((BinOp::Or, first_top_level(toks, BinOp::Or)->0))
    } else if first_top_level(toks, BinOp::Xor) is Some {
        Some((BinOp::Xor, first_top_level(toks, BinOp::Xor)->0))
    } else if first_top_level(toks, BinOp::And) is Some {
        Some((BinOp::And, first_top_level(toks, BinOp::And)->0))
    } else {
        None
    }
}

/// What `scan` finds is a position of `toks`, not before `from`, that holds
/// the operator.
pub proof fn lemma_scan_in_range(toks: Seq<Token>, op: BinOp, from: int, depth: nat)
    requires
        0 <= from,
    ensures
        scan(toks, op, from, depth) matches Some(at) ==> from <= at < toks.len() && toks[at]
            == op.token(),
    decreases toks.len() - from,
{
    if from < toks.len() {
        if toks[from] == Token::Open {
            lemma_scan_in_range(toks, op, from + 1, depth + 1);
        } else if toks[from] == Token::Close {
            if depth > 0 {
                lemma_scan_in_range(toks, op, from + 1, (depth - 1) as nat);
            }
        } else if !(depth == 0 && toks[from] == op.token()) {
            lemma_scan_in_range(toks, op, from + 1, depth);
        }
    }
}

/// The split point of `toks` is one of its positions, and holds the operator.
pub proof fn lemma_split_point_in_range(toks: Seq<Token>)
    ensures
        split_point(toks) matches Some((op, at)) ==> 0 <= at < toks.len() && toks[at]
            == op.token(),
{
    lemma_scan_in_range(toks, BinOp::Or, 0, 0);
    lemma_scan_in_range(toks, BinOp::Xor, 0, 0);
    lemma_scan_in_range(toks, BinOp::And, 0, 0);
}

/// Finds the leftmost `op` of `toks` that stands outside every parenthesis.
pub fn find_top_level(toks: &[Token], op: BinOp) -> (found: Option<usize>)
    ensures
        found matches Some(at) ==> first_top_level(toks@, op) == Some(at as int) && at
            < toks@.len(),
        found is None ==> first_top_level(toks@, op) is None,
{
    let mut i: usize = 0;
    let mut depth: usize = 0;
    while i < toks.len()
        invariant
            i <= toks@.len(),
            depth <= i,
            first_top_level(toks@, op) == scan(toks@, op, i as int, depth as nat),
        decreases toks@.len() - i,
    {
        match toks[i] {
            Token::Open => {
                depth = depth + 1;
            },
            Token::Close => {
                if depth == 0 {
                    return None;
                }
                depth = depth - 1;
            },
            Token::And => {
                if depth == 0 && op == BinOp::And {
                    return Some(i);
                }
            },
            Token::Xor => {
                if depth == 0 && op == BinOp::Xor {
                    return Some(i);
                }
            },
            Token::Or => {
                if depth == 0 && op == BinOp::Or {
                    return Some(i);
                }
            },
            _ => {},
        }
        i = i + 1;
    }
    None
}

/// Finds the operator at which `toks` splits, and its position.
pub fn find_split(toks: &[Token]) -> (found: Option<(BinOp, usize)>)
    ensures
        match found {
            Some((op, at)) => split_point(toks@) == Some((op, at as int)) && at < toks@.len(),
            None => split_point(toks@) is None,
        },
{
    if let Some(at) = find_top_level(toks, BinOp::Or) {
        return Some((BinOp::Or, at));
    }
    if let Some(at) = find_top_level(toks, BinOp::Xor) {
        return Some((BinOp::Xor, at));
    }
    if let Some(at) = find_top_level(toks, BinOp::And) {
        return Some((BinOp::And, at));
    }
    None
}

/// A position moved one to the right, as by one token put in front.
pub open spec fn shifted(at: Option<int>) -> Option<int> {
    match at {
        Some(i) => Some(i + 1),
        None => None,
    }
}

/// A token put in front moves what a walk finds behind it one to the right.
pub proof fn lemma_scan_behind(first: Token, toks: Seq<Token>, op: BinOp, from: int, depth: nat)
    requires
        0 <= from,
    ensures
        scan(seq![first] + toks, op, from + 1, depth) == shifted(scan(toks, op, from, depth)),
    decreases toks.len() - from,
{
    let longer = seq![first] + toks;
    if from < toks.len() {
        assert(longer[from + 1] == toks[from]);
        if toks[from] == Token::Open {
            lemma_scan_behind(first, toks, op, from + 1, depth + 1);
        } else if toks[from] == Token::Close {
            if depth > 0 {
                lemma_scan_behind(first, toks, op, from + 1, (depth - 1) as nat);
            }
        } else if !(depth == 0 && toks[from] == op.token()) {
            lemma_scan_behind(first, toks, op, from + 1, depth);
        }
    }
}

/// A `!` in front moves the split point one to the right and changes
/// nothing else about it.
pub proof fn lemma_split_behind_not(toks: Seq<Token>)
    ensures
        split_point(seq![Token::Not] + toks) == match split_point(toks) {
            Some((op, at)) => Some((op, at + 1)),
            None => None,
        },
{
    let longer = seq![Token::Not] + toks;
    assert(longer[0] == Token::Not);
    lemma_scan_behind(Token::Not, toks, BinOp::Or, 0, 0);
    lemma_scan_behind(Token::Not, toks, BinOp::Xor, 0, 0);
    lemma_scan_behind(Token::Not, toks, BinOp::And, 0, 0);
    assert(first_top_level(longer, BinOp::Or) == scan(longer, BinOp::Or, 1, 0));
    assert(first_top_level(longer, BinOp::Xor) == scan(longer, BinOp::Xor, 1, 0));
    assert(first_top_level(longer, BinOp::And) == scan(longer, BinOp::And, 1, 0));
}

} // verus!
