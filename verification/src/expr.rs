//! The expression tree and its value for a type.

use vstd::prelude::*;
use crate::registry::{CapRef, Registry, TypeRef};
use crate::token::{BinOp, Token};

verus! {

/// A boolean expression over capabilities.
#[derive(Debug, PartialEq, Eq)]
pub enum Expr {
    /// A single capability reference.
    Leaf(CapRef),
    /// `!e`
    Not(Box<Expr>),
    /// `l & r`
    And(Box<Expr>, Box<Expr>),
    /// `l ^ r`
    Xor(Box<Expr>, Box<Expr>),
    /// `l | r`
    Or(Box<Expr>, Box<Expr>),
    /// `(e)`: has the value of `e`, and is one operand to what stands around
    /// it.
    Group(Box<Expr>),
}

/// The first of three places where an operator may stand: in the left
/// operand, between the operands at position `width`, or in the right
/// operand, whose tokens start at `width + 1`.
pub open spec fn first_of(left: Option<int>, here: bool, right: Option<int>, width: int) -> Option<
    int,
> {
    if left is Some {
        left
    } else if here {
        Some(width)
    } else {
        match right {
            Some(at) => Some(width + 1 + at),
            None => None,
        }
    }
}

impl Expr {
    /// The node that joins `left` and `right` by `op`.
    pub open spec fn binary(op: BinOp, left: Expr, right: Expr) -> Expr {
        match op {
            BinOp::And => Expr::And(Box::new(left), Box::new(right)),
            BinOp::Xor => Expr::Xor(Box::new(left), Box::new(right)),
            BinOp::Or => Expr::Or(Box::new(left), Box::new(right)),
        }
    }

    /// The value of the expression for the type `ty`: each leaf is what the
    /// probe of `reg` answers, and the operators are those of `bool`.
    pub open spec fn value(self, reg: Registry, ty: TypeRef) -> bool
        decreases self,
    {
        match self {
            Expr::Leaf(cap) => reg.satisfies(ty, cap),
            Expr::Not(e) => !e.value(reg, ty),
            Expr::And(l, r) => l.value(reg, ty) && r.value(reg, ty),
            Expr::Xor(l, r) => l.value(reg, ty) != r.value(reg, ty),
            Expr::Or(l, r) => l.value(reg, ty) || r.value(reg, ty),
            Expr::Group(e) => e.value(reg, ty),
        }
    }

    /// The tokens that write the expression down, operands in their order.
    pub open spec fn tokens(self) -> Seq<Token>
        decreases self,
    {
        match self {
            Expr::Leaf(cap) => seq![Token::Cap(cap)],
            Expr::Not(e) => seq![Token::Not] + e.tokens(),
            Expr::And(l, r) => l.tokens() + seq![Token::And] + r.tokens(),
            Expr::Xor(l, r) => l.tokens() + seq![Token::Xor] + r.tokens(),
            Expr::Or(l, r) => l.tokens() + seq![Token::Or] + r.tokens(),
            Expr::Group(e) => seq![Token::Open] + e.tokens() + seq![Token::Close],
        }
    }

    /// The operator and the operands of a node that has two operands.
    pub open spec fn parts(self) -> Option<(BinOp, Expr, Expr)> {
        match self {
            Expr::And(l, r) => Some((BinOp::And, *l, *r)),
            Expr::Xor(l, r) => Some((BinOp::Xor, *l, *r)),
            Expr::Or(l, r) => Some((BinOp::Or, *l, *r)),
            _ => None,
        }
    }

    /// The rank of the operator at the root, and 0 for an operand: a leaf, a
    /// negation or a group.
    pub open spec fn level(self) -> nat {
        match self.parts() {
            Some((op, _, _)) => op.rank(),
            None => 0,
        }
    }

    /// Whether the tree is one that its own tokens write down: `!` stands
    /// before an operand, the left operand of an operator binds tighter than
    /// the operator, and the right operand at least as tight.
    pub open spec fn canonical(self) -> bool
        decreases self,
    {
        match self {
            Expr::Leaf(_) => true,
            Expr::Not(e) => e.level() == 0 && e.canonical(),
            Expr::Group(e) => e.canonical(),
            Expr::And(l, r) => l.level() < 1 && r.level() <= 1 && l.canonical() && r.canonical(),
            Expr::Xor(l, r) => l.level() < 2 && r.level() <= 2 && l.canonical() && r.canonical(),
            Expr::Or(l, r) => l.level() < 3 && r.level() <= 3 && l.canonical() && r.canonical(),
        }
    }

    /// The position, among the tokens of a canonical tree, of the leftmost
    /// `op` that stands outside every parenthesis.
    pub open spec fn first_operator(self, op: BinOp) -> Option<int>
        decreases self,
    {
        match self {
            Expr::And(l, r) => first_of(
                l.first_operator(op),
                op == BinOp::And,
                r.first_operator(op),
                l.tokens().len() as int,
            ),
            Expr::Xor(l, r) => first_of(
                l.first_operator(op),
                op == BinOp::Xor,
                r.first_operator(op),
                l.tokens().len() as int,
            ),
            Expr::Or(l, r) => first_of(
                l.first_operator(op),
                op == BinOp::Or,
                r.first_operator(op),
                l.tokens().len() as int,
            ),
            _ => None,
        }
    }

    /// Joins two expressions by a binary operator.
    pub fn join(op: BinOp, left: Expr, right: Expr) -> (node: Expr)
        ensures
            node == Expr::binary(op, left, right),
    {
        match op {
            BinOp::And => Expr::And(Box::new(left), Box::new(right)),
            BinOp::Xor => Expr::Xor(Box::new(left), Box::new(right)),
            BinOp::Or => Expr::Or(Box::new(left), Box::new(right)),
        }
    }

    /// Appends to `out` the tokens that write the expression down.
    pub fn write_into(&self, out: &mut Vec<Token>)
        ensures
            final(out)@ == old(out)@ + self.tokens(),
        decreases self,
    {
        let ghost before = out@;
        match self {
            Expr::Leaf(cap) => {
                out.push(Token::Cap(*cap));
                assert(out@ =~= before + self.tokens());
            },
            Expr::Not(e) => {
                out.push(Token::Not);
                e.write_into(out);
                assert(out@ =~= before + self.tokens());
            },
            Expr::And(l, r) => {
                l.write_into(out);
                out.push(Token::And);
                r.write_into(out);
                assert(out@ =~= before + self.tokens());
            },
            Expr::Xor(l, r) => {
                l.write_into(out);
                out.push(Token::Xor);
                r.write_into(out);
                assert(out@ =~= before + self.tokens());
            },
            Expr::Or(l, r) => {
                l.write_into(out);
                out.push(Token::Or);
                r.write_into(out);
                assert(out@ =~= before + self.tokens());
            },
            Expr::Group(e) => {
                out.push(Token::Open);
                e.write_into(out);
                out.push(Token::Close);
                assert(out@ =~= before + self.tokens());
            },
        }
    }

    /// The tokens that write the expression down.
    pub fn write(&self) -> (toks: Vec<Token>)
        ensures
            toks@ == self.tokens(),
    {
        let mut toks: Vec<Token> = Vec::new();
        self.write_into(&mut toks);
        assert(toks@ =~= self.tokens());
        toks
    }

    /// Evaluates the expression for the type `ty`, probing `reg` at each
    /// leaf.
    pub fn eval(&self, reg: &Registry, ty: TypeRef) -> (holds: bool)
        ensures
            holds == self.value(*reg, ty),
        decreases self,
    {
        match self {
            Expr::Leaf(cap) => reg.probe(ty, *cap),
            Expr::Not(e) => !e.eval(reg, ty),
            Expr::And(l, r) => {
                let left = l.eval(reg, ty);
                let right = r.eval(reg, ty);
                left && right
            },
            Expr::Xor(l, r) => {
                let left = l.eval(reg, ty);
                let right = r.eval(reg, ty);
                left != right
            },
            Expr::Or(l, r) => {
                let left = l.eval(reg, ty);
                let right = r.eval(reg, ty);
                left || right
            },
            Expr::Group(e) => e.eval(reg, ty),
        }
    }
}

/// The value of a node is the operator applied to the values of its
/// operands.
pub proof fn lemma_binary_value(op: BinOp, left: Expr, right: Expr, reg: Registry, ty: TypeRef)
    ensures
        Expr::binary(op, left, right).value(reg, ty) == op.apply(
            left.value(reg, ty),
            right.value(reg, ty),
        ),
{
}

} // verus!
