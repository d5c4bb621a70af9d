//! The evaluation of an expression for a type.

use vstd::prelude::*;
use crate::lexer::{lex_spec, tokenize};
use crate::parser::{parse, parse_spec};
use crate::registry::{Error, Registry, TypeRef};
use crate::token::Token;

verus! {

/// The value for `ty` of the expression that `toks` write down;
/// `Error::Malformed` where they write none.
pub open spec fn tokens_value(reg: Registry, ty: TypeRef, toks: Seq<Token>) -> Result<bool, Error> {
    match parse_spec(toks) {
        Some(e) => Ok(e.value(reg, ty)),
        None => Err(Error::Malformed),
    }
}

/// The value for `ty` of the expression that the text `src` writes down. An
/// error of the tokens comes before one of the grammar.
pub open spec fn evaluate_spec(reg: Registry, ty: TypeRef, src: Seq<u8>) -> Result<bool, Error> {
    match lex_spec(src, reg.names()) {
        Ok(toks) => tokens_value(reg, ty, toks),
        Err(e) => Err(e),
    }
}

/// Evaluates for the type `ty` the expression that `toks` write down.
pub fn evaluate_tokens(reg: &Registry, ty: TypeRef, toks: &[Token]) -> (holds: Result<bool, Error>)
    ensures
        holds == tokens_value(*reg, ty, toks@),
{
    match parse(toks) {
        Ok(e) => Ok(e.eval(reg, ty)),
        Err(e) => Err(e),
    }
}

/// Evaluates for the type `ty` the expression that the text `src` writes
/// down: whether the type satisfies it.
pub fn evaluate(reg: &Registry, ty: TypeRef, src: &[u8]) -> (holds: Result<bool, Error>)
    ensures
        holds == evaluate_spec(*reg, ty, src@),
{
    match tokenize(reg, src) {
        Ok(toks) => evaluate_tokens(reg, ty, toks.as_slice()),
        Err(e) => Err(e),
    }
}

} // verus!
