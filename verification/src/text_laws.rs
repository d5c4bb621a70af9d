//! The laws of negation, precedence and exclusive or, stated of texts.

use vstd::prelude::*;
use crate::evaluator::evaluate_spec;
use crate::laws::{
    law_double_negation,
    law_exclusive_or,
    law_leaf,
    law_negation,
    law_precedence,
    negation,
};
use crate::lexer::{
    angle_end,
    closes_angle,
    is_name_byte,
    is_reference,
    is_space,
    lemma_name_end_in_range,
    lemma_reference_end_in_range,
    lex_from,
    lex_spec,
    name_end,
    punctuation,
    reference_end,
};
use crate::registry::{lemma_position, resolve_in, CapRef, Error, Registry, TypeRef};
use crate::token::{shifted, split_point, Token};

verus! {

/// Tokens put in front of the tokens of a text, an error left as it is.
pub open spec fn prepended(front: Seq<Token>, rest: Result<Seq<Token>, Error>) -> Result<
    Seq<Token>,
    Error,
> {
    match rest {
        Ok(toks) => Ok(front + toks),
        Err(e) => Err(e),
    }
}

/// What was read before a position stands unchanged in front of what is
/// read from it.
pub proof fn lemma_lex_keeps_done(s: Seq<u8>, names: Seq<Seq<u8>>, from: int, done: Seq<Token>)
    requires
        0 <= from,
    ensures
        lex_from(s, names, from, done) == prepended(
            done,
            lex_from(s, names, from, Seq::empty()),
        ),
    decreases s.len() - from,
{
    let none = Seq::<Token>::empty();
    if from >= s.len() {
        assert(done + none =~= done);
    } else if is_space(s[from]) {
        lemma_lex_keeps_done(s, names, from + 1, done);
    } else if punctuation(s[from]) is Some {
        let tok = punctuation(s[from])->0;
        lemma_lex_keeps_done(s, names, from + 1, done.push(tok));
        lemma_lex_keeps_done(s, names, from + 1, none.push(tok));
        match lex_from(s, names, from + 1, none) {
            Ok(rest) => {
                assert(done.push(tok) + rest =~= done + (none.push(tok) + rest));
            },
            Err(_) => {},
        }
    } else if is_name_byte(s[from]) {
        lemma_reference_end_in_range(s, from);
        match reference_end(s, from) {
            Some(end) => match resolve_in(names, s.subrange(from, end)) {
                Some(cap) => {
                    let tok = Token::Cap(cap);
                    lemma_lex_keeps_done(s, names, end, done.push(tok));
                    lemma_lex_keeps_done(s, names, end, none.push(tok));
                    match lex_from(s, names, end, none) {
                        Ok(rest) => {
                            assert(done.push(tok) + rest =~= done + (none.push(tok) + rest));
                        },
                        Err(_) => {},
                    }
                },
                None => {},
            },
            None => {},
        }
    }
}

/// A byte put in front moves the end of a name one to the right.
pub proof fn lemma_name_end_behind(first: u8, s: Seq<u8>, from: int)
    requires
        0 <= from,
    ensures
        name_end(seq![first] + s, from + 1) == name_end(s, from) + 1,
    decreases s.len() - from,
{
    let longer = seq![first] + s;
    if from < s.len() {
        assert(longer[from + 1] == s[from]);
        if is_name_byte(s[from]) {
            lemma_name_end_behind(first, s, from + 1);
        }
    }
}

/// A byte put in front moves the end of an argument list one to the right,
/// unless the byte is `-` and the walk starts right behind it.
pub proof fn lemma_angle_end_behind(first: u8, s: Seq<u8>, from: int, depth: nat)
    requires
        0 <= from,
        first != 45 || from > 0,
    ensures
        angle_end(seq![first] + s, from + 1, depth) == shifted(angle_end(s, from, depth)),
    decreases s.len() - from,
{
    let longer = seq![first] + s;
    if from < s.len() {
        assert(longer[from + 1] == s[from]);
        assert(longer[from] == if from == 0 {
            first
        } else {
            s[from - 1]
        });
        assert(closes_angle(longer, from + 1) == closes_angle(s, from));
        if s[from] == 60 {
            lemma_angle_end_behind(first, s, from + 1, depth + 1);
        } else if closes_angle(s, from) {
            if depth > 1 {
                lemma_angle_end_behind(first, s, from + 1, (depth - 1) as nat);
            }
        } else {
            lemma_angle_end_behind(first, s, from + 1, depth);
        }
    }
}

/// A byte put in front changes nothing about what is read behind it, unless
/// the byte is `-` and the reading starts right behind it.
pub proof fn lemma_lex_behind(
    first: u8,
    s: Seq<u8>,
    names: Seq<Seq<u8>>,
    from: int,
    done: Seq<Token>,
)
    requires
        0 <= from,
        first != 45 || from > 0,
    ensures
        lex_from(seq![first] + s, names, from + 1, done) == lex_from(s, names, from, done),
    decreases s.len() - from,
{
    let longer = seq![first] + s;
    if from < s.len() {
        assert(longer[from + 1] == s[from]);
        if is_space(s[from]) {
            lemma_lex_behind(first, s, names, from + 1, done);
        } else if punctuation(s[from]) is Some {
            lemma_lex_behind(first, s, names, from + 1, done.push(punctuation(s[from])->0));
        } else if is_name_byte(s[from]) {
            lemma_name_end_behind(first, s, from);
            lemma_reference_end_in_range(s, from);
            let name_stop = name_end(s, from);
            if name_stop < s.len() {
                assert(longer[name_stop + 1] == s[name_stop]);
            }
            lemma_angle_end_behind(first, s, name_stop + 1, 1);
            assert(reference_end(longer, from + 1) == shifted(reference_end(s, from)));
            match reference_end(s, from) {
                Some(end) => {
                    assert(longer.subrange(from + 1, end + 1) =~= s.subrange(from, end));
                    match resolve_in(names, s.subrange(from, end)) {
                        Some(cap) => {
                            lemma_lex_behind(first, s, names, end, done.push(Token::Cap(cap)));
                        },
                        None => {},
                    }
                },
                None => {},
            }
        }
    }
}

/// Bytes put in front change nothing about what is read behind them, unless
/// the last of them is `-` and the reading starts right behind it.
pub proof fn lemma_lex_behind_all(
    front: Seq<u8>,
    s: Seq<u8>,
    names: Seq<Seq<u8>>,
    from: int,
    done: Seq<Token>,
)
    requires
        0 <= from,
        front.len() > 0 ==> front.last() != 45 || from > 0,
    ensures
        lex_from(front + s, names, front.len() + from, done) == lex_from(s, names, from, done),
    decreases front.len(),
{
    if front.len() == 0 {
        assert(front + s =~= s);
    } else {
        let rest = front.skip(1);
        assert(front + s =~= seq![front[0]] + (rest + s));
        lemma_lex_behind(front[0], rest + s, names, rest.len() + from, done);
        if rest.len() > 0 {
            assert(rest.last() == front.last());
        }
        lemma_lex_behind_all(rest, s, names, from, done);
    }
}

/// A byte that writes a token by itself, in front of a text, puts that token
/// in front of the text's tokens.
pub proof fn lemma_lex_sign(sign: u8, s: Seq<u8>, names: Seq<Seq<u8>>)
    requires
        punctuation(sign) is Some,
    ensures
        lex_spec(seq![sign] + s, names) == prepended(
            seq![punctuation(sign)->0],
            lex_spec(s, names),
        ),
{
    let longer = seq![sign] + s;
    let tok = punctuation(sign)->0;
    let none = Seq::<Token>::empty();
    assert(longer[0] == sign);
    assert(none.push(tok) =~= seq![tok]);
    lemma_lex_behind(sign, s, names, 0, seq![tok]);
    lemma_lex_keeps_done(s, names, 0, seq![tok]);
}

/// A blank in front of a text changes nothing about its tokens.
pub proof fn lemma_lex_blank(blank: u8, s: Seq<u8>, names: Seq<Seq<u8>>)
    requires
        is_space(blank),
    ensures
        lex_spec(seq![blank] + s, names) == lex_spec(s, names),
{
    let longer = seq![blank] + s;
    assert(longer[0] == blank);
    lemma_lex_behind(blank, s, names, 0, Seq::empty());
}

/// More text behind a name that no name byte follows leaves the name's end
/// where it is.
pub proof fn lemma_name_end_extended(s: Seq<u8>, rest: Seq<u8>, from: int)
    requires
        0 <= from <= s.len(),
        rest.len() > 0 ==> !is_name_byte(rest[0]),
    ensures
        name_end(s + rest, from) == name_end(s, from),
    decreases s.len() - from,
{
    let longer = s + rest;
    if from < s.len() {
        assert(longer[from] == s[from]);
        if is_name_byte(s[from]) {
            lemma_name_end_extended(s, rest, from + 1);
        }
    } else if rest.len() > 0 {
        assert(longer[from] == rest[0]);
    }
}

/// More text behind an argument list that is closed leaves its end where it
/// is.
pub proof fn lemma_angle_end_extended(s: Seq<u8>, rest: Seq<u8>, from: int, depth: nat)
    requires
        0 <= from,
        angle_end(s, from, depth) is Some,
    ensures
        angle_end(s + rest, from, depth) == angle_end(s, from, depth),
    decreases s.len() - from,
{
    let longer = s + rest;
    if from < s.len() {
        assert(longer[from] == s[from]);
        if from > 0 {
            assert(longer[from - 1] == s[from - 1]);
        }
        assert(closes_angle(longer, from) == closes_angle(s, from));
        if s[from] == 60 {
            lemma_angle_end_extended(s, rest, from + 1, depth + 1);
        } else if closes_angle(s, from) {
            if depth > 1 {
                lemma_angle_end_extended(s, rest, from + 1, (depth - 1) as nat);
            }
        } else {
            lemma_angle_end_extended(s, rest, from + 1, depth);
        }
    }
}

/// A capability reference followed by a blank, by a byte that writes a token
/// by itself, or by nothing, is read as its handle, and the rest as it would
/// be read alone.
pub proof fn lemma_lex_reference(name: Seq<u8>, rest: Seq<u8>, names: Seq<Seq<u8>>)
    requires
        is_reference(name),
        rest.len() > 0 ==> is_space(rest[0]) || punctuation(rest[0]) is Some,
    ensures
        lex_spec(name + rest, names) == match resolve_in(names, name) {
            Some(cap) => prepended(seq![Token::Cap(cap)], lex_spec(rest, names)),
            None => Err(Error::UnknownCapability),
        },
{
    let text = name + rest;
    let none = Seq::<Token>::empty();
    let stop = name_end(name, 0);
    assert(text[0] == name[0]);
    lemma_name_end_in_range(name, 0);
    lemma_reference_end_in_range(name, 0);
    lemma_name_end_extended(name, rest, 0);
    if stop < name.len() {
        assert(text[stop] == name[stop]);
        if name[stop] == 60 {
            lemma_angle_end_extended(name, rest, stop + 1, 1);
        }
    } else if rest.len() > 0 {
        assert(text[stop] == rest[0]);
    }
    assert(reference_end(text, 0) == Some(name.len() as int));
    assert(text.subrange(0, name.len() as int) =~= name);
    match resolve_in(names, name) {
        Some(cap) => {
            let tok = Token::Cap(cap);
            assert(none.push(tok) =~= seq![tok]);
            lemma_lex_behind_all(name, rest, names, 0, seq![tok]);
            lemma_lex_keeps_done(rest, names, 0, seq![tok]);
        },
        None => {},
    }
}

/// `left`, a blank, the byte `sign`, a blank, and `right`.
pub open spec fn infix(left: Seq<u8>, sign: u8, right: Seq<u8>) -> Seq<u8> {
    left + seq![32u8, sign, 32u8] + right
}

/// A capability reference, an operator between blanks and more text: the
/// handle, the operator's token, and the tokens of the rest.
pub proof fn lemma_lex_infix(name: Seq<u8>, sign: u8, right: Seq<u8>, names: Seq<Seq<u8>>)
    requires
        is_reference(name),
        punctuation(sign) is Some,
    ensures
        lex_spec(infix(name, sign, right), names) == match resolve_in(names, name) {
            Some(cap) => prepended(
                seq![Token::Cap(cap), punctuation(sign)->0],
                lex_spec(right, names),
            ),
            None => Err(Error::UnknownCapability),
        },
{
    let after_sign = seq![32u8] + right;
    let from_sign = seq![sign] + after_sign;
    let rest = seq![32u8] + from_sign;
    assert(infix(name, sign, right) =~= name + rest);
    assert(rest[0] == 32u8);
    lemma_lex_reference(name, rest, names);
    lemma_lex_blank(32u8, from_sign, names);
    lemma_lex_sign(sign, after_sign, names);
    lemma_lex_blank(32u8, right, names);
    match (resolve_in(names, name), lex_spec(right, names)) {
        (Some(cap), Ok(toks)) => {
            assert(seq![Token::Cap(cap)] + (seq![punctuation(sign)->0] + toks) =~= seq![
                Token::Cap(cap),
                punctuation(sign)->0,
            ] + toks);
        },
        _ => {},
    }
}

/// The text of one declared capability reference has the value that the
/// probe answers; one that is not declared is `Error::UnknownCapability`.
pub proof fn law_text_capability(reg: Registry, ty: TypeRef, name: Seq<u8>)
    requires
        is_reference(name),
    ensures
        evaluate_spec(reg, ty, name) == match resolve_in(reg.names(), name) {
            Some(cap) => Ok::<bool, Error>(reg.satisfies(ty, cap)),
            None => Err(Error::UnknownCapability),
        },
        lex_spec(name, reg.names()) matches Ok(toks) ==> split_point(toks) is None,
{
    let none = Seq::<u8>::empty();
    assert(name + none =~= name);
    lemma_lex_reference(name, none, reg.names());
    match resolve_in(reg.names(), name) {
        Some(cap) => {
            assert(seq![Token::Cap(cap)] + Seq::<Token>::empty() =~= seq![Token::Cap(cap)]);
            law_leaf(reg, ty, cap);
        },
        None => {},
    }
}

/// Double negation cancels in every text: `!!` in front changes neither the
/// value nor the error.
pub proof fn law_text_double_negation(reg: Registry, ty: TypeRef, src: Seq<u8>)
    ensures
        evaluate_spec(reg, ty, seq![33u8, 33u8] + src) == evaluate_spec(reg, ty, src),
{
    let once = seq![33u8] + src;
    assert(seq![33u8, 33u8] + src =~= seq![33u8] + once);
    lemma_lex_sign(33u8, src, reg.names());
    lemma_lex_sign(33u8, once, reg.names());
    match lex_spec(src, reg.names()) {
        Ok(toks) => {
            assert(seq![Token::Not] + (seq![Token::Not] + toks) =~= seq![Token::Not, Token::Not]
                + toks);
            law_double_negation(reg, ty, toks);
        },
        Err(_) => {},
    }
}

/// Negation in a text: `!` in front of a text whose tokens hold no operator
/// at the top level negates its value; an error stays as it is.
pub proof fn law_text_negation(reg: Registry, ty: TypeRef, src: Seq<u8>)
    requires
        lex_spec(src, reg.names()) matches Ok(toks) ==> split_point(toks) is None,
    ensures
        evaluate_spec(reg, ty, seq![33u8] + src) == negation(evaluate_spec(reg, ty, src)),
{
    lemma_lex_sign(33u8, src, reg.names());
    match lex_spec(src, reg.names()) {
        Ok(toks) => {
            law_negation(reg, ty, toks);
        },
        Err(_) => {},
    }
}

/// `!C` in a text is the negation of `C`, and `!!C` is `C`, for every
/// capability reference `C`.
pub proof fn law_text_negated_capability(reg: Registry, ty: TypeRef, name: Seq<u8>)
    requires
        is_reference(name),
    ensures
        evaluate_spec(reg, ty, seq![33u8] + name) == negation(evaluate_spec(reg, ty, name)),
        evaluate_spec(reg, ty, seq![33u8, 33u8] + name) == evaluate_spec(reg, ty, name),
{
    law_text_capability(reg, ty, name);
    law_text_negation(reg, ty, name);
    law_text_double_negation(reg, ty, name);
}

/// Precedence in a text: `A | B ^ C & D` has the value of `A | (B ^ (C & D))`
/// for all declared capability references `A`, `B`, `C` and `D`.
pub proof fn law_text_precedence(
    reg: Registry,
    ty: TypeRef,
    a: Seq<u8>,
    b: Seq<u8>,
    c: Seq<u8>,
    d: Seq<u8>,
)
    requires
        is_reference(a),
        is_reference(b),
        is_reference(c),
        is_reference(d),
        reg.declares(a),
        reg.declares(b),
        reg.declares(c),
        reg.declares(d),
    ensures
        evaluate_spec(reg, ty, infix(a, 124, infix(b, 94, infix(c, 38, d)))) == Ok::<bool, Error>(
            evaluate_spec(reg, ty, a)->Ok_0 || (evaluate_spec(reg, ty, b)->Ok_0 != (evaluate_spec(
                reg,
                ty,
                c,
            )->Ok_0 && evaluate_spec(reg, ty, d)->Ok_0)),
        ),
{
    let names = reg.names();
    let ca = resolve_in(names, a)->0;
    let cb = resolve_in(names, b)->0;
    let cc = resolve_in(names, c)->0;
    let cd = resolve_in(names, d)->0;
    law_text_capability(reg, ty, a);
    law_text_capability(reg, ty, b);
    law_text_capability(reg, ty, c);
    law_text_capability(reg, ty, d);
    let none = Seq::<u8>::empty();
    assert(d + none =~= d);
    lemma_lex_reference(d, none, names);
    lemma_lex_infix(c, 38, d, names);
    lemma_lex_infix(b, 94, infix(c, 38, d), names);
    lemma_lex_infix(a, 124, infix(b, 94, infix(c, 38, d)), names);
    let toks = seq![
        Token::Cap(ca),
        Token::Or,
        Token::Cap(cb),
        Token::Xor,
        Token::Cap(cc),
        Token::And,
        Token::Cap(cd),
    ];
    assert(seq![Token::Cap(ca), Token::Or] + (seq![Token::Cap(cb), Token::Xor] + (seq![
        Token::Cap(cc),
        Token::And,
    ] + (seq![Token::Cap(cd)] + Seq::<Token>::empty()))) =~= toks);
    assert(lex_spec(infix(a, 124, infix(b, 94, infix(c, 38, d))), names) == Ok::<
        Seq<Token>,
        Error,
    >(toks));
    law_precedence(reg, ty, ca, cb, cc, cd);
}

/// Mutual exclusion in a text: for a type that satisfies exactly one of two
/// declared capabilities, `A ^ B` is `true`.
pub proof fn law_text_exclusive_or(reg: Registry, ty: TypeRef, a: Seq<u8>, b: Seq<u8>)
    requires
        is_reference(a),
        is_reference(b),
        reg.declares(a),
        reg.declares(b),
        evaluate_spec(reg, ty, a) != evaluate_spec(reg, ty, b),
    ensures
        evaluate_spec(reg, ty, infix(a, 94, b)) == Ok::<bool, Error>(true),
{
    let names = reg.names();
    let ca = resolve_in(names, a)->0;
    let cb = resolve_in(names, b)->0;
    law_text_capability(reg, ty, a);
    law_text_capability(reg, ty, b);
    let none = Seq::<u8>::empty();
    assert(b + none =~= b);
    lemma_lex_reference(b, none, names);
    lemma_lex_infix(a, 94, b, names);
    let toks = seq![Token::Cap(ca), Token::Xor, Token::Cap(cb)];
    assert(seq![Token::Cap(ca), Token::Xor] + (seq![Token::Cap(cb)] + Seq::<Token>::empty())
        =~= toks);
    law_exclusive_or(reg, ty, ca, cb);
}

/// Every declaration is an expression by itself: the text of a declared
/// capability reference evaluates, without error, to what the probe answers
/// for its handle.
pub proof fn law_declared_evaluates(reg: Registry, ty: TypeRef, cap: CapRef)
    requires
        reg.wf(),
        cap.index < reg.names().len(),
    ensures
        resolve_in(reg.names(), reg.names()[cap.index as int]) == Some(cap),
        evaluate_spec(reg, ty, reg.names()[cap.index as int]) == Ok::<bool, Error>(
            reg.satisfies(ty, cap),
        ),
{
    let name = reg.names()[cap.index as int];
    lemma_position(reg.names(), name, 0);
    law_text_capability(reg, ty, name);
}

} // verus!
