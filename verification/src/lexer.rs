//! From text to tokens.
//!
//! A capability reference is a run of letters, digits, `_` and `:`, which an
//! argument list in angle brackets may follow: `Foo`, `Foo<'a>`, `Foo<T>`,
//! `core::convert::From<&'a [u8]>`. The argument list is taken as written, up
//! to the `>` that closes it; outside of it, blanks separate tokens.

use vstd::prelude::*;
use vstd::slice::slice_subrange;
use crate::registry::{resolve_in, Error, Registry};
use crate::token::Token;

verus! {

/// A blank: space, tab, line feed or carriage return.
pub open spec fn is_space(b: u8) -> bool {
    b == 32 || b == 9 || b == 10 || b == 13
}

/// A byte of a capability's name: a letter, a digit, `_` or `:`.
pub open spec fn is_name_byte(b: u8) -> bool {
    (48 <= b <= 57) || (65 <= b <= 90) || (97 <= b <= 122) || b == 95 || b == 58
}

/// The token that a single byte writes, if it writes one.
pub open spec fn punctuation(b: u8) -> Option<Token> {
    if b == 33 {
        Some(Token::Not)
    } else if b == 38 {
        Some(Token::And)
    } else if b == 94 {
        Some(Token::Xor)
    } else if b == 124 {
        Some(Token::Or)
    } else if b == 40 {
        Some(Token::Open)
    } else if b == 41 {
        Some(Token::Close)
    } else {
        None
    }
}

/// The first position at or after `from` that holds no name byte.
pub open spec fn name_end(s: Seq<u8>, from: int) -> int
    decreases s.len() - from,
{
    if 0 <= from < s.len() && is_name_byte(s[from]) {
        name_end(s, from + 1)
    } else {
        from
    }
}

/// Whether the `>` at position `at` closes an angle bracket: the one of an
/// arrow `->` does not.
pub open spec fn closes_angle(s: Seq<u8>, at: int) -> bool {
    s[at] == 62 && !(at > 0 && s[at - 1] == 45)
}

/// The position after the `>` that closes the outermost of `depth` open
/// angle brackets, walking from `from`; `None` where the text ends first.
pub open spec fn angle_end(s: Seq<u8>, from: int, depth: nat) -> Option<int>
    decreases s.len() - from,
{
    if from < 0 || from >= s.len() {
        None
    } else if s[from] == 60 {
        angle_end(s, from + 1, depth + 1)
    } else if closes_angle(s, from) {
        if depth <= 1 {
            Some(from + 1)
        } else {
            angle_end(s, from + 1, (depth - 1) as nat)
        }
    } else {
        angle_end(s, from + 1, depth)
    }
}

/// The position after the capability reference that starts at `from`: after
/// its name, or after the argument list where one follows the name directly.
/// `None` where an argument list is not closed.
pub open spec fn reference_end(s: Seq<u8>, from: int) -> Option<int> {
    let end = name_end(s, from);
    if 0 <= end < s.len() && s[end] == 60 {
        angle_end(s, end + 1, 1)
    } else {
        Some(end)
    }
}

/// Whether the whole of `s` is one capability reference.
pub open spec fn is_reference(s: Seq<u8>) -> bool {
    s.len() > 0 && is_name_byte(s[0]) && reference_end(s, 0) == Some(s.len() as int)
}

/// The tokens of `s` from position `from` on, appended to `done`. Capability
/// references are resolved against the declarations `names`. The first byte
/// that starts no token, or argument list that is not closed, is
/// `Error::Malformed`; the first reference that is not declared is
/// `Error::UnknownCapability`; whichever comes first in the text.
pub open spec fn lex_from(s: Seq<u8>, names: Seq<Seq<u8>>, from: int, done: Seq<Token>) -> Result<
    Seq<Token>,
    Error,
>
    decreases s.len() - from,
{
    if from < 0 || from >= s.len() {
        Ok(done)
    } else if is_space(s[from]) {
        lex_from(s, names, from + 1, done)
    } else if punctuation(s[from]) is Some {
        lex_from(s, names, from + 1, done.push(punctuation(s[from])->0))
    } else if is_name_byte(s[from]) {
        match reference_end(s, from) {
            None => Err(Error::Malformed),
            Some(end) => match resolve_in(names, s.subrange(from, end)) {
                None => Err(Error::UnknownCapability),
                Some(cap) => {
                    proof {
                        lemma_reference_end_in_range(s, from);
                    }
                    lex_from(s, names, end, done.push(Token::Cap(cap)))
                },
            },
        }
    } else {
        Err(Error::Malformed)
    }
}

/// The tokens of the text `s`.
pub open spec fn lex_spec(s: Seq<u8>, names: Seq<Seq<u8>>) -> Result<Seq<Token>, Error> {
    lex_from(s, names, 0, Seq::empty())
}

/// A name ends at or after the position where it starts, within the text.
pub proof fn lemma_name_end_in_range(s: Seq<u8>, from: int)
    requires
        0 <= from <= s.len(),
    ensures
        from <= name_end(s, from) <= s.len(),
        from < s.len() && is_name_byte(s[from]) ==> from < name_end(s, from),
        from < name_end(s, from) ==> is_name_byte(s[name_end(s, from) - 1]),
    decreases s.len() - from,
{
    if from < s.len() && is_name_byte(s[from]) {
        lemma_name_end_in_range(s, from + 1);
    }
}

/// An argument list ends after the position where the walk starts, within
/// the text, and its last byte is `>`.
pub proof fn lemma_angle_end_in_range(s: Seq<u8>, from: int, depth: nat)
    requires
        0 <= from,
    ensures
        angle_end(s, from, depth) matches Some(end) ==> from < end <= s.len() && s[end - 1] == 62,
    decreases s.len() - from,
{
    if from < s.len() {
        if s[from] == 60 {
            lemma_angle_end_in_range(s, from + 1, depth + 1);
        } else if closes_angle(s, from) {
            if depth > 1 {
                lemma_angle_end_in_range(s, from + 1, (depth - 1) as nat);
            }
        } else {
            lemma_angle_end_in_range(s, from + 1, depth);
        }
    }
}

/// A capability reference that starts with a name byte is not empty, ends
/// within the text, and its last byte is a name byte or `>`.
pub proof fn lemma_reference_end_in_range(s: Seq<u8>, from: int)
    requires
        0 <= from < s.len(),
        is_name_byte(s[from]),
    ensures
        reference_end(s, from) matches Some(end) ==> from < end <= s.len() && (is_name_byte(
            s[end - 1],
        ) || s[end - 1] == 62),
{
    lemma_name_end_in_range(s, from);
    lemma_angle_end_in_range(s, name_end(s, from) + 1, 1);
}

/// Tells whether `b` is a blank.
pub fn space(b: u8) -> (yes: bool)
    ensures
        yes == is_space(b),
{
    b == 32 || b == 9 || b == 10 || b == 13
}

/// Tells whether `b` is a byte of a capability's name.
pub fn name_byte(b: u8) -> (yes: bool)
    ensures
        yes == is_name_byte(b),
{
    (48 <= b && b <= 57) || (65 <= b && b <= 90) || (97 <= b && b <= 122) || b == 95 || b == 58
}

/// The token that the byte `b` writes by itself, if any.
pub fn punctuation_token(b: u8) -> (tok: Option<Token>)
    ensures
        tok == punctuation(b),
{
    if b == 33 {
        Some(Token::Not)
    } else if b == 38 {
        Some(Token::And)
    } else if b == 94 {
        Some(Token::Xor)
    } else if b == 124 {
        Some(Token::Or)
    } else if b == 40 {
        Some(Token::Open)
    } else if b == 41 {
        Some(Token::Close)
    } else {
        None
    }
}

/// Finds where the capability reference that starts at `from` ends.
pub fn find_reference_end(src: &[u8], from: usize) -> (end: Option<usize>)
    requires
        from < src@.len(),
        is_name_byte(src@[from as int]),
    ensures
        match end {
            Some(e) => reference_end(src@, from as int) == Some(e as int) && from < e
                <= src@.len(),
            None => reference_end(src@, from as int) is None,
        },
{
    let n = src.len();
    let mut i: usize = from;
    while i < n && name_byte(src[i])
        invariant
            n == src@.len(),
            from <= i <= n,
            name_end(src@, from as int) == name_end(src@, i as int),
        decreases n - i,
    {
        i = i + 1;
    }
    proof {
        lemma_name_end_in_range(src@, from as int);
    }
    if i == n || src[i] != 60 {
        return Some(i);
    }
    i = i + 1;
    let mut depth: usize = 1;
    while i < n
        invariant
            n == src@.len(),
            from < i <= n,
            1 <= depth <= i,
            reference_end(src@, from as int) == angle_end(src@, i as int, depth as nat),
        decreases n - i,
    {
        let b = src[i];
        if b == 60 {
            depth = depth + 1;
        } else if b == 62 && src[i - 1] != 45 {
            if depth == 1 {
                return Some(i + 1);
            }
            depth = depth - 1;
        }
        i = i + 1;
    }
    None
}

/// Tells whether the whole of `name` is one capability reference.
pub fn reference(name: &[u8]) -> (yes: bool)
    ensures
        yes == is_reference(name@),
{
    if name.len() == 0 || !name_byte(name[0]) {
        return false;
    }
    match find_reference_end(name, 0) {
        Some(end) => end == name.len(),
        None => false,
    }
}

/// Splits the text `src` into tokens, resolving each capability reference
/// against the declarations of `reg`.
pub fn tokenize(reg: &Registry, src: &[u8]) -> (toks: Result<Vec<Token>, Error>)
    ensures
        match lex_spec(src@, reg.names()) {
            Ok(expected) => toks matches Ok(v) && v@ == expected,
            Err(e) => toks matches Err(got) && got == e,
        },
{
    let n = src.len();
    let mut out: Vec<Token> = Vec::new();
    let mut i: usize = 0;
    while i < n
        invariant
            n == src@.len(),
            i <= n,
            lex_spec(src@, reg.names()) == lex_from(src@, reg.names(), i as int, out@),
        decreases n - i,
    {
        let b = src[i];
        if space(b) {
            i = i + 1;
        } else if let Some(tok) = punctuation_token(b) {
            out.push(tok);
            i = i + 1;
        } else if name_byte(b) {
            match find_reference_end(src, i) {
                None => {
                    return Err(Error::Malformed);
                },
                Some(end) => {
                    let name = slice_subrange(src, i, end);
                    match reg.resolve(name) {
                        None => {
                            return Err(Error::UnknownCapability);
                        },
                        Some(cap) => {
                            out.push(Token::Cap(cap));
                            i = end;
                        },
                    }
                },
            }
        } else {
            return Err(Error::Malformed);
        }
    }
    Ok(out)
}

} // verus!
