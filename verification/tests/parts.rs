use impls::_bool::{False, True};
use impls::expr::Expr;
use impls::evaluator::evaluate;
use impls::lexer::{
    find_reference_end, name_byte, punctuation_token, reference, space, tokenize,
};
use impls::parser::parse;
use impls::registry::{same_bytes, CapRef, Error, Registry, Rule, TypeRef};
use impls::token::{find_split, find_top_level, BinOp, Token};

fn leaf(index: usize) -> Box<Expr> {
    Box::new(Expr::Leaf(CapRef { index }))
}

fn cap(index: usize) -> Token {
    Token::Cap(CapRef { index })
}

fn abc() -> Registry {
    let mut reg = Registry::new();
    reg.declare(b"A").unwrap();
    reg.declare(b"B").unwrap();
    reg.declare(b"C").unwrap();
    reg
}

#[test]
fn carriers_have_their_values() {
    assert!(True.value());
    assert!(!False.value());
    assert_eq!(True.value() ^ False.value(), true);
    let copy = True;
    assert_eq!(copy.value(), True.value());
}

#[test]
fn same_bytes_compares_whole_strings() {
    assert!(same_bytes(b"", b""));
    assert!(same_bytes(b"Clone", b"Clone"));
    assert!(!same_bytes(b"Clone", b"Clon"));
    assert!(!same_bytes(b"Clone", b"Cloned"));
    assert!(!same_bytes(b"Clone", b"Clonf"));
    assert!(!same_bytes(b"clone", b"Clone"));
}

#[test]
fn declare_hands_out_positions() {
    let mut reg = Registry::new();
    assert_eq!(reg.resolve(b"Foo"), None);
    assert_eq!(reg.declare(b"Foo"), Ok(CapRef { index: 0 }));
    assert_eq!(reg.declare(b"Bar"), Ok(CapRef { index: 1 }));
    assert_eq!(reg.declare(b"Foo"), Ok(CapRef { index: 0 }));
    assert_eq!(reg.declare(b"Foo<T>"), Ok(CapRef { index: 2 }));
    assert_eq!(reg.resolve(b"Foo"), Some(CapRef { index: 0 }));
    assert_eq!(reg.resolve(b"Bar"), Some(CapRef { index: 1 }));
    assert_eq!(reg.resolve(b"Foo<T>"), Some(CapRef { index: 2 }));
    assert_eq!(reg.resolve(b"Foo<U>"), None);
    assert_eq!(reg.resolve(b"Fo"), None);
    assert_eq!(reg.resolve(b""), None);
}

#[test]
fn declare_refuses_what_is_no_reference() {
    let mut reg = Registry::new();
    for name in ["", " ", "Foo ", " Foo", "Foo Bar", "Foo|Bar", "!Foo", "(Foo)", "Foo<T", "<T>", "Foo<T>x", "Foo<T><U>", "Foo-Bar"] {
        assert_eq!(reg.declare(name.as_bytes()), Err(Error::Malformed), "{name:?}");
    }
    assert_eq!(reg.resolve(b"Foo"), None);
    for (index, name) in ["Foo", "Foo<T>", "Foo<'a, T>", "a::b::Foo<Vec<u8>>", "From<fn(u8) -> u8>", "_x9", "Foo<>"].into_iter().enumerate() {
        assert_eq!(reg.declare(name.as_bytes()), Ok(CapRef { index }), "{name:?}");
        assert!(reference(name.as_bytes()));
    }
    assert!(!reference(b"Foo Bar"));
    assert!(!reference(b""));
}

#[test]
fn a_declared_name_evaluates_to_its_probe() {
    let mut reg = Registry::new();
    let t = TypeRef { id: 1 };
    let names: [&[u8]; 4] = [b"Foo", b"Foo<'a, T>", b"core::fmt::Debug", b"From<fn(u8) -> u8>"];
    for (index, name) in names.into_iter().enumerate() {
        let cap = reg.declare(name).unwrap();
        if index % 2 == 0 {
            reg.implement(t, cap).unwrap();
        }
    }
    for (index, name) in names.into_iter().enumerate() {
        assert_eq!(evaluate(&reg, t, name), Ok(index % 2 == 0));
    }
}

#[test]
fn probe_is_false_until_a_rule_says_otherwise() {
    let mut reg = Registry::new();
    let foo = reg.declare(b"Foo").unwrap();
    let bar = reg.declare(b"Bar").unwrap();
    let t = TypeRef { id: 1 };
    let u = TypeRef { id: 2 };
    assert!(!reg.probe(t, foo));
    assert_eq!(reg.implement(t, foo), Ok(()));
    assert!(reg.probe(t, foo));
    assert!(reg.probe(TypeRef { id: 1 }, foo));
    assert!(!reg.probe(t, bar));
    assert!(!reg.probe(u, foo));
    assert_eq!(reg.implement(t, foo), Ok(()));
    assert!(reg.probe(t, foo));
}

#[test]
fn implement_refuses_an_undeclared_handle() {
    let mut reg = Registry::new();
    let t = TypeRef { id: 1 };
    assert_eq!(reg.implement(t, CapRef { index: 0 }), Err(Error::UnknownCapability));
    let foo = reg.declare(b"Foo").unwrap();
    assert_eq!(reg.implement(t, CapRef { index: 1 }), Err(Error::UnknownCapability));
    assert!(!reg.probe(t, CapRef { index: 1 }));
    assert!(!reg.probe(t, foo));
    let rule = Rule { ty: t, cap: foo };
    assert_eq!(reg.implement(rule.ty, rule.cap), Ok(()));
    assert!(reg.probe(t, foo));
}

#[test]
fn bytes_are_classified() {
    for b in [b' ', b'\t', b'\n', b'\r'] {
        assert!(space(b));
        assert!(!name_byte(b));
    }
    for b in [b'a', b'z', b'A', b'Z', b'0', b'9', b'_', b':'] {
        assert!(name_byte(b));
        assert!(!space(b));
        assert_eq!(punctuation_token(b), None);
    }
    for b in [b'<', b'>', b'\'', b'-', b',', b'@', b'/', b'[', b'`', b'{', 0u8, 255u8] {
        assert!(!name_byte(b));
        assert!(!space(b));
        assert_eq!(punctuation_token(b), None);
    }
    assert_eq!(punctuation_token(b'!'), Some(Token::Not));
    assert_eq!(punctuation_token(b'&'), Some(Token::And));
    assert_eq!(punctuation_token(b'^'), Some(Token::Xor));
    assert_eq!(punctuation_token(b'|'), Some(Token::Or));
    assert_eq!(punctuation_token(b'('), Some(Token::Open));
    assert_eq!(punctuation_token(b')'), Some(Token::Close));
}

#[test]
fn reference_ends_after_name_or_argument_list() {
    assert_eq!(find_reference_end(b"Foo", 0), Some(3));
    assert_eq!(find_reference_end(b"Foo|Bar", 0), Some(3));
    assert_eq!(find_reference_end(b"Foo|Bar", 4), Some(7));
    assert_eq!(find_reference_end(b"Foo <T>", 0), Some(3));
    assert_eq!(find_reference_end(b"Foo<T>", 0), Some(6));
    assert_eq!(find_reference_end(b"Foo<T>&Bar", 0), Some(6));
    assert_eq!(find_reference_end(b"Foo<'a, T> & Bar", 0), Some(10));
    assert_eq!(find_reference_end(b"From<Vec<Vec<u8>>>|X", 0), Some(18));
    assert_eq!(find_reference_end(b"From<&'a (u8, !)>", 0), Some(17));
    assert_eq!(find_reference_end(b"From<fn(u8) -> u8> | X", 0), Some(18));
    assert_eq!(find_reference_end(b"core::fmt::Debug)", 0), Some(16));
    assert_eq!(find_reference_end(b"Foo<", 0), None);
    assert_eq!(find_reference_end(b"Foo<T", 0), None);
    assert_eq!(find_reference_end(b"Foo<Vec<T>", 0), None);
    assert_eq!(find_reference_end(b"Foo<fn() ->", 0), None);
}

#[test]
fn tokenize_splits_and_resolves() {
    let mut reg = Registry::new();
    reg.declare(b"Foo<'a, T>").unwrap();
    reg.declare(b"core::fmt::Debug").unwrap();
    reg.declare(b"From<fn(u8) -> u8>").unwrap();
    assert_eq!(tokenize(&reg, b""), Ok(vec![]));
    assert_eq!(tokenize(&reg, b" \t\r\n"), Ok(vec![]));
    assert_eq!(
        tokenize(&reg, b"Foo<'a, T>&!(core::fmt::Debug)"),
        Ok(vec![cap(0), Token::And, Token::Not, Token::Open, cap(1), Token::Close])
    );
    assert_eq!(
        tokenize(&reg, b" ! ^ | & ) ( From<fn(u8) -> u8>\n"),
        Ok(vec![
            Token::Not,
            Token::Xor,
            Token::Or,
            Token::And,
            Token::Close,
            Token::Open,
            cap(2)
        ])
    );
    assert_eq!(tokenize(&reg, b"Foo<'a,T>"), Err(Error::UnknownCapability));
    assert_eq!(tokenize(&reg, b"Foo<'a, T"), Err(Error::Malformed));
    assert_eq!(tokenize(&reg, b"core::fmt::Debug + x"), Err(Error::Malformed));
}

#[test]
fn top_level_skips_parentheses() {
    // A & ( B | C ) | A
    let toks = [
        cap(0),
        Token::And,
        Token::Open,
        cap(1),
        Token::Or,
        cap(2),
        Token::Close,
        Token::Or,
        cap(0),
    ];
    assert_eq!(find_top_level(&toks, BinOp::Or), Some(7));
    assert_eq!(find_top_level(&toks, BinOp::And), Some(1));
    assert_eq!(find_top_level(&toks, BinOp::Xor), None);
    assert_eq!(find_split(&toks), Some((BinOp::Or, 7)));
    assert_eq!(find_split(&toks[..7]), Some((BinOp::And, 1)));
    assert_eq!(find_split(&toks[3..6]), Some((BinOp::Or, 1)));
    assert_eq!(find_split(&toks[2..7]), None);
    assert_eq!(find_split(&[]), None);
}

#[test]
fn top_level_ends_at_a_stray_close() {
    // A ) | ( B
    let toks = [cap(0), Token::Close, Token::Or, Token::Open, cap(1)];
    assert_eq!(find_top_level(&toks, BinOp::Or), None);
    assert_eq!(find_split(&toks), None);
    // the leftmost of several
    let chain = [cap(0), Token::Xor, cap(1), Token::Xor, cap(2)];
    assert_eq!(find_top_level(&chain, BinOp::Xor), Some(1));
}

#[test]
fn parse_builds_the_tree_by_precedence() {
    let reg = abc();
    let toks = tokenize(&reg, b"A | B ^ C & A").unwrap();
    assert_eq!(
        parse(&toks),
        Ok(Expr::Or(
            leaf(0),
            Box::new(Expr::Xor(leaf(1), Box::new(Expr::And(leaf(2), leaf(0)))))
        ))
    );
    let toks = tokenize(&reg, b"A & B ^ C | A").unwrap();
    assert_eq!(
        parse(&toks),
        Ok(Expr::Or(
            Box::new(Expr::Xor(Box::new(Expr::And(leaf(0), leaf(1))), leaf(2))),
            leaf(0)
        ))
    );
}

#[test]
fn parse_splits_at_the_leftmost_operator() {
    let reg = abc();
    let toks = tokenize(&reg, b"A | B | C").unwrap();
    assert_eq!(
        parse(&toks),
        Ok(Expr::Or(leaf(0), Box::new(Expr::Or(leaf(1), leaf(2)))))
    );
}

#[test]
fn parse_keeps_groups_and_negations() {
    let reg = abc();
    let toks = tokenize(&reg, b"!(A & !!B) ^ ((C))").unwrap();
    assert_eq!(
        parse(&toks),
        Ok(Expr::Xor(
            Box::new(Expr::Not(Box::new(Expr::Group(Box::new(Expr::And(
                leaf(0),
                Box::new(Expr::Not(Box::new(Expr::Not(leaf(1)))))
            )))))),
            Box::new(Expr::Group(Box::new(Expr::Group(leaf(2)))))
        ))
    );
    assert_eq!(parse(&[cap(5)]), Ok(Expr::Leaf(CapRef { index: 5 })));
    assert_eq!(parse(&[]), Err(Error::Malformed));
    assert_eq!(parse(&[Token::Open, Token::Close]), Err(Error::Malformed));
    assert_eq!(parse(&[cap(0), cap(1)]), Err(Error::Malformed));
}

#[test]
fn eval_folds_the_tree() {
    let mut reg = abc();
    let t = TypeRef { id: 3 };
    reg.implement(t, CapRef { index: 0 }).unwrap();
    assert!(Expr::Leaf(CapRef { index: 0 }).eval(&reg, t));
    assert!(!Expr::Leaf(CapRef { index: 1 }).eval(&reg, t));
    assert!(Expr::Not(leaf(1)).eval(&reg, t));
    assert!(Expr::Group(leaf(0)).eval(&reg, t));
    assert!(!Expr::And(leaf(0), leaf(1)).eval(&reg, t));
    assert!(Expr::Xor(leaf(0), leaf(1)).eval(&reg, t));
    assert!(!Expr::Xor(leaf(0), leaf(0)).eval(&reg, t));
    assert!(Expr::Or(leaf(1), leaf(0)).eval(&reg, t));
    assert!(!Expr::Or(leaf(1), leaf(2)).eval(&reg, t));
    assert_eq!(
        Expr::join(BinOp::And, Expr::Leaf(CapRef { index: 0 }), Expr::Leaf(CapRef { index: 1 })),
        Expr::And(leaf(0), leaf(1))
    );
    assert_eq!(
        Expr::join(BinOp::Xor, Expr::Leaf(CapRef { index: 0 }), Expr::Leaf(CapRef { index: 1 })),
        Expr::Xor(leaf(0), leaf(1))
    );
    assert_eq!(
        Expr::join(BinOp::Or, Expr::Leaf(CapRef { index: 0 }), Expr::Leaf(CapRef { index: 1 })),
        Expr::Or(leaf(0), leaf(1))
    );
}
