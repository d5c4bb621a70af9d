use impls::_bool;
use impls::evaluator::evaluate;
use impls::registry::{Registry, TypeRef};

const TEST: TypeRef = TypeRef { id: 1 };

// A capability `True` that the type satisfies and a capability `False` that
// it does not.
fn world() -> Registry {
    let mut reg = Registry::new();
    let yes = reg.declare(b"True").unwrap();
    reg.declare(b"False").unwrap();
    reg.implement(TEST, yes).unwrap();
    reg
}

fn name(value: bool) -> &'static str {
    if value {
        "True"
    } else {
        "False"
    }
}

fn carried(value: bool) -> bool {
    if value {
        _bool::True.value()
    } else {
        _bool::False.value()
    }
}

fn eval(reg: &Registry, text: String) -> bool {
    evaluate(reg, TEST, text.as_bytes()).unwrap()
}

fn row(a: bool, b: bool, c: bool, d: bool) {
    let reg = world();
    let expected = carried(a) | carried(b) ^ carried(c) & carried(d);
    let (a, b, c, d) = (name(a), name(b), name(c), name(d));

    assert_eq!(eval(&reg, format!("  {a} |  {b}  ^  {c}  & {d}")), expected);
    assert_eq!(eval(&reg, format!("  {a} | ({b}  ^ ({c}  & {d}))")), expected);
    assert_ne!(eval(&reg, format!("(({a} |  {b}) ^  {c}) & {d}")), expected);
}

// The rows on which reading from left to right differs from reading by
// precedence.
fn table() {
    row(false, true, false, false);
    row(false, true, true, false);
    row(true, false, false, false);
    row(true, false, true, false);
    row(true, false, true, true);
    row(true, true, false, false);
    row(true, true, true, false);
    row(true, true, true, true);
}

#[test]
fn tests_precedence() {
    table();
}

#[test]
fn mod_precedence() {
    table();
}

#[test]
fn precedence_agrees_on_the_other_rows() {
    let reg = world();
    let values = [false, true];
    let mut differing = 0;
    for a in values {
        for b in values {
            for c in values {
                for d in values {
                    let by_precedence = eval(
                        &reg,
                        format!("{} | {} ^ {} & {}", name(a), name(b), name(c), name(d)),
                    );
                    assert_eq!(by_precedence, a | (b ^ (c & d)));
                    let left_to_right = eval(
                        &reg,
                        format!("(({} | {}) ^ {}) & {}", name(a), name(b), name(c), name(d)),
                    );
                    assert_eq!(left_to_right, ((a | b) ^ c) & d);
                    if by_precedence != left_to_right {
                        differing += 1;
                    }
                }
            }
        }
    }
    assert_eq!(differing, 8);
}
