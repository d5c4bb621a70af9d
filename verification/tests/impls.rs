use impls::evaluator::evaluate;
use impls::registry::{Registry, TypeRef};

const U8: TypeRef = TypeRef { id: 0 };
const UNIT: TypeRef = TypeRef { id: 1 };
const TEST: TypeRef = TypeRef { id: 2 };
const STR: TypeRef = TypeRef { id: 3 };
const BOX_U8: TypeRef = TypeRef { id: 4 };
const MUT_REF_U8: TypeRef = TypeRef { id: 5 };

fn written(ty: TypeRef) -> &'static str {
    match ty.id {
        0 => "u8",
        1 => "()",
        2 => "Test",
        3 => "str",
        4 => "Box<u8>",
        5 => "&mut u8",
        _ => unreachable!(),
    }
}

// `Test` and `Box<T>` are structs that are `Clone` and nothing more; the
// other types have the capabilities that the language gives them.
fn world() -> Registry {
    let mut reg = Registry::new();
    reg.declare(b"From<u8>").unwrap();
    reg.declare(b"From<u16>").unwrap();
    reg.declare(b"Into<u8>").unwrap();
    let into_u16 = reg.declare(b"Into<u16>").unwrap();
    let send = reg.declare(b"Send").unwrap();
    let copy = reg.declare(b"Copy").unwrap();
    let clone = reg.declare(b"Clone").unwrap();

    reg.implement(U8, into_u16).unwrap();
    reg.implement(U8, send).unwrap();
    reg.implement(U8, copy).unwrap();
    reg.implement(U8, clone).unwrap();

    reg.implement(UNIT, send).unwrap();
    reg.implement(UNIT, copy).unwrap();
    reg.implement(UNIT, clone).unwrap();

    reg.implement(TEST, send).unwrap();
    reg.implement(TEST, clone).unwrap();

    reg.implement(STR, send).unwrap();

    reg.implement(BOX_U8, send).unwrap();
    reg.implement(BOX_U8, clone).unwrap();

    reg.implement(MUT_REF_U8, send).unwrap();
    reg
}

fn assert_impl(reg: &Registry, errors: &mut String, line: u32, ty: TypeRef, expr: &str) {
    if evaluate(reg, ty, expr.as_bytes()) != Ok(true) {
        errors.push_str(&format!(
            "[{file}:{line}] {ty}: {expr}\n",
            file = "tests/impls.rs",
            line = line,
            ty = written(ty),
            expr = expr
        ));
    }
}

fn all_impls() {
    let reg = world();
    let mut errors = String::new();

    assert_impl(&reg, &mut errors, 1, U8, "(From<u16>) | (Into<u16>)");
    assert_impl(&reg, &mut errors, 2, UNIT, "(From<u8>) | (From<u16>) | Send");
    assert_impl(&reg, &mut errors, 3, UNIT, "(!From<u8>) & !(From<u16>) & Send");
    assert_impl(&reg, &mut errors, 4, UNIT, "Copy | Clone");
    assert_impl(&reg, &mut errors, 5, UNIT, "Copy & Clone");
    assert_impl(&reg, &mut errors, 6, UNIT, "!(Copy ^ Clone)");
    assert_impl(&reg, &mut errors, 7, TEST, "Copy | Clone");
    assert_impl(&reg, &mut errors, 8, TEST, "!Copy | Clone");
    assert_impl(&reg, &mut errors, 9, TEST, "!Copy & Clone");
    assert_impl(&reg, &mut errors, 10, TEST, "!Copy & (Clone)");
    assert_impl(&reg, &mut errors, 11, TEST, "!(Copy) & Clone");
    assert_impl(&reg, &mut errors, 12, TEST, "!(!Clone)");
    assert_impl(&reg, &mut errors, 13, TEST, "!(Copy) & !(!Clone)");
    assert_impl(&reg, &mut errors, 14, TEST, "!(Copy & Clone)");
    assert_impl(&reg, &mut errors, 15, STR, "!Copy & !Clone");

    assert_impl(&reg, &mut errors, 16, BOX_U8, "Clone");
    assert_impl(&reg, &mut errors, 17, BOX_U8, "Clone & Send");
    assert_impl(&reg, &mut errors, 18, BOX_U8, "!(From<u8> | Into<u8>)");

    assert_impl(&reg, &mut errors, 19, MUT_REF_U8, "!Copy");

    if !errors.is_empty() {
        panic!("Failed to satisfy implementations:\n{}", errors);
    }
}

#[test]
fn tests_impls() {
    all_impls();
}

#[test]
fn mod_impls() {
    all_impls();
}

#[test]
fn a_failing_expression_is_reported() {
    let reg = world();
    let mut errors = String::new();
    assert_impl(&reg, &mut errors, 7, STR, "Copy | Clone");
    assert_impl(&reg, &mut errors, 8, STR, "Sized");
    assert_eq!(
        errors,
        "[tests/impls.rs:7] str: Copy | Clone\n[tests/impls.rs:8] str: Sized\n"
    );
}
