use lib::ast::{ExternFn, Marshal, Param};
use lib::boundary::check_extern;
use lib::names::NameMap;
use lib::ty::Type;

fn param(name: &str, ty: Type, marshal: Option<Marshal>) -> Param {
    Param { name: name.to_string(), ty, marshal }
}

fn ext(name: &str, parameters: Vec<Param>, ret: Type) -> ExternFn {
    ExternFn { name: name.to_string(), parameters, ret }
}

fn no_fns() -> NameMap<(Vec<Type>, Type)> {
    NameMap::new()
}

#[test]
fn extern_plain_signatures_cross() {
    let e = ext("system", vec![param("cmd", Type::String, None), param("n", Type::CInt, None)], Type::Int);
    assert!(check_extern(&no_fns(), &vec![], &e).is_ok());
    let e = ext("byte", vec![param("b", Type::Width { signed: false, bits: 8 }, None)], Type::Int);
    assert!(check_extern(&no_fns(), &vec![], &e).is_ok());
}

#[test]
fn extern_builtin_and_runtime_names_are_refused() {
    let e = ext("len", vec![], Type::Int);
    assert_eq!(check_extern(&no_fns(), &vec![], &e).unwrap_err(), "the name `len` is reserved for a built-in");
    let e = ext("printf", vec![], Type::Int);
    assert_eq!(
        check_extern(&no_fns(), &vec![], &e).unwrap_err(),
        "external function `printf`: this symbol is used by the Burxt runtime itself. Call it through a differently-named C wrapper."
    );
}

#[test]
fn extern_a_decimal_needs_a_marshaller() {
    let d = Type::Decimal { scale: 2, rounding: None };
    let e = ext("pay", vec![param("amount", d, None)], Type::Int);
    assert_eq!(
        check_extern(&no_fns(), &vec![], &e).unwrap_err(),
        "in external function `pay`, parameter `amount` is Decimal<2> and C has no decimal type, so the crossing has to say how the value is encoded. Declare `amount: Decimal<2> as scaled` to pass the exact unscaled integer (C receives it scaled by 10^2), or take a String and pass `to_string(amount)` as text."
    );
    let d = Type::Decimal { scale: 2, rounding: None };
    let e = ext("pay", vec![param("amount", d, Some(Marshal::Scaled))], Type::Int);
    assert!(check_extern(&no_fns(), &vec![], &e).is_ok());
}

#[test]
fn extern_a_marshaller_on_anything_else_is_refused() {
    let e = ext("f", vec![param("n", Type::Int, Some(Marshal::Scaled))], Type::Int);
    assert_eq!(
        check_extern(&no_fns(), &vec![], &e).unwrap_err(),
        "in external function `f`, parameter `n` is Int, which C holds directly — `as scaled` only means something for a Decimal, whose scale C has no way to carry."
    );
}

#[test]
fn extern_other_parameter_types_are_refused() {
    let e = ext("f", vec![param("b", Type::Bool, None)], Type::Int);
    assert_eq!(
        check_extern(&no_fns(), &vec![], &e).unwrap_err(),
        "in external function `f`, parameter `b` has type Bool, but only Int, CInt, a sized width (i32, u8, u32, u64), CDouble, String and a marshalled Decimal may cross the C boundary for now — C has no Bool, and the raw value would silently lose its meaning."
    );
}

#[test]
fn extern_returns() {
    let e = ext("sqrt", vec![], Type::CDouble);
    assert_eq!(
        check_extern(&no_fns(), &vec![], &e).unwrap_err(),
        "external function `sqrt` returns CDouble, but Burxt has no float type to receive it exactly — a double cannot hold most decimal amounts. Have the C function return the scaled integer (declare `-> Int`), or return it as text."
    );
    let e = ext("name", vec![], Type::String);
    assert_eq!(
        check_extern(&no_fns(), &vec![], &e).unwrap_err(),
        "external function `name` returns String, but only Int may cross the C boundary as a return: Burxt cannot yet track who owns what a C function hands back. Have the C function return an integer, declared `-> Int`."
    );
    // Returns stay Int-only: a C int, a pointer or a sized width is refused too.
    for ret in [Type::CInt, Type::CPointer, Type::Width { signed: true, bits: 32 }] {
        let e = ext("fresh", vec![], ret);
        assert!(check_extern(&no_fns(), &vec![], &e).is_err());
    }
}

#[test]
fn extern_declared_twice() {
    let mut fns = no_fns();
    fns.insert("system".to_string(), (vec![Type::String], Type::Int));
    let names = vec!["system".to_string()];
    // The same signature as a caller sees it: CInt is Int to Burxt code.
    let e = ext("system", vec![param("cmd", Type::String, None)], Type::CInt);
    assert!(check_extern(&fns, &names, &e).is_ok());
    let e = ext("system", vec![param("cmd", Type::Int, None)], Type::CInt);
    assert_eq!(
        check_extern(&fns, &names, &e).unwrap_err(),
        "external function `system` is declared twice with different signatures — one symbol cannot be two functions, and a program holding both beliefs would call whichever the linker picked"
    );
    // A Burxt function of the same name is a second definition.
    let e = ext("system", vec![param("cmd", Type::String, None)], Type::CInt);
    assert_eq!(check_extern(&fns, &vec![], &e).unwrap_err(), "function `system` is defined twice");
}
