use lib::compare::Fields;
use lib::generics::Instance;
use lib::messages::{
    assigning_into_outer_region, const_kind_name, const_overflow, declared_outside_open_region, field_list,
    growing_an_outer_binding, impure, is_tuple_symbol, needs_region, shadows_a_const, tuple_symbol, type_list,
    type_of_const_value, unknown_name,
};
use lib::names::NameMap;
use lib::storage::Layouts;
use lib::ty::{Rounding, Type};
use lib::typed::TypedExprKind;

#[test]
fn sentence_needs_region() {
    assert_eq!(
        needs_region("joining strings with `+` allocates"),
        "joining strings with `+` allocates, so it needs a region: there is none open here. Wrap it in `region name { ... }`, \
         or declare the enclosing function `-> ... allocates` to build in the caller's region."
    );
}

#[test]
fn sentence_growing_an_outer_binding() {
    assert_eq!(
        growing_an_outer_binding("xs", "r", "fill"),
        "`xs` was declared outside `region r`, so it cannot grow inside it — `fill` grows it, and the bytes are released at \
         the closing brace, leaving `xs` reading whatever the region hands out next. Declare `xs` inside the region, or grow it outside it."
    );
}

#[test]
fn sentence_assigning_into_outer_region() {
    assert_eq!(
        assigning_into_outer_region("g", "r", "field"),
        "`g` was declared outside `region r`, so its field cannot be assigned a value built inside it — the bytes are \
         released at the closing brace and `g` would read whatever the region hands out next. Declare `g` inside the region, \
         or build the value outside it."
    );
}

#[test]
fn sentence_impure() {
    assert!(impure(&None, false, "print").is_none());
    assert_eq!(
        impure(&Some("total$Int".to_string()), false, "print").unwrap(),
        "`pure function total` may not print: a pure function's result must depend only on its arguments, which is the \
         whole of what `pure` promises. Pass the value in as a parameter instead."
    );
    assert_eq!(
        impure(&Some("total".to_string()), true, "read a file").unwrap(),
        "a contract clause on `total` may not read a file: a clause that can change the program is not a check, it is a \
         second program that runs only when someone is looking."
    );
}

#[test]
fn sentence_declared_outside_open_region() {
    let scope = vec!["inner".to_string()];
    assert_eq!(declared_outside_open_region(&Some("r".to_string()), &scope, &"outer".to_string()), Some("r".to_string()));
    assert_eq!(declared_outside_open_region(&Some("r".to_string()), &scope, &"inner".to_string()), None);
    assert_eq!(declared_outside_open_region(&None, &scope, &"outer".to_string()), None);
}

#[test]
fn sentence_unknown_name() {
    let enums = vec![("Token".to_string(), vec!["Plus".to_string(), "Minus".to_string()])];
    assert_eq!(
        unknown_name(&enums, &"Plus".to_string()),
        "unknown variable: Plus — did you mean `Token.Plus`? Enum variants are always written with their enum."
    );
    assert_eq!(unknown_name(&enums, &"total".to_string()), "unknown variable: total");
}

#[test]
fn sentence_field_list() {
    let mut l = Layouts {
        records: NameMap::new(),
        made_records: NameMap::new(),
        enums: NameMap::new(),
        generic_records: NameMap::new(),
        generic_enums: NameMap::new(),
    };
    let mut f = Fields { fields: vec![] };
    f.fields.push(("n".to_string(), Type::Int));
    f.fields.push(("held".to_string(), Type::Named("Holder$Int".to_string())));
    l.records.insert("Box".to_string(), f);
    let mut inst = NameMap::new();
    inst.insert("Holder$Int".to_string(), Instance { of: "Holder".to_string(), arguments: vec![Type::Int] });
    assert_eq!(field_list(&l, &inst, &"Box".to_string()), "n: Int, held: Holder<Int>");
    assert_eq!(field_list(&l, &inst, &"Nothing".to_string()), "");
}

#[test]
fn sentence_tuple_symbols() {
    let mut inst = NameMap::new();
    inst.insert("Wrapper$Int".to_string(), Instance { of: "Wrapper".to_string(), arguments: vec![Type::Int] });
    assert_eq!(tuple_symbol(&inst, &vec![Type::Int, Type::Named("Wrapper$Int".to_string())]), "(Int, Wrapper<Int>)");
    assert!(is_tuple_symbol("(Int, String)"));
    assert!(!is_tuple_symbol("Point"));
    assert!(!is_tuple_symbol(""));
}

#[test]
fn sentence_type_list() {
    assert_eq!(
        type_list(&vec![Type::Int, Type::Decimal { scale: 2, rounding: Some(Rounding::RoundHalfEven) }, Type::Slice(Box::new(Type::String))]),
        "Int, Decimal<2, RoundHalfEven>, [String]"
    );
    assert_eq!(type_list(&vec![]), "");
}

#[test]
fn sentence_const_helpers() {
    assert_eq!(
        const_overflow("adding"),
        "this `const` overflows an Int while adding — a constant is folded at compile time, and folding cannot wrap: by the \
         time the program runs there is no arithmetic left to trap on. An Int holds -9223372036854775808 to 9223372036854775807."
    );
    assert_eq!(const_kind_name(&TypedExprKind::IntLit(1)), "an Int");
    assert_eq!(const_kind_name(&TypedExprKind::DecimalLit { unscaled: 5 }), "a Decimal");
    assert_eq!(const_kind_name(&TypedExprKind::BoolLit(true)), "a Bool");
    assert_eq!(const_kind_name(&TypedExprKind::StrLit("x".to_string())), "a String");
    assert_eq!(const_kind_name(&TypedExprKind::ArgCount), "not a literal");
    let declared = Type::Decimal { scale: 2, rounding: None };
    assert_eq!(type_of_const_value(&TypedExprKind::IntLit(1), &declared).text(), "Int");
    assert_eq!(type_of_const_value(&TypedExprKind::DecimalLit { unscaled: 5 }, &declared).text(), "Decimal<2>");
    assert_eq!(type_of_const_value(&TypedExprKind::StrLit("x".to_string()), &declared).text(), "String");
}

#[test]
fn sentence_shadows_a_const() {
    let mut consts = NameMap::new();
    consts.insert("LIMIT".to_string(), Type::Int);
    assert_eq!(
        shadows_a_const(&consts, &"LIMIT".to_string()).unwrap(),
        "`LIMIT` is already declared as a `const LIMIT: Int` — Burxt does not shadow, and a const is in scope in every \
         function. Use a different name here."
    );
    assert!(shadows_a_const(&consts, &"other".to_string()).is_none());
}
