use lib::arith::{check_binop, storable};
use lib::compare::{check_compare, unbounded, unbounded_compare, Bound, Declarations, Fields};
use lib::decimal::{check_decimal_literal, normalize_decimal};
use lib::generics::{mentions_param, show, substitute, unify, written_form, Instance, TypeList};
use lib::names::NameMap;
use lib::ops::{BinOp, CmpOp};
use lib::reserved::is_reserved_name;
use lib::symbols::{as_written, mangle, want};
use lib::ty::{Rounding, Type};

fn dec(scale: u32) -> Type {
    Type::Decimal { scale, rounding: None }
}

fn named(n: &str) -> Type {
    Type::Named(n.to_string())
}

fn param(n: &str) -> Type {
    Type::Param(n.to_string())
}

fn declarations() -> Declarations {
    Declarations { classes: NameMap::new(), enums: NameMap::new(), bounds: NameMap::new() }
}

#[test]
fn reserved_names_are_the_builtins() {
    for n in ["len", "push", "result", "main", "bit_and", "c_bytes_to", "byte_as_string", "handle_of", "handle_value"] {
        assert!(is_reserved_name(n), "{}", n);
    }
    for n in ["length", "Push", "total", ""] {
        assert!(!is_reserved_name(n), "{}", n);
    }
}

#[test]
fn types_are_written_as_a_program_writes_them() {
    assert_eq!(Type::Int.text(), "Int");
    assert_eq!(dec(2).text(), "Decimal<2>");
    assert_eq!(Type::Decimal { scale: 4, rounding: Some(Rounding::RoundDown) }.text(), "Decimal<4, RoundDown>");
    assert_eq!(Type::Array { elem: Box::new(Type::Int), len: 3 }.text(), "[Int; 3]");
    assert_eq!(Type::Slice(Box::new(Type::String)).text(), "[String]");
    assert_eq!(Type::Generic { name: "Pair".to_string(), arguments: vec![Type::Int, Type::Bool] }.text(), "Pair<Int, Bool>");
    assert_eq!(Type::Tuple(vec![Type::Int, Type::String]).text(), "(Int, String)");
    assert_eq!(Type::Dyn("Shape".to_string()).text(), "dynamic Shape");
    assert_eq!(Type::Handle(Box::new(named("Job"))).text(), "Handle<Job>");
    assert_eq!(Type::Width { signed: false, bits: 8 }.text(), "u8");
    assert!(Type::Tuple(vec![Type::Int]).same(&Type::Tuple(vec![Type::Int])));
    assert!(!dec(2).same(&dec(3)));
    assert_eq!(Type::Slice(Box::new(named("A"))).duplicate().text(), "[A]");
}

#[test]
fn mangle_joins_arguments_with_dollars() {
    assert_eq!(mangle("Pair", &[Type::Int, Type::String]), "Pair$Int$String");
    assert_eq!(mangle("Box", &[Type::Slice(Box::new(Type::Int))]), "Box$_Int_");
    assert_eq!(mangle("Money", &[dec(2)]), "Money$Decimal_2_");
    assert_eq!(mangle("plain", &[]), "plain");
}

#[test]
fn as_written_undoes_the_mangling_for_a_reader() {
    assert_eq!(as_written("Option$Node"), "Option<Node>");
    assert_eq!(as_written("Pair$Int$String"), "Pair<Int, String>");
    assert_eq!(as_written("Plain"), "Plain");
}

#[test]
fn normalize_widens_exactly() {
    assert_eq!(normalize_decimal(125, 2, 3), Ok(1250));
    assert_eq!(normalize_decimal(-125, 2, 4), Ok(-12500));
    assert_eq!(normalize_decimal(7, 2, 2), Ok(7));
    assert_eq!(normalize_decimal(0, 30, 2), Ok(0));
}

#[test]
fn normalize_narrows_only_without_loss() {
    assert_eq!(normalize_decimal(1250, 3, 2), Ok(125));
    assert_eq!(normalize_decimal(-1250, 3, 2), Ok(-125));
    assert_eq!(
        normalize_decimal(1255, 3, 2),
        Err("this literal needs 3 decimal places but the context has only 2, and dropping digits from money is refused. \
             Either widen the binding to Decimal<3>, or write a literal that fits in 2. (A percent literal like `8.25%` \
             needs 2 more places than the percentage itself: `8.25%` is exactly 0.0825, so it is a Decimal<4>.)"
            .to_string())
    );
    assert!(normalize_decimal(1, 24, 0).unwrap_err().starts_with("this literal needs 24 decimal places but the context has only 0"));
}

#[test]
fn normalize_refuses_overflow() {
    assert_eq!(normalize_decimal(i64::MAX, 0, 1), Err("decimal overflow while widening scale".to_string()));
    assert_eq!(normalize_decimal(5, 0, 19), Err("decimal overflow while widening scale".to_string()));
}

#[test]
fn decimal_literal_takes_the_binding_scale() {
    let (t, v) = check_decimal_literal(5, 1, Some(&Type::Decimal { scale: 2, rounding: Some(Rounding::RoundHalfEven) })).unwrap();
    assert_eq!(t.text(), "Decimal<2, RoundHalfEven>");
    assert_eq!(v, 50);
    let (t, v) = check_decimal_literal(825, 4, None).unwrap();
    assert_eq!(t.text(), "Decimal<4>");
    assert_eq!(v, 825);
    assert_eq!(
        check_decimal_literal(1, 1, Some(&dec(19))).unwrap_err(),
        "this decimal literal has 19 fractional digits, but Decimal supports at most 18 — a scaled i64 holds no more"
    );
}

#[test]
fn binop_int_rules() {
    assert_eq!(check_binop(BinOp::Add, &Type::Int, &Type::Int, None, false).unwrap().text(), "Int");
    assert_eq!(
        check_binop(BinOp::Div, &Type::Int, &Type::Int, None, true).unwrap_err(),
        "`/` on two Ints would have to round, and one operator cannot say which way: -7 divided by 2 is -3 rounding \
         toward zero and -4 rounding down. Say which you mean — `divide_floor(a, b)`, `divide_toward_zero(a, b)`, or \
         `remainder(a, b)` for the remainder."
    );
}

#[test]
fn binop_joining_strings_needs_a_region() {
    assert_eq!(check_binop(BinOp::Add, &Type::String, &Type::String, None, true).unwrap().text(), "String");
    assert_eq!(
        check_binop(BinOp::Add, &Type::String, &Type::String, None, false).unwrap_err(),
        "joining strings with `+` allocates, so it needs a region: there is none open here. Wrap it in \
         `region name { ... }`, or declare the enclosing function `-> ... allocates` to build in the caller's region."
    );
}

#[test]
fn binop_decimal_rules() {
    assert_eq!(check_binop(BinOp::Mul, &dec(2), &Type::Int, None, false).unwrap().text(), "Decimal<2>");
    assert_eq!(check_binop(BinOp::Mul, &Type::Int, &dec(2), None, false).unwrap().text(), "Decimal<2>");
    assert_eq!(check_binop(BinOp::Add, &dec(2), &dec(2), None, false).unwrap().text(), "Decimal<2>");
    assert!(check_binop(BinOp::Add, &dec(2), &dec(3), None, false).is_err());
    // A product of decimals needs a rounding contract, on the operands or from the context.
    assert_eq!(
        check_binop(BinOp::Mul, &dec(2), &dec(2), None, false).unwrap_err(),
        "this multiplication of Decimal<2> by Decimal<2> has an exact product with 4 decimal places, and no rounding contract says how to bring it back to scale. Give both operands the same one, e.g. Decimal<2, RoundHalfEven>, or bind the product to a Decimal with a rounding contract, e.g. `let x: Decimal<2, RoundHalfEven> = ...`."
    );
    let even = Type::Decimal { scale: 2, rounding: Some(Rounding::RoundHalfEven) };
    assert_eq!(check_binop(BinOp::Mul, &even, &even, None, false).unwrap().text(), "Decimal<2, RoundHalfEven>");
    assert!(check_binop(BinOp::Div, &dec(2), &dec(2), None, false).is_err());
    assert!(check_binop(BinOp::Div, &dec(2), &Type::Int, None, false).is_err());
    assert!(check_binop(BinOp::Sub, &Type::Bool, &Type::Int, None, false).is_err());
}

#[test]
fn decimal_contracts_are_never_reconciled() {
    let even = Type::Decimal { scale: 2, rounding: Some(Rounding::RoundHalfEven) };
    assert_eq!(
        check_binop(BinOp::Add, &even, &dec(2), None, false).unwrap_err(),
        "cannot + Decimal<2, RoundHalfEven> and Decimal<2>: rounding contracts must match. Burxt does not silently pick one."
    );
    assert!(check_binop(BinOp::Add, &dec(2), &even, None, false).is_err());
    let d = declarations();
    assert!(check_compare(CmpOp::Eq, &even, &dec(2), &d).is_err());
    assert!(check_compare(CmpOp::Eq, &dec(2), &dec(3), &d).is_err());
    assert!(check_compare(CmpOp::Eq, &Type::Int, &dec(2), &d).is_err());
    assert!(check_compare(CmpOp::Eq, &dec(2), &dec(2), &d).is_ok());
}

#[test]
fn storable_allows_adding_a_contract_only() {
    let plain = dec(2);
    let contracted = Type::Decimal { scale: 2, rounding: Some(Rounding::RoundHalfUp) };
    assert!(storable(&plain, &contracted));
    assert!(!storable(&contracted, &plain));
    assert!(storable(&Type::Int, &Type::Int));
    assert!(!storable(&Type::Int, &dec(2)));
}

#[test]
fn compare_same_types() {
    let d = declarations();
    assert!(check_compare(CmpOp::Lt, &Type::Int, &Type::Int, &d).is_ok());
    assert!(check_compare(CmpOp::Eq, &Type::String, &Type::String, &d).is_ok());
    assert!(check_compare(CmpOp::Ne, &Type::Bool, &Type::Bool, &d).is_ok());
    assert_eq!(
        check_compare(CmpOp::Lt, &Type::Bool, &Type::Bool, &d).unwrap_err(),
        "Bools have no order: `<` does not apply; only `==` and `!=` do"
    );
    assert_eq!(
        check_compare(CmpOp::Eq, &Type::Int, &Type::String, &d).unwrap_err(),
        "type error: cannot compare Int and String — the types must match exactly"
    );
}

#[test]
fn compare_classes_field_by_field() {
    let mut d = declarations();
    let mut point = Fields { fields: vec![] };
    point.fields.push(("x".to_string(), Type::Int));
    d.classes.insert("Point".to_string(), point);
    let mut bag = Fields { fields: vec![] };
    bag.fields.push(("items".to_string(), Type::Slice(Box::new(Type::Int))));
    d.classes.insert("Bag".to_string(), bag);
    assert!(check_compare(CmpOp::Eq, &named("Point"), &named("Point"), &d).is_ok());
    assert!(check_compare(CmpOp::Eq, &named("Bag"), &named("Bag"), &d).is_err());
    assert!(check_compare(CmpOp::Lt, &named("Point"), &named("Point"), &d).is_err());
    assert_eq!(
        check_compare(CmpOp::Eq, &named("Point"), &named("Bag"), &d).unwrap_err(),
        "cannot compare `Point` with `Bag`: one equality, no coercion. Both sides of `==` must be the same type."
    );
}

#[test]
fn compare_type_parameters_by_their_bounds() {
    let mut d = declarations();
    d.bounds.insert("T".to_string(), Bound { bound: None });
    d.bounds.insert("E".to_string(), Bound { bound: Some("Equatable".to_string()) });
    d.bounds.insert("O".to_string(), Bound { bound: Some("Ordered".to_string()) });
    assert!(check_compare(CmpOp::Lt, &param("O"), &param("O"), &d).is_ok());
    assert!(check_compare(CmpOp::Eq, &param("E"), &param("E"), &d).is_ok());
    assert_eq!(
        check_compare(CmpOp::Lt, &param("E"), &param("E"), &d).unwrap_err(),
        "`E: Equatable` says two values of it can be compared for equality, not ordered — `<` needs `E: Ordered`."
    );
    assert_eq!(check_compare(CmpOp::Eq, &param("T"), &param("T"), &d).unwrap_err(), unbounded_compare("T", CmpOp::Eq));
}

#[test]
fn unbounded_messages() {
    assert_eq!(
        unbounded("T", "`+`"),
        "`T` is a type parameter with no bound, so a value of it can be stored, copied, passed and returned — not `+`, \
         which needs to know what the value IS. Say so in the signature with a bound on `T`."
    );
    assert_eq!(
        unbounded_compare("T", CmpOp::Gt),
        "`T` is a type parameter with no bound, so two values of it cannot be compared — `>` needs to know what the \
         values ARE. Write `<T: Ordered>` and the signature says so, which is what makes the body's rules the same for every caller."
    );
    assert!(unbounded_compare("K", CmpOp::Ne).contains("Write `<K: Equatable>`"));
}

#[test]
fn substitute_replaces_bound_parameters_only() {
    let mut map = NameMap::new();
    map.insert("T".to_string(), Type::Int);
    let t = Type::Generic { name: "List".to_string(), arguments: vec![param("T"), param("U")] };
    assert_eq!(substitute(&t, &map).text(), "List<Int, U>");
    assert_eq!(substitute(&Type::Slice(Box::new(param("T"))), &map).text(), "[Int]");
    let empty = NameMap::new();
    assert_eq!(substitute(&t, &empty).text(), "List<T, U>");
    assert!(mentions_param(&t));
    assert!(!mentions_param(&substitute(&Type::Slice(Box::new(param("T"))), &map)));
}

#[test]
fn show_and_written_form_undo_instantiations() {
    let mut inst = NameMap::new();
    inst.insert("Option$Int".to_string(), Instance { of: "Option".to_string(), arguments: vec![Type::Int] });
    let t = Type::Slice(Box::new(named("Option$Int")));
    assert_eq!(show(&t, &inst), "[Option<Int>]");
    assert_eq!(written_form(&t, &inst).text(), "[Option<Int>]");
    assert_eq!(show(&named("Plain"), &inst), "Plain");
}

#[test]
fn unify_binds_parameters_and_solves_the_declared_type() {
    let inst = NameMap::new();
    let tuples: NameMap<TypeList> = NameMap::new();
    let mut map = NameMap::new();
    let declared = Type::Slice(Box::new(param("T")));
    let actual = Type::Slice(Box::new(Type::String));
    assert!(unify(&declared, &actual, &mut map, &inst, &tuples).is_ok());
    assert_eq!(map.get(&"T".to_string()).unwrap().text(), "String");
    assert_eq!(substitute(&declared, &map).text(), actual.text());
}

#[test]
fn unify_refuses_a_parameter_asked_to_be_two_types() {
    let inst = NameMap::new();
    let tuples: NameMap<TypeList> = NameMap::new();
    let mut map = NameMap::new();
    assert!(unify(&param("T"), &Type::Int, &mut map, &inst, &tuples).is_ok());
    assert_eq!(
        unify(&param("T"), &Type::String, &mut map, &inst, &tuples).unwrap_err(),
        "`T` would have to be both Int and String in this call — a type parameter stands for one type per call"
    );
    assert_eq!(map.get(&"T".to_string()).unwrap().text(), "Int");
}

#[test]
fn unify_reports_a_mismatch_as_written() {
    let mut inst = NameMap::new();
    inst.insert("Box$Int".to_string(), Instance { of: "Box".to_string(), arguments: vec![Type::Int] });
    let tuples: NameMap<TypeList> = NameMap::new();
    let mut map = NameMap::new();
    let declared = Type::Generic { name: "List".to_string(), arguments: vec![param("T")] };
    assert_eq!(
        unify(&declared, &named("Box$Int"), &mut map, &inst, &tuples).unwrap_err(),
        "expected List<T>, but this is Box<Int>"
    );
    let declared = Type::Generic { name: "Box".to_string(), arguments: vec![param("T")] };
    assert!(unify(&declared, &named("Box$Int"), &mut map, &inst, &tuples).is_ok());
    assert_eq!(map.get(&"T".to_string()).unwrap().text(), "Int");
}

#[test]
fn names_later_binding_wins_and_removal_unbinds() {
    let mut m: NameMap<Type> = NameMap::new();
    m.insert("a".to_string(), Type::Int);
    m.insert("a".to_string(), Type::Bool);
    assert_eq!(m.get(&"a".to_string()).unwrap().text(), "Bool");
    m.remove(&"a".to_string());
    assert!(m.get(&"a".to_string()).is_none());
    assert!(m.get(&"b".to_string()).is_none());
}

#[test]
fn each_instantiation_is_wanted_once() {
    let mut seen = vec![];
    let mut wanted = vec![];
    let first = want(&mut seen, &mut wanted, &"identity".to_string(), &vec![Type::Int]);
    assert_eq!(first, "identity$Int");
    let again = want(&mut seen, &mut wanted, &"identity".to_string(), &vec![Type::Int]);
    assert_eq!(again, "identity$Int");
    let other = want(&mut seen, &mut wanted, &"identity".to_string(), &vec![Type::String]);
    assert_eq!(other, "identity$String");
    assert_eq!(seen, vec!["identity$Int".to_string(), "identity$String".to_string()]);
    assert_eq!(wanted.len(), 2);
    assert_eq!(wanted[0].0, "identity");
    assert!(wanted[1].1[0].same(&Type::String));
}
