use lib::compare::Fields;
use lib::construction::{check_struct_lit, check_tuple_lit, tuple_expected_types};
use lib::expansion::Expansion;
use lib::generics::{Instance, Instances};
use lib::names::NameMap;
use lib::storage::Layouts;
use lib::ty::Type;
use lib::typed::{TypedExpr, TypedExprKind};

fn layouts() -> Layouts {
    let mut l = Layouts {
        records: NameMap::new(),
        made_records: NameMap::new(),
        enums: NameMap::new(),
        generic_records: NameMap::new(),
        generic_enums: NameMap::new(),
    };
    l.records.insert(
        "Account".to_string(),
        Fields { fields: vec![("owner".to_string(), Type::String), ("balance".to_string(), Type::Int)] },
    );
    l.made_records.insert(
        "Pair$Int".to_string(),
        Fields { fields: vec![("first".to_string(), Type::Int), ("second".to_string(), Type::Int)] },
    );
    l.made_records.insert(
        "(Int, String)".to_string(),
        Fields { fields: vec![("0".to_string(), Type::Int), ("1".to_string(), Type::String)] },
    );
    l
}

fn instances() -> Instances {
    let mut i = NameMap::new();
    i.insert("Pair$Int".to_string(), Instance { of: "Pair".to_string(), arguments: vec![Type::Int] });
    i
}

fn private() -> NameMap<Vec<String>> {
    let mut p = NameMap::new();
    p.insert("Account".to_string(), vec!["balance".to_string()]);
    p
}

fn named(n: &str) -> Type {
    Type::Named(n.to_string())
}

fn int_lit(n: i64) -> TypedExpr {
    TypedExpr { ty: Type::Int, kind: TypedExprKind::IntLit(n) }
}

fn text(t: &str) -> TypedExpr {
    TypedExpr { ty: Type::String, kind: TypedExprKind::StrLit(t.to_string()) }
}

fn names(ns: &[&str]) -> Vec<String> {
    ns.iter().map(|n| n.to_string()).collect()
}

fn build(receiver: Option<&str>, written: &str, ty: Type, given: &[&str], values: Vec<Result<TypedExpr, String>>) -> Result<TypedExpr, String> {
    check_struct_lit(
        &layouts(),
        &instances(),
        &private(),
        &receiver.map(|r| r.to_string()),
        &written.to_string(),
        ty,
        &names(given),
        values,
    )
}

#[test]
fn struct_literal_in_declaration_order() {
    let r = build(Some("Account"), "Account", named("Account"), &["balance", "owner"], vec![Ok(text("ann")), Ok(int_lit(5))]).unwrap();
    assert!(r.ty.same(&named("Account")));
    match r.kind {
        TypedExprKind::StructLit { name, fields } => {
            assert_eq!(name, "Account");
            assert!(matches!(fields[0].kind, TypedExprKind::StrLit(ref s) if s == "ann"));
            assert!(matches!(fields[1].kind, TypedExprKind::IntLit(5)));
        }
        _ => panic!("not a class value"),
    }
}

#[test]
fn struct_literal_of_an_instantiation() {
    let r = build(None, "Pair", named("Pair$Int"), &["first", "second"], vec![Ok(int_lit(1)), Ok(int_lit(2))]).unwrap();
    assert!(matches!(r.kind, TypedExprKind::StructLit { ref name, .. } if name == "Pair$Int"));
}

#[test]
fn struct_literal_private_field_outside_its_class() {
    assert_eq!(
        build(None, "Account", named("Account"), &["owner", "balance"], vec![Ok(text("a")), Ok(int_lit(1))]).unwrap_err(),
        "`Account.balance` is private, so `Account` cannot be built here: a literal may set a private field only inside `Account`. Give the class a constructor — `function open(...) -> Account` in its body, called as `Account.open(...)` — which is the point of making the field private."
    );
}

#[test]
fn struct_literal_refusals() {
    let ok = || vec![Ok(text("a")), Ok(int_lit(1))];
    assert_eq!(build(None, "Nope", named("Nope"), &[], vec![]).unwrap_err(), "unknown type `Nope` — declare it with `class Nope { ... }`");
    assert_eq!(build(None, "Weird", Type::Int, &[], vec![]).unwrap_err(), "codegen bug: `Weird` instantiated to Int");
    assert_eq!(
        build(None, "Pair", named("Pair$Int"), &["first", "third"], vec![Ok(int_lit(1)), Ok(int_lit(2))]).unwrap_err(),
        "`Pair<Int>` has no field named `third`. Its fields are: first: Int, second: Int."
    );
    assert_eq!(
        build(None, "Pair", named("Pair$Int"), &["first", "first"], vec![Ok(int_lit(1)), Ok(int_lit(2))]).unwrap_err(),
        "in `Pair<Int> { ... }`, the field `first` is given twice"
    );
    assert_eq!(
        build(Some("Account"), "Account", named("Account"), &["owner"], ok()).unwrap_err(),
        "`Account { ... }` is missing the field `balance: Int`. Every field must be given a value — Burxt does not invent defaults."
    );
    assert_eq!(
        build(Some("Account"), "Account", named("Account"), &["owner", "balance"], vec![Ok(text("a")), Ok(text("b"))]).unwrap_err(),
        "in `Account { ... }`, the field `balance` must be Int, but its value has type String"
    );
    assert_eq!(
        build(Some("Account"), "Account", named("Account"), &["owner", "balance"], vec![Err("owner failed".to_string()), Ok(int_lit(1))]).unwrap_err(),
        "owner failed"
    );
}

#[test]
fn tuple_expectations_pushed_down() {
    let l = layouts();
    let want = Type::Tuple(vec![Type::Int, Type::String]);
    let r = tuple_expected_types(&l, Some(&want), 2);
    assert_eq!(r.len(), 2);
    assert!(r[1].same(&Type::String));
    assert!(tuple_expected_types(&l, Some(&want), 3).is_empty());
    let behind = tuple_expected_types(&l, Some(&named("(Int, String)")), 2);
    assert_eq!(behind.len(), 2);
    assert!(behind[0].same(&Type::Int));
    assert!(tuple_expected_types(&l, Some(&named("Account")), 2).is_empty());
    assert!(tuple_expected_types(&l, None, 2).is_empty());
}

fn expansion() -> Expansion {
    Expansion {
        layouts: layouts(),
        instances: instances(),
        declared_type_names: vec!["Account".to_string()],
        interface_names: vec![],
        generic_interfaces: NameMap::new(),
        interfaces_made: NameMap::new(),
        record_order: vec![],
        enum_order: vec![],
        wanted_records: vec![],
        tuples: NameMap::new(),
    }
}

#[test]
fn tuple_literal_is_its_class() {
    let mut x = expansion();
    let r = check_tuple_lit(&mut x, vec![Ok(int_lit(1)), Ok(text("one"))]).unwrap();
    assert!(r.ty.same(&named("(Int, String)")));
    assert!(matches!(r.kind, TypedExprKind::StructLit { ref name, ref fields } if name == "(Int, String)" && fields.len() == 2));
}

#[test]
fn tuple_literal_stops_at_the_first_failure() {
    let mut x = expansion();
    assert_eq!(check_tuple_lit(&mut x, vec![Ok(int_lit(1)), Err("second".to_string()), Err("third".to_string())]).unwrap_err(), "second");
    assert_eq!(x.record_order.len(), 0);
}
