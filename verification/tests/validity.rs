use lib::compare::{Bound, Fields};
use lib::generics::Instance;
use lib::names::NameMap;
use lib::storage::{Layouts, Variants};
use lib::ty::Type;
use lib::ast::{Expr, ExprKind, Stmt, StmtKind};
use lib::validity::{package_here, recover_from, refuse_if_package_private, satisfies, validate_type, BoundFacts, Owner, Packages, TypeNames};

fn names() -> TypeNames {
    let mut l = Layouts {
        records: NameMap::new(),
        made_records: NameMap::new(),
        enums: NameMap::new(),
        generic_records: NameMap::new(),
        generic_enums: NameMap::new(),
    };
    l.records.insert("Point".to_string(), Fields { fields: vec![("x".to_string(), Type::Int)] });
    l.enums.insert("Color".to_string(), Variants { variants: vec![("Red".to_string(), vec![])] });
    TypeNames { layouts: l, interfaces: vec!["Shape".to_string()] }
}

fn packages() -> Packages {
    let mut p = Packages { private: NameMap::new(), ranges: vec![(100, 199, "geometry".to_string())] };
    p.private.insert("Hidden".to_string(), Owner { package: "geometry".to_string() });
    p
}

#[test]
fn package_of_a_position() {
    let p = packages();
    assert_eq!(package_here(&p, 150), Some("geometry".to_string()));
    assert_eq!(package_here(&p, 5), None);
}

#[test]
fn private_names_stay_in_their_package() {
    let p = packages();
    assert_eq!(refuse_if_package_private(&p, 150, &"Hidden".to_string()), None);
    assert_eq!(
        refuse_if_package_private(&p, 5, &"Hidden".to_string()).unwrap(),
        "`Hidden` is declared in the package `geometry` but not `public`, so this package cannot reach it. A package \
         exposes what it means to support — if `Hidden` is meant to be part of that, the fix belongs in `geometry`, by \
         writing `public` in front of its declaration."
    );
    assert_eq!(refuse_if_package_private(&p, 5, &"Point".to_string()), None);
}

#[test]
fn validate_declared_names() {
    let n = names();
    let p = packages();
    let mut used = vec![];
    assert!(validate_type(&n, &p, 0, &mut used, &Type::Named("Point".to_string())).is_ok());
    assert!(validate_type(&n, &p, 0, &mut used, &Type::Named("Color".to_string())).is_ok());
    assert_eq!(
        validate_type(&n, &p, 0, &mut used, &Type::Named("Nope".to_string())).unwrap_err(),
        "unknown type `Nope` — declare it with `class Nope { ... }` or `enum Nope { ... }`"
    );
    assert!(used.is_empty());
    assert!(validate_type(&n, &p, 0, &mut used, &Type::Dyn("Shape".to_string())).is_ok());
    assert_eq!(used, vec!["Shape".to_string()]);
    assert_eq!(
        validate_type(&n, &p, 0, &mut used, &Type::Dyn("Sink".to_string())).unwrap_err(),
        "unknown interface `Sink` — declare it with `interface Sink { ... }`"
    );
}

#[test]
fn validate_boundary_types_and_nested_arrays() {
    let n = names();
    let p = packages();
    let mut used = vec![];
    assert_eq!(
        validate_type(&n, &p, 0, &mut used, &Type::CInt).unwrap_err(),
        "CInt only exists at the C boundary (external function signatures) — use Int in Burxt code; values convert at the call."
    );
    assert_eq!(
        validate_type(&n, &p, 0, &mut used, &Type::Width { signed: true, bits: 32 }).unwrap_err(),
        "`i32` only exists at the C boundary (external function signatures) — use Int in Burxt code; values convert at the call."
    );
    let nested = Type::Slice(Box::new(Type::Slice(Box::new(Type::Int))));
    assert_eq!(
        validate_type(&n, &p, 0, &mut used, &nested).unwrap_err(),
        "a growable array cannot hold another array yet — its element would need its own region reasoning. Use a class element."
    );
    let of_dyn = Type::Array { elem: Box::new(Type::Dyn("Shape".to_string())), len: 2 };
    assert_eq!(
        validate_type(&n, &p, 0, &mut used, &of_dyn).unwrap_err(),
        "an array cannot hold `dynamic Shape` — an interface object borrows the value it refers to, and storing borrows needs tracking Burxt does not have yet."
    );
    assert!(validate_type(&n, &p, 0, &mut used, &Type::Slice(Box::new(Type::Named("Point".to_string())))).is_ok());
    assert!(validate_type(&n, &p, 0, &mut used, &Type::Array { elem: Box::new(Type::Named("Nope".to_string())), len: 1 }).is_err());
}

#[test]
fn validate_refuses_a_private_name_outside_its_package() {
    let mut n = names();
    n.layouts.records.insert("Hidden".to_string(), Fields { fields: vec![] });
    let p = packages();
    let mut used = vec![];
    assert!(validate_type(&n, &p, 150, &mut used, &Type::Named("Hidden".to_string())).is_ok());
    assert!(validate_type(&n, &p, 10, &mut used, &Type::Named("Hidden".to_string())).unwrap_err().starts_with("`Hidden` is declared in the package"));
}

fn bounds() -> BoundFacts {
    let mut f = BoundFacts { param_bounds: NameMap::new(), interfaces: vec!["Shape".to_string()], impls: vec![("Shape".to_string(), "Circle".to_string())], instances: NameMap::new() };
    f.param_bounds.insert("K".to_string(), Bound { bound: Some("Equatable".to_string()) });
    f.param_bounds.insert("T".to_string(), Bound { bound: None });
    f.instances.insert("Box$Int".to_string(), Instance { of: "Box".to_string(), arguments: vec![Type::Int] });
    f
}

#[test]
fn satisfies_the_built_in_bounds() {
    let f = bounds();
    let s = |t: Type, b: &str| satisfies(&f, &t, &b.to_string(), &"sort".to_string(), &"E".to_string());
    assert!(s(Type::Int, "Ordered").is_ok());
    assert!(s(Type::String, "Ordered").is_ok());
    assert!(s(Type::Bool, "Equatable").is_ok());
    assert_eq!(
        s(Type::Bool, "Ordered").unwrap_err(),
        "`sort` needs `E: Ordered`, and Bool has no order. Ordered is Int, Decimal and String — the types `<` works on."
    );
    assert_eq!(
        s(Type::Named("Box$Int".to_string()), "Equatable").unwrap_err(),
        "`sort` needs `E: Equatable`, and two Box<Int> values cannot be compared. Equatable is Int, Bool, String and Decimal — the types `==` works on."
    );
}

#[test]
fn satisfies_a_parameter_by_its_own_bound() {
    let f = bounds();
    assert!(satisfies(&f, &Type::Param("K".to_string()), &"Equatable".to_string(), &"find".to_string(), &"E".to_string()).is_ok());
    assert_eq!(
        satisfies(&f, &Type::Param("T".to_string()), &"Equatable".to_string(), &"find".to_string(), &"E".to_string()).unwrap_err(),
        "`find` needs `E: Equatable`, and the type parameter `T` carries no such bound. Write `T: Equatable` where it is declared, so the promise travels with it."
    );
}

#[test]
fn satisfies_an_interface_by_declaration() {
    let f = bounds();
    let s = |t: Type, b: &str| satisfies(&f, &t, &b.to_string(), &"draw".to_string(), &"S".to_string());
    assert!(s(Type::Named("Circle".to_string()), "Shape").is_ok());
    assert_eq!(
        s(Type::Named("Square".to_string()), "Shape").unwrap_err(),
        "`draw` needs `S: Shape`, and `Square` does not implement it. Write `implement Shape for Square { ... }` — conformance is declared, never inferred from having the right method names."
    );
    assert_eq!(
        s(Type::Int, "Shape").unwrap_err(),
        "`draw` needs `S: Shape`, and Int is not a type that can implement an interface — only a class or an enum can."
    );
    assert_eq!(
        s(Type::Int, "Drawable").unwrap_err(),
        "`draw` bounds `S` by `Drawable`, which is not an interface this program declares. A bound is `Ordered`, `Equatable`, or a declared interface."
    );
}

fn let_stmt(name: &str, mutable: bool, declared: Option<Type>) -> Stmt {
    Stmt { span: lib::typed::Span { start: 0, end: 0 }, kind: StmtKind::Let { name: name.to_string(), mutable, declared, value: Expr { span: lib::typed::Span { start: 0, end: 0 }, kind: ExprKind::IntLit(0) } } }
}

#[test]
fn recovery_binds_a_declared_valid_type() {
    let n = names();
    let p = packages();
    let mut dyns = vec![];
    let mut env: NameMap<(Type, bool)> = NameMap::new();
    recover_from(&n, &p, 5, &mut dyns, &mut env, &let_stmt("x", true, Some(Type::Int)));
    let (t, m) = env.get(&"x".to_string()).unwrap();
    assert!(t.same(&Type::Int));
    assert!(*m);
    // A name already bound keeps its binding.
    recover_from(&n, &p, 5, &mut dyns, &mut env, &let_stmt("x", false, Some(Type::String)));
    assert!(env.get(&"x".to_string()).unwrap().0.same(&Type::Int));
    // No declared type, or an invalid one, binds nothing.
    recover_from(&n, &p, 5, &mut dyns, &mut env, &let_stmt("y", false, None));
    recover_from(&n, &p, 5, &mut dyns, &mut env, &let_stmt("z", false, Some(Type::Named("Nowhere".to_string()))));
    assert!(env.get(&"y".to_string()).is_none());
    assert!(env.get(&"z".to_string()).is_none());
}
