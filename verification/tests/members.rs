use lib::compare::Fields;
use lib::generics::{Instance, Instances};
use lib::members::{build_variant, resolve_field};
use lib::names::NameMap;
use lib::storage::Layouts;
use lib::ty::Type;
use lib::typed::{TypedExpr, TypedExprKind};

fn layouts() -> Layouts {
    let mut l = Layouts {
        records: NameMap::new(),
        made_records: NameMap::new(),
        enums: NameMap::new(),
        generic_records: NameMap::new(),
        generic_enums: NameMap::new(),
    };
    l.records.insert(
        "Account".to_string(),
        Fields { fields: vec![("owner".to_string(), Type::String), ("balance".to_string(), Type::Int)] },
    );
    l.made_records.insert(
        "(Int, String)".to_string(),
        Fields { fields: vec![("0".to_string(), Type::Int), ("1".to_string(), Type::String)] },
    );
    l.made_records.insert(
        "Pair$Int".to_string(),
        Fields { fields: vec![("first".to_string(), Type::Int), ("second".to_string(), Type::Int)] },
    );
    l
}

fn instances() -> Instances {
    let mut i = NameMap::new();
    i.insert("Pair$Int".to_string(), Instance { of: "Pair".to_string(), arguments: vec![Type::Int] });
    i
}

fn private() -> NameMap<Vec<String>> {
    let mut p = NameMap::new();
    p.insert("Account".to_string(), vec!["balance".to_string()]);
    p
}

fn named(n: &str) -> Type {
    Type::Named(n.to_string())
}

fn field(ty: &Type, f: &str, receiver: Option<&str>) -> Result<(u32, Type), String> {
    resolve_field(&layouts(), &instances(), &private(), &receiver.map(|r| r.to_string()), ty, &f.to_string())
}

#[test]
fn field_of_a_class_by_name() {
    let (i, t) = field(&named("Account"), "owner", None).unwrap();
    assert_eq!(i, 0);
    assert!(t.same(&Type::String));
}

#[test]
fn field_private_is_reachable_only_from_its_class() {
    assert_eq!(
        field(&named("Account"), "balance", None).unwrap_err(),
        "`Account.balance` is private: it is reachable only from `Account`'s own methods. Read it through a method that `Account` provides, or drop `private` from the field if it is part of the type's API."
    );
    let (i, t) = field(&named("Account"), "balance", Some("Account")).unwrap();
    assert_eq!(i, 1);
    assert!(t.same(&Type::Int));
}

#[test]
fn field_missing_names_the_fields_there_are() {
    assert_eq!(
        field(&named("Account"), "name", Some("Account")).unwrap_err(),
        "`Account` has no field named `name`. Its fields are: owner: String, balance: Int."
    );
    assert_eq!(
        field(&named("Pair$Int"), "third", None).unwrap_err(),
        "`Pair<Int>` has no field named `third`. Its fields are: first: Int, second: Int."
    );
}

#[test]
fn field_of_a_tuple_class_by_position() {
    let (i, t) = field(&named("(Int, String)"), "1", None).unwrap();
    assert_eq!(i, 1);
    assert!(t.same(&Type::String));
    assert_eq!(
        field(&named("(Int, String)"), "first", None).unwrap_err(),
        "`(Int, String)` is a tuple of 2 values, so it has no `.first`. Its positions are `.0`, `.1`, counting from zero."
    );
}

#[test]
fn field_of_a_generic_tuple_by_position() {
    let t = Type::Tuple(vec![Type::Param("T".to_string()), Type::Int, Type::Bool]);
    let (i, u) = field(&t, "2", None).unwrap();
    assert_eq!(i, 2);
    assert!(u.same(&Type::Bool));
    // Read as an unsigned integer is read from text: a leading `+` is allowed.
    assert_eq!(field(&t, "+0", None).unwrap().0, 0);
    assert_eq!(
        field(&t, "3", None).unwrap_err(),
        "`(T, Int, Bool)` is a tuple of 3 values, so it has no `.3`. Its positions are `.0`, `.1`, `.2`, counting from zero."
    );
    assert!(field(&t, "-1", None).is_err());
    assert!(field(&t, "", None).is_err());
    assert!(field(&t, "99999999999999999999999", None).is_err());
}

#[test]
fn field_of_something_else() {
    assert_eq!(field(&named("Ghost"), "x", None).unwrap_err(), "unknown type `Ghost`");
    assert_eq!(
        field(&Type::Int, "x", None).unwrap_err(),
        "`.x` needs a class value, but the value has type Int."
    );
}

fn variants() -> Vec<(String, Vec<Type>)> {
    vec![
        ("Circle".to_string(), vec![Type::Int]),
        ("Rect".to_string(), vec![Type::Int, Type::Int]),
        ("Empty".to_string(), vec![]),
    ]
}

fn value(ty: Type) -> TypedExpr {
    TypedExpr { ty, kind: TypedExprKind::IntLit(1) }
}

fn refusal(r: Result<TypedExpr, String>) -> String {
    match r {
        Err(e) => e,
        Ok(_) => panic!("expected a refusal"),
    }
}

#[test]
fn variant_built_with_its_tag() {
    let r = build_variant(&"Shape".to_string(), &variants(), &"Rect".to_string(), vec![value(Type::Int), value(Type::Int)]);
    match r {
        Ok(t) => {
            assert!(t.ty.same(&named("Shape")));
            match t.kind {
                TypedExprKind::VariantLit { enum_name, tag, arguments } => {
                    assert_eq!(enum_name, "Shape");
                    assert_eq!(tag, 1);
                    assert_eq!(arguments.len(), 2);
                }
                _ => panic!("expected a variant literal"),
            }
        }
        Err(e) => panic!("{}", e),
    }
}

#[test]
fn variant_unknown_names_the_variants() {
    assert_eq!(
        refusal(build_variant(&"Shape".to_string(), &variants(), &"Square".to_string(), vec![])),
        "`Shape` has no variant named `Square`. Its variants are: Circle, Rect, Empty."
    );
}

#[test]
fn variant_payload_count_and_types() {
    assert_eq!(
        refusal(build_variant(&"Shape".to_string(), &variants(), &"Circle".to_string(), vec![])),
        "`Shape.Circle` carries 1 value(s), but 0 were given"
    );
    assert_eq!(
        refusal(build_variant(
            &"Shape".to_string(),
            &variants(),
            &"Rect".to_string(),
            vec![value(Type::Int), value(Type::String)]
        )),
        "in `Shape.Rect`, payload 2 must be Int, but it has type String"
    );
}
