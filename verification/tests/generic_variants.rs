use lib::ast::{Expr, ExprKind};
use lib::generic_variants::{variant_route, VariantRoute};
use lib::storage::Variants;
use lib::expansion::Expansion;
use lib::generic_variants::{abstract_variant, infer_variant_arguments, payload_wants, variant_instance};
use lib::generics::{Instance, Instances, Tuples};
use lib::members::build_variant;
use lib::names::NameMap;
use lib::storage::{GenericEnum, Layouts};
use lib::ty::Type;
use lib::typed::{TypedExpr, TypedExprKind};

fn param(n: &str) -> Type {
    Type::Param(n.to_string())
}

fn named(n: &str) -> Type {
    Type::Named(n.to_string())
}

fn layouts() -> Layouts {
    let mut l = Layouts {
        records: NameMap::new(),
        made_records: NameMap::new(),
        enums: NameMap::new(),
        generic_records: NameMap::new(),
        generic_enums: NameMap::new(),
    };
    l.generic_enums.insert(
        "Option".to_string(),
        GenericEnum { parameters: vec!["T".to_string()], variants: vec![("Some".to_string(), vec![param("T")]), ("None".to_string(), vec![])] },
    );
    l.generic_enums.insert(
        "Two".to_string(),
        GenericEnum { parameters: vec!["T".to_string()], variants: vec![("Both".to_string(), vec![param("T"), param("T")])] },
    );
    l
}

fn instances() -> Instances {
    let mut i = NameMap::new();
    i.insert("Option$Int".to_string(), Instance { of: "Option".to_string(), arguments: vec![Type::Int] });
    i
}

fn value(ty: Type) -> TypedExpr {
    TypedExpr { ty, kind: TypedExprKind::Var("v".to_string()) }
}

fn infer(
    e: &str,
    v: &str,
    expected: Option<&Type>,
    natural: Vec<Result<TypedExpr, String>>,
) -> Result<(usize, Vec<Type>, lib::generics::TypeMap), String> {
    let tuples: Tuples = NameMap::new();
    let n = natural.len();
    infer_variant_arguments(&layouts(), &instances(), &tuples, &e.to_string(), &v.to_string(), n, expected, &natural)
}

fn refused<T>(r: Result<T, String>) -> String {
    match r {
        Ok(_) => panic!("accepted"),
        Err(e) => e,
    }
}

#[test]
fn generic_variant_read_from_its_value() {
    let (tag, args, map) = infer("Option", "Some", None, vec![Ok(value(Type::Int))]).unwrap();
    assert_eq!(tag, 0);
    assert_eq!(args.len(), 1);
    assert!(args[0].same(&Type::Int));
    assert!(map.get(&"T".to_string()).unwrap().same(&Type::Int));
}

#[test]
fn generic_variant_read_from_the_context() {
    let (tag, args, _) = infer("Option", "None", Some(&named("Option$Int")), vec![]).unwrap();
    assert_eq!(tag, 1);
    assert!(args[0].same(&Type::Int));
    let written = Type::Generic { name: "Option".to_string(), arguments: vec![param("T")] };
    let (_, args, _) = infer("Option", "None", Some(&written), vec![]).unwrap();
    assert!(args[0].same(&param("T")));
}

#[test]
fn generic_variant_refusals() {
    assert_eq!(
        refused(infer("Option", "None", None, vec![])),
        "`Option.None` does not say what `T` is, and nothing here does. Give it a context that names `T`: return it from a function declared `-> Option<T>`, annotate where it lands — `let x: Option<...> = Option.None;` — or pass it to something whose parameter says."
    );
    assert_eq!(refused(infer("Option", "Maybe", None, vec![])), "`Option` has no variant named `Maybe`. Its variants are: Some, None.");
    assert_eq!(
        refused(infer("Option", "Some", None, vec![Ok(value(Type::Int)), Ok(value(Type::Int))])),
        "`Option.Some` carries 1 value(s), but 2 were given"
    );
    assert_eq!(refused(infer("Option", "Some", None, vec![Err("unknown variable: q".to_string())])), "unknown variable: q");
    assert_eq!(
        refused(infer("Two", "Both", None, vec![Ok(value(Type::Int)), Ok(value(Type::String))])),
        "in `Two.Both`, payload 2: `T` would have to be both Int and String in this call — a type parameter stands for one type per call"
    );
}

#[test]
fn generic_variant_abstract_inside_a_generic() {
    let written = Type::Generic { name: "Option".to_string(), arguments: vec![param("T")] };
    let (tag, args, map) = infer("Option", "Some", Some(&written), vec![Ok(value(param("T")))]).unwrap();
    let wants = payload_wants(&layouts(), &"Option".to_string(), tag, &map);
    assert!(wants[0].same(&param("T")));
    let r = abstract_variant(&"Option".to_string(), &"Some".to_string(), tag, args, &wants, vec![Ok(value(param("T")))]).unwrap();
    assert!(r.ty.same(&written));
    assert!(matches!(r.kind, TypedExprKind::VariantLit { tag: 0, .. }));
    let refusal = abstract_variant(&"Option".to_string(), &"Some".to_string(), 0, vec![param("T")], &wants, vec![Ok(value(Type::Bool))]);
    assert_eq!(refused(refusal), "in `Option.Some`, payload 1 must be T, but it has type Bool");
}

#[test]
fn generic_variant_concrete_is_built_from_its_instance() {
    let mut x = Expansion {
        layouts: layouts(),
        instances: NameMap::new(),
        declared_type_names: vec![],
        interface_names: vec![],
        generic_interfaces: NameMap::new(),
        interfaces_made: NameMap::new(),
        record_order: vec![],
        enum_order: vec![],
        wanted_records: vec![],
        tuples: NameMap::new(),
    };
    let symbol = variant_instance(&mut x, &"Option".to_string(), vec![Type::Int]).unwrap();
    assert_eq!(symbol, "Option$Int");
    let variants = &x.layouts.enums.get(&symbol).unwrap().variants;
    let built = build_variant(&symbol, variants, &"Some".to_string(), vec![value(Type::Int)]).unwrap();
    assert!(built.ty.same(&named("Option$Int")));
    assert!(matches!(built.kind, TypedExprKind::VariantLit { tag: 0, .. }));
}

#[test]
fn variant_routes() {
    let mut l = layouts();
    l.enums.insert("Color".to_string(), Variants { variants: vec![("Red".to_string(), vec![])] });
    let mut env: NameMap<(Type, bool)> = NameMap::new();
    env.insert("Shadow".to_string(), (Type::Int, false));
    let var = |n: &str| Expr { span: lib::typed::Span { start: 0, end: 0 }, kind: ExprKind::Var(n.to_string()) };
    assert!(matches!(variant_route(&env, &l, &var("Option")), Some(VariantRoute::Generic(ref n)) if n == "Option"));
    assert!(matches!(variant_route(&env, &l, &var("Color")), Some(VariantRoute::Plain(ref n)) if n == "Color"));
    assert!(variant_route(&env, &l, &var("Shadow")).is_none());
    assert!(variant_route(&env, &l, &var("nothing")).is_none());
    assert!(variant_route(&env, &l, &Expr { span: lib::typed::Span { start: 0, end: 0 }, kind: ExprKind::IntLit(1) }).is_none());
}
