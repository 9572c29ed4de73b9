use lib::ast::{Expr, ExprKind, Param, Stmt, StmtKind};
use lib::compare::Fields;
use lib::expansion::{Expansion, GenericInterface};
use lib::names::NameMap;
use lib::release::InterfaceSig;
use lib::storage::{GenericEnum, GenericRecord, Layouts, Variants};
use lib::ty::Type;

fn param(n: &str) -> Type {
    Type::Param(n.to_string())
}

fn named(n: &str) -> Type {
    Type::Named(n.to_string())
}

fn generic(n: &str, arguments: Vec<Type>) -> Type {
    Type::Generic { name: n.to_string(), arguments }
}

fn expansion() -> Expansion {
    let mut layouts = Layouts {
        records: NameMap::new(),
        made_records: NameMap::new(),
        enums: NameMap::new(),
        generic_records: NameMap::new(),
        generic_enums: NameMap::new(),
    };
    layouts.records.insert("Point".to_string(), Fields { fields: vec![("x".to_string(), Type::Int)] });
    layouts.enums.insert("Color".to_string(), Variants { variants: vec![("Red".to_string(), vec![])] });
    layouts.generic_records.insert(
        "Pair".to_string(),
        GenericRecord {
            parameters: vec!["T".to_string()],
            fields: vec![("first".to_string(), param("T")), ("second".to_string(), param("T"))],
        },
    );
    layouts.generic_records.insert(
        "Nest".to_string(),
        GenericRecord {
            parameters: vec!["T".to_string()],
            fields: vec![("value".to_string(), param("T")), ("inner".to_string(), generic("Nest", vec![param("T")]))],
        },
    );
    layouts.generic_enums.insert(
        "Option".to_string(),
        GenericEnum {
            parameters: vec!["T".to_string()],
            variants: vec![("Some".to_string(), vec![param("T")]), ("None".to_string(), vec![])],
        },
    );
    let mut generic_interfaces = NameMap::new();
    generic_interfaces.insert(
        "Mapper".to_string(),
        GenericInterface {
            parameters: vec!["T".to_string()],
            methods: vec![InterfaceSig {
                name: "map".to_string(),
                receiver_mut: false,
                writable: vec![false],
                parameters: vec![param("T")],
                ret: param("T"),
            }],
        },
    );
    Expansion {
        layouts,
        instances: NameMap::new(),
        declared_type_names: vec!["Point".to_string(), "Color".to_string()],
        interface_names: vec!["Shape".to_string()],
        generic_interfaces,
        interfaces_made: NameMap::new(),
        record_order: vec![],
        enum_order: vec![],
        wanted_records: vec![],
        tuples: NameMap::new(),
    }
}

#[test]
fn expand_a_generic_class_once() {
    let mut x = expansion();
    let t = x.expand(&generic("Pair", vec![Type::Int])).unwrap();
    assert!(t.same(&named("Pair$Int")));
    let made = x.layouts.made_records.get(&"Pair$Int".to_string()).unwrap();
    assert_eq!(made.fields.len(), 2);
    assert_eq!(made.fields[1].0, "second");
    assert!(made.fields[1].1.same(&Type::Int));
    let inst = x.instances.get(&"Pair$Int".to_string()).unwrap();
    assert_eq!(inst.of, "Pair");
    assert_eq!(x.record_order.len(), 1);
    assert_eq!(x.record_order[0].name, "Pair$Int");
    assert_eq!(x.wanted_records.len(), 1);
    assert_eq!(x.wanted_records[0].0, "Pair");
    // Asked again, it is the same class, and nothing is made twice.
    let again = x.expand(&generic("Pair", vec![Type::Int])).unwrap();
    assert!(again.same(&named("Pair$Int")));
    assert_eq!(x.record_order.len(), 1);
    assert_eq!(x.wanted_records.len(), 1);
}

#[test]
fn expand_inside_a_generic_leaves_parameters_alone() {
    let mut x = expansion();
    let t = x.expand(&generic("Pair", vec![param("T")])).unwrap();
    assert!(t.same(&generic("Pair", vec![param("T")])));
    assert_eq!(x.record_order.len(), 0);
    let t = x.expand(&Type::Tuple(vec![param("T"), Type::Int])).unwrap();
    assert!(t.same(&Type::Tuple(vec![param("T"), Type::Int])));
}

#[test]
fn expand_a_tuple_into_its_class() {
    let mut x = expansion();
    let t = x.expand(&Type::Tuple(vec![Type::Int, Type::String])).unwrap();
    assert!(t.same(&named("(Int, String)")));
    let made = x.layouts.made_records.get(&"(Int, String)".to_string()).unwrap();
    assert_eq!(made.fields[0].0, "0");
    assert_eq!(made.fields[1].0, "1");
    assert!(x.tuples.get(&"(Int, String)".to_string()).is_some());
    // A tuple of an instantiation is named as its author wrote it.
    let t = x.expand(&Type::Tuple(vec![generic("Pair", vec![Type::Int]), Type::Bool])).unwrap();
    assert!(t.same(&named("(Pair<Int>, Bool)")));
}

#[test]
fn expand_interfaces() {
    let mut x = expansion();
    assert!(x.expand(&named("Shape")).unwrap().same(&Type::Dyn("Shape".to_string())));
    assert!(x.expand(&named("Point")).unwrap().same(&named("Point")));
    assert_eq!(
        x.expand(&named("Mapper")).unwrap_err(),
        "`Mapper` takes 1 type argument(s), so write `Mapper<T>` rather than `Mapper` on its own."
    );
    let t = x.expand(&generic("Mapper", vec![Type::Int])).unwrap();
    assert!(t.same(&Type::Dyn("Mapper$Int".to_string())));
    let made = x.interfaces_made.get(&"Mapper$Int".to_string()).unwrap();
    assert!(made.sigs[0].parameters[0].same(&Type::Int));
    assert!(made.sigs[0].ret.same(&Type::Int));
    let t = x.expand(&Type::DynGeneric { name: "Mapper".to_string(), arguments: vec![Type::Int] }).unwrap();
    assert!(t.same(&Type::Dyn("Mapper$Int".to_string())));
    assert_eq!(
        x.expand(&Type::DynGeneric { name: "Pair".to_string(), arguments: vec![Type::Int] }).unwrap_err(),
        "unknown interface `Pair` — declare it with `interface Pair { ... }`"
    );
    assert_eq!(
        x.expand(&generic("Mapper", vec![named("U")])).unwrap_err(),
        "`U` in `Mapper<...>` names no type. A method's type parameters come from its receiver — `function (self: List<T>) ...` declares `T` and nothing else."
    );
}

#[test]
fn expand_a_generic_enum() {
    let mut x = expansion();
    let t = x.expand(&generic("Option", vec![Type::String])).unwrap();
    assert!(t.same(&named("Option$String")));
    let made = x.layouts.enums.get(&"Option$String".to_string()).unwrap();
    assert_eq!(made.variants[0].0, "Some");
    assert!(made.variants[0].1[0].same(&Type::String));
    assert_eq!(x.enum_order.len(), 1);
    assert_eq!(
        x.expand(&generic("Option", vec![named("Color")])).unwrap_err(),
        "`Option<Color>` cannot be made: `Option.Some` would carry a Color, which has no layout here. A variant carries a scalar, a String, a class or an array."
    );
    assert!(x.layouts.enums.get(&"Option$Color".to_string()).is_none());
}

#[test]
fn expand_refusals() {
    let mut x = expansion();
    assert_eq!(x.expand(&generic("Ghost", vec![Type::Int])).unwrap_err(), "unknown generic type `Ghost`");
    assert_eq!(
        x.expand(&generic("Point", vec![Type::Int])).unwrap_err(),
        "`Point` is not generic, so it takes no type arguments — write `Point` on its own."
    );
    assert_eq!(
        x.expand(&generic("Pair", vec![Type::Int, Type::Int])).unwrap_err(),
        "`Pair` takes 1 type argument(s), but 2 were given"
    );
    assert_eq!(
        x.expand(&generic("Nest", vec![Type::Int])).unwrap_err(),
        "`Nest$Int` cannot contain itself: `Nest.inner` would have to be the same size as the whole class."
    );
    assert!(x.layouts.made_records.get(&"Nest$Int".to_string()).is_none());
}

#[test]
fn expand_reaches_inside_arrays_and_slices() {
    let mut x = expansion();
    let t = x.expand(&Type::Slice(Box::new(generic("Pair", vec![Type::Bool])))).unwrap();
    assert!(t.same(&Type::Slice(Box::new(named("Pair$Bool")))));
    let t = x.expand(&Type::Array { elem: Box::new(named("Shape")), len: 2 }).unwrap();
    assert!(t.same(&Type::Array { elem: Box::new(Type::Dyn("Shape".to_string())), len: 2 }));
}

fn let_typed(name: &str, ty: Type) -> Stmt {
    Stmt { span: lib::typed::Span { start: 0, end: 0 }, kind: StmtKind::Let { name: name.to_string(), mutable: false, declared: Some(ty), value: Expr { span: lib::typed::Span { start: 0, end: 0 }, kind: ExprKind::IntLit(0) } } }
}

fn declared(st: &Stmt) -> &Type {
    match &st.kind {
        StmtKind::Let { declared: Some(t), .. } => t,
        _ => panic!("expected a typed let"),
    }
}

#[test]
fn expand_the_types_a_body_declares() {
    let mut x = expansion();
    let mut body = vec![
        let_typed("p", generic("Pair", vec![Type::Int])),
        Stmt {
            span: lib::typed::Span { start: 0, end: 0 },
            kind: StmtKind::While {
                cond: Expr { span: lib::typed::Span { start: 0, end: 0 }, kind: ExprKind::BoolLit(true) },
                body: vec![let_typed("t", Type::Tuple(vec![Type::Int, Type::Bool]))],
            },
        },
    ];
    assert!(x.expand_block(&mut body).is_ok());
    assert!(declared(&body[0]).same(&named("Pair$Int")));
    match &body[1].kind {
        StmtKind::While { body: inner, .. } => assert!(declared(&inner[0]).same(&named("(Int, Bool)"))),
        _ => panic!("expected a loop"),
    }
}

#[test]
fn expand_a_body_stops_at_the_first_refusal() {
    let mut x = expansion();
    let mut body = vec![
        let_typed("a", generic("Pair", vec![Type::Int])),
        let_typed("b", generic("Ghost", vec![Type::Int])),
        let_typed("c", generic("Pair", vec![Type::Bool])),
    ];
    assert_eq!(x.expand_block(&mut body).unwrap_err(), "unknown generic type `Ghost`");
    assert!(declared(&body[0]).same(&named("Pair$Int")));
    assert!(declared(&body[1]).same(&generic("Ghost", vec![Type::Int])));
    // What comes after the refusal is left as written, and nothing is made for it.
    assert!(declared(&body[2]).same(&generic("Pair", vec![Type::Bool])));
    assert!(x.layouts.made_records.get(&"Pair$Bool".to_string()).is_none());
}

#[test]
fn expand_a_function_signature_and_body() {
    let mut x = expansion();
    let mut parameters = vec![
        Param { name: "xs".to_string(), ty: Type::Slice(Box::new(generic("Pair", vec![Type::Int]))), marshal: None },
        Param { name: "s".to_string(), ty: named("Shape"), marshal: None },
    ];
    let mut ret = generic("Option", vec![Type::Int]);
    let mut body = vec![let_typed("t", Type::Tuple(vec![Type::String, Type::String]))];
    assert!(x.expand_fn_types(&mut parameters, &mut ret, &mut body).is_ok());
    assert!(parameters[0].ty.same(&Type::Slice(Box::new(named("Pair$Int")))));
    assert!(parameters[1].ty.same(&Type::Dyn("Shape".to_string())));
    assert!(ret.same(&named("Option$Int")));
    assert!(declared(&body[0]).same(&named("(String, String)")));
}

#[test]
fn expand_a_function_stops_at_a_refused_parameter() {
    let mut x = expansion();
    let mut parameters = vec![
        Param { name: "a".to_string(), ty: generic("Pair", vec![Type::Int, Type::Int]), marshal: None },
        Param { name: "b".to_string(), ty: generic("Pair", vec![Type::Bool]), marshal: None },
    ];
    let mut ret = generic("Option", vec![Type::Int]);
    let mut body = vec![];
    assert_eq!(
        x.expand_fn_types(&mut parameters, &mut ret, &mut body).unwrap_err(),
        "`Pair` takes 1 type argument(s), but 2 were given"
    );
    assert!(parameters[1].ty.same(&generic("Pair", vec![Type::Bool])));
    assert!(ret.same(&generic("Option", vec![Type::Int])));
}
