use lib::ast::{Expr, ExprKind};
use lib::compare::Fields;
use lib::generics::Instances;
use lib::names::NameMap;
use lib::objects::coerce_dyn;
use lib::storage::Layouts;
use lib::ty::Type;
use lib::typed::{TypedExpr, TypedExprKind};

fn layouts() -> Layouts {
    let mut l = Layouts {
        records: NameMap::new(),
        made_records: NameMap::new(),
        enums: NameMap::new(),
        generic_records: NameMap::new(),
        generic_enums: NameMap::new(),
    };
    l.records.insert("Circle".to_string(), Fields { fields: vec![("r".to_string(), Type::Int)] });
    l.records.insert("Square".to_string(), Fields { fields: vec![("side".to_string(), Type::Int)] });
    l
}

fn env() -> NameMap<(Type, bool)> {
    let mut e = NameMap::new();
    e.insert("c".to_string(), (Type::Named("Circle".to_string()), false));
    e.insert("s".to_string(), (Type::Named("Square".to_string()), true));
    e.insert("it".to_string(), (Type::Dyn("Shape".to_string()), false));
    e.insert("n".to_string(), (Type::Int, false));
    e
}

fn coerce(e: Expr) -> Result<TypedExpr, String> {
    let enums = vec![("Color".to_string(), vec!["Red".to_string()])];
    let impls = vec![("Shape".to_string(), "Circle".to_string())];
    let instances: Instances = NameMap::new();
    coerce_dyn(&layouts(), &instances, &env(), &enums, &impls, &"Shape".to_string(), &e)
}

fn var(n: &str) -> Expr {
    Expr { span: lib::typed::Span { start: 0, end: 0 }, kind: ExprKind::Var(n.to_string()) }
}

fn refusal(r: Result<TypedExpr, String>) -> String {
    match r {
        Err(e) => e,
        Ok(_) => panic!("expected a refusal"),
    }
}

#[test]
fn dyn_coerce_borrows_a_class_variable() {
    match coerce(var("c")) {
        Ok(t) => {
            assert!(t.ty.same(&Type::Dyn("Shape".to_string())));
            match t.kind {
                TypedExprKind::DynCoerce { interface_name, concrete, var } => {
                    assert_eq!(interface_name, "Shape");
                    assert_eq!(concrete, "Circle");
                    assert_eq!(var, "c");
                }
                _ => panic!("expected a coercion"),
            }
        }
        Err(e) => panic!("{}", e),
    }
}

#[test]
fn dyn_coerce_refusals() {
    assert_eq!(
        refusal(coerce(Expr { span: lib::typed::Span { start: 0, end: 0 }, kind: ExprKind::IntLit(1) })),
        "a `dynamic Shape` must come from a variable — an interface object borrows the storage of the value it refers to, and an expression has none."
    );
    assert_eq!(refusal(coerce(var("ghost"))), "unknown variable: ghost");
    assert_eq!(
        refusal(coerce(var("Red"))),
        "unknown variable: Red — did you mean `Color.Red`? Enum variants are always written with their enum."
    );
    assert_eq!(
        refusal(coerce(var("it"))),
        "`it` is already an interface object; re-borrowing one is deferred until Burxt tracks borrows."
    );
    assert_eq!(
        refusal(coerce(var("n"))),
        "`n` has type Int, which cannot be a `dynamic Shape` — only a class that implements the interface can."
    );
    assert_eq!(
        refusal(coerce(var("s"))),
        "`Square` does not implement `Shape` — add `implement Shape for Square { ... }`."
    );
}
