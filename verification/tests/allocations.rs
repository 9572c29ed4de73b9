use lib::allocation::{describe_allocation, expr_allocates, first_allocation, shown_fn_name, shown_type_name};
use lib::checker::TypeChecker;
use lib::generics::Instance;
use lib::names::NameMap;
use lib::ops::BinOp;
use lib::release::CallFacts;
use lib::storage::Layouts;
use lib::ty::Type;
use lib::typed::{Span, TypedArm, TypedExpr, TypedExprKind, TypedStmt, TypedStmtKind};

fn facts() -> CallFacts {
    CallFacts {
        layouts: Layouts {
            records: NameMap::new(),
            made_records: NameMap::new(),
            enums: NameMap::new(),
            generic_records: NameMap::new(),
            generic_enums: NameMap::new(),
        },
        alloc_fns: vec![],
        relay_params: vec![],
        alloc_methods: vec![],
        relay_methods: vec![],
        impls: vec![],
        grow_self: vec![],
        extern_names: vec![],
        fn_writable: NameMap::new(),
        method_writable: vec![],
        interfaces: NameMap::new(),
    }
}

fn all_allocations(body: &Vec<TypedStmt>) -> Vec<String> {
    let tc = TypeChecker::new();
    tc.all_allocations(body)
}

fn ex(ty: Type, kind: TypedExprKind) -> TypedExpr {
    TypedExpr { ty, kind }
}

fn st(kind: TypedStmtKind) -> TypedStmt {
    TypedStmt::new(kind, Span { start: 1, end: 1 })
}

fn text(t: &str) -> TypedExpr {
    ex(Type::String, TypedExprKind::StrLit(t.to_string()))
}

fn joined() -> TypedExpr {
    ex(Type::String, TypedExprKind::Binary { op: BinOp::Add, lhs: Box::new(text("a")), rhs: Box::new(text("b")) })
}

fn call(name: &str, arguments: Vec<TypedExpr>) -> TypedExpr {
    ex(Type::String, TypedExprKind::Call { name: name.to_string(), arguments })
}

fn expr_stmt(e: TypedExpr) -> TypedStmt {
    st(TypedStmtKind::ExprStmt(e))
}

#[test]
fn allocates_literals_do_not() {
    let f = facts();
    assert!(!expr_allocates(&f, &vec![], &text("a")));
    assert!(!expr_allocates(&f, &vec![], &ex(Type::Int, TypedExprKind::IntLit(3))));
    assert!(expr_allocates(&f, &vec![], &joined()));
    assert!(expr_allocates(&f, &vec![], &ex(Type::String, TypedExprKind::ReadFile(Box::new(text("p"))))));
}

#[test]
fn allocates_to_string_of_a_bool_is_a_literal() {
    let f = facts();
    let of_bool = ex(Type::String, TypedExprKind::ToString(Box::new(ex(Type::Bool, TypedExprKind::BoolLit(true)))));
    let of_int = ex(Type::String, TypedExprKind::ToString(Box::new(ex(Type::Int, TypedExprKind::IntLit(1)))));
    assert!(!expr_allocates(&f, &vec![], &of_bool));
    assert!(expr_allocates(&f, &vec![], &of_int));
}

#[test]
fn allocates_a_call_that_relays_built_storage() {
    let mut f = facts();
    f.relay_params.push(("pass".to_string(), 0));
    assert!(expr_allocates(&f, &vec![], &call("pass", vec![joined()])));
    assert!(!expr_allocates(&f, &vec![], &call("pass", vec![text("a")])));
    assert!(!expr_allocates(&f, &vec![], &call("other", vec![joined()])));
    f.alloc_fns.push("make".to_string());
    assert!(expr_allocates(&f, &vec![], &call("make", vec![])));
}

#[test]
fn allocates_a_name_bound_to_region_storage() {
    let f = facts();
    let v = ex(Type::String, TypedExprKind::Var("s".to_string()));
    assert!(expr_allocates(&f, &vec!["s".to_string()], &v));
    assert!(!expr_allocates(&f, &vec!["t".to_string()], &v));
}

#[test]
fn allocates_a_scalar_field_of_region_storage_is_a_copy() {
    let f = facts();
    let base = Box::new(ex(Type::Named("Box".to_string()), TypedExprKind::Var("b".to_string())));
    let n = ex(Type::Int, TypedExprKind::Field { base: base, index: 0 });
    assert!(!expr_allocates(&f, &vec!["b".to_string()], &n));
    let base = Box::new(ex(Type::Named("Box".to_string()), TypedExprKind::Var("b".to_string())));
    let s = ex(Type::String, TypedExprKind::Field { base: base, index: 1 });
    assert!(expr_allocates(&f, &vec!["b".to_string()], &s));
}

#[test]
fn describe_names_each_cause() {
    let f = facts();
    let inst = NameMap::new();
    let d = |e: TypedExpr| describe_allocation(&f, &vec![], &inst, &e);
    assert_eq!(d(joined()).unwrap(), "joining two Strings builds a new one");
    assert_eq!(
        d(ex(Type::String, TypedExprKind::Substring { source: Box::new(text("ab")), at: Box::new(ex(Type::Int, TypedExprKind::IntLit(0))), len: Box::new(ex(Type::Int, TypedExprKind::IntLit(1))) })).unwrap(),
        "`substring(...)` builds a new String"
    );
    assert_eq!(d(ex(Type::Slice(Box::new(Type::Int)), TypedExprKind::SliceLit(vec![]))).unwrap(), "a growable array is built here");
    assert_eq!(d(ex(Type::String, TypedExprKind::ReadFile(Box::new(text("p"))))).unwrap(), "`read_file(...)` builds a String");
    assert!(d(text("a")).is_none());
}

#[test]
fn describe_an_instantiated_call_by_its_written_name() {
    let mut f = facts();
    f.alloc_fns.push("grow$Int".to_string());
    let inst = NameMap::new();
    let d = describe_allocation(&f, &vec![], &inst, &call("grow$Int", vec![])).unwrap();
    assert_eq!(d, "`grow(...)` builds its answer in the caller's region");
}

#[test]
fn describe_a_method_on_an_instantiation() {
    let mut f = facts();
    f.alloc_methods.push(("Holder$Int".to_string(), "label".to_string()));
    let mut inst = NameMap::new();
    inst.insert("Holder$Int".to_string(), Instance { of: "Holder".to_string(), arguments: vec![Type::Int] });
    let m = ex(
        Type::String,
        TypedExprKind::MethodCall {
            receiver: "Holder$Int".to_string(),
            method: "label".to_string(),
            receiver_mut: false,
            base: Box::new(ex(Type::Named("Holder$Int".to_string()), TypedExprKind::Var("h".to_string()))),
            arguments: vec![],
        },
    );
    assert_eq!(
        describe_allocation(&f, &vec![], &inst, &m).unwrap(),
        "`Holder<Int>.label(...)` builds its answer in the caller's region"
    );
}

#[test]
fn describe_a_dynamic_call_always() {
    let f = facts();
    let inst = NameMap::new();
    let m = ex(
        Type::Int,
        TypedExprKind::DynCall {
            interface_name: "Shape".to_string(),
            method: "area".to_string(),
            slot: 0,
            base: Box::new(ex(Type::Dyn("Shape".to_string()), TypedExprKind::Var("s".to_string()))),
            arguments: vec![],
        },
    );
    assert_eq!(
        describe_allocation(&f, &vec![], &inst, &m).unwrap(),
        "`.area(...)` through a `dynamic Shape` allocates — and the claim has to hold for EVERY implementation, so one that allocates is enough to break it"
    );
}

#[test]
fn first_allocation_is_the_first_the_report_lists() {
    let f = facts();
    let inst = NameMap::new();
    let body = vec![
        st(TypedStmtKind::Let { name: "n".to_string(), ty: Type::Int, value: ex(Type::Int, TypedExprKind::IntLit(1)) }),
        st(TypedStmtKind::While {
            cond: ex(Type::Bool, TypedExprKind::BoolLit(true)),
            body: vec![expr_stmt(ex(Type::String, TypedExprKind::ReadFile(Box::new(text("p")))))],
        }),
        expr_stmt(joined()),
        expr_stmt(joined()),
    ];
    let first = first_allocation(&f, &vec![], &inst, &body).unwrap();
    let all = all_allocations(&body);
    assert_eq!(first, "`read_file(...)` builds a String");
    assert_eq!(all, vec!["`read_file(...)` builds a String".to_string(), "joining two Strings builds a new one".to_string()]);
    assert_eq!(all[0], first);
}

#[test]
fn first_allocation_none_when_nothing_is_named() {
    let f = facts();
    let inst = NameMap::new();
    let body = vec![expr_stmt(text("a"))];
    assert!(first_allocation(&f, &vec![], &inst, &body).is_none());
    assert!(all_allocations(&body).is_empty());
}

#[test]
fn all_allocations_walks_match_arms_in_order() {
    let f = facts();
    let inst = NameMap::new();
    let arms = vec![
        TypedArm { tag: 0, bindings: vec![], body: vec![expr_stmt(joined())] },
        TypedArm { tag: 1, bindings: vec![], body: vec![expr_stmt(ex(Type::String, TypedExprKind::ReadFile(Box::new(text("p")))))] },
    ];
    let body = vec![st(TypedStmtKind::Match { value: ex(Type::Named("E".to_string()), TypedExprKind::Var("e".to_string())), arms })];
    let all = all_allocations(&body);
    assert_eq!(all, vec!["joining two Strings builds a new one".to_string(), "`read_file(...)` builds a String".to_string()]);
    assert_eq!(first_allocation(&f, &vec![], &inst, &body).unwrap(), all[0]);
}

#[test]
fn shown_names_as_written() {
    assert_eq!(shown_fn_name(&"grow$Int$String".to_string()), "grow");
    assert_eq!(shown_fn_name(&"plain".to_string()), "plain");
    let mut inst = NameMap::new();
    inst.insert("Pair$Int$String".to_string(), Instance { of: "Pair".to_string(), arguments: vec![Type::Int, Type::String] });
    assert_eq!(shown_type_name(&"Pair$Int$String".to_string(), &inst), "Pair<Int, String>");
    assert_eq!(shown_type_name(&"Plain".to_string(), &inst), "Plain");
}

#[test]
fn checker_with_packages_and_written_types() {
    let mut tc = TypeChecker::new();
    let mut private = NameMap::new();
    private.insert("Hidden".to_string(), lib::validity::Owner { package: "geo".to_string() });
    tc.with_packages(private, vec![(0, 10, "geo".to_string())]);
    assert_eq!(tc.packages.ranges.len(), 1);
    assert!(lib::validity::refuse_if_package_private(&tc.packages, 50, &"Hidden".to_string()).is_some());
    tc.instances.insert("Holder$Int".to_string(), Instance { of: "Holder".to_string(), arguments: vec![Type::Int] });
    tc.expr_types.push((Span { start: 3, end: 7 }, Type::Named("Holder$Int".to_string())));
    tc.expr_types.push((Span { start: 4, end: 1 }, Type::Int));
    let shown = tc.expr_types();
    assert_eq!(shown.len(), 2);
    assert_eq!(shown[0].0, Span { start: 3, end: 7 });
    assert_eq!(shown[0].1.text(), "Holder<Int>");
    assert_eq!(shown[1].1.text(), "Int");
}

#[test]
fn checker_all_allocations_uses_its_region_locals() {
    let mut tc = TypeChecker::new();
    tc.region_locals.push("s".to_string());
    let body = vec![st(TypedStmtKind::Return(ex(Type::String, TypedExprKind::ToString(Box::new(ex(Type::Int, TypedExprKind::IntLit(1)))))))];
    assert_eq!(tc.all_allocations(&body), vec!["`to_string(...)` builds a String".to_string()]);
}
