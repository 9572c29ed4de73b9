use lib::compare::Fields;
use lib::names::NameMap;
use lib::ops::BinOp;
use lib::release::{place_releases, CallFacts, Flags, InterfaceSig, Signatures};
use lib::storage::{Layouts, Variants};
use lib::ty::Type;
use lib::typed::{Span, TypedArm, TypedExpr, TypedExprKind, TypedStmt, TypedStmtKind};

fn layouts() -> Layouts {
    Layouts {
        records: NameMap::new(),
        made_records: NameMap::new(),
        enums: NameMap::new(),
        generic_records: NameMap::new(),
        generic_enums: NameMap::new(),
    }
}

fn facts() -> CallFacts {
    CallFacts {
        layouts: layouts(),
        alloc_fns: vec![],
        relay_params: vec![],
        alloc_methods: vec![],
        relay_methods: vec![],
        impls: vec![],
        grow_self: vec![],
        extern_names: vec![],
        fn_writable: NameMap::new(),
        method_writable: vec![],
        interfaces: NameMap::new(),
    }
}

fn ex(ty: Type, kind: TypedExprKind) -> TypedExpr {
    TypedExpr { ty, kind }
}

fn st(kind: TypedStmtKind, line: u32) -> TypedStmt {
    TypedStmt::new(kind, Span { start: line, end: 1 })
}

fn text(t: &str) -> TypedExpr {
    ex(Type::String, TypedExprKind::StrLit(t.to_string()))
}

fn joined(a: &str, b: &str) -> TypedExpr {
    ex(Type::String, TypedExprKind::Binary { op: BinOp::Add, lhs: Box::new(text(a)), rhs: Box::new(text(b)) })
}

fn var(name: &str, ty: Type) -> TypedExpr {
    ex(ty, TypedExprKind::Var(name.to_string()))
}

fn num(n: i64) -> TypedExpr {
    ex(Type::Int, TypedExprKind::IntLit(n))
}

fn let_string(name: &str, value: TypedExpr, line: u32) -> TypedStmt {
    st(TypedStmtKind::Let { name: name.to_string(), ty: Type::String, value }, line)
}

fn print(value: TypedExpr, line: u32) -> TypedStmt {
    st(TypedStmtKind::Print { value, to_stderr: false }, line)
}

fn int_slice() -> Type {
    Type::Slice(Box::new(Type::Int))
}

fn released_body(s: &TypedStmt) -> &Vec<TypedStmt> {
    match &s.kind {
        TypedStmtKind::Release { body } => body,
        _ => panic!("expected a released block"),
    }
}

#[test]
fn release_wraps_a_body_that_keeps_nothing() {
    let body = vec![let_string("s", joined("a", "b"), 3), print(var("s", Type::String), 4)];
    let out = place_releases(&facts(), &vec![], body, true);
    assert_eq!(out.len(), 1);
    assert_eq!(out[0].span, Span { start: 3, end: 1 });
    let inner = released_body(&out[0]);
    assert_eq!(inner.len(), 2);
    assert!(matches!(inner[0].kind, TypedStmtKind::Let { .. }));
    assert!(matches!(inner[1].kind, TypedStmtKind::Print { .. }));
    assert_eq!(inner[1].span, Span { start: 4, end: 1 });
}

#[test]
fn release_top_level_is_never_wrapped() {
    let body = vec![let_string("s", joined("a", "b"), 1), print(var("s", Type::String), 2)];
    let out = place_releases(&facts(), &vec![], body, false);
    assert_eq!(out.len(), 2);
    assert!(matches!(out[0].kind, TypedStmtKind::Let { .. }));
    assert!(matches!(out[1].kind, TypedStmtKind::Print { .. }));
}

#[test]
fn release_keeps_a_body_that_returns_what_it_built() {
    let body = vec![let_string("s", joined("a", "b"), 1), st(TypedStmtKind::Return(var("s", Type::String)), 2)];
    let out = place_releases(&facts(), &vec![], body, true);
    assert_eq!(out.len(), 2);
    assert!(matches!(out[1].kind, TypedStmtKind::Return(_)));
}

#[test]
fn release_leaves_a_body_that_builds_nothing() {
    let body = vec![
        st(TypedStmtKind::Let { name: "n".to_string(), ty: Type::Int, value: num(1) }, 1),
        print(var("n", Type::Int), 2),
    ];
    let out = place_releases(&facts(), &vec![], body, true);
    assert_eq!(out.len(), 2);
}

#[test]
fn release_wraps_a_loop_body_and_the_function_around_it() {
    let loop_body = vec![let_string("t", joined("x", "y"), 2), print(var("t", Type::String), 3)];
    let body = vec![st(TypedStmtKind::While { cond: ex(Type::Bool, TypedExprKind::BoolLit(true)), body: loop_body }, 1)];
    let out = place_releases(&facts(), &vec![], body, true);
    assert_eq!(out.len(), 1);
    let outer = released_body(&out[0]);
    assert_eq!(outer.len(), 1);
    match &outer[0].kind {
        TypedStmtKind::While { body, .. } => {
            assert_eq!(body.len(), 1);
            assert_eq!(body[0].span, Span { start: 2, end: 1 });
            assert_eq!(released_body(&body[0]).len(), 2);
        },
        _ => panic!("expected the loop"),
    }
}

#[test]
fn release_keeps_a_loop_that_grows_an_outer_array() {
    let push = ex(
        Type::Int,
        TypedExprKind::Push { place: Box::new(var("xs", int_slice())), value: Box::new(num(1)) },
    );
    let body = vec![
        st(TypedStmtKind::Let { name: "xs".to_string(), ty: int_slice(), value: ex(int_slice(), TypedExprKind::SliceLit(vec![])) }, 1),
        st(TypedStmtKind::While { cond: ex(Type::Bool, TypedExprKind::BoolLit(true)), body: vec![st(TypedStmtKind::ExprStmt(push), 3)] }, 2),
    ];
    let out = place_releases(&facts(), &vec![], body, true);
    assert_eq!(out.len(), 1);
    let outer = released_body(&out[0]);
    assert_eq!(outer.len(), 2);
    match &outer[1].kind {
        TypedStmtKind::While { body, .. } => {
            assert_eq!(body.len(), 1);
            assert!(matches!(body[0].kind, TypedStmtKind::ExprStmt(_)));
        },
        _ => panic!("expected the loop"),
    }
}

#[test]
fn release_tail_call_keeps_the_block() {
    let body = vec![
        let_string("s", joined("a", "b"), 1),
        st(TypedStmtKind::TailReturn { name: "again".to_string(), arguments: vec![] }, 2),
    ];
    let out = place_releases(&facts(), &vec![], body, true);
    assert_eq!(out.len(), 2);
}

#[test]
fn release_passes_an_existing_release_through() {
    let body = vec![st(TypedStmtKind::Release { body: vec![let_string("s", joined("a", "b"), 2)] }, 2)];
    let out = place_releases(&facts(), &vec![], body, true);
    assert_eq!(out.len(), 1);
    assert_eq!(released_body(&out[0]).len(), 1);
    assert!(matches!(released_body(&out[0])[0].kind, TypedStmtKind::Let { .. }));
}

#[test]
fn release_parameter_storage_is_the_callers() {
    let body = vec![let_string("q", var("p", Type::String), 1), st(TypedStmtKind::Return(var("q", Type::String)), 2)];
    let out = place_releases(&facts(), &vec!["p".to_string()], body, true);
    assert_eq!(out.len(), 2);
}

#[test]
fn release_growing_a_parameter_keeps_the_body() {
    let push = ex(
        Type::Int,
        TypedExprKind::Push { place: Box::new(var("p", int_slice())), value: Box::new(num(1)) },
    );
    let body = vec![let_string("s", joined("a", "b"), 1), st(TypedStmtKind::ExprStmt(push), 2)];
    let out = place_releases(&facts(), &vec!["p".to_string()], body, true);
    assert_eq!(out.len(), 2);
}

#[test]
fn release_a_c_call_keeps_the_block() {
    let mut f = facts();
    f.extern_names.push("c_keep".to_string());
    let call = ex(Type::Int, TypedExprKind::Call { name: "c_keep".to_string(), arguments: vec![var("s", Type::String)] });
    let body = vec![let_string("s", joined("a", "b"), 1), st(TypedStmtKind::ExprStmt(call), 2)];
    let out = place_releases(&f, &vec![], body, true);
    assert_eq!(out.len(), 2);
}

#[test]
fn release_read_only_argument_of_a_known_function_releases() {
    let mut f = facts();
    f.fn_writable.insert("look".to_string(), Flags { flags: vec![false] });
    let call = ex(Type::Int, TypedExprKind::Call { name: "look".to_string(), arguments: vec![var("s", Type::String)] });
    let body = vec![let_string("s", joined("a", "b"), 1), st(TypedStmtKind::ExprStmt(call), 2)];
    let out = place_releases(&f, &vec![], body, true);
    assert_eq!(out.len(), 1);
}

#[test]
fn release_an_instantiation_takes_its_generics_flags() {
    let mut f = facts();
    f.fn_writable.insert("grow".to_string(), Flags { flags: vec![true] });
    let call = ex(Type::Int, TypedExprKind::Call { name: "grow$Int".to_string(), arguments: vec![var("p", int_slice())] });
    let body = vec![let_string("s", joined("a", "b"), 1), st(TypedStmtKind::ExprStmt(call), 2)];
    let out = place_releases(&f, &vec!["p".to_string()], body, true);
    assert_eq!(out.len(), 2);
    let mut g = facts();
    g.fn_writable.insert("grow".to_string(), Flags { flags: vec![false] });
    let call = ex(Type::Int, TypedExprKind::Call { name: "grow$Int".to_string(), arguments: vec![var("p", int_slice())] });
    let body = vec![let_string("s", joined("a", "b"), 1), st(TypedStmtKind::ExprStmt(call), 2)];
    let out = place_releases(&g, &vec!["p".to_string()], body, true);
    assert_eq!(out.len(), 1);
}

#[test]
fn release_unknown_callee_is_assumed_to_write() {
    let call = ex(Type::Int, TypedExprKind::Call { name: "mystery".to_string(), arguments: vec![] });
    let body = vec![let_string("s", joined("a", "b"), 1), st(TypedStmtKind::ExprStmt(call), 2)];
    let out = place_releases(&facts(), &vec![], body, true);
    assert_eq!(out.len(), 2);
}

#[test]
fn release_mutating_interface_call_on_a_parameter_keeps_the_body() {
    let mut f = facts();
    let mut sigs = Signatures { sigs: vec![] };
    sigs.sigs.push(InterfaceSig { name: "grow".to_string(), receiver_mut: true, writable: vec![], parameters: vec![], ret: Type::Int });
    f.interfaces.insert("Sink".to_string(), sigs);
    let call = ex(
        Type::Int,
        TypedExprKind::DynCall {
            interface_name: "Sink".to_string(),
            method: "grow".to_string(),
            slot: 0,
            base: Box::new(var("p", Type::Dyn("Sink".to_string()))),
            arguments: vec![],
        },
    );
    let body = vec![let_string("s", joined("a", "b"), 1), st(TypedStmtKind::ExprStmt(call), 2)];
    let out = place_releases(&f, &vec!["p".to_string()], body, true);
    assert_eq!(out.len(), 2);
}

#[test]
fn release_match_arm_bodies_release_on_their_own() {
    let mut f = facts();
    let mut variants = Variants { variants: vec![] };
    variants.variants.push(("Some".to_string(), vec![Type::Int]));
    variants.variants.push(("None".to_string(), vec![]));
    f.layouts.enums.insert("Maybe".to_string(), variants);
    let arm_body = vec![let_string("t", joined("a", "b"), 3)];
    let arms = vec![
        TypedArm { tag: 0, bindings: vec![("n".to_string(), Type::Int)], body: arm_body },
        TypedArm { tag: 1, bindings: vec![], body: vec![] },
    ];
    let body = vec![st(TypedStmtKind::Match { value: var("m", Type::Named("Maybe".to_string())), arms }, 2)];
    let out = place_releases(&f, &vec![], body, false);
    assert_eq!(out.len(), 1);
    match &out[0].kind {
        TypedStmtKind::Match { arms, .. } => {
            assert_eq!(arms.len(), 2);
            assert_eq!(arms[0].tag, 0);
            assert_eq!(arms[0].bindings.len(), 1);
            assert_eq!(arms[0].body.len(), 1);
            assert_eq!(released_body(&arms[0].body[0]).len(), 1);
            assert_eq!(arms[1].body.len(), 0);
        },
        _ => panic!("expected the match"),
    }
}

#[test]
fn release_region_body_is_never_wrapped() {
    let body = vec![st(TypedStmtKind::Region { name: "r".to_string(), body: vec![let_string("s", joined("a", "b"), 2)] }, 1)];
    let out = place_releases(&facts(), &vec![], body, false);
    assert_eq!(out.len(), 1);
    match &out[0].kind {
        TypedStmtKind::Region { body, .. } => {
            assert_eq!(body.len(), 1);
            assert!(matches!(body[0].kind, TypedStmtKind::Let { .. }));
        },
        _ => panic!("expected the region"),
    }
}

#[test]
fn release_a_class_of_numbers_holds_no_storage() {
    let mut f = facts();
    let mut fields = Fields { fields: vec![] };
    fields.fields.push(("x".to_string(), Type::Int));
    f.layouts.records.insert("Point".to_string(), fields);
    let point = Type::Named("Point".to_string());
    let built = ex(point, TypedExprKind::StructLit { name: "Point".to_string(), fields: vec![num(1)] });
    let body = vec![
        st(TypedStmtKind::Let { name: "p".to_string(), ty: Type::Named("Point".to_string()), value: built }, 1),
        st(TypedStmtKind::Return(var("p", Type::Named("Point".to_string()))), 2),
    ];
    let out = place_releases(&f, &vec![], body, true);
    assert_eq!(out.len(), 2);
}

#[test]
fn release_for_loop_over_built_array_keeps_nothing_escaping() {
    let iterable = ex(int_slice(), TypedExprKind::SliceLit(vec![num(1), num(2)]));
    let body = vec![st(
        TypedStmtKind::For {
            name: "x".to_string(),
            elem: Type::Int,
            iterable,
            body: vec![let_string("t", joined("a", "b"), 2)],
        },
        1,
    )];
    let out = place_releases(&facts(), &vec![], body, true);
    assert_eq!(out.len(), 1);
    match &released_body(&out[0])[0].kind {
        TypedStmtKind::For { body, .. } => {
            assert_eq!(body.len(), 1);
            assert_eq!(released_body(&body[0]).len(), 1);
        },
        _ => panic!("expected the for loop"),
    }
}

