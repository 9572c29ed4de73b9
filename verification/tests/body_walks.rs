use lib::ast::{Expr, ExprKind, Stmt, StmtKind};
use lib::ops::BinOp;
use lib::ty::Type;
use lib::typed::{block_diverges, block_returns, literal_int, stmt_returns, unreachable_note, written_int, Span, TypedExpr, TypedExprKind, TypedStmt, TypedStmtKind};
use lib::walk::{calls_itself, check_measure_target, mentions, place_root};
use lib::generics::TypeMap;
use lib::names::NameMap;
use lib::rewrite::substitute_in_block;

fn e(kind: ExprKind) -> Expr {
    Expr { span: lib::typed::Span { start: 0, end: 0 }, kind }
}

fn v(n: &str) -> Expr {
    e(ExprKind::Var(n.to_string()))
}

fn call(n: &str, arguments: Vec<Expr>) -> Expr {
    e(ExprKind::Call { name: n.to_string(), arguments })
}

fn s(kind: StmtKind) -> Stmt {
    Stmt { span: lib::typed::Span { start: 0, end: 0 }, kind }
}

fn te(kind: TypedExprKind) -> TypedExpr {
    TypedExpr { ty: Type::Int, kind }
}

fn ts(kind: TypedStmtKind) -> TypedStmt {
    TypedStmt::new(kind, Span { start: 1, end: 1 })
}

#[test]
fn mentions_finds_a_name_anywhere() {
    let sum = e(ExprKind::Binary { op: BinOp::Add, lhs: Box::new(v("a")), rhs: Box::new(call("f", vec![v("result")])) });
    assert!(mentions(&sum, "result"));
    assert!(mentions(&sum, "a"));
    assert!(!mentions(&sum, "f"));
    assert!(!mentions(&e(ExprKind::IntLit(3)), "a"));
}

#[test]
fn calls_itself_looks_through_blocks() {
    let body = vec![s(StmtKind::If {
        cond: e(ExprKind::BoolLit(true)),
        then_block: vec![s(StmtKind::Return(call("fact", vec![v("n")])))],
        else_block: None,
    })];
    assert!(calls_itself(&body, "fact"));
    assert!(!calls_itself(&body, "other"));
    let body = vec![s(StmtKind::Let { name: "x".to_string(), mutable: false, declared: None, value: call("helper", vec![]) })];
    assert!(!calls_itself(&body, "fact"));
}

#[test]
fn calls_itself_inside_a_tuple() {
    let body = vec![s(StmtKind::Return(e(ExprKind::TupleLit(vec![call("f", vec![]), e(ExprKind::IntLit(1))]))))];
    assert!(calls_itself(&body, "f"));
}

#[test]
fn place_root_reaches_the_binding() {
    let place = e(ExprKind::Index {
        base: Box::new(e(ExprKind::Field { base: Box::new(v("g")), field: "items".to_string() })),
        index: Box::new(e(ExprKind::IntLit(0))),
    });
    assert_eq!(place_root(&place), Some("g"));
    assert_eq!(place_root(&call("f", vec![])), None);
}

#[test]
fn written_int_reads_a_negated_literal() {
    let minus_one = te(TypedExprKind::Neg(Box::new(te(TypedExprKind::IntLit(1)))));
    assert_eq!(written_int(&minus_one), Some(-1));
    assert_eq!(written_int(&te(TypedExprKind::IntLit(7))), Some(7));
    assert_eq!(literal_int(&minus_one), None);
    assert_eq!(literal_int(&te(TypedExprKind::IntLit(7))), Some(7));
    assert_eq!(written_int(&te(TypedExprKind::Var("n".to_string()))), None);
}

#[test]
fn returns_on_every_path() {
    let ret = || ts(TypedStmtKind::Return(te(TypedExprKind::IntLit(0))));
    let both = ts(TypedStmtKind::If {
        cond: te(TypedExprKind::BoolLit(true)),
        then_block: vec![ret()],
        else_block: Some(vec![ret()]),
    });
    let one = ts(TypedStmtKind::If { cond: te(TypedExprKind::BoolLit(true)), then_block: vec![ret()], else_block: None });
    assert!(stmt_returns(&both));
    assert!(!stmt_returns(&one));
    assert!(block_returns(&vec![one, ret()]));
    assert!(!block_returns(&vec![]));
}

#[test]
fn a_body_that_returns_also_diverges() {
    let body = vec![ts(TypedStmtKind::Return(te(TypedExprKind::IntLit(0))))];
    assert!(block_returns(&body));
    assert!(block_diverges(&body));
    let exits = vec![ts(TypedStmtKind::Exit(te(TypedExprKind::IntLit(1))))];
    assert!(!block_diverges(&exits));
    assert!(!block_returns(&exits));
    assert!(block_diverges(&vec![ts(TypedStmtKind::Break)]));
}

#[test]
fn substitution_reaches_every_declared_type() {
    let t = || Type::Param("T".to_string());
    let decl = |name: &str, ty: Type| s(StmtKind::Let { name: name.to_string(), mutable: false, declared: Some(ty), value: call("f", vec![]) });
    let mut body = vec![
        decl("a", t()),
        s(StmtKind::While {
            cond: call("more", vec![]),
            body: vec![decl("b", Type::Slice(Box::new(t()))), decl("c", Type::Int)],
        }),
        s(StmtKind::Let { name: "d".to_string(), mutable: true, declared: None, value: call("g", vec![]) }),
    ];
    let mut map: TypeMap = NameMap::new();
    map.insert("T".to_string(), Type::String);
    substitute_in_block(&mut body, &map);
    match &body[0].kind {
        StmtKind::Let { declared: Some(ty), .. } => assert!(ty.same(&Type::String)),
        _ => panic!("expected a let"),
    }
    match &body[1].kind {
        StmtKind::While { body: inner, .. } => {
            match &inner[0].kind {
                StmtKind::Let { declared: Some(ty), .. } => assert!(ty.same(&Type::Slice(Box::new(Type::String)))),
                _ => panic!("expected a let"),
            }
            match &inner[1].kind {
                StmtKind::Let { declared: Some(ty), .. } => assert!(ty.same(&Type::Int)),
                _ => panic!("expected a let"),
            }
        }
        _ => panic!("expected a loop"),
    }
    match &body[2].kind {
        StmtKind::Let { name, declared: None, mutable: true, .. } => assert_eq!(name, "d"),
        _ => panic!("expected an untyped let"),
    }
}

#[test]
fn unreachable_after_leaving() {
    let at = Span { start: 0, end: 1 };
    assert!(unreachable_note(&vec![]).is_none());
    assert_eq!(
        unreachable_note(&vec![TypedStmt::new(TypedStmtKind::Break, at)]).unwrap(),
        "unreachable statement: this code comes after `break`"
    );
    assert_eq!(
        unreachable_note(&vec![TypedStmt::new(TypedStmtKind::Continue, at)]).unwrap(),
        "unreachable statement: this code comes after `continue`"
    );
    let ret = TypedStmt::new(
        TypedStmtKind::Return(lib::typed::TypedExpr { ty: lib::ty::Type::Int, kind: lib::typed::TypedExprKind::IntLit(1) }),
        at,
    );
    assert_eq!(unreachable_note(&vec![ret]).unwrap(), "unreachable statement: this code comes after `return`");
}

#[test]
fn decreases_needs_recursion() {
    let body = vec![s(StmtKind::Return(call("fact", vec![v("n")])))];
    assert!(check_measure_target(&body, &"fact".to_string(), &"n".to_string()).is_ok());
    let body = vec![s(StmtKind::Return(v("n")))];
    assert_eq!(
        check_measure_target(&body, &"count$Int".to_string(), &"n".to_string()).unwrap_err(),
        "`count` never calls itself, so `decreases n` has nothing to check. A reader would take it to mean something; drop it, or make the recursion real."
    );
}
