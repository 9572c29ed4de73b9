use lib::ast::{Contract, Expr, ExprKind, FnDef, FnParam, Marshal, MethodDef, Stmt, StmtKind};
use lib::blocks::{check_body, gather_block};
use lib::contracts::check_clauses;
use lib::diagnostics::Diagnostic;
use lib::functions::{check_fn, check_fn_params};
use lib::methods::{check_method, check_method_params};
use lib::names::NameMap;
use lib::ty::Type;
use lib::typed::{Span, TypedExpr, TypedExprKind, TypedStmtKind};

fn sp(start: u32, end: u32) -> Span {
    Span { start, end }
}

fn e(kind: ExprKind) -> Expr {
    Expr { span: sp(0, 0), kind }
}

fn te(ty: Type, kind: TypedExprKind) -> TypedExpr {
    TypedExpr { ty, kind }
}

fn param(name: &str, ty: Type, writable: bool) -> FnParam {
    FnParam { name: name.to_string(), ty, writable, marshal: None }
}

fn def(name: &str, parameters: Vec<FnParam>, body: Vec<Stmt>, decreases: Option<Contract>) -> FnDef {
    FnDef {
        name: name.to_string(),
        parameters,
        ret: Type::Int,
        body,
        is_pure: false,
        requires: vec![],
        ensures: vec![],
        decreases,
        span: sp(0, 30),
    }
}

fn st(kind: StmtKind, start: u32, end: u32) -> Stmt {
    Stmt { span: sp(start, end), kind }
}

fn placeholder(start: u32, end: u32) -> Stmt {
    st(StmtKind::ExprStmt(e(ExprKind::IntLit(0))), start, end)
}

fn method(name: &str, parameters: Vec<FnParam>, body: Vec<Stmt>) -> MethodDef {
    MethodDef {
        receiver: "Account".to_string(),
        receiver_mut: false,
        name: name.to_string(),
        parameters,
        ret: Type::Int,
        body,
        is_pure: false,
        span: sp(0, 40),
    }
}

fn ret_one() -> TypedStmtKind {
    TypedStmtKind::Return(te(Type::Int, TypedExprKind::IntLit(1)))
}

#[test]
fn a_failed_statement_is_recorded_and_checking_goes_on() {
    let mut errors: Vec<Diagnostic> = Vec::new();
    let outcomes = vec![
        (Err("unknown name `y`".to_string()), sp(0, 5)),
        (Ok(TypedStmtKind::Break), sp(6, 12)),
        (Err("never looked at".to_string()), sp(13, 20)),
        (Ok(ret_one()), sp(21, 30)),
    ];
    let kept = gather_block(&mut errors, outcomes);
    assert_eq!(kept.len(), 1);
    assert_eq!(kept[0].span, sp(6, 12));
    assert_eq!(errors.len(), 2);
    assert_eq!(errors[0].message, "unknown name `y`");
    assert_eq!(errors[0].span, sp(0, 5));
    assert_eq!(errors[1].message, "unreachable statement: this code comes after `break`");
    assert_eq!(errors[1].span, sp(13, 20));
}

#[test]
fn every_failure_is_kept_in_order() {
    let mut errors: Vec<Diagnostic> = Vec::new();
    let outcomes = vec![
        (Err("first".to_string()), sp(0, 5)),
        (Err("second".to_string()), sp(6, 9)),
        (Ok(ret_one()), sp(10, 20)),
    ];
    let kept = gather_block(&mut errors, outcomes);
    assert_eq!(kept.len(), 1);
    assert_eq!(errors.len(), 2);
    assert_eq!(errors[0].message, "first");
    assert_eq!(errors[1].message, "second");
}

#[test]
fn parameters_are_checked_in_order() {
    let consts: NameMap<Type> = NameMap::new();
    let f = def("f", vec![param("a", Type::Int, false), param("b", Type::Bool, false)], vec![], None);
    let ps = check_fn_params(&f, &vec![false, false], &consts).unwrap();
    assert_eq!(ps.len(), 2);
    assert_eq!(ps[1].0, "b");

    let twice = def("f", vec![param("a", Type::Int, false), param("a", Type::Bool, false)], vec![], None);
    assert_eq!(check_fn_params(&twice, &vec![false, false], &consts).unwrap_err(), "function `f` has two parameters named `a`");

    let copied = def("f", vec![param("n", Type::Int, true)], vec![], None);
    assert_eq!(
        check_fn_params(&copied, &vec![false], &consts).unwrap_err(),
        "`mutable n: Int` says the caller's value may change, and a Int is copied when it crosses — so there would be nothing for the caller to see. If you want a copy to modify inside the body, say so where the copy is: `let mutable n: Int = ...;`"
    );
    assert!(check_fn_params(&copied, &vec![true], &consts).is_ok());

    let mut pure = def("p", vec![param("n", Type::Int, true)], vec![], None);
    pure.is_pure = true;
    assert!(check_fn_params(&pure, &vec![true], &consts).unwrap_err().starts_with("`pure function p` cannot take `mutable n: Int`"));

    let mut marked = def("g", vec![param("d", Type::Int, false)], vec![], None);
    marked.parameters[0].marshal = Some(Marshal::Scaled);
    assert_eq!(
        check_fn_params(&marked, &vec![false], &consts).unwrap_err(),
        "in `function g`, parameter `d` is marked `as scaled`, but marshalling only exists where there is a foreign encoding to marshal into. A Burxt-to-Burxt call passes the value itself, exactly — drop the `as scaled`."
    );
}

#[test]
fn verdicts_take_the_place_of_their_statements() {
    let mut errors: Vec<Diagnostic> = Vec::new();
    let body = vec![placeholder(3, 8), placeholder(10, 19)];
    let kept = check_body(&mut errors, &body, vec![Err("bad value".to_string()), Ok(ret_one())]);
    assert_eq!(kept.len(), 1);
    assert_eq!(kept[0].span, sp(10, 19));
    assert_eq!(errors.len(), 1);
    assert_eq!(errors[0].span, sp(3, 8));
}

#[test]
fn a_body_must_end_by_returning() {
    let consts: NameMap<Type> = NameMap::new();
    let f = def("f", vec![], vec![placeholder(0, 6)], None);
    let mut errors: Vec<Diagnostic> = Vec::new();
    let r = check_fn(&mut errors, &f, &vec![], &consts, vec![], vec![], false, None, vec![Ok(TypedStmtKind::Break)], vec![]);
    assert_eq!(
        r.err().unwrap(),
        "function `f` must end by returning an Int on every path (its last statement must be a `return`, or an if/else where both branches return)"
    );
    // A body whose own statement failed is not held to the promise a second time.
    let mut errors: Vec<Diagnostic> = Vec::new();
    let r = check_fn(&mut errors, &f, &vec![], &consts, vec![], vec![], false, None, vec![Err("bad".to_string())], vec![]);
    assert!(r.is_ok());
    assert_eq!(errors.len(), 1);
    assert_eq!(errors[0].span, sp(0, 6));
    let mut errors: Vec<Diagnostic> = Vec::new();
    let tf = check_fn(&mut errors, &f, &vec![], &consts, vec![], vec![], false, None, vec![Ok(ret_one())], vec![]).ok().unwrap();
    assert_eq!(tf.name, "f");
    assert_eq!(tf.body.len(), 1);
    assert!(tf.decreases.is_none());
}

#[test]
fn a_measure_needs_recursion_and_an_int() {
    let consts: NameMap<Type> = NameMap::new();
    let clause = || Contract { cond: e(ExprKind::Var("n".to_string())), text: "n".to_string(), span: sp(1, 2) };
    let recursive = vec![st(StmtKind::Return(e(ExprKind::Call { name: "f".to_string(), arguments: vec![] })), 0, 9)];
    let f = def("f", vec![], recursive, Some(clause()));
    let mut errors: Vec<Diagnostic> = Vec::new();
    let r = check_fn(&mut errors, &f, &vec![], &consts, vec![], vec![], false, Some(te(Type::Bool, TypedExprKind::BoolLit(true))), vec![Ok(ret_one())], vec![]);
    assert_eq!(
        r.err().unwrap(),
        "a termination measure must be an Int, but `n` has type Bool. A Decimal measure can shrink forever without arriving — 1.00, 0.50, 0.25 — which is the failure `decreases` exists to rule out."
    );
    let mut errors: Vec<Diagnostic> = Vec::new();
    let tf = check_fn(&mut errors, &f, &vec![], &consts, vec![], vec![], false, Some(te(Type::Int, TypedExprKind::IntLit(3))), vec![Ok(ret_one())], vec![]).ok().unwrap();
    assert!(tf.decreases.is_some());

    let flat = def("g", vec![], vec![placeholder(0, 9)], Some(clause()));
    let mut errors: Vec<Diagnostic> = Vec::new();
    let r = check_fn(&mut errors, &flat, &vec![], &consts, vec![], vec![], false, Some(te(Type::Int, TypedExprKind::IntLit(3))), vec![Ok(ret_one())], vec![]);
    assert!(r.err().unwrap().starts_with("`g` never calls itself, so `decreases n` has nothing to check."));
}

#[test]
fn method_parameters_are_checked_in_order() {
    let consts: NameMap<Type> = NameMap::new();
    assert_eq!(check_method_params(&method("deposit", vec![param("amount", Type::Int, false)], vec![]), &consts).unwrap().len(), 1);
    assert_eq!(
        check_method_params(&method("deposit", vec![param("amount", Type::Int, true)], vec![]), &consts).unwrap_err(),
        "in `Account.deposit`, parameter `amount` is declared `mutable`, which is not available on a METHOD yet — only on a free function. If the method should change its own receiver, write `function (mutable self) deposit(...)`; otherwise make it a function, where `mutable amount: Int` works today."
    );
    assert_eq!(
        check_method_params(&method("deposit", vec![param("self", Type::Int, false)], vec![]), &consts).unwrap_err(),
        "in `Account.deposit`: `self` is already the receiver; parameters cannot reuse the name"
    );
    assert_eq!(
        check_method_params(&method("move", vec![param("a", Type::Int, false), param("a", Type::Int, false)], vec![]), &consts).unwrap_err(),
        "method `Account.move` has two parameters named `a`"
    );
    let mut marked = method("deposit", vec![param("amount", Type::Int, false)], vec![]);
    marked.parameters[0].marshal = Some(Marshal::Scaled);
    assert_eq!(
        check_method_params(&marked, &consts).unwrap_err(),
        "in `Account.deposit`, parameter `amount` is marked `as scaled`, but marshalling only exists at a foreign boundary. A Burxt-to-Burxt call passes the value itself, exactly — drop the `as scaled`."
    );
}

#[test]
fn a_method_body_must_end_by_returning() {
    let consts: NameMap<Type> = NameMap::new();
    let m = method("balance", vec![], vec![placeholder(0, 6)]);
    let mut errors: Vec<Diagnostic> = Vec::new();
    assert_eq!(
        check_method(&mut errors, &m, &consts, vec![], vec![], vec![Ok(TypedStmtKind::Continue)], vec![]).err().unwrap(),
        "method `Account.balance` must end by returning an Int on every path (its last statement must be a `return`, or an if/else where both branches return)"
    );
    let tm = check_method(&mut errors, &m, &consts, vec![], vec![], vec![Ok(ret_one())], vec![]).ok().unwrap();
    assert_eq!(tm.receiver, "Account");
    assert_eq!(tm.name, "balance");
    assert_eq!(tm.body.len(), 1);
}

#[test]
fn top_level_statements_recover_and_stop_after_a_return() {
    let mut errors: Vec<Diagnostic> = Vec::new();
    let outcomes = vec![
        (Ok(TypedStmtKind::Break), sp(0, 6)),
        (Err("unknown name `z`".to_string()), sp(7, 12)),
        (Ok(ret_one()), sp(13, 22)),
        (Ok(TypedStmtKind::Continue), sp(23, 32)),
        (Err("never looked at".to_string()), sp(33, 40)),
    ];
    let kept = lib::blocks::gather_top_level(&mut errors, outcomes);
    assert_eq!(kept.len(), 2);
    assert_eq!(errors.len(), 2);
    assert_eq!(errors[0].message, "unknown name `z`");
    assert_eq!(errors[1].message, "unreachable statement: this code comes after a `return`");
    assert_eq!(errors[1].span, sp(23, 32));
}

fn empty_program() -> lib::typed::TypedProgram {
    lib::typed::TypedProgram { structs: vec![], enums: vec![], externs: vec![], fns: vec![], methods: vec![], vtables: vec![], stmts: vec![] }
}

#[test]
fn a_program_is_handed_back_only_when_nothing_was_recorded() {
    let mut tc = lib::checker::TypeChecker::new();
    assert!(tc.check(Ok(empty_program()), sp(0, 0)).is_ok());

    let mut tc = lib::checker::TypeChecker::new();
    lib::diagnostics::record(&mut tc.errors, "late".to_string(), sp(20, 25));
    lib::diagnostics::record(&mut tc.errors, "early".to_string(), sp(3, 4));
    let ds = tc.check(Ok(empty_program()), sp(0, 0)).err().unwrap();
    assert_eq!(ds.len(), 2);
    assert_eq!(ds[0].message, "early");
    assert_eq!(ds[1].message, "late");
    assert!(tc.errors.is_empty());

    let mut tc = lib::checker::TypeChecker::new();
    let ds = tc.check(Err("class `A` is defined twice".to_string()), sp(7, 9)).err().unwrap();
    assert_eq!(ds.len(), 1);
    assert_eq!(ds[0].span, sp(7, 9));
}

fn clause(text: &str) -> Contract {
    Contract { cond: e(ExprKind::Var(text.to_string())), text: text.to_string(), span: sp(4, 9) }
}

#[test]
fn contract_clauses_are_bools_and_result_has_its_place() {
    let mut env: NameMap<(Type, bool)> = NameMap::new();
    let ok = check_clauses(&vec![clause("ready")], vec![Ok(te(Type::Bool, TypedExprKind::BoolLit(true)))], false, &env).ok().unwrap();
    assert_eq!(ok.len(), 1);
    assert_eq!(ok[0].text, "ready");
    assert_eq!(ok[0].span, sp(4, 9));
    assert_eq!(
        check_clauses(&vec![clause("n")], vec![Ok(te(Type::Int, TypedExprKind::IntLit(1)))], false, &env).err().unwrap(),
        "a contract clause must be a Bool, but `n` has type Int"
    );
    assert_eq!(
        check_clauses(&vec![clause("result > 0")], vec![Err("unknown name `result`".to_string())], false, &env).err().unwrap(),
        "`result` has no meaning in a `requires` clause: it is checked on entry, before there is a result. Use `ensures` for a claim about the return value."
    );
    assert_eq!(
        check_clauses(&vec![clause("x > 0")], vec![Err("unknown name `x`".to_string())], false, &env).err().unwrap(),
        "unknown name `x`"
    );
    assert_eq!(
        check_clauses(&vec![clause("result > 0")], vec![Err("unknown name `result`".to_string())], true, &env).err().unwrap(),
        "unknown name `result`"
    );
    env.insert("result".to_string(), (Type::Int, false));
    assert_eq!(
        check_clauses(&vec![clause("result > 0")], vec![Ok(te(Type::Bool, TypedExprKind::BoolLit(true)))], true, &env).err().unwrap(),
        "`ensures` binds the name `result` to the returned value, and something here is already called `result`. Rename it — Burxt does not shadow."
    );
}

#[test]
fn a_function_checks_its_clauses_first() {
    let consts: NameMap<Type> = NameMap::new();
    let mut f = def("f", vec![param("result", Type::Int, false)], vec![placeholder(0, 9)], None);
    f.ensures = vec![clause("result > 0")];
    let mut errors: Vec<Diagnostic> = Vec::new();
    let r = check_fn(&mut errors, &f, &vec![false], &consts, vec![], vec![Ok(te(Type::Bool, TypedExprKind::BoolLit(true)))], false, None, vec![Ok(ret_one())], vec![]);
    assert_eq!(
        r.err().unwrap(),
        "`ensures` binds the name `result` to the returned value, and something here is already called `result`. Rename it — Burxt does not shadow."
    );
    assert!(errors.is_empty());
    let mut g = def("g", vec![], vec![placeholder(0, 9)], None);
    g.ensures = vec![clause("ok")];
    let r = check_fn(&mut errors, &g, &vec![], &consts, vec![], vec![Ok(te(Type::Bool, TypedExprKind::BoolLit(true)))], true, None, vec![Ok(ret_one())], vec![]);
    assert_eq!(
        r.err().unwrap(),
        "`ensures` on `g` is not supported yet: it returns an Int, which travels through a hidden pointer into the caller's storage, so binding `result` to it needs care a scalar does not. Return a scalar, or drop the clause."
    );
    let tf = check_fn(&mut errors, &g, &vec![], &consts, vec![], vec![Ok(te(Type::Bool, TypedExprKind::BoolLit(true)))], false, None, vec![Ok(ret_one())], vec![]).ok().unwrap();
    assert_eq!(tf.ensures.len(), 1);
    assert_eq!(tf.ensures[0].text, "ok");
}
