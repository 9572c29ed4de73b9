use lib::checker::TypeChecker;
use lib::ops::BinOp;
use lib::report::{memory_table, MemoryRow};
use lib::ty::Type;
use lib::typed::{Span, TypedExpr, TypedExprKind, TypedFn, TypedMethod, TypedStmt, TypedStmtKind};

fn ex(ty: Type, kind: TypedExprKind) -> TypedExpr {
    TypedExpr { ty, kind }
}

fn text(t: &str) -> TypedExpr {
    ex(Type::String, TypedExprKind::StrLit(t.to_string()))
}

fn expr_stmt(e: TypedExpr) -> TypedStmt {
    TypedStmt::new(TypedStmtKind::ExprStmt(e), Span { start: 1, end: 1 })
}

fn joined() -> TypedExpr {
    ex(Type::String, TypedExprKind::Binary { op: BinOp::Add, lhs: Box::new(text("a")), rhs: Box::new(text("b")) })
}

fn row(line: usize, name: &str, causes: &[&str]) -> MemoryRow {
    MemoryRow { line, name: name.to_string(), causes: causes.iter().map(|c| c.to_string()).collect() }
}

#[test]
fn function_row_of_a_function_that_does_not_allocate() {
    let tc = TypeChecker::new();
    let r = tc.function_row(4, &"main".to_string(), &vec![expr_stmt(joined())]);
    assert_eq!(r.line, 4);
    assert_eq!(r.name, "main()");
    assert!(r.causes.is_empty());
}

#[test]
fn function_row_lists_what_allocates() {
    let mut tc = TypeChecker::new();
    tc.facts.alloc_fns = vec!["make".to_string()];
    let r = tc.function_row(7, &"make".to_string(), &vec![expr_stmt(joined()), expr_stmt(joined())]);
    assert_eq!(r.name, "make()");
    assert_eq!(r.causes, vec!["joining two Strings builds a new one".to_string()]);
}

#[test]
fn function_row_says_when_nothing_can_be_named() {
    let mut tc = TypeChecker::new();
    tc.facts.alloc_fns = vec!["make".to_string()];
    let r = tc.function_row(2, &"make".to_string(), &vec![expr_stmt(text("a"))]);
    assert_eq!(r.causes, vec!["allocates, through a call this report cannot name".to_string()]);
}

#[test]
fn method_row_names_the_receiver() {
    let mut tc = TypeChecker::new();
    tc.facts.alloc_methods = vec![("Box".to_string(), "fill".to_string())];
    let r = tc.method_row(9, &"Box".to_string(), &"fill".to_string(), &vec![expr_stmt(joined())]);
    assert_eq!(r.name, "Box.fill()");
    assert_eq!(r.causes, vec!["joining two Strings builds a new one".to_string()]);
    let quiet = tc.method_row(9, &"Box".to_string(), &"peek".to_string(), &vec![expr_stmt(joined())]);
    assert!(quiet.causes.is_empty());
}

#[test]
fn memory_table_of_nothing() {
    assert_eq!(memory_table(vec![]), "this program declares no functions\n");
}

#[test]
fn memory_table_orders_by_line_and_aligns() {
    let rows = vec![row(3, "main()", &[]), row(1, "Box.make()", &["a", "b"])];
    let expected = String::new()
        + "    1  Box.make()  a\n"
        + "                   b\n"
        + "    3  main()      nothing\n";
    assert_eq!(memory_table(rows), expected);
}

#[test]
fn memory_table_keeps_rows_of_one_line_in_order() {
    let rows = vec![row(2, "b()", &[]), row(2, "a()", &["x"]), row(123456, "c()", &[])];
    let expected = String::new() + "    2  b()  nothing\n" + "    2  a()  x\n" + "123456  c()  nothing\n";
    assert_eq!(memory_table(rows), expected);
}

fn function(name: &str, body: Vec<TypedStmt>) -> TypedFn {
    TypedFn {
        name: name.to_string(),
        parameters: vec![],
        writable: vec![],
        ret: Type::Int,
        body,
        requires: vec![],
        ensures: vec![],
        decreases: None,
        olds: vec![],
    }
}

fn method(receiver: &str, name: &str, body: Vec<TypedStmt>) -> TypedMethod {
    TypedMethod {
        receiver: receiver.to_string(),
        receiver_mut: false,
        name: name.to_string(),
        parameters: vec![],
        ret: Type::Int,
        body,
        requires: vec![],
        ensures: vec![],
        olds: vec![],
    }
}

#[test]
fn memory_report_of_a_program() {
    let mut tc = TypeChecker::new();
    tc.facts.alloc_fns = vec!["make".to_string()];
    let fns = vec![function("main", vec![]), function("make", vec![expr_stmt(joined())])];
    let methods = vec![method("Box", "size", vec![])];
    let r = tc.memory_report(&vec![9, 2], &fns, &vec![5], &methods);
    let expected = String::new()
        + "    2  make()      joining two Strings builds a new one\n"
        + "    5  Box.size()  nothing\n"
        + "    9  main()      nothing\n";
    assert_eq!(r, expected);
    assert_eq!(tc.memory_report(&vec![], &vec![], &vec![], &vec![]), "this program declares no functions\n");
}
