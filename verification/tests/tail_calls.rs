use lib::ast::{Expr, ExprKind};
use lib::names::NameMap;
use lib::tail_calls::{tail_call, tail_call_target};
use lib::ty::Type;
use lib::typed::{TypedExpr, TypedExprKind, TypedStmtKind};

fn call(name: &str, n: usize) -> Expr {
    let arguments = (0..n).map(|i| Expr { span: lib::typed::Span { start: 0, end: 0 }, kind: ExprKind::IntLit(i as i64) }).collect();
    Expr { span: lib::typed::Span { start: 0, end: 0 }, kind: ExprKind::Call { name: name.to_string(), arguments } }
}

fn fns() -> NameMap<(Vec<Type>, Type)> {
    let mut f = NameMap::new();
    f.insert("loop_to".to_string(), (vec![Type::Int, Type::Int], Type::Int));
    f.insert("other".to_string(), (vec![Type::Int], Type::Int));
    f.insert("boxed".to_string(), (vec![Type::Named("Box".to_string())], Type::Int));
    f
}

fn target(
    ret: Option<Type>,
    signature: Option<(&str, Vec<Type>)>,
    e: &Expr,
    region: Option<&str>,
) -> Result<(String, Vec<Type>), String> {
    let signature = signature.map(|(n, ps)| (n.to_string(), ps));
    let externs = vec!["c_abs".to_string()];
    tail_call_target(&ret, &signature, e, &region.map(|r| r.to_string()), &externs, &fns())
}

fn refused<T>(r: Result<T, String>) -> String {
    match r {
        Ok(_) => panic!("accepted"),
        Err(e) => e,
    }
}

fn here() -> Option<(&'static str, Vec<Type>)> {
    Some(("count", vec![Type::Int, Type::Int]))
}

#[test]
fn tail_call_to_a_function_of_the_same_shape() {
    let (name, ps) = target(Some(Type::Int), here(), &call("loop_to", 2), None).unwrap();
    assert_eq!(name, "loop_to");
    assert_eq!(ps.len(), 2);
}

#[test]
fn tail_call_refusals() {
    assert_eq!(refused(target(None, here(), &call("loop_to", 2), None)), "`return` only makes sense inside a function");
    assert_eq!(refused(target(Some(Type::Int), None, &call("loop_to", 2), None)), "a guaranteed tail call only makes sense inside a function");
    assert_eq!(refused(target(Some(Type::Int), here(), &Expr { span: lib::typed::Span { start: 0, end: 0 }, kind: ExprKind::IntLit(1) }, None)), "`return tail` must be followed by a call");
    assert_eq!(
        refused(target(Some(Type::Int), here(), &call("loop_to", 2), Some("turn"))),
        "`return tail` cannot leave the region `turn`: the region is released on the way out, but a tail call never returns to do it, and the arguments may point into it. Move the call outside the region, or use an ordinary `return`."
    );
    assert_eq!(
        refused(target(Some(Type::Int), here(), &call("c_abs", 1), None)),
        "`c_abs` is an `external function`, so Burxt cannot guarantee a tail call into it: the C side owns that ABI, and the width conversion Burxt does on the result has to happen after the call returns."
    );
    assert_eq!(
        refused(target(Some(Type::Int), here(), &call("nope", 0), None)),
        "unknown function `nope` — a guaranteed tail call needs a `function` declared in this program."
    );
    assert_eq!(
        refused(target(Some(Type::Int), here(), &call("other", 1), None)),
        "a guaranteed tail call reuses this frame, so `count` and `other` must have the SAME signature — `count` takes (Int, Int) -> Int, but `other` takes (Int) -> Int. Use an ordinary `return` for a call that differs."
    );
    assert_eq!(
        refused(target(Some(Type::Int), Some(("wrap", vec![Type::Named("Box".to_string())])), &call("boxed", 1), None)),
        "a guaranteed tail call is limited to scalar parameters and returns for now — `boxed` passes or returns an aggregate, which travels by hidden pointer into storage this frame owns. Use an ordinary `return`."
    );
    assert_eq!(refused(target(Some(Type::Int), here(), &call("loop_to", 1), None)), "`loop_to` takes 2 arguments, but 1 was given");
    assert_eq!(refused(target(Some(Type::Int), here(), &call("loop_to", 3), None)), "`loop_to` takes 2 arguments, but 3 were given");
}

#[test]
fn tail_call_arguments() {
    let int_lit = |n: i64| TypedExpr { ty: Type::Int, kind: TypedExprKind::IntLit(n) };
    let ps = vec![Type::Int, Type::Int];
    let r = tail_call("loop_to".to_string(), &ps, vec![Ok(int_lit(1)), Ok(int_lit(2))]).unwrap();
    assert!(matches!(r, TypedStmtKind::TailReturn { ref name, ref arguments } if name == "loop_to" && arguments.len() == 2));
    let text = TypedExpr { ty: Type::String, kind: TypedExprKind::StrLit("a".to_string()) };
    assert_eq!(
        refused(tail_call("loop_to".to_string(), &ps, vec![Ok(int_lit(1)), Ok(text)])),
        "`loop_to` expects an Int here, but this argument has type String"
    );
    assert_eq!(refused(tail_call("loop_to".to_string(), &ps, vec![Err("first".to_string()), Err("second".to_string())])), "first");
}
