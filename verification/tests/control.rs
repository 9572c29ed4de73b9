use lib::control::{check_exit, check_if, check_loop_jump, check_while, region_may_open};
use lib::names::NameMap;
use lib::ty::Type;
use lib::typed::{TypedExpr, TypedExprKind, TypedStmtKind};

fn value(ty: Type) -> TypedExpr {
    TypedExpr { ty, kind: TypedExprKind::Var("c".to_string()) }
}

#[test]
fn conditions_are_bools() {
    assert!(matches!(check_if(value(Type::Bool), vec![], None), Ok(TypedStmtKind::If { .. })));
    assert!(matches!(check_while(value(Type::Bool), vec![]), Ok(TypedStmtKind::While { .. })));
    match check_if(value(Type::Int), vec![], None) {
        Err(e) => assert_eq!(e, "an `if` condition must be a Bool (e.g. a comparison), but this one has type Int"),
        Ok(_) => panic!("accepted"),
    }
    match check_while(value(Type::String), vec![]) {
        Err(e) => assert_eq!(e, "a `while` condition must be a Bool (e.g. a comparison), but this one has type String"),
        Ok(_) => panic!("accepted"),
    }
}

#[test]
fn loop_jumps_need_a_loop() {
    assert!(matches!(check_loop_jump(true, 1), Ok(TypedStmtKind::Break)));
    assert!(matches!(check_loop_jump(false, 2), Ok(TypedStmtKind::Continue)));
    assert_eq!(check_loop_jump(true, 0).err().unwrap(), "`break` only means something inside a loop: there is none here.");
    assert_eq!(check_loop_jump(false, 0).err().unwrap(), "`continue` only means something inside a loop: there is none here.");
}

#[test]
fn regions_do_not_nest() {
    let mut env: NameMap<(Type, bool)> = NameMap::new();
    env.insert("x".to_string(), (Type::Int, false));
    assert!(region_may_open(&None, &env, &"turn".to_string()).is_ok());
    assert_eq!(
        region_may_open(&Some("outer".to_string()), &env, &"turn".to_string()).unwrap_err(),
        "`region turn` cannot open inside `region outer` — nested regions are not available yet. Close the outer one first, or use a single region for both."
    );
    assert_eq!(
        region_may_open(&None, &env, &"x".to_string()).unwrap_err(),
        "`x` is already a variable, so it cannot name a region too — pick a different name."
    );
}

#[test]
fn exit_takes_a_status() {
    let code = |n: i64| TypedExpr { ty: Type::Int, kind: TypedExprKind::IntLit(n) };
    assert!(matches!(check_exit(&None, false, 1, Ok(code(3))), Ok(TypedStmtKind::Exit(_))));
    assert_eq!(
        check_exit(&None, false, 1, Ok(code(256))).err().unwrap(),
        "exit(256) cannot be reported: a process status is 0 to 255, and a shell reads only the low eight bits — so 256 would arrive as 0. Pick a status in range."
    );
    assert_eq!(
        check_exit(&None, false, 1, Ok(code(-1))).err().unwrap(),
        "exit(-1) cannot be reported: a process status is 0 to 255, and a shell reads only the low eight bits — so -1 would arrive as 255. Pick a status in range."
    );
    assert_eq!(check_exit(&None, false, 2, Err("never".to_string())).err().unwrap(), "exit(code) takes one Int — the status a shell reads");
    assert_eq!(
        check_exit(&None, false, 1, Ok(value(Type::String))).err().unwrap(),
        "exit(code) takes an Int, but this has type String"
    );
    assert!(check_exit(&Some("f".to_string()), false, 1, Ok(code(0))).err().unwrap().starts_with("`pure function f` may not exit"));
}
