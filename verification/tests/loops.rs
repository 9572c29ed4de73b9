use lib::loops::{check_for_head, check_range_head};
use lib::names::NameMap;
use lib::ty::Type;
use lib::typed::{TypedExpr, TypedExprKind};

fn scope() -> (NameMap<Type>, NameMap<(Type, bool)>) {
    let mut consts = NameMap::new();
    consts.insert("LIMIT".to_string(), Type::Int);
    let mut env = NameMap::new();
    env.insert("x".to_string(), (Type::Int, false));
    (consts, env)
}

fn value(ty: Type) -> TypedExpr {
    TypedExpr { ty, kind: TypedExprKind::Var("v".to_string()) }
}

fn int_lit(n: i64) -> TypedExpr {
    TypedExpr { ty: Type::Int, kind: TypedExprKind::IntLit(n) }
}

#[test]
fn for_walks_arrays() {
    let (c, e) = scope();
    let (_, elem) = check_for_head(&c, &e, &"item".to_string(), Ok(value(Type::Slice(Box::new(Type::String))))).unwrap();
    assert!(elem.same(&Type::String));
    let fixed = Type::Array { elem: Box::new(Type::Bool), len: 2 };
    let (_, elem) = check_for_head(&c, &e, &"b".to_string(), Ok(value(fixed))).unwrap();
    assert!(elem.same(&Type::Bool));
}

#[test]
fn for_refusals() {
    let (c, e) = scope();
    assert_eq!(
        check_for_head(&c, &e, &"x".to_string(), Err("never".to_string())).err().unwrap(),
        "`x` is already declared — Burxt does not allow shadowing, and a `for` binding is a binding. Use a different name."
    );
    assert_eq!(
        check_for_head(&c, &e, &"s".to_string(), Ok(value(Type::String))).err().unwrap(),
        "`for` iterates an array, and a String is bytes: use `byte_at(s, i)`, which says BYTE so the byte-versus-character question cannot hide."
    );
    assert_eq!(check_for_head(&c, &e, &"n".to_string(), Ok(value(Type::Int))).err().unwrap(), "`for` iterates an array, and this is an Int");
}

#[test]
fn ranges_count_up_over_ints() {
    let (c, e) = scope();
    assert!(check_range_head(&c, &e, &"i".to_string(), Ok(int_lit(0)), Ok(int_lit(3))).is_ok());
    assert_eq!(
        check_range_head(&c, &e, &"i".to_string(), Ok(int_lit(5)), Ok(int_lit(1))).err().unwrap(),
        "`5..1` counts down, and a `for` range only counts up — it would run zero times. Both bounds are literals here, so this cannot be anything but a mistake. To walk backwards, count up and subtract: `for k in 0..4 { let i = 5 - 1 - k; ... }`."
    );
    assert_eq!(
        check_range_head(&c, &e, &"i".to_string(), Ok(value(Type::String)), Ok(int_lit(1))).err().unwrap(),
        "a `for` range counts, so its start must be an Int, and this is a String. Ranges are Int-only on purpose: a Decimal range would have to invent a step, and a String range an order."
    );
    assert_eq!(
        check_range_head(&c, &e, &"LIMIT".to_string(), Ok(int_lit(0)), Ok(int_lit(1))).err().unwrap(),
        "`LIMIT` is already declared as a `const LIMIT: Int` — Burxt does not shadow, and a const is in scope in every function. Use a different name here."
    );
}
