use lib::ast::{Expr, ExprKind};
use lib::compare::{Declarations, Fields};
use lib::expressions::check_field_access;
use lib::storage::Layouts;
use lib::expressions::{
    binary_operands, check_array_lit, check_binary, check_comparison, check_indexing, check_logical, check_neg, check_not,
    check_try, check_var, coercion_target, interpolate, CheckedPart,
};
use lib::generics::Instances;
use lib::names::NameMap;
use lib::ops::{BinOp, CmpOp, LogicalOp};
use lib::storage::Variants;
use lib::ty::Type;
use lib::typed::{TypedExpr, TypedExprKind};

fn named(n: &str) -> Type {
    Type::Named(n.to_string())
}

fn ex(ty: Type, kind: TypedExprKind) -> TypedExpr {
    TypedExpr { ty, kind }
}

fn int_lit(n: i64) -> TypedExpr {
    ex(Type::Int, TypedExprKind::IntLit(n))
}

fn boolean(b: bool) -> TypedExpr {
    ex(Type::Bool, TypedExprKind::BoolLit(b))
}

fn var(ty: Type, n: &str) -> TypedExpr {
    ex(ty, TypedExprKind::Var(n.to_string()))
}

fn text(t: &str) -> TypedExpr {
    ex(Type::String, TypedExprKind::StrLit(t.to_string()))
}

fn enums() -> NameMap<Variants> {
    let mut e = NameMap::new();
    e.insert(
        "Res".to_string(),
        Variants { variants: vec![("Ok".to_string(), vec![Type::Int]), ("Error".to_string(), vec![Type::String])] },
    );
    e.insert(
        "Out".to_string(),
        Variants { variants: vec![("Done".to_string(), vec![Type::Bool]), ("Error".to_string(), vec![Type::String])] },
    );
    e.insert(
        "Other".to_string(),
        Variants { variants: vec![("Fine".to_string(), vec![]), ("Error".to_string(), vec![Type::Int])] },
    );
    e.insert("Maybe".to_string(), Variants { variants: vec![("None".to_string(), vec![]), ("Some".to_string(), vec![Type::Int])] });
    e.insert("Three".to_string(), Variants { variants: vec![("A".to_string(), vec![]), ("B".to_string(), vec![]), ("C".to_string(), vec![])] });
    e.insert("Pair".to_string(), Variants { variants: vec![("Yes".to_string(), vec![]), ("No".to_string(), vec![])] });
    e.insert("Wide".to_string(), Variants { variants: vec![("Both".to_string(), vec![Type::Int, Type::Int]), ("Error".to_string(), vec![])] });
    e
}

fn try_on(value: TypedExpr, ret: Option<Type>) -> Result<TypedExpr, String> {
    let inst: Instances = NameMap::new();
    check_try(&enums(), &inst, value, &ret)
}

#[test]
fn try_yields_the_success_payload() {
    let r = try_on(var(named("Res"), "r"), Some(named("Out"))).unwrap();
    assert!(r.ty.same(&Type::Int));
    match r.kind {
        TypedExprKind::Try { fail_tag, ok_tag, ret_enum, ret_fail_tag, .. } => {
            assert_eq!((fail_tag, ok_tag, ret_fail_tag), (1, 0, 1));
            assert_eq!(ret_enum, "Out");
        }
        _ => panic!("not a `?`"),
    }
}

#[test]
fn try_recognises_none_first() {
    let r = try_on(var(named("Maybe"), "m"), Some(named("Maybe"))).unwrap();
    assert!(r.ty.same(&Type::Int));
    assert!(matches!(r.kind, TypedExprKind::Try { fail_tag: 0, ok_tag: 1, ret_fail_tag: 0, .. }));
}

#[test]
fn try_refusals() {
    assert_eq!(
        try_on(int_lit(1), Some(named("Out"))).unwrap_err(),
        "`?` needs a value that is either a success or a failure, and this is an Int. It works on an enum with two variants, one of them `Error` or `None`."
    );
    assert_eq!(try_on(var(named("Account"), "a"), Some(named("Out"))).unwrap_err(), "`?` needs an enum with two variants, and Account is not an enum.");
    assert_eq!(
        try_on(var(named("Three"), "t"), Some(named("Out"))).unwrap_err(),
        "`?` needs an enum with exactly two variants — a success and a failure — and Three has 3. Use `match`."
    );
    assert_eq!(
        try_on(var(named("Pair"), "p"), Some(named("Out"))).unwrap_err(),
        "`?` recognises a failure by the variant's NAME — `Error` or `None` — and Pair has neither. Rename the failing variant, or use `match`."
    );
    assert_eq!(
        try_on(var(named("Wide"), "w"), Some(named("Out"))).unwrap_err(),
        "`?` yields the success variant's value, and `Wide.Both` carries 2. It must carry exactly one."
    );
    assert_eq!(
        try_on(var(named("Res"), "r"), None).unwrap_err(),
        "`?` returns the failure from the enclosing function, and a top-level statement has none to return from. Put it in a `function` that answers with a failure of its own, or use `match`."
    );
    assert_eq!(
        try_on(var(named("Res"), "r"), Some(Type::Int)).unwrap_err(),
        "`?` returns the failure from the enclosing function, which answers with Int — not something that can carry a failure. Give it a return type with an `Error` variant, or use `match`."
    );
    assert_eq!(
        try_on(var(named("Res"), "r"), Some(named("Maybe"))).unwrap_err(),
        "`?` returns `Error` from the enclosing function, and Maybe has no `Error` variant. Make the two agree, or use `match`."
    );
    assert_eq!(
        try_on(var(named("Res"), "r"), Some(named("Other"))).unwrap_err(),
        "`?` does not convert between failures: this one carries String, and the enclosing function's `Error` carries Int. Write the `match`, or make the two agree."
    );
}

#[test]
fn neg_folds_literals() {
    let r = check_neg(int_lit(5)).unwrap();
    assert!(matches!(r.kind, TypedExprKind::IntLit(-5)));
    let d = check_neg(ex(Type::Decimal { scale: 2, rounding: None }, TypedExprKind::DecimalLit { unscaled: 1999 })).unwrap();
    assert!(matches!(d.kind, TypedExprKind::DecimalLit { unscaled: -1999 }));
    assert!(d.ty.same(&Type::Decimal { scale: 2, rounding: None }));
    let v = check_neg(var(Type::Int, "x")).unwrap();
    assert!(matches!(v.kind, TypedExprKind::Neg(_)));
}

#[test]
fn neg_refusals() {
    assert_eq!(check_neg(int_lit(i64::MIN)).unwrap_err(), "integer literal too small");
    assert_eq!(
        check_neg(ex(Type::Decimal { scale: 2, rounding: None }, TypedExprKind::DecimalLit { unscaled: i64::MIN })).unwrap_err(),
        "decimal literal too small"
    );
    assert_eq!(check_neg(text("a")).unwrap_err(), "`-` needs a number, but this has type String");
}

#[test]
fn not_needs_a_bool() {
    let r = check_not(boolean(true)).unwrap();
    assert!(r.ty.same(&Type::Bool));
    assert!(matches!(r.kind, TypedExprKind::Not(_)));
    assert_eq!(
        check_not(int_lit(1)).unwrap_err(),
        "`!` needs a Bool, but this has type Int — Burxt has no truthiness, so there is nothing to negate."
    );
}

#[test]
fn logical_needs_bools_left_first() {
    let r = check_logical(LogicalOp::And, boolean(true), Ok(boolean(false))).unwrap();
    assert!(matches!(r.kind, TypedExprKind::Logical { op: LogicalOp::And, .. }));
    assert_eq!(
        check_logical(LogicalOp::Or, int_lit(1), Err("unseen".to_string())).unwrap_err(),
        "the left side of `||` must be a Bool, but it has type Int — Burxt has no truthiness."
    );
    assert_eq!(check_logical(LogicalOp::And, boolean(true), Err("right failed".to_string())).unwrap_err(), "right failed");
    assert_eq!(
        check_logical(LogicalOp::And, boolean(true), Ok(text("s"))).unwrap_err(),
        "the right side of `&&` must be a Bool, but it has type String — Burxt has no truthiness."
    );
}

#[test]
fn binary_operands_retry_only_multiplication() {
    let (l, r) = binary_operands(BinOp::Add, (Ok(int_lit(1)), Ok(int_lit(2))), (Err("x".to_string()), Err("y".to_string()))).unwrap();
    assert!(matches!(l.kind, TypedExprKind::IntLit(1)));
    assert!(matches!(r.kind, TypedExprKind::IntLit(2)));
    assert_eq!(
        binary_operands(BinOp::Add, (Err("first".to_string()), Err("second".to_string())), (Ok(int_lit(1)), Ok(int_lit(2)))).unwrap_err(),
        "first"
    );
    assert_eq!(binary_operands(BinOp::Sub, (Ok(int_lit(1)), Err("second".to_string())), (Ok(int_lit(1)), Ok(int_lit(2)))).unwrap_err(), "second");
    let (l, _) = binary_operands(BinOp::Mul, (Ok(int_lit(1)), Err("narrow".to_string())), (Ok(int_lit(7)), Ok(int_lit(2)))).unwrap();
    assert!(matches!(l.kind, TypedExprKind::IntLit(7)));
    assert_eq!(
        binary_operands(BinOp::Mul, (Ok(int_lit(1)), Err("narrow".to_string())), (Ok(int_lit(7)), Err("still".to_string()))).unwrap_err(),
        "narrow"
    );
}

#[test]
fn binary_types_by_the_arithmetic_rule() {
    let r = check_binary(BinOp::Add, int_lit(1), int_lit(2), None, true).unwrap();
    assert!(r.ty.same(&Type::Int));
    assert!(matches!(r.kind, TypedExprKind::Binary { op: BinOp::Add, .. }));
    assert!(check_binary(BinOp::Div, int_lit(1), int_lit(2), None, true).unwrap_err().starts_with("`/` on two Ints would have to round"));
}

#[test]
fn comparison_is_a_bool() {
    let decls = Declarations { classes: NameMap::new(), enums: NameMap::new(), bounds: NameMap::new() };
    let r = check_comparison(CmpOp::Lt, int_lit(1), int_lit(2), &decls).unwrap();
    assert!(r.ty.same(&Type::Bool));
    assert!(matches!(r.kind, TypedExprKind::Compare { op: CmpOp::Lt, .. }));
    assert!(check_comparison(CmpOp::Lt, int_lit(1), text("a"), &decls).is_err());
}

#[test]
fn interpolation_joins_left_to_right() {
    let parts = vec![CheckedPart::Lit("n = ".to_string()), CheckedPart::Value(int_lit(3)), CheckedPart::Value(text("!"))];
    let r = interpolate(true, parts).unwrap();
    assert!(r.ty.same(&Type::String));
    match r.kind {
        TypedExprKind::Binary { op: BinOp::Add, lhs, rhs } => {
            assert!(matches!(rhs.kind, TypedExprKind::StrLit(ref s) if s == "!"));
            match lhs.kind {
                TypedExprKind::Binary { lhs: first, rhs: second, .. } => {
                    assert!(matches!(first.kind, TypedExprKind::StrLit(ref s) if s == "n = "));
                    assert!(matches!(second.kind, TypedExprKind::ToString(_)));
                }
                _ => panic!("not joined"),
            }
        }
        _ => panic!("not joined"),
    }
}

#[test]
fn interpolation_edges() {
    let empty = interpolate(true, vec![]).unwrap();
    assert!(matches!(empty.kind, TypedExprKind::StrLit(ref s) if s.is_empty()));
    let one = interpolate(true, vec![CheckedPart::Lit("only".to_string())]).unwrap();
    assert!(matches!(one.kind, TypedExprKind::StrLit(ref s) if s == "only"));
    assert_eq!(
        interpolate(true, vec![CheckedPart::Value(var(named("Account"), "a"))]).unwrap_err(),
        "cannot interpolate an Account — only Int, Bool, String and Decimal have a display form so far."
    );
    assert!(interpolate(false, vec![]).unwrap_err().starts_with("building a String from interpolation allocates (printing one directly does not), so it needs a region"));
}

#[test]
fn variables_constants_first() {
    let mut env: NameMap<(Type, bool)> = NameMap::new();
    env.insert("x".to_string(), (Type::Int, false));
    let enums = vec![("Token".to_string(), vec!["Plus".to_string()])];
    let c = check_var(Some((Type::Int, TypedExprKind::IntLit(9))), &env, &enums, &"LIMIT".to_string()).unwrap();
    assert!(matches!(c.kind, TypedExprKind::IntLit(9)));
    let v = check_var(None, &env, &enums, &"x".to_string()).unwrap();
    assert!(v.ty.same(&Type::Int));
    assert!(matches!(v.kind, TypedExprKind::Var(ref n) if n == "x"));
    assert_eq!(check_var(None, &env, &enums, &"y".to_string()).unwrap_err(), "unknown variable: y");
    assert_eq!(
        check_var(None, &env, &enums, &"Plus".to_string()).unwrap_err(),
        "unknown variable: Plus — did you mean `Token.Plus`? Enum variants are always written with their enum."
    );
}

#[test]
fn coercion_where_an_interface_is_expected() {
    let mut env: NameMap<(Type, bool)> = NameMap::new();
    env.insert("s".to_string(), (named("Square"), false));
    env.insert("d".to_string(), (Type::Dyn("Shape".to_string()), false));
    let want = Type::Dyn("Shape".to_string());
    let of = |k: ExprKind| Expr { span: lib::typed::Span { start: 0, end: 0 }, kind: k };
    assert_eq!(coercion_target(&env, &of(ExprKind::Var("s".to_string())), Some(&want)), Some("Shape".to_string()));
    assert_eq!(coercion_target(&env, &of(ExprKind::Var("d".to_string())), Some(&want)), None);
    assert_eq!(coercion_target(&env, &of(ExprKind::Call { name: "f".to_string(), arguments: vec![] }), Some(&want)), None);
    assert_eq!(coercion_target(&env, &of(ExprKind::Var("s".to_string())), Some(&Type::Int)), None);
    assert_eq!(coercion_target(&env, &of(ExprKind::Var("s".to_string())), None), None);
}

#[test]
fn array_literals_need_their_type() {
    let fixed = Type::Array { elem: Box::new(Type::Int), len: 2 };
    let r = check_array_lit(Some(&fixed), vec![Ok(int_lit(1)), Ok(int_lit(2))]).unwrap();
    assert!(r.ty.same(&fixed));
    assert!(matches!(r.kind, TypedExprKind::ArrayLit(ref v) if v.len() == 2));
    let grows = Type::Slice(Box::new(Type::Int));
    let g = check_array_lit(Some(&grows), vec![]).unwrap();
    assert!(matches!(g.kind, TypedExprKind::SliceLit(ref v) if v.is_empty()));
    assert_eq!(
        check_array_lit(None, vec![Ok(int_lit(1))]).unwrap_err(),
        "an array literal does not say whether the array is fixed or growable, so an array binding names its type: `let xs: [Int; 3] = [1, 2, 3];` for a fixed one, or `let mutable xs: [Int] = [];` for one that grows."
    );
    assert_eq!(check_array_lit(Some(&fixed), vec![Ok(int_lit(1))]).unwrap_err(), "this literal has 1 value(s), but [Int; 2] holds exactly 2");
    assert_eq!(
        check_array_lit(Some(&fixed), vec![Ok(int_lit(1)), Ok(text("b"))]).unwrap_err(),
        "in this array literal, element 1 must be Int, but it has type String"
    );
    assert_eq!(
        check_array_lit(Some(&grows), vec![Ok(text("a")), Err("later".to_string())]).unwrap_err(),
        "in this growable array, element 0 must be Int, but it has type String"
    );
    assert_eq!(check_array_lit(Some(&grows), vec![Ok(int_lit(1)), Err("second".to_string())]).unwrap_err(), "second");
}

#[test]
fn indexing_arrays_and_growable_arrays() {
    let fixed = Type::Array { elem: Box::new(Type::Bool), len: 3 };
    let r = check_indexing(var(fixed, "xs"), Ok(int_lit(2))).unwrap();
    assert!(r.ty.same(&Type::Bool));
    assert!(matches!(r.kind, TypedExprKind::Index { len: 3, .. }));
    let grows = Type::Slice(Box::new(Type::String));
    let s = check_indexing(var(grows, "ys"), Ok(int_lit(99))).unwrap();
    assert!(s.ty.same(&Type::String));
    assert!(matches!(s.kind, TypedExprKind::SliceIndex { .. }));
}

#[test]
fn indexing_refusals() {
    let fixed = Type::Array { elem: Box::new(Type::Bool), len: 3 };
    assert_eq!(
        check_indexing(var(fixed.duplicate(), "xs"), Ok(int_lit(3))).unwrap_err(),
        "index 3 is out of bounds for [Bool; 3]: valid indexes are 0 to 2. This would always fail at runtime, so it is refused now."
    );
    assert_eq!(check_indexing(var(fixed, "xs"), Err("bad index".to_string())).unwrap_err(), "bad index");
    let grows = Type::Slice(Box::new(Type::String));
    assert_eq!(
        check_indexing(var(grows, "ys"), Ok(text("a"))).unwrap_err(),
        "an index must be an Int, but this one has type String"
    );
    assert_eq!(
        check_indexing(var(Type::Int, "n"), Err("never looked at".to_string())).unwrap_err(),
        "indexing with `[...]` needs an array, but this has type Int"
    );
}

#[test]
fn field_access_by_position() {
    let mut l = Layouts {
        records: NameMap::new(),
        made_records: NameMap::new(),
        enums: NameMap::new(),
        generic_records: NameMap::new(),
        generic_enums: NameMap::new(),
    };
    l.records.insert("Point".to_string(), Fields { fields: vec![("x".to_string(), Type::Int), ("y".to_string(), Type::Bool)] });
    let inst: Instances = NameMap::new();
    let private: NameMap<Vec<String>> = NameMap::new();
    let r = check_field_access(&l, &inst, &private, &None, var(named("Point"), "p"), &"y".to_string()).unwrap();
    assert!(r.ty.same(&Type::Bool));
    assert!(matches!(r.kind, TypedExprKind::Field { index: 1, .. }));
    assert!(check_field_access(&l, &inst, &private, &None, var(named("Point"), "p"), &"z".to_string()).is_err());
}
