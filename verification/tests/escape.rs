use lib::escape::check_return;
use lib::names::NameMap;
use lib::relay::RelayScope;
use lib::release::CallFacts;
use lib::storage::Layouts;
use lib::ty::Type;
use lib::typed::{TypedExpr, TypedExprKind, TypedStmtKind};

fn facts() -> CallFacts {
    CallFacts {
        layouts: Layouts {
            records: NameMap::new(),
            made_records: NameMap::new(),
            enums: NameMap::new(),
            generic_records: NameMap::new(),
            generic_enums: NameMap::new(),
        },
        alloc_fns: vec![],
        relay_params: vec![],
        alloc_methods: vec![],
        relay_methods: vec![],
        impls: vec![],
        grow_self: vec![],
        extern_names: vec![],
        fn_writable: NameMap::new(),
        method_writable: vec![],
        interfaces: NameMap::new(),
    }
}

fn built() -> TypedExpr {
    let grows = Type::Slice(Box::new(Type::Int));
    TypedExpr { ty: grows, kind: TypedExprKind::SliceLit(vec![]) }
}

fn ret(ty: Option<Type>, region: Option<&str>, probing: bool, value: Result<TypedExpr, String>) -> Result<TypedStmtKind, String> {
    let scope = RelayScope { param_positions: NameMap::new(), relay_aliases: NameMap::new() };
    let mut relay_params = vec![];
    let mut relay_methods = vec![];
    check_return(
        &facts(),
        &scope,
        &vec![],
        probing,
        &String::new(),
        &"f".to_string(),
        &ty,
        &region.map(|r| r.to_string()),
        value,
        &mut relay_params,
        &mut relay_methods,
    )
}

fn refused(r: Result<TypedStmtKind, String>) -> String {
    match r {
        Ok(_) => panic!("accepted"),
        Err(e) => e,
    }
}

#[test]
fn return_of_the_answer_type() {
    let v = TypedExpr { ty: Type::Int, kind: TypedExprKind::IntLit(3) };
    assert!(matches!(ret(Some(Type::Int), None, false, Ok(v)), Ok(TypedStmtKind::Return(_))));
    assert!(matches!(ret(Some(Type::Slice(Box::new(Type::Int))), None, false, Ok(built())), Ok(TypedStmtKind::Return(_))));
}

#[test]
fn return_refusals() {
    let v = TypedExpr { ty: Type::String, kind: TypedExprKind::StrLit("a".to_string()) };
    assert_eq!(refused(ret(None, None, false, Ok(v))), "`return` only makes sense inside a function");
    let v = TypedExpr { ty: Type::String, kind: TypedExprKind::StrLit("a".to_string()) };
    assert_eq!(refused(ret(Some(Type::Int), None, false, Ok(v))), "this function returns Int, but the `return` expression has type String");
    assert_eq!(refused(ret(Some(Type::Int), None, false, Err("bad value".to_string()))), "bad value");
}

#[test]
fn return_may_not_leave_a_region() {
    let grows = Type::Slice(Box::new(Type::Int));
    assert_eq!(
        refused(ret(Some(grows.duplicate()), Some("turn"), false, Ok(built()))),
        "cannot return this [Int]: it was built inside a `region` block, which releases at its closing brace, so its storage would not outlive the call. Move the allocation out of the `region` block, or return a scalar summary."
    );
    assert!(ret(Some(grows), Some("turn"), true, Ok(built())).is_ok());
}
