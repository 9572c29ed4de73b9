use lib::bindings::check_let;
use lib::generics::Instances;
use lib::names::NameMap;
use lib::storage::Layouts;
use lib::ty::{Rounding, Type};
use lib::typed::{TypedExpr, TypedExprKind, TypedStmtKind};
use lib::validity::{Packages, TypeNames};

fn names() -> TypeNames {
    let l = Layouts {
        records: NameMap::new(),
        made_records: NameMap::new(),
        enums: NameMap::new(),
        generic_records: NameMap::new(),
        generic_enums: NameMap::new(),
    };
    TypeNames { layouts: l, interfaces: vec![] }
}

fn lit(ty: Type) -> TypedExpr {
    TypedExpr { ty, kind: TypedExprKind::IntLit(1) }
}

struct Scope {
    consts: NameMap<Type>,
    env: NameMap<(Type, bool)>,
}

impl Scope {
    fn new() -> Scope {
        let mut consts = NameMap::new();
        consts.insert("LIMIT".to_string(), Type::Int);
        let mut env = NameMap::new();
        env.insert("x".to_string(), (Type::Int, false));
        Scope { consts, env }
    }

    fn bind(&mut self, name: &str, mutable: bool, declared: Option<&Type>, array_literal: bool, value: Result<TypedExpr, String>) -> Result<TypedStmtKind, String> {
        let packages = Packages { private: NameMap::new(), ranges: vec![] };
        let inst: Instances = NameMap::new();
        let mut used = vec![];
        check_let(&self.consts, &mut self.env, &names(), &packages, 0, &mut used, &inst, true, &name.to_string(), mutable, declared, array_literal, value)
    }
}

fn refused<T>(r: Result<T, String>) -> String {
    match r {
        Ok(_) => panic!("accepted"),
        Err(e) => e,
    }
}

#[test]
fn let_binds_the_declared_type() {
    let mut s = Scope::new();
    let want = Type::Decimal { scale: 2, rounding: Some(Rounding::RoundHalfUp) };
    let r = s.bind("total", true, Some(&want), false, Ok(lit(Type::Decimal { scale: 2, rounding: None }))).unwrap();
    assert!(matches!(r, TypedStmtKind::Let { ref name, ref ty, .. } if name == "total" && ty.same(&want)));
    let (t, mutable) = s.env.get(&"total".to_string()).unwrap();
    assert!(t.same(&want));
    assert!(*mutable);
}

#[test]
fn let_without_a_type_takes_the_value_type() {
    let mut s = Scope::new();
    assert!(s.bind("n", false, None, false, Ok(lit(Type::Int))).is_ok());
    let (t, mutable) = s.env.get(&"n".to_string()).unwrap();
    assert!(t.same(&Type::Int));
    assert!(!*mutable);
}

#[test]
fn let_refusals_leave_the_scope_alone() {
    let mut s = Scope::new();
    assert_eq!(
        refused(s.bind("x", false, None, false, Ok(lit(Type::Int)))),
        "`x` is already declared — Burxt does not allow shadowing; a second `let x` would silently hide the first. Use a new name, or `x = ...` if it was declared `let mutable`."
    );
    assert!(s.env.get(&"x".to_string()).unwrap().0.same(&Type::Int));
    assert_eq!(
        refused(s.bind("LIMIT", false, None, false, Ok(lit(Type::Int)))),
        "`LIMIT` is already declared as a `const LIMIT: Int` — Burxt does not shadow, and a const is in scope in every function. Use a different name here."
    );
    assert_eq!(
        refused(s.bind("y", false, Some(&Type::Int), false, Ok(lit(Type::String)))),
        "type mismatch in `let y`: declared Int, but expression has type String"
    );
    assert!(s.env.get(&"y".to_string()).is_none());
    let fixed = Type::Array { elem: Box::new(Type::Int), len: 3 };
    assert_eq!(
        refused(s.bind("xs", false, Some(&fixed), false, Err("never looked at".to_string()))),
        "`let xs: [Int; 3]` must be initialized with an array literal, e.g. [1, 2, 3] — copying a whole array is deferred."
    );
    assert_eq!(refused(s.bind("z", false, None, false, Err("value refused".to_string()))), "value refused");
    assert!(s.env.get(&"z".to_string()).is_none());
}
