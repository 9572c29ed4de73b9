use lib::matching::{arm_tag, arms_in_tag_order, bind_payload, unhandled};
use lib::names::NameMap;
use lib::ty::Type;
use lib::typed::TypedArm;

fn variants() -> Vec<(String, Vec<Type>)> {
    vec![
        ("Plus".to_string(), vec![]),
        ("Number".to_string(), vec![Type::Int]),
        ("Word".to_string(), vec![Type::String, Type::Int]),
    ]
}

fn arm(tag: u32) -> TypedArm {
    TypedArm { tag, bindings: vec![], body: vec![] }
}

fn refused<T>(r: Result<T, String>) -> String {
    match r {
        Ok(_) => panic!("accepted"),
        Err(e) => e,
    }
}

#[test]
fn arm_tags_name_variants() {
    let shown = "Token".to_string();
    assert_eq!(arm_tag(&variants(), &shown, &vec![], &"Number".to_string(), 1).unwrap(), 1);
    assert_eq!(arm_tag(&variants(), &shown, &vec![arm(1)], &"Word".to_string(), 2).unwrap(), 2);
}

#[test]
fn arm_tag_refusals() {
    let shown = "Token".to_string();
    assert_eq!(
        refused(arm_tag(&variants(), &shown, &vec![], &"_".to_string(), 0)),
        "Burxt has no `_` wildcard arm: it would silently absorb variants added later, which is the one thing exhaustive matching exists to prevent. List the remaining variants."
    );
    assert_eq!(
        refused(arm_tag(&variants(), &shown, &vec![], &"Minus".to_string(), 0)),
        "`Token` has no variant named `Minus`. Its variants are: Plus, Number, Word."
    );
    assert_eq!(refused(arm_tag(&variants(), &shown, &vec![arm(0)], &"Plus".to_string(), 0)), "`Plus` is matched twice in this `match`");
    assert_eq!(
        refused(arm_tag(&variants(), &shown, &vec![], &"Word".to_string(), 1)),
        "`Token.Word` carries 2 value(s), but this pattern names 1. Name every payload value, so nothing is silently dropped."
    );
}

#[test]
fn every_variant_must_be_handled() {
    let shown = "Token".to_string();
    assert!(unhandled(&variants(), &shown, &vec![arm(2), arm(0), arm(1)]).is_none());
    assert_eq!(
        unhandled(&variants(), &shown, &vec![arm(1)]).unwrap(),
        "this `match` on `Token` does not handle `Plus`, `Word`. Every variant must be handled — that is what makes adding a variant later a compile error instead of a silent fall-through."
    );
    assert_eq!(
        unhandled(&variants(), &shown, &vec![arm(0), arm(1)]).unwrap(),
        "this `match` on `Token` does not handle `Word`. Every variant must be handled — that is what makes adding a variant later a compile error instead of a silent fall-through."
    );
}

#[test]
fn arms_come_out_by_tag() {
    let sorted = arms_in_tag_order(vec![arm(2), arm(0), arm(1)]);
    let tags: Vec<u32> = sorted.iter().map(|a| a.tag).collect();
    assert_eq!(tags, vec![0, 1, 2]);
    assert!(arms_in_tag_order(vec![]).is_empty());
}

#[test]
fn payload_names_become_immutable_variables() {
    let consts: NameMap<Type> = NameMap::new();
    let mut env: NameMap<(Type, bool)> = NameMap::new();
    env.insert("x".to_string(), (Type::Int, true));
    let b = bind_payload(&consts, &mut env, &vec!["w".to_string(), "n".to_string()], &vec![Type::String, Type::Int]).unwrap();
    assert_eq!(b.len(), 2);
    assert_eq!(b[0].0, "w");
    assert!(b[1].1.same(&Type::Int));
    let (t, mutable) = env.get(&"w".to_string()).unwrap();
    assert!(t.same(&Type::String));
    assert!(!*mutable);
}

#[test]
fn payload_names_may_not_shadow() {
    let mut consts: NameMap<Type> = NameMap::new();
    consts.insert("LIMIT".to_string(), Type::Int);
    let mut env: NameMap<(Type, bool)> = NameMap::new();
    env.insert("x".to_string(), (Type::Int, true));
    assert_eq!(
        refused(bind_payload(&consts, &mut env, &vec!["a".to_string(), "x".to_string()], &vec![Type::Int, Type::Int])),
        "`x` is already declared — a pattern binding may not shadow it, the same rule `let` follows."
    );
    assert!(env.get(&"a".to_string()).is_none());
    assert_eq!(
        refused(bind_payload(&consts, &mut env, &vec!["a".to_string(), "a".to_string()], &vec![Type::Int, Type::Int])),
        "`a` is already declared — a pattern binding may not shadow it, the same rule `let` follows."
    );
    assert_eq!(
        refused(bind_payload(&consts, &mut env, &vec!["LIMIT".to_string()], &vec![Type::Int])),
        "`LIMIT` is already declared as a `const LIMIT: Int` — Burxt does not shadow, and a const is in scope in every function. Use a different name here."
    );
    assert!(env.get(&"a".to_string()).is_none());
}
