use lib::ast::{MatchArm, MatchLiteral};
use lib::scalar_match::scalar_match_arms;
use lib::ty::Type;

fn lit(variant: &str, l: MatchLiteral) -> MatchArm {
    MatchArm { variant: variant.to_string(), bindings: vec![], literal: Some(l), body: vec![] }
}

fn wild() -> MatchArm {
    MatchArm { variant: "_".to_string(), bindings: vec![], literal: None, body: vec![] }
}

#[test]
fn scalar_match_lists_literal_arms_then_the_wildcard() {
    let arms = vec![lit("1", MatchLiteral::Int(1)), lit("2", MatchLiteral::Int(2)), wild()];
    let (cases, fallback) = scalar_match_arms(&Type::Int, &arms).unwrap();
    assert_eq!(cases, vec![0, 1]);
    assert_eq!(fallback, 2);
}

#[test]
fn scalar_match_on_text_and_truth() {
    let arms = vec![lit("\"a\"", MatchLiteral::Text("a".to_string())), wild()];
    assert_eq!(scalar_match_arms(&Type::String, &arms).unwrap(), (vec![0], 1));
    let arms = vec![lit("true", MatchLiteral::Truth(true)), lit("false", MatchLiteral::Truth(false)), wild()];
    assert_eq!(scalar_match_arms(&Type::Bool, &arms).unwrap(), (vec![0, 1], 2));
}

#[test]
fn scalar_match_an_integer_literal_fits_a_decimal() {
    let arms = vec![lit("0", MatchLiteral::Int(0)), wild()];
    let t = Type::Decimal { scale: 2, rounding: None };
    assert_eq!(scalar_match_arms(&t, &arms).unwrap(), (vec![0], 1));
}

#[test]
fn scalar_match_requires_a_wildcard() {
    let arms = vec![lit("1", MatchLiteral::Int(1))];
    assert_eq!(
        scalar_match_arms(&Type::Int, &arms).unwrap_err(),
        "this `match` on Int has no `_` arm. A scalar cannot be enumerated, so a match without a catch-all would leave values with nowhere to go — which is the opposite of an enum match, where `_` is refused because listing every variant is the point."
    );
}

#[test]
fn scalar_match_wildcard_must_be_last() {
    let arms = vec![wild(), lit("1", MatchLiteral::Int(1))];
    assert_eq!(
        scalar_match_arms(&Type::Int, &arms).unwrap_err(),
        "`1` comes after the `_` arm, so it could never run. Put `_` last."
    );
}

#[test]
fn scalar_match_two_wildcards() {
    let arms = vec![lit("1", MatchLiteral::Int(1)), wild(), wild()];
    assert_eq!(scalar_match_arms(&Type::Int, &arms).unwrap_err(), "this `match` has two `_` arms");
}

#[test]
fn scalar_match_refuses_a_repeated_literal() {
    let arms = vec![lit("7", MatchLiteral::Int(7)), lit("7", MatchLiteral::Int(7)), wild()];
    assert_eq!(scalar_match_arms(&Type::Int, &arms).unwrap_err(), "`7` is matched twice in this `match`");
    let arms = vec![
        lit("\"x\"", MatchLiteral::Text("x".to_string())),
        lit("\"y\"", MatchLiteral::Text("y".to_string())),
        lit("\"x\"", MatchLiteral::Text("x".to_string())),
        wild(),
    ];
    assert_eq!(scalar_match_arms(&Type::String, &arms).unwrap_err(), "`\"x\"` is matched twice in this `match`");
}

#[test]
fn scalar_match_never_converts() {
    let arms = vec![lit("\"1\"", MatchLiteral::Text("1".to_string())), wild()];
    assert_eq!(
        scalar_match_arms(&Type::Int, &arms).unwrap_err(),
        "this `match` is on Int, but `\"1\"` is String. There is one equality in Burxt and it never converts."
    );
}

#[test]
fn scalar_match_refuses_payload_names_and_variant_names() {
    let mut arm = lit("3", MatchLiteral::Int(3));
    arm.bindings.push("x".to_string());
    assert_eq!(
        scalar_match_arms(&Type::Int, &vec![arm, wild()]).unwrap_err(),
        "`3` is a literal, so it carries nothing to name. Payload names belong to an enum variant."
    );
    let named = MatchArm { variant: "Red".to_string(), bindings: vec![], literal: None, body: vec![] };
    assert_eq!(
        scalar_match_arms(&Type::Int, &vec![named, wild()]).unwrap_err(),
        "this `match` is on Int, so `Red` is not a pattern it can have — a scalar match takes literals and `_`, not variant names."
    );
}
