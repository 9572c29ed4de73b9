use lib::names::NameMap;
use lib::ops::BinOp;
use lib::probe::record_param_growth;
use lib::relay::{record_relay, relayed_sources, Position, RelayScope, RelaySource, Sources};
use lib::release::{dyn_call_grows_self, CallFacts};
use lib::storage::Layouts;
use lib::ty::Type;
use lib::typed::{TypedExpr, TypedExprKind};

fn facts() -> CallFacts {
    CallFacts {
        layouts: Layouts {
            records: NameMap::new(),
            made_records: NameMap::new(),
            enums: NameMap::new(),
            generic_records: NameMap::new(),
            generic_enums: NameMap::new(),
        },
        alloc_fns: vec![],
        relay_params: vec![],
        alloc_methods: vec![],
        relay_methods: vec![],
        impls: vec![],
        grow_self: vec![],
        extern_names: vec![],
        fn_writable: NameMap::new(),
        method_writable: vec![],
        interfaces: NameMap::new(),
    }
}

fn scope() -> RelayScope {
    let mut s = RelayScope { param_positions: NameMap::new(), relay_aliases: NameMap::new() };
    s.param_positions.insert("a".to_string(), Position { index: 0 });
    s.param_positions.insert("b".to_string(), Position { index: 1 });
    s.relay_aliases.insert("payload".to_string(), Sources { sources: vec![RelaySource::Parameter(1)] });
    s
}

fn ex(ty: Type, kind: TypedExprKind) -> TypedExpr {
    TypedExpr { ty, kind }
}

fn var(n: &str) -> TypedExpr {
    ex(Type::String, TypedExprKind::Var(n.to_string()))
}

#[test]
fn relay_a_parameter_and_the_receiver() {
    let f = facts();
    let sc = scope();
    assert_eq!(relayed_sources(&f, &sc, &var("a")), vec![RelaySource::Parameter(0)]);
    assert_eq!(relayed_sources(&f, &sc, &var("self")), vec![RelaySource::Receiver]);
    assert_eq!(relayed_sources(&f, &sc, &var("payload")), vec![RelaySource::Parameter(1)]);
    assert!(relayed_sources(&f, &sc, &var("local")).is_empty());
}

#[test]
fn relay_through_fields_and_aggregates() {
    let f = facts();
    let sc = scope();
    let field = ex(Type::String, TypedExprKind::Field { base: Box::new(var("b")), index: 0 });
    assert_eq!(relayed_sources(&f, &sc, &field), vec![RelaySource::Parameter(1)]);
    let built = ex(Type::Named("Pair".to_string()), TypedExprKind::StructLit { name: "Pair".to_string(), fields: vec![var("a"), var("b")] });
    assert_eq!(relayed_sources(&f, &sc, &built), vec![RelaySource::Parameter(0), RelaySource::Parameter(1)]);
}

#[test]
fn relay_nothing_from_a_fresh_string() {
    let f = facts();
    let sc = scope();
    let joined = ex(Type::String, TypedExprKind::Binary { op: BinOp::Add, lhs: Box::new(var("a")), rhs: Box::new(var("b")) });
    assert!(relayed_sources(&f, &sc, &joined).is_empty());
}

#[test]
fn relay_through_a_relaying_call() {
    let mut f = facts();
    f.relay_params.push(("pass".to_string(), 1));
    let sc = scope();
    let call = ex(Type::String, TypedExprKind::Call { name: "pass".to_string(), arguments: vec![var("a"), var("b")] });
    assert_eq!(relayed_sources(&f, &sc, &call), vec![RelaySource::Parameter(1)]);
}

#[test]
fn record_relay_for_a_function_and_a_method() {
    let f = facts();
    let sc = scope();
    let mut params = vec![];
    let mut methods = vec![];
    record_relay(&f, &sc, true, &"".to_string(), &"first".to_string(), &var("a"), &mut params, &mut methods);
    assert_eq!(params, vec![("first".to_string(), 0)]);
    assert!(methods.is_empty());
    record_relay(&f, &sc, true, &"Box".to_string(), &"get".to_string(), &var("self"), &mut params, &mut methods);
    record_relay(&f, &sc, true, &"Box".to_string(), &"other".to_string(), &var("b"), &mut params, &mut methods);
    assert_eq!(methods, vec![("Box".to_string(), "get".to_string(), 0), ("Box".to_string(), "other".to_string(), 2)]);
}

#[test]
fn record_relay_skips_scalars_the_top_level_and_the_real_pass() {
    let f = facts();
    let sc = scope();
    let mut params = vec![];
    let mut methods = vec![];
    let count = ex(Type::Int, TypedExprKind::Var("a".to_string()));
    record_relay(&f, &sc, true, &"".to_string(), &"count".to_string(), &count, &mut params, &mut methods);
    record_relay(&f, &sc, true, &"".to_string(), &"".to_string(), &var("a"), &mut params, &mut methods);
    record_relay(&f, &sc, false, &"".to_string(), &"first".to_string(), &var("a"), &mut params, &mut methods);
    record_relay(&f, &sc, true, &"".to_string(), &"me".to_string(), &var("self"), &mut params, &mut methods);
    assert!(params.is_empty());
    assert!(methods.is_empty());
}

fn writable() -> NameMap<Position> {
    let mut w = NameMap::new();
    w.insert("dst".to_string(), Position { index: 1 });
    w
}

#[test]
fn growth_of_a_writable_parameter_is_recorded_for_a_free_function() {
    let mut grow_self = vec![];
    let mut grow_params = vec![];
    let s = |x: &str| x.to_string();
    record_param_growth(true, &s(""), &s("fill"), false, &writable(), &s("dst"), &mut grow_self, &mut grow_params);
    assert_eq!(grow_params, vec![(s("fill"), 1)]);
    assert!(grow_self.is_empty());
    // Not a writable parameter, not probing, or the top level: nothing is recorded.
    record_param_growth(true, &s(""), &s("fill"), false, &writable(), &s("local"), &mut grow_self, &mut grow_params);
    record_param_growth(false, &s(""), &s("fill"), false, &writable(), &s("dst"), &mut grow_self, &mut grow_params);
    record_param_growth(true, &s(""), &s(""), false, &writable(), &s("dst"), &mut grow_self, &mut grow_params);
    assert_eq!(grow_params.len(), 1);
    // A method's parameters are not recorded this way.
    record_param_growth(true, &s("Buffer"), &s("fill"), true, &writable(), &s("dst"), &mut grow_self, &mut grow_params);
    assert_eq!(grow_params.len(), 1);
}

#[test]
fn growth_of_self_is_recorded_for_a_mutable_receiver() {
    let mut grow_self = vec![];
    let mut grow_params = vec![];
    let s = |x: &str| x.to_string();
    record_param_growth(true, &s("Buffer"), &s("add"), false, &writable(), &s("self"), &mut grow_self, &mut grow_params);
    assert!(grow_self.is_empty());
    record_param_growth(true, &s("Buffer"), &s("add"), true, &writable(), &s("self"), &mut grow_self, &mut grow_params);
    assert_eq!(grow_self, vec![(s("Buffer"), s("add"))]);
    assert!(grow_params.is_empty());
}

#[test]
fn a_call_through_an_interface_grows_if_any_implementation_does() {
    let mut f = facts();
    f.impls = vec![("Sink".to_string(), "Buffer".to_string()), ("Sink".to_string(), "Null".to_string())];
    f.grow_self = vec![("Buffer".to_string(), "write".to_string())];
    assert!(dyn_call_grows_self(&f, &"Sink".to_string(), &"write".to_string()));
    assert!(!dyn_call_grows_self(&f, &"Sink".to_string(), &"flush".to_string()));
    assert!(!dyn_call_grows_self(&f, &"Source".to_string(), &"write".to_string()));
}
