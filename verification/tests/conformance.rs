use lib::ast::Param;
use lib::compare::Fields;
use lib::conformance::{check_impl, ImplBlock, MethodEntry, MethodHead};
use lib::generics::Instances;
use lib::names::NameMap;
use lib::release::{InterfaceSig, Signatures};
use lib::storage::Layouts;
use lib::ty::Type;

fn layouts() -> Layouts {
    let mut l = Layouts {
        records: NameMap::new(),
        made_records: NameMap::new(),
        enums: NameMap::new(),
        generic_records: NameMap::new(),
        generic_enums: NameMap::new(),
    };
    l.records.insert("Circle".to_string(), Fields { fields: vec![("r".to_string(), Type::Int)] });
    l
}

fn interfaces() -> NameMap<Signatures> {
    let mut m = NameMap::new();
    m.insert(
        "Shape".to_string(),
        Signatures {
            sigs: vec![
                InterfaceSig { name: "area".to_string(), receiver_mut: false, writable: vec![], parameters: vec![], ret: Type::Int },
                InterfaceSig {
                    name: "scale".to_string(),
                    receiver_mut: true,
                    writable: vec![false],
                    parameters: vec![Type::Int],
                    ret: Type::Bool,
                },
            ],
        },
    );
    m
}

fn head(name: &str, receiver: &str, receiver_mut: bool, parameters: Vec<Type>, ret: Type) -> MethodHead {
    MethodHead {
        name: name.to_string(),
        receiver: receiver.to_string(),
        receiver_mut,
        parameters: parameters.into_iter().map(|ty| Param { name: "x".to_string(), ty, marshal: None }).collect(),
        ret,
    }
}

fn block(methods: Vec<MethodHead>) -> ImplBlock {
    ImplBlock { interface_name: "Shape".to_string(), class_name: "Circle".to_string(), declared_on_class: false, methods }
}

fn check(im: &ImplBlock, table: &Vec<MethodEntry>, impls: &Vec<(String, String)>) -> Result<(), String> {
    let instances: Instances = NameMap::new();
    check_impl(&layouts(), &instances, &interfaces(), impls, table, im)
}

fn good_methods() -> Vec<MethodHead> {
    vec![
        head("area", "Circle", false, vec![], Type::Int),
        head("scale", "Circle", true, vec![Type::Int], Type::Bool),
    ]
}

#[test]
fn implement_block_that_matches() {
    assert!(check(&block(good_methods()), &vec![], &vec![]).is_ok());
}

#[test]
fn implement_unknowns_and_repeats() {
    let mut im = block(good_methods());
    im.interface_name = "Drawable".to_string();
    assert_eq!(
        check(&im, &vec![], &vec![]).unwrap_err(),
        "unknown interface `Drawable` — declare it with `interface Drawable { ... }`"
    );
    let mut im = block(good_methods());
    im.class_name = "Square".to_string();
    assert_eq!(
        check(&im, &vec![], &vec![]).unwrap_err(),
        "`implement Shape for Square`: unknown type `Square` — declare it with `class Square { ... }`"
    );
    assert_eq!(
        check(&block(good_methods()), &vec![], &vec![("Shape".to_string(), "Circle".to_string())]).unwrap_err(),
        "`Circle` already implements `Shape`"
    );
}

#[test]
fn implement_block_with_a_stray_method() {
    let mut ms = good_methods();
    ms.push(head("draw", "Circle", false, vec![], Type::Int));
    assert_eq!(
        check(&block(ms), &vec![], &vec![]).unwrap_err(),
        "`implement Shape for Circle` defines `draw`, which is not a method of `Shape`. Its methods are: area, scale."
    );
    let ms = vec![head("area", "Square", false, vec![], Type::Int)];
    assert_eq!(
        check(&block(ms), &vec![], &vec![]).unwrap_err(),
        "in `implement Shape for Circle`, method `area` has receiver `self: Square` — it must be `self: Circle`."
    );
}

#[test]
fn implement_block_must_match_each_method() {
    let ms = vec![head("area", "Circle", false, vec![], Type::Int)];
    assert_eq!(
        check(&block(ms), &vec![], &vec![]).unwrap_err(),
        "`implement Shape for Circle` is missing the method `scale`. Every interface method must be implemented — Burxt has no default bodies."
    );
    let ms = vec![head("area", "Circle", true, vec![], Type::Int), head("scale", "Circle", true, vec![Type::Int], Type::Bool)];
    assert_eq!(
        check(&block(ms), &vec![], &vec![]).unwrap_err(),
        "in `implement Shape for Circle`, method `area` declares `mutable self` but the interface declares `self`."
    );
    let ms = vec![head("area", "Circle", false, vec![], Type::Int), head("scale", "Circle", true, vec![], Type::Bool)];
    assert_eq!(
        check(&block(ms), &vec![], &vec![]).unwrap_err(),
        "in `implement Shape for Circle`, method `scale` takes 0 parameter(s) but the interface declares 1."
    );
    let ms = vec![head("area", "Circle", false, vec![], Type::Int), head("scale", "Circle", true, vec![Type::String], Type::Bool)];
    assert_eq!(
        check(&block(ms), &vec![], &vec![]).unwrap_err(),
        "in `implement Shape for Circle`, method `scale` parameter 1 is String but the interface declares Int."
    );
    let ms = vec![head("area", "Circle", false, vec![], Type::Bool), head("scale", "Circle", true, vec![Type::Int], Type::Bool)];
    assert_eq!(
        check(&block(ms), &vec![], &vec![]).unwrap_err(),
        "in `implement Shape for Circle`, method `area` returns Bool but the interface declares Int."
    );
}

fn entry(name: &str, receiver_mut: bool, parameters: Vec<Type>, ret: Type) -> MethodEntry {
    MethodEntry { receiver: "Circle".to_string(), name: name.to_string(), receiver_mut, parameters, ret }
}

#[test]
fn implements_clause_reads_the_class_methods() {
    let mut im = block(vec![]);
    im.declared_on_class = true;
    let table = vec![
        entry("area", false, vec![], Type::Int),
        entry("scale", true, vec![Type::Int], Type::Bool),
        entry("extra", false, vec![], Type::Int),
    ];
    assert!(check(&im, &table, &vec![]).is_ok());
    let table = vec![entry("area", false, vec![], Type::Int)];
    assert_eq!(
        check(&im, &table, &vec![]).unwrap_err(),
        "`class Circle implements Shape` is missing the method `scale`. Every interface method must be implemented — Burxt has no default bodies."
    );
    let table = vec![entry("area", false, vec![], Type::Int), entry("scale", false, vec![Type::Int], Type::Bool)];
    assert_eq!(
        check(&im, &table, &vec![]).unwrap_err(),
        "in `class Circle implements Shape`, method `scale` declares `self` but the interface declares `mutable self`."
    );
}
