use lib::compare::Fields;
use lib::names::NameMap;
use lib::storage::{check_struct_finite, embeds_by_value, may_be_region_storage, region_allocated, GenericRecord, Layouts, Variants};
use lib::ty::Type;

fn layouts() -> Layouts {
    Layouts {
        records: NameMap::new(),
        made_records: NameMap::new(),
        enums: NameMap::new(),
        generic_records: NameMap::new(),
        generic_enums: NameMap::new(),
    }
}

fn fields(list: Vec<(&str, Type)>) -> Fields {
    let mut f = Fields { fields: vec![] };
    for (n, t) in list {
        f.fields.push((n.to_string(), t));
    }
    f
}

fn named(n: &str) -> Type {
    Type::Named(n.to_string())
}

#[test]
fn storage_scalars_hold_none() {
    let l = layouts();
    assert!(!may_be_region_storage(&l, &Type::Int));
    assert!(!may_be_region_storage(&l, &Type::Bool));
    assert!(!may_be_region_storage(&l, &Type::Decimal { scale: 2, rounding: None }));
    assert!(!may_be_region_storage(&l, &Type::Width { signed: true, bits: 32 }));
    assert!(!may_be_region_storage(&l, &Type::CPointer));
}

#[test]
fn storage_strings_slices_and_handles_hold_some() {
    let l = layouts();
    assert!(may_be_region_storage(&l, &Type::String));
    assert!(may_be_region_storage(&l, &Type::Slice(Box::new(Type::Int))));
    assert!(may_be_region_storage(&l, &Type::Handle(Box::new(Type::Int))));
}

#[test]
fn storage_unknowns_answer_yes() {
    let l = layouts();
    assert!(may_be_region_storage(&l, &Type::Param("T".to_string())));
    assert!(may_be_region_storage(&l, &Type::Dyn("Shape".to_string())));
    assert!(may_be_region_storage(&l, &named("Nowhere")));
}

#[test]
fn storage_a_class_holds_what_its_fields_hold() {
    let mut l = layouts();
    l.records.insert("Point".to_string(), fields(vec![("x", Type::Int), ("y", Type::Int)]));
    l.records.insert("Label".to_string(), fields(vec![("n", Type::Int), ("text", Type::String)]));
    assert!(!may_be_region_storage(&l, &named("Point")));
    assert!(may_be_region_storage(&l, &named("Label")));
    assert!(may_be_region_storage(&l, &Type::Array { elem: Box::new(named("Label")), len: 3 }));
    assert!(!may_be_region_storage(&l, &Type::Tuple(vec![Type::Int, named("Point")])));
    assert!(may_be_region_storage(&l, &Type::Tuple(vec![Type::Int, named("Label")])));
}

#[test]
fn storage_an_enum_holds_what_its_payloads_hold() {
    let mut l = layouts();
    let mut v = Variants { variants: vec![] };
    v.variants.push(("Some".to_string(), vec![Type::Int]));
    v.variants.push(("None".to_string(), vec![]));
    l.enums.insert("MaybeInt".to_string(), v);
    let mut w = Variants { variants: vec![] };
    w.variants.push(("Ok".to_string(), vec![Type::Int]));
    w.variants.push(("Error".to_string(), vec![Type::String]));
    l.enums.insert("Outcome".to_string(), w);
    assert!(!may_be_region_storage(&l, &named("MaybeInt")));
    assert!(may_be_region_storage(&l, &named("Outcome")));
}

#[test]
fn storage_a_generic_is_asked_with_its_arguments_put_in() {
    let mut l = layouts();
    l.generic_records.insert(
        "Wrapper".to_string(),
        GenericRecord {
            parameters: vec!["T".to_string()],
            fields: vec![("t".to_string(), Type::Param("T".to_string())), ("note".to_string(), Type::String)],
        },
    );
    l.generic_records.insert(
        "Tagged".to_string(),
        GenericRecord { parameters: vec!["T".to_string()], fields: vec![("n".to_string(), Type::Int)] },
    );
    l.generic_records.insert(
        "Boxed".to_string(),
        GenericRecord { parameters: vec!["T".to_string()], fields: vec![("t".to_string(), Type::Param("T".to_string()))] },
    );
    let app = |name: &str, arg: Type| Type::Generic { name: name.to_string(), arguments: vec![arg] };
    assert!(may_be_region_storage(&l, &app("Wrapper", Type::Int)));
    assert!(!may_be_region_storage(&l, &app("Tagged", Type::String)));
    assert!(!may_be_region_storage(&l, &app("Boxed", Type::Int)));
    assert!(may_be_region_storage(&l, &app("Boxed", Type::String)));
    assert!(may_be_region_storage(&l, &app("Undeclared", Type::Int)));
}

#[test]
fn storage_a_class_met_again_answers_through_its_other_fields() {
    let mut l = layouts();
    l.records.insert("Chain".to_string(), fields(vec![("next", named("Chain")), ("n", Type::Int)]));
    l.records.insert("Rope".to_string(), fields(vec![("next", named("Rope")), ("s", Type::String)]));
    assert!(!may_be_region_storage(&l, &named("Chain")));
    assert!(may_be_region_storage(&l, &named("Rope")));
}

#[test]
fn finite_a_class_that_holds_itself_is_refused() {
    let mut l = layouts();
    l.records.insert("Node".to_string(), fields(vec![("label", Type::String), ("next", named("Node"))]));
    let mut trail = Vec::new();
    let r = check_struct_finite(&l, &"Node".to_string(), &mut trail);
    assert_eq!(
        r.unwrap_err(),
        "a `Node` cannot contain a `Node` — it would have no finite size (containment cycle: Node -> Node). \
         Hold it behind a slice (`[Node]`) instead: a slice is a pointer, so the size is finite and the recursion still works."
    );
}

#[test]
fn finite_a_slice_ends_the_walk() {
    let mut l = layouts();
    l.records.insert("Node".to_string(), fields(vec![("kids", Type::Slice(Box::new(named("Node"))))]));
    let mut trail = Vec::new();
    assert!(check_struct_finite(&l, &"Node".to_string(), &mut trail).is_ok());
    assert_eq!(trail.len(), 0);
}

#[test]
fn finite_an_array_holds_its_elements() {
    let mut l = layouts();
    l.records.insert("Grid".to_string(), fields(vec![("cells", Type::Array { elem: Box::new(named("Grid")), len: 2 })]));
    let mut trail = Vec::new();
    assert!(check_struct_finite(&l, &"Grid".to_string(), &mut trail).is_err());
}

#[test]
fn finite_a_cycle_through_an_instantiation_is_written_as_its_author_wrote_it() {
    let mut l = layouts();
    l.records.insert("Node".to_string(), fields(vec![("label", Type::String), ("next", named("Option$Node"))]));
    let mut v = Variants { variants: vec![] };
    v.variants.push(("Some".to_string(), vec![named("Node")]));
    v.variants.push(("None".to_string(), vec![]));
    l.enums.insert("Option$Node".to_string(), v);
    let mut trail = Vec::new();
    let r = check_struct_finite(&l, &"Node".to_string(), &mut trail);
    assert_eq!(
        r.unwrap_err(),
        "a `Node` cannot contain a `Node` — it would have no finite size (containment cycle: Node -> Option<Node> -> Node). \
         Hold it behind a slice (`[Node]`) instead: a slice is a pointer, so the size is finite and the recursion still works."
    );
}

#[test]
fn embeds_enums_that_hold_each_other_by_value() {
    let mut l = layouts();
    let mut a = Variants { variants: vec![] };
    a.variants.push(("Go".to_string(), vec![named("B")]));
    l.enums.insert("A".to_string(), a);
    let mut b = Variants { variants: vec![] };
    b.variants.push(("Back".to_string(), vec![named("A")]));
    l.enums.insert("B".to_string(), b);
    let mut seen = Vec::new();
    assert!(embeds_by_value(&l, &named("B"), &"A".to_string(), &mut seen));
    assert_eq!(seen.len(), 0);
}

#[test]
fn embeds_not_through_a_slice_or_an_interface_object() {
    let mut l = layouts();
    let mut json = Variants { variants: vec![] };
    json.variants.push(("List".to_string(), vec![Type::Slice(Box::new(named("Json")))]));
    json.variants.push(("Text".to_string(), vec![Type::String]));
    l.enums.insert("Json".to_string(), json);
    let mut seen = Vec::new();
    assert!(!embeds_by_value(&l, &Type::Slice(Box::new(named("Json"))), &"Json".to_string(), &mut seen));
    assert!(!embeds_by_value(&l, &Type::Dyn("Json".to_string()), &"Json".to_string(), &mut seen));
    assert!(embeds_by_value(&l, &Type::Array { elem: Box::new(named("Json")), len: 2 }, &"Json".to_string(), &mut seen));
    assert!(!embeds_by_value(&l, &named("Json"), &"Other".to_string(), &mut seen));
}

#[test]
fn region_allocated_slices_and_classes_holding_them() {
    let mut l = layouts();
    l.records.insert("Point".to_string(), fields(vec![("x", Type::Int), ("y", Type::Int)]));
    l.records.insert("Bag".to_string(), fields(vec![("n", Type::Int), ("items", Type::Slice(Box::new(Type::Int)))]));
    l.records.insert("Shelf".to_string(), fields(vec![("bag", named("Bag"))]));
    l.enums.insert("Mark".to_string(), Variants { variants: vec![("Tick".to_string(), vec![])] });
    assert!(region_allocated(&l, &Type::Slice(Box::new(Type::Int))));
    assert!(region_allocated(&l, &Type::Array { elem: Box::new(Type::Slice(Box::new(Type::Int))), len: 3 }));
    assert!(!region_allocated(&l, &Type::Array { elem: Box::new(Type::Int), len: 3 }));
    assert!(!region_allocated(&l, &named("Point")));
    assert!(region_allocated(&l, &named("Bag")));
    assert!(region_allocated(&l, &named("Shelf")));
    // An enum's payloads are scalars, and a String may be a literal: neither is always in a region.
    assert!(!region_allocated(&l, &named("Mark")));
    assert!(!region_allocated(&l, &Type::String));
}
