use lib::probe::has_region;

fn s(x: &str) -> String {
    x.to_string()
}

#[test]
fn there_is_always_somewhere_to_build() {
    let mut fns = vec![];
    let mut methods = vec![];
    assert!(has_region(false, &None, &s(""), &s("build"), &mut fns, &mut methods));
    assert!(has_region(true, &Some(s("r")), &s(""), &s("build"), &mut fns, &mut methods));
    assert!(fns.is_empty());
    assert!(methods.is_empty());
}

#[test]
fn building_with_no_region_open_allocates_in_the_caller() {
    let mut fns = vec![];
    let mut methods = vec![];
    assert!(has_region(true, &None, &s(""), &s("build"), &mut fns, &mut methods));
    assert!(has_region(true, &None, &s("Buffer"), &s("grow"), &mut fns, &mut methods));
    // The top level has no signature to carry the answer.
    assert!(has_region(true, &None, &s(""), &s(""), &mut fns, &mut methods));
    assert_eq!(fns, vec![s("build")]);
    assert_eq!(methods, vec![(s("Buffer"), s("grow"))]);
}
