use lib::diagnostics::{conclude, record, take_errors, Diagnostic};
use lib::typed::Span;

fn sp(start: u32, end: u32) -> Span {
    Span { start, end }
}

#[test]
fn the_same_error_at_the_same_place_is_recorded_once() {
    let mut errors: Vec<Diagnostic> = vec![];
    record(&mut errors, "unknown variable: x".to_string(), sp(4, 5));
    record(&mut errors, "unknown variable: x".to_string(), sp(4, 5));
    record(&mut errors, "unknown variable: x".to_string(), sp(9, 10));
    record(&mut errors, "type mismatch".to_string(), sp(4, 5));
    assert_eq!(errors.len(), 3);
    assert_eq!(errors[2].message, "type mismatch");
}

#[test]
fn errors_are_handed_over_in_reading_order() {
    let mut errors: Vec<Diagnostic> = vec![];
    record(&mut errors, "third".to_string(), sp(20, 25));
    record(&mut errors, "first".to_string(), sp(3, 4));
    record(&mut errors, "second, longer".to_string(), sp(3, 9));
    record(&mut errors, "first, found later".to_string(), sp(3, 4));
    let out = take_errors(&mut errors);
    assert!(errors.is_empty());
    let messages: Vec<&str> = out.iter().map(|d| d.message.as_str()).collect();
    assert_eq!(messages, vec!["first", "first, found later", "second, longer", "third"]);
}

#[test]
fn conclude_hands_back_the_program_only_when_nothing_was_recorded() {
    let mut errors: Vec<Diagnostic> = vec![];
    let ok: Result<u32, String> = Ok(7);
    assert_eq!(conclude(&mut errors, ok, Span { start: 0, end: 0 }).ok(), Some(7));
    let mut errors: Vec<Diagnostic> = vec![];
    record(&mut errors, "late".to_string(), Span { start: 9, end: 10 });
    let ok: Result<u32, String> = Ok(7);
    let ds = conclude(&mut errors, ok, Span { start: 0, end: 0 }).err().unwrap();
    assert_eq!(ds.len(), 1);
    assert!(errors.is_empty());
}

#[test]
fn conclude_records_the_failure_that_stopped_a_pass() {
    let mut errors: Vec<Diagnostic> = vec![];
    record(&mut errors, "second".to_string(), Span { start: 9, end: 10 });
    let stopped: Result<u32, String> = Err("first".to_string());
    let ds = conclude(&mut errors, stopped, Span { start: 1, end: 2 }).err().unwrap();
    let messages: Vec<&str> = ds.iter().map(|d| d.message.as_str()).collect();
    assert_eq!(messages, vec!["first", "second"]);
    let mut errors: Vec<Diagnostic> = vec![];
    record(&mut errors, "same".to_string(), Span { start: 1, end: 2 });
    let stopped: Result<u32, String> = Err("same".to_string());
    assert_eq!(conclude(&mut errors, stopped, Span { start: 1, end: 2 }).err().unwrap().len(), 1);
}
