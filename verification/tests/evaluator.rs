use stacklang::runner::evaluate_line;

fn run(line: &str) -> (Vec<String>, Option<(String, String)>) {
    let (outputs, error) = evaluate_line(String::from(line));
    (outputs, error.map(|e| (e.name, e.description)))
}

#[test]
fn puts_prints_the_quoted_text() {
    let (outputs, error) = run("\"hello\" puts");
    assert_eq!(outputs, vec![String::from("hello")]);
    assert!(error.is_none());
}

#[test]
fn puts_prints_text_with_spaces() {
    let (outputs, error) = run("\"hi there\" puts");
    assert_eq!(outputs, vec![String::from("hi there")]);
    assert!(error.is_none());
}

#[test]
fn postfix_addition_prints_the_sum() {
    let (outputs, error) = run("3 4 +");
    assert_eq!(outputs, vec![String::from("7")]);
    assert!(error.is_none());
}

#[test]
fn zero_plus_zero_prints_zero() {
    let (outputs, error) = run("0 0 +");
    assert_eq!(outputs, vec![String::from("0")]);
    assert!(error.is_none());
}

#[test]
fn chained_addition_reduces_recursively() {
    // the Plus popped from the tail takes 1 as its first operand; its second
    // operand is itself a Plus, so the reduction of 2 and 3 runs first
    let (outputs, error) = run("1 + 2 3 +");
    assert_eq!(outputs, vec![String::from("5"), String::from("6")]);
    assert!(error.is_none());
}

#[test]
fn infix_addition_is_a_fatal_pop() {
    // the tail token (4) is dropped before the Plus is seen, so the reduction
    // finds only one operand at the front
    let (outputs, error) = run("3 + 4");
    assert_eq!(outputs.len(), 0);
    assert_eq!(error.unwrap().0, "EmptyStackError");
}

#[test]
fn mismatched_kinds_fail_addition() {
    let (outputs, error) = run("5 \"x\" +");
    assert_eq!(outputs.len(), 0);
    let (name, description) = error.unwrap();
    assert_eq!(name, "Mismatched types");
    assert_eq!(description, "Cannot add on 2 values of different types");
}

#[test]
fn unknown_keyword_names_the_text() {
    let (outputs, error) = run("frobnicate");
    assert_eq!(outputs.len(), 0);
    let (name, description) = error.unwrap();
    assert_eq!(name, "Unknown keyword error");
    assert_eq!(description, "No such keyword: frobnicate");
}

#[test]
fn double_dot_fails_before_any_output() {
    let (outputs, error) = run("1.2.3");
    assert_eq!(outputs.len(), 0);
    let (name, description) = error.unwrap();
    assert_eq!(name, "IllegalCharError");
    assert_eq!(description, "Found an extra dot");
}

#[test]
fn puts_on_an_empty_stack_is_fatal() {
    let (outputs, error) = run("puts");
    assert_eq!(outputs.len(), 0);
    assert_eq!(error.unwrap().0, "EmptyStackError");
}

#[test]
fn lone_plus_is_a_fatal_pop() {
    let (outputs, error) = run("+");
    assert_eq!(outputs.len(), 0);
    assert_eq!(error.unwrap().0, "EmptyStackError");
}

#[test]
fn float_operands_fail_numeric_parsing() {
    // the kinds agree, but a payload with a decimal point has no integer value
    let (outputs, error) = run("1.5 2.5 +");
    assert_eq!(outputs.len(), 0);
    assert_eq!(error.unwrap().0, "NumberParseError");
}

#[test]
fn oversized_literal_fails_numeric_parsing() {
    let (outputs, error) = run("18446744073709551616 1 +");
    assert_eq!(outputs.len(), 0);
    assert_eq!(error.unwrap().0, "NumberParseError");
}

#[test]
fn addition_overflow_is_fatal() {
    let (outputs, error) = run("18446744073709551615 1 +");
    assert_eq!(outputs.len(), 0);
    assert_eq!(error.unwrap().0, "OverflowError");
}

#[test]
fn value_tokens_alone_produce_nothing() {
    let (outputs, error) = run("3 4");
    assert_eq!(outputs.len(), 0);
    assert!(error.is_none());
    let (outputs, error) = run("\"x\" 5 2.5");
    assert_eq!(outputs.len(), 0);
    assert!(error.is_none());
}

#[test]
fn multiply_reaches_the_evaluator_as_an_unknown_keyword() {
    // `*` tokenizes to a Multiply token plus a Keyword token of the same
    // text, and the keyword is what the evaluator sees first
    let (outputs, error) = run("3 4 *");
    assert_eq!(outputs.len(), 0);
    let (name, description) = error.unwrap();
    assert_eq!(name, "Unknown keyword error");
    assert_eq!(description, "No such keyword: *");
}

#[test]
fn independent_lines_share_no_state() {
    let (first, first_error) = run("\"a\" puts");
    let (second, second_error) = run("\"b\" puts");
    assert_eq!(first, vec![String::from("a")]);
    assert_eq!(second, vec![String::from("b")]);
    assert!(first_error.is_none() && second_error.is_none());
    // a line that leaves tokens unconsumed leaks nothing into the next one
    let (leftover, leftover_error) = run("1 2 3");
    assert_eq!(leftover.len(), 0);
    assert!(leftover_error.is_none());
    let (after, after_error) = run("5 6 +");
    assert_eq!(after, vec![String::from("11")]);
    assert!(after_error.is_none());
}
