use stacklang::lexer::Lexer;
use stacklang::token::TokenType;

fn tokens_of(line: &str) -> Vec<(TokenType, String)> {
    let mut lexer = Lexer::new(String::from(line));
    lexer
        .tokenize()
        .expect("tokenization should succeed")
        .into_iter()
        .map(|t| (t.token_type, t.token_value))
        .collect()
}

#[test]
fn whitespace_only_line_yields_no_tokens() {
    assert_eq!(tokens_of("   \t \r\n").len(), 0);
    assert_eq!(tokens_of(" ").len(), 0);
    assert_eq!(tokens_of("\n").len(), 0);
}

#[test]
fn empty_line_yields_no_tokens() {
    assert_eq!(tokens_of("").len(), 0);
}

#[test]
fn addition_line_tokenizes_in_source_order() {
    let ts = tokens_of("3 + 4");
    assert_eq!(ts.len(), 3);
    assert_eq!(ts[0], (TokenType::Int, String::from("3")));
    assert_eq!(ts[1], (TokenType::Plus, String::new()));
    assert_eq!(ts[2], (TokenType::Int, String::from("4")));
}

#[test]
fn integer_and_float_literals_differ_in_kind() {
    let ts = tokens_of("3");
    assert_eq!(ts, vec![(TokenType::Int, String::from("3"))]);
    let ts = tokens_of("3.0");
    assert_eq!(ts, vec![(TokenType::Float, String::from("3.0"))]);
}

#[test]
fn double_dot_literal_is_rejected() {
    let mut lexer = Lexer::new(String::from("1.2.3"));
    let err = lexer.tokenize().err().expect("a second dot must be fatal");
    assert_eq!(err.name, "IllegalCharError");
    assert_eq!(err.description, "Found an extra dot");
}

#[test]
fn double_dot_without_intervening_digit_is_rejected() {
    let mut lexer = Lexer::new(String::from("1..2"));
    let err = lexer.tokenize().err().expect("a second dot must be fatal");
    assert_eq!(err.name, "IllegalCharError");
}

#[test]
fn string_token_carries_the_quoted_payload() {
    let ts = tokens_of("\"hello\" puts");
    assert_eq!(ts.len(), 2);
    assert_eq!(ts[0], (TokenType::String, String::from("hello")));
    assert_eq!(ts[1], (TokenType::Keyword, String::from("puts")));
}

#[test]
fn empty_string_token_is_kept() {
    let ts = tokens_of("\"\"");
    assert_eq!(ts, vec![(TokenType::String, String::new())]);
}

#[test]
fn unterminated_string_runs_to_the_end_of_the_line() {
    let ts = tokens_of("\"ab");
    assert_eq!(ts, vec![(TokenType::String, String::from("ab"))]);
}

#[test]
fn multiply_is_tokenized_and_also_matched_as_a_keyword() {
    // the keyword guard does not exclude `*`, so the same character yields a
    // Multiply token and a Keyword token in one iteration
    let ts = tokens_of("3 * 4");
    assert_eq!(ts.len(), 4);
    assert_eq!(ts[1], (TokenType::Multiply, String::new()));
    assert_eq!(ts[2], (TokenType::Keyword, String::from("*")));
}

#[test]
fn plus_immediately_after_a_number_is_seen() {
    let ts = tokens_of("1+2");
    assert_eq!(
        ts,
        vec![
            (TokenType::Int, String::from("1")),
            (TokenType::Plus, String::new()),
            (TokenType::Int, String::from("2")),
        ]
    );
}

#[test]
fn character_ending_a_number_is_reclassified() {
    let ts = tokens_of("12x y");
    assert_eq!(
        ts,
        vec![
            (TokenType::Int, String::from("12")),
            (TokenType::Keyword, String::from("x")),
            (TokenType::Keyword, String::from("y")),
        ]
    );
}

#[test]
fn keyword_greedily_takes_non_whitespace() {
    let ts = tokens_of("a+b");
    assert_eq!(ts, vec![(TokenType::Keyword, String::from("a+b"))]);
}

#[test]
fn lone_plus_is_a_single_plus_token() {
    let ts = tokens_of("+");
    assert_eq!(ts, vec![(TokenType::Plus, String::new())]);
}
