use mpdf::tokenizer::{tokenize, Token, TokenKind, Tokenizer};

#[test]
fn empty_input_yields_only_end_of_input() {
    let tokens = tokenize("");
    assert_eq!(tokens.len(), 1);
    assert!(tokens[0].kind == TokenKind::EndOfInput);
}

#[test]
fn dimension_token_has_value_and_unit() {
    let tokens = tokenize("10px");
    assert_eq!(tokens.len(), 2);
    assert!(tokens[0].kind == TokenKind::Dimension);
    assert_eq!(tokens[0].value, "10");
    assert_eq!(tokens[0].unit, "px");
    assert!(tokens[1].kind == TokenKind::EndOfInput);
}

#[test]
fn identifier_token() {
    let tokens = tokenize("color");
    assert_eq!(tokens.len(), 2);
    assert!(tokens[0].kind == TokenKind::Identifier);
    assert_eq!(tokens[0].value, "color");
    assert!(tokens[1].kind == TokenKind::EndOfInput);
}

#[test]
fn comment_is_invisible() {
    let tokens = tokenize("/* x */color");
    assert_eq!(tokens.len(), 2);
    assert!(tokens[0].kind == TokenKind::Identifier);
    assert_eq!(tokens[0].value, "color");
}

#[test]
fn unterminated_comment_swallows_the_rest() {
    let tokens = tokenize("/* color");
    assert_eq!(tokens.len(), 1);
    assert!(tokens[0].kind == TokenKind::EndOfInput);
}

#[test]
fn every_stream_ends_in_exactly_one_end_of_input() {
    for input in ["", "a", "width: 10px; height: 3em", "# @x 'str' /*c*/ 1.5% , : ;"] {
        let tokens = tokenize(input);
        assert!(tokens.len() >= 1);
        assert!(tokens[tokens.len() - 1].kind == TokenKind::EndOfInput);
        for t in &tokens[..tokens.len() - 1] {
            assert!(t.kind != TokenKind::EndOfInput);
        }
    }
}

#[test]
fn declaration_tokens() {
    let tokens = tokenize("width: 10px;");
    let kinds: Vec<TokenKind> = tokens.iter().map(|t| t.kind).collect();
    assert_eq!(
        kinds,
        vec![
            TokenKind::Identifier,
            TokenKind::Colon,
            TokenKind::Dimension,
            TokenKind::Semicolon,
            TokenKind::EndOfInput,
        ]
    );
}

#[test]
fn function_token_consumes_parenthesis() {
    let tokens = tokenize("url(");
    assert!(tokens[0].kind == TokenKind::Function);
    assert_eq!(tokens[0].value, "url");
}

#[test]
fn hash_token_takes_following_word() {
    let tokens = tokenize("#ff0000");
    assert!(tokens[0].kind == TokenKind::Hash);
    assert_eq!(tokens[0].value, "ff0000");
}

#[test]
fn lone_hash_is_a_delimiter() {
    let tokens = tokenize("#");
    assert!(tokens[0].kind == TokenKind::Delimeter);
    assert_eq!(tokens[0].value, "#");
}

#[test]
fn at_token_keeps_the_marker() {
    let tokens = tokenize("@media");
    assert!(tokens[0].kind == TokenKind::At);
    assert_eq!(tokens[0].value, "@media");
}

#[test]
fn string_token_reads_to_closing_quote() {
    let tokens = tokenize("'hello' x");
    assert!(tokens[0].kind == TokenKind::String);
    assert_eq!(tokens[0].value, "hello");
    assert!(tokens[1].kind == TokenKind::Identifier);
}

#[test]
fn number_and_percentage_tokens() {
    let tokens = tokenize("1.5% 42 -7px");
    assert!(tokens[0].kind == TokenKind::Percentage);
    assert_eq!(tokens[0].value, "1.5");
    assert!(tokens[1].kind == TokenKind::Integer);
    assert_eq!(tokens[1].value, "42");
    assert!(tokens[2].kind == TokenKind::Dimension);
    assert_eq!(tokens[2].value, "-7");
    assert_eq!(tokens[2].unit, "px");
}

#[test]
fn number_with_second_dot_stops() {
    let tokens = tokenize("1.2.3");
    assert!(tokens[0].kind == TokenKind::Number);
    assert_eq!(tokens[0].value, "1.2");
}

#[test]
fn unknown_character_becomes_delimiter() {
    let tokens = tokenize("!");
    assert!(tokens[0].kind == TokenKind::Delimeter);
    assert_eq!(tokens[0].value, "!");
}

#[test]
fn is_int_reports_absence_of_a_decimal_point() {
    let t = Token::for_string(TokenKind::Number, String::from("1.5"));
    assert!(!t.is_int());
    let t2 = Token::for_string(TokenKind::Integer, String::from("15"));
    assert!(t2.is_int());
}

#[test]
fn simple_and_for_char_constructors() {
    let t = Token::simple(TokenKind::EndOfInput);
    assert_eq!(t.value, "");
    assert_eq!(t.unit, "");
    let c = Token::for_char(TokenKind::Comma, ',');
    assert_eq!(c.value, ",");
    let d = Token::for_dimension(String::from("3"), String::from("em"));
    assert!(d.kind == TokenKind::Dimension);
    assert_eq!(d.unit, "em");
}

#[test]
fn tokenizer_struct_runs_to_the_end() {
    let mut tk = Tokenizer::new("a b");
    let tokens = tk.tokenize();
    assert_eq!(tokens.len(), 3);
}

#[test]
fn kind_names() {
    assert_eq!(TokenKind::Identifier.to_string(), "identifier");
    assert_eq!(TokenKind::EndOfInput.to_string(), "end of input");
    assert_eq!(TokenKind::Semicolon.to_string(), ";");
}

#[test]
fn custom_property_prefix_dashes_are_consumed() {
    let tokens = tokenize("--x");
    assert!(tokens[0].kind == TokenKind::Identifier);
    assert_eq!(tokens[0].value, "x");
}

#[test]
fn letter_before_digit_scans_as_delimiter_then_number() {
    let tokens = tokenize("a1");
    assert!(tokens[0].kind == TokenKind::Delimeter);
    assert_eq!(tokens[0].value, "a");
    assert!(tokens[1].kind == TokenKind::Integer);
    assert_eq!(tokens[1].value, "1");
}

#[test]
fn whitespace_only_input_is_empty() {
    let tokens = tokenize("  \t\n  ");
    assert_eq!(tokens.len(), 1);
    assert!(tokens[0].kind == TokenKind::EndOfInput);
}

#[test]
fn newline_closes_a_string_early() {
    let tokens = tokenize("'ab\ncd'");
    assert!(tokens[0].kind == TokenKind::String);
    assert_eq!(tokens[0].value, "ab");
}
