use jsonish::{scan_json, ParseError, Parser, Token};

#[test]
fn test_json_empty_is_invalid() {
    //A empty file is invalid json by the definition of the standard
    //we need __at least__ a empty json object
    let test_src = "";

    let tokens = scan_json(test_src.as_bytes()).unwrap();
    let parser = Parser::new(&tokens).parse();

    assert_eq!(parser.is_err(), true);
}

#[test]
fn test_json_empty_object_is_valid() {
    //A file with a empty json object is valid json
    let test_src = "{}";

    let tokens = scan_json(test_src.as_bytes()).unwrap();
    let parser = Parser::new(&tokens).parse();

    assert_eq!(parser.is_ok(), true);
}

#[test]
fn test_json_key_without_a_value_is_invalid() {
    //A json rootobject with a key that has no valid value is invalid json
    let test_src = "{\"k\":}";

    let tokens = scan_json(test_src.as_bytes()).unwrap();
    let parser = Parser::new(&tokens).parse();

    assert_eq!(parser.is_err(), true);
}

#[test]
fn test_json_key_with_value_but_no_closing_brace_is_invalid() {
    //A json rootobject with a key and a string value but a missing closing
    //curly brace is invalid json
    let test_src = "{ \"k\": \"v\" ";

    let tokens = scan_json(test_src.as_bytes()).unwrap();
    let parser = Parser::new(&tokens).parse();

    assert_eq!(parser.is_err(), true);
}

#[test]
fn test_json_key_with_string_value_is_valid() {
    //A json rootobject with a key and a string value is valid json
    let test_src = "{ \"k\": \"v\" }";

    let tokens = scan_json(test_src.as_bytes()).unwrap();
    let parser = Parser::new(&tokens).parse();

    assert_eq!(parser.is_ok(), true);
}

#[test]
fn test_json_key_with_boolean_value_is_valid() {
    //A json rootobject with a key and a boolean value of true is valid json
    //the same is true for false values
    let test_src = "{ \"k\": true }";

    let tokens = scan_json(test_src.as_bytes()).unwrap();
    let parser = Parser::new(&tokens).parse();

    assert_eq!(parser.is_ok(), true);
}

#[test]
fn test_json_key_with_null_value_is_valid() {
    //A json rootobject wit a key and a null value is valid json
    let test_src = "{ \"k\": null }";

    let tokens = scan_json(test_src.as_bytes()).unwrap();
    let parser = Parser::new(&tokens).parse();

    assert_eq!(parser.is_ok(), true);
}

#[test]
fn test_json_key_with_array_value_is_valid() {
    let test_src = "{ \"k\": [\"a\"] }";

    let tokens = scan_json(test_src.as_bytes()).unwrap();
    let parser = Parser::new(&tokens).parse();

    assert_eq!(parser.is_ok(), true);
}

#[test]
fn test_json_key_with_array_string_values_is_valid() {
    let test_src = "{ \"k\": [\"a\", \"b\"] }";

    let tokens = scan_json(test_src.as_bytes()).unwrap();
    let parser = Parser::new(&tokens).parse();

    assert_eq!(parser.is_ok(), true);
}

#[test]
fn test_json_key_with_array_mixed_values_is_valid() {
    let test_src = "{ \"k\": [\"a\", true, null] }";

    let tokens = scan_json(test_src.as_bytes()).unwrap();
    let parser = Parser::new(&tokens).parse();

    assert_eq!(parser.is_ok(), true);
}

#[test]
fn test_json_key_with_array_containing_malformed_commas_is_invalid() {
    let test_src = "{ \"k\": [\"a\",] }";

    let tokens = scan_json(test_src.as_bytes()).unwrap();
    let parser = Parser::new(&tokens).parse();

    assert_eq!(parser.is_err(), true);
}

#[test]
fn test_json_key_with_value_and_trailing_comma_is_invalid() {
    //A json rootobject with a kv pair is invalid with a trailing comma
    let test_src = "{ \"k\": \"v\", }";

    let tokens = scan_json(test_src.as_bytes()).unwrap();
    let parser = Parser::new(&tokens).parse();

    assert_eq!(parser.is_err(), true);
}

#[test]
fn test_json_key_with_value_comma_key_with_value_is_valid() {
    //A kv pair after a comma results in a valid json
    let test_src = "{ \"k\": \"v\", \"k2\": \"v2\" }";

    let tokens = scan_json(test_src.as_bytes()).unwrap();
    let parser = Parser::new(&tokens).parse();

    assert_eq!(parser.is_ok(), true);
}

fn parse_str(src: &str) -> Result<(), ParseError> {
    let tokens = scan_json(src.as_bytes()).unwrap();
    Parser::new(&tokens).parse()
}

#[test]
fn whitespace_only_inputs_fail_as_empty_document() {
    assert_eq!(parse_str(""), Err(ParseError::EmptyDocument));
    assert_eq!(parse_str(" "), Err(ParseError::EmptyDocument));
    assert_eq!(parse_str("   \t\r\n  "), Err(ParseError::EmptyDocument));
}

#[test]
fn key_without_value_fails_as_invalid_value_in_context() {
    assert_eq!(parse_str("{\"k\":}"), Err(ParseError::InvalidValueInContext));
}

#[test]
fn missing_closing_brace_is_reported_as_such() {
    assert_eq!(parse_str("{ \"k\": \"v\" "), Err(ParseError::MissingClosingBrace));
    assert_eq!(parse_str("{ \"k\": \"v\""), Err(ParseError::MissingClosingBrace));
}

#[test]
fn trailing_comma_fails_as_invalid_key() {
    // the member loop re-enters key parsing right after a comma
    assert_eq!(parse_str("{ \"k\": \"v\", }"), Err(ParseError::InvalidKey));
}

#[test]
fn trailing_comma_in_array_fails_as_invalid_value() {
    // the element loop re-enters value parsing right after a comma
    assert_eq!(parse_str("{ \"k\": [\"a\",] }"), Err(ParseError::InvalidValue));
}

#[test]
fn missing_closing_bracket_is_reported_as_such() {
    assert_eq!(parse_str("{ \"k\": [\"a\" \"b\"] }"), Err(ParseError::MissingClosingBracket));
    assert_eq!(parse_str("{ \"k\": [\"a\""), Err(ParseError::MissingClosingBracket));
}

#[test]
fn top_level_value_fails_as_invalid_value_at_top_level() {
    assert_eq!(parse_str("true"), Err(ParseError::InvalidValueAtTopLevel));
    assert_eq!(parse_str("null"), Err(ParseError::InvalidValueAtTopLevel));
    assert_eq!(parse_str("\"v\""), Err(ParseError::InvalidValueAtTopLevel));
    assert_eq!(parse_str("word"), Err(ParseError::InvalidValueAtTopLevel));
}

#[test]
fn top_level_structural_token_fails_as_invalid_symbol() {
    assert_eq!(parse_str("}"), Err(ParseError::InvalidSymbolInContext));
    assert_eq!(parse_str("["), Err(ParseError::InvalidSymbolInContext));
    assert_eq!(parse_str(":"), Err(ParseError::InvalidSymbolInContext));
    assert_eq!(parse_str(","), Err(ParseError::InvalidSymbolInContext));
}

#[test]
fn missing_colon_fails_as_invalid_symbol_in_context() {
    assert_eq!(parse_str("{ \"k\" \"v\" }"), Err(ParseError::InvalidSymbolInContext));
}

#[test]
fn object_headed_by_null_fails_as_invalid_value_in_context() {
    assert_eq!(parse_str("{ null }"), Err(ParseError::InvalidValueInContext));
}

#[test]
fn object_headed_by_boolean_fails_as_invalid_symbol() {
    assert_eq!(parse_str("{ true }"), Err(ParseError::InvalidSymbolInContext));
}

#[test]
fn open_brace_alone_fails_as_empty_document() {
    assert_eq!(parse_str("{"), Err(ParseError::EmptyDocument));
}

#[test]
fn bare_identifier_keys_and_values_are_accepted() {
    assert_eq!(parse_str("{ key: value }"), Ok(()));
    assert_eq!(parse_str("{ a_b: \"v\", c: other }"), Ok(()));
}

#[test]
fn empty_array_value_is_valid() {
    assert_eq!(parse_str("{ \"k\": [] }"), Ok(()));
}

#[test]
fn nested_object_value_is_valid() {
    assert_eq!(parse_str("{ \"k\": { \"inner\": \"v\" } }"), Ok(()));
    assert_eq!(parse_str("{ \"k\": {} }"), Ok(()));
}

#[test]
fn parsing_twice_with_fresh_cursors_agrees() {
    let srcs = [
        "{ \"k\": \"v\" }",
        "{}",
        "",
        "{ \"k\": [\"a\",] }",
        "{ \"k\": \"v\", \"k2\": \"v2\" }",
    ];
    for src in srcs {
        let tokens = scan_json(src.as_bytes()).unwrap();
        let first = Parser::new(&tokens).parse();
        let second = Parser::new(&tokens).parse();
        assert_eq!(first, second);
    }
}

#[test]
fn cursor_methods_peek_match_and_advance() {
    let tokens = scan_json(b"{ \"k\": true }").unwrap();
    let mut parser = Parser::new(&tokens);
    assert_eq!(parser.peek(), Some(Token::OpenBrace));
    assert!(parser.match_token(Token::OpenBrace));
    assert!(!parser.match_token(Token::Comma));
    assert_eq!(parser.advance(), Some(Token::OpenBrace));
    assert_eq!(parser.peek(), Some(Token::StrLit(3, 1)));
    assert_eq!(parser.advance(), Some(Token::StrLit(3, 1)));
    assert_eq!(parser.advance(), Some(Token::Colon));
    assert_eq!(parser.advance(), Some(Token::Boolean(true)));
    assert_eq!(parser.advance(), Some(Token::CloseBrace));
    assert_eq!(parser.peek(), Some(Token::EndOfInput));
}
