use jsonish::{check_document, DocumentError, LexError, ParseError};

#[test]
fn whole_document_check_accepts_a_valid_document() {
    assert_eq!(check_document(b"{ \"k\": [\"a\", \"b\"] }"), Ok(()));
    assert_eq!(check_document(b"{}"), Ok(()));
}

#[test]
fn whole_document_check_reports_lexer_errors() {
    assert_eq!(
        check_document(b"{ \"k\": 1 }"),
        Err(DocumentError::Lex(LexError::UnknownSymbol(b'1', 7)))
    );
}

#[test]
fn whole_document_check_reports_parser_errors() {
    assert_eq!(
        check_document(b"  "),
        Err(DocumentError::Parse(ParseError::EmptyDocument))
    );
    assert_eq!(
        check_document(b"{ \"k\": \"v\" "),
        Err(DocumentError::Parse(ParseError::MissingClosingBrace))
    );
}

#[test]
fn tree_building_and_validation_agree_on_every_verdict() {
    let srcs: [&[u8]; 8] = [
        b"{}",
        b"{ \"k\": \"v\" }",
        b"{ \"k\": [\"a\",] }",
        b"{ \"k\": \"v\" ",
        b"",
        b"{ key: [true, null] }",
        b"{ % }",
        b"{\"k\":}",
    ];
    for src in srcs {
        let verdict = check_document(src);
        let tree = jsonish::parse_document(src);
        assert_eq!(verdict.is_ok(), tree.is_ok(), "{:?}", src);
        assert_eq!(verdict.err(), tree.err(), "{:?}", src);
    }
}
