use jsonish::{parse_document, DocumentError, JsonValue, LexError, ParseError, Token};

fn text(src: &str, start: usize, len: usize) -> &str {
    &src[start..start + len]
}

fn key_text<'a>(src: &'a str, key: &Token) -> &'a str {
    match key {
        Token::Identifier(st, ln) => text(src, *st, *ln),
        Token::StrLit(st, ln) => text(src, *st, *ln),
        other => panic!("not a key token: {:?}", other),
    }
}

#[test]
fn empty_object_has_zero_members() {
    let v = parse_document(b"{}").unwrap();
    match v {
        JsonValue::ObjectVal(ms) => assert_eq!(ms.len(), 0),
        other => panic!("not an object: {:?}", other),
    }
}

#[test]
fn one_member_object_has_key_k_and_value_v() {
    let src = "{ \"k\": \"v\" }";
    let v = parse_document(src.as_bytes()).unwrap();
    match v {
        JsonValue::ObjectVal(ms) => {
            assert_eq!(ms.len(), 1);
            assert_eq!(key_text(src, &ms[0].0), "k");
            match &ms[0].1 {
                JsonValue::StrVal(st, ln) => assert_eq!(text(src, *st, *ln), "v"),
                other => panic!("not a string value: {:?}", other),
            }
        },
        other => panic!("not an object: {:?}", other),
    }
}

#[test]
fn two_member_object_keeps_document_order() {
    let src = "{ \"k\": \"v\", \"k2\": \"v2\" }";
    let v = parse_document(src.as_bytes()).unwrap();
    match v {
        JsonValue::ObjectVal(ms) => {
            assert_eq!(ms.len(), 2);
            assert_eq!(key_text(src, &ms[0].0), "k");
            assert_eq!(key_text(src, &ms[1].0), "k2");
            match &ms[1].1 {
                JsonValue::StrVal(st, ln) => assert_eq!(text(src, *st, *ln), "v2"),
                other => panic!("not a string value: {:?}", other),
            }
        },
        other => panic!("not an object: {:?}", other),
    }
}

#[test]
fn array_value_holds_two_string_elements() {
    let src = "{ \"k\": [\"a\", \"b\"] }";
    let v = parse_document(src.as_bytes()).unwrap();
    match v {
        JsonValue::ObjectVal(ms) => {
            assert_eq!(ms.len(), 1);
            match &ms[0].1 {
                JsonValue::ArrayVal(es) => {
                    assert_eq!(es.len(), 2);
                    match (&es[0], &es[1]) {
                        (JsonValue::StrVal(s0, l0), JsonValue::StrVal(s1, l1)) => {
                            assert_eq!(text(src, *s0, *l0), "a");
                            assert_eq!(text(src, *s1, *l1), "b");
                        },
                        other => panic!("not two strings: {:?}", other),
                    }
                },
                other => panic!("not an array value: {:?}", other),
            }
        },
        other => panic!("not an object: {:?}", other),
    }
}

#[test]
fn nested_values_build_the_full_tree() {
    let src = "{ list: [false, null], outer: { flag: true, gap: null } }";
    let v = parse_document(src.as_bytes()).unwrap();
    match v {
        JsonValue::ObjectVal(ms) => {
            assert_eq!(ms.len(), 2);
            assert_eq!(key_text(src, &ms[0].0), "list");
            match &ms[0].1 {
                JsonValue::ArrayVal(es) => {
                    assert_eq!(es.len(), 2);
                    assert_eq!(es[0], JsonValue::BoolVal(false));
                    assert_eq!(es[1], JsonValue::NullVal);
                },
                other => panic!("not an array value: {:?}", other),
            }
            assert_eq!(key_text(src, &ms[1].0), "outer");
            match &ms[1].1 {
                JsonValue::ObjectVal(inner) => {
                    assert_eq!(inner.len(), 2);
                    assert_eq!(key_text(src, &inner[0].0), "flag");
                    assert_eq!(inner[0].1, JsonValue::BoolVal(true));
                    assert_eq!(key_text(src, &inner[1].0), "gap");
                    assert_eq!(inner[1].1, JsonValue::NullVal);
                },
                other => panic!("not an object value: {:?}", other),
            }
        },
        other => panic!("not an object: {:?}", other),
    }
}

#[test]
fn object_valued_member_ends_the_member_list() {
    // the object rule checks its closing brace without consuming it, so a
    // nested object's brace also closes the enclosing member list
    let src = "{ \"k\": { \"inner\": \"v\" } }";
    let v = parse_document(src.as_bytes()).unwrap();
    match v {
        JsonValue::ObjectVal(ms) => {
            assert_eq!(ms.len(), 1);
            assert_eq!(key_text(src, &ms[0].0), "k");
        },
        other => panic!("not an object: {:?}", other),
    }
}

#[test]
fn tree_building_reports_the_same_errors_as_validation() {
    assert_eq!(
        parse_document(b"{\"k\":}"),
        Err(DocumentError::Parse(ParseError::InvalidValueInContext))
    );
    assert_eq!(
        parse_document(b" "),
        Err(DocumentError::Parse(ParseError::EmptyDocument))
    );
    assert_eq!(
        parse_document(b"{ \"k\": 7 }"),
        Err(DocumentError::Lex(LexError::UnknownSymbol(b'7', 7)))
    );
}
