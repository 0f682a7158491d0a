//! A two-stage front end for a JSON-like grammar: a lexer that turns a byte
//! buffer into a token stream, and a recursive-descent parser that checks
//! the stream against the grammar `Document -> Object`,
//! `Object -> '{' [Member (',' Member)*] '}'`,
//! `Member -> (String|Identifier) ':' Value`,
//! `Value -> String | Identifier | Boolean | Null | Object | Array`,
//! `Array -> '[' [Value (',' Value)*] ']'`.
//!
//! The grammar recognizes strings, bare identifiers, booleans, null,
//! objects and arrays; numeric literals are deliberately out of scope. Keys
//! may be quoted strings or bare identifiers, a deliberate leniency over
//! strict JSON.

mod token;
mod lexer;
mod parser;
mod tree;
mod laws;

pub use token::{Token, LexError, ParseError};
pub use lexer::{scan_string, scan_identifier, scan_json};
pub use parser::Parser;
pub use tree::{JsonValue, build_value, build_document};

use vstd::prelude::*;

verus! {

use crate::lexer::{spec_scan, lemma_scan_wf};
use crate::parser::spec_parse_document;
use crate::token::cursor_ok;
use crate::tree::value_matches;

/// The error of a whole-document check: either the lexer or the parser
/// rejected the input.
#[derive(Debug, Clone, Copy, PartialEq, Eq, Structural)]
pub enum DocumentError {
    Lex(LexError),
    Parse(ParseError),
}

/// What `check_document` returns on a buffer: the lexer's verdict, and on
/// a successful lex the parser's verdict on the resulting token stream.
pub open spec fn spec_check_document(s: Seq<u8>) -> Result<(), DocumentError> {
    match spec_scan(s, 0) {
        Ok(toks) => match spec_parse_document(toks, 0) {
            Ok(_) => Ok(()),
            Err(e) => Err(DocumentError::Parse(e)),
        },
        Err(e) => Err(DocumentError::Lex(e)),
    }
}

/// Lexes the buffer and parses the resulting token stream: the whole
/// in-memory transformation, from raw bytes to a verdict.
pub fn check_document(content: &[u8]) -> (r: Result<(), DocumentError>)
    requires
        content@.len() < usize::MAX,
    ensures
        r == spec_check_document(content@),
{
    match scan_json(content) {
        Ok(tokens) => {
            proof {
                lemma_scan_wf(content@, 0);
                assert(cursor_ok(tokens@, 0));
            }
            let mut parser = Parser::new(tokens.as_slice());
            match parser.parse() {
                Ok(()) => Ok(()),
                Err(e) => Err(DocumentError::Parse(e)),
            }
        },
        Err(e) => Err(DocumentError::Lex(e)),
    }
}

/// Whether `v` is the value tree of the whole document in `s`: the lexer
/// accepts `s`, the parser accepts the resulting token stream, and `v`
/// matches that stream as the document rule derives it.
pub open spec fn document_tree_matches(s: Seq<u8>, v: JsonValue) -> bool {
    match spec_scan(s, 0) {
        Ok(toks) => match spec_parse_document(toks, 0) {
            Ok(p) => value_matches(toks, 0, v, p),
            Err(_) => false,
        },
        Err(_) => false,
    }
}

/// Lexes and parses the buffer and returns the document's value tree: the
/// key/value structure itself, for downstream consumption, instead of a
/// bare verdict.
pub fn parse_document(content: &[u8]) -> (r: Result<JsonValue, DocumentError>)
    requires
        content@.len() < usize::MAX,
    ensures
        (match r {
            Ok(v) => spec_check_document(content@) == Ok::<(), DocumentError>(())
                && document_tree_matches(content@, v),
            Err(e) => spec_check_document(content@) == Err::<(), DocumentError>(e),
        }),
{
    match scan_json(content) {
        Ok(tokens) => {
            proof {
                lemma_scan_wf(content@, 0);
                assert(cursor_ok(tokens@, 0));
            }
            let mut parser = Parser::new(tokens.as_slice());
            match build_document(&mut parser) {
                Ok(v) => Ok(v),
                Err(e) => Err(DocumentError::Parse(e)),
            }
        },
        Err(e) => Err(DocumentError::Lex(e)),
    }
}

} // verus!
