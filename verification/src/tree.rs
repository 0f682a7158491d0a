//! The structured value tree: the parsed key/value structure, built and
//! returned instead of being traced as a side effect during validation.
//! Leaves carry `(start, len)` spans into the original buffer, as tokens
//! do, so no text is copied.

use vstd::prelude::*;

verus! {

use crate::token::{Token, ParseError, tok_at, lemma_cursor_advance};
use crate::parser::{
    Parser,
    spec_parse_value,
    spec_parse_members,
    spec_parse_object,
    spec_parse_array,
    spec_parse_elems,
    spec_parse_document,
};

/// A parsed value: a tagged tree of strings, identifiers, booleans, nulls,
/// objects and arrays. String and identifier leaves carry the span of
/// their text in the original buffer; an object holds its members in
/// document order, each a key token (a string or identifier literal) and a
/// value.
#[derive(Debug, PartialEq, Eq)]
pub enum JsonValue {
    StrVal(usize, usize),
    IdentVal(usize, usize),
    BoolVal(bool),
    NullVal,
    ObjectVal(Vec<(Token, JsonValue)>),
    ArrayVal(Vec<JsonValue>),
}

/// Whether `v` is the value the grammar derives from the tokens
/// `[pos, end)`. A leaf is its one token; an object's span runs from its
/// `{` to the position of its closing brace, which the object rule leaves
/// unconsumed; an array's span runs from its `[` past its consumed `]`.
pub open spec fn value_matches(toks: Seq<Token>, pos: int, v: JsonValue, end: int) -> bool
    decreases v, 0int,
{
    match v {
        JsonValue::StrVal(st, ln) => tok_at(toks, pos) == Token::StrLit(st, ln) && end == pos + 1,
        JsonValue::IdentVal(st, ln) => tok_at(toks, pos) == Token::Identifier(st, ln) && end == pos
            + 1,
        JsonValue::BoolVal(b) => tok_at(toks, pos) == Token::Boolean(b) && end == pos + 1,
        JsonValue::NullVal => tok_at(toks, pos) == Token::Null && end == pos + 1,
        JsonValue::ObjectVal(ms) => tok_at(toks, pos) == Token::OpenBrace && tok_at(toks, end)
            == Token::CloseBrace && (if ms@.len() == 0 {
            end == pos + 1
        } else {
            member_seq_match(toks, pos + 1, ms@, 0, end)
        }),
        JsonValue::ArrayVal(es) => tok_at(toks, pos) == Token::OpenBracket && (if es@.len() == 0 {
            tok_at(toks, pos + 1) == Token::CloseBracket && end == pos + 2
        } else {
            elem_seq_match(toks, pos + 1, es@, 0, end)
        }),
    }
}

/// Whether the members `ms[i..]` are the member list the grammar derives
/// from the tokens `[pos, end)`: each member a key, a colon and a value,
/// the members separated by commas, and `end` the position of the object's
/// closing brace.
pub open spec fn member_seq_match(
    toks: Seq<Token>,
    pos: int,
    ms: Seq<(Token, JsonValue)>,
    i: int,
    end: int,
) -> bool
    decreases ms, ms.len() - i,
{
    0 <= i < ms.len() && tok_at(toks, pos) == ms[i].0 && (ms[i].0 matches Token::Identifier(_, _)
        || ms[i].0 matches Token::StrLit(_, _)) && tok_at(toks, pos + 1) == Token::Colon && match
        spec_parse_value(toks, pos + 2) {
        Ok(p) => value_matches(toks, pos + 2, ms[i].1, p) && (if tok_at(toks, p) == Token::Comma {
            member_seq_match(toks, p + 1, ms, i + 1, end)
        } else {
            i == ms.len() - 1 && end == p
        }),
        Err(_) => false,
    }
}

/// Whether the elements `es[i..]` are the element list the grammar derives
/// from the tokens `[pos, end)`: values separated by commas, then the
/// closing bracket, consumed, so that `end` stands just past it.
pub open spec fn elem_seq_match(
    toks: Seq<Token>,
    pos: int,
    es: Seq<JsonValue>,
    i: int,
    end: int,
) -> bool
    decreases es, es.len() - i,
{
    0 <= i < es.len() && match spec_parse_value(toks, pos) {
        Ok(p) => value_matches(toks, pos, es[i], p) && (if tok_at(toks, p) == Token::Comma {
            elem_seq_match(toks, p + 1, es, i + 1, end)
        } else {
            tok_at(toks, p) == Token::CloseBracket && i == es.len() - 1 && end == p + 1
        }),
        Err(_) => false,
    }
}

/// Matching a member tail is indifferent to members before it: prepending
/// one member shifts the index by one.
proof fn lemma_member_seq_shift(
    toks: Seq<Token>,
    pos: int,
    m: (Token, JsonValue),
    ms: Seq<(Token, JsonValue)>,
    i: int,
    end: int,
)
    requires
        0 <= i,
    ensures
        member_seq_match(toks, pos, ms, i, end) == member_seq_match(
            toks,
            pos,
            seq![m] + ms,
            i + 1,
            end,
        ),
    decreases ms.len() - i,
{
    let ns = seq![m] + ms;
    if i < ms.len() {
        assert(ns[i + 1] == ms[i]);
        match spec_parse_value(toks, pos + 2) {
            Ok(p) => {
                if tok_at(toks, p) == Token::Comma {
                    lemma_member_seq_shift(toks, p + 1, m, ms, i + 1, end);
                }
            },
            Err(_) => {},
        }
    }
}

/// Matching an element tail is indifferent to elements before it.
proof fn lemma_elem_seq_shift(
    toks: Seq<Token>,
    pos: int,
    e: JsonValue,
    es: Seq<JsonValue>,
    i: int,
    end: int,
)
    requires
        0 <= i,
    ensures
        elem_seq_match(toks, pos, es, i, end) == elem_seq_match(toks, pos, seq![e] + es, i + 1, end),
    decreases es.len() - i,
{
    let ns = seq![e] + es;
    if i < es.len() {
        assert(ns[i + 1] == es[i]);
        match spec_parse_value(toks, pos) {
            Ok(p) => {
                if tok_at(toks, p) == Token::Comma {
                    lemma_elem_seq_shift(toks, p + 1, e, es, i + 1, end);
                }
            },
            Err(_) => {},
        }
    }
}


/// Builds the value at the cursor: the value rule, returning the parsed
/// value itself. On success the cursor stands after the value.
pub fn build_value(p: &mut Parser) -> (r: Result<JsonValue, ParseError>)
    requires
        old(p).wf(),
    ensures
        final(p).tokens@ == old(p).tokens@,
        old(p).position <= final(p).position <= final(p).tokens@.len(),
        (match r {
            Ok(v) => spec_parse_value(old(p).stream(), old(p).position as int)
                == Ok::<int, ParseError>(final(p).position as int) && value_matches(
                old(p).stream(),
                old(p).position as int,
                v,
                final(p).position as int,
            ) && final(p).wf() && old(p).position < final(p).position,
            Err(e) => spec_parse_value(old(p).stream(), old(p).position as int)
                == Err::<int, ParseError>(e),
        }),
    decreases p.tokens@.len() - p.position, 0int,
{
    let ghost toks = p.tokens@;
    let ghost pos0 = p.position as int;
    match p.advance() {
        Some(Token::StrLit(st, ln)) => {
            proof {
                lemma_cursor_advance(toks, pos0);
            }
            Ok(JsonValue::StrVal(st, ln))
        },
        Some(Token::Identifier(st, ln)) => {
            proof {
                lemma_cursor_advance(toks, pos0);
            }
            Ok(JsonValue::IdentVal(st, ln))
        },
        Some(Token::Boolean(b)) => {
            proof {
                lemma_cursor_advance(toks, pos0);
            }
            Ok(JsonValue::BoolVal(b))
        },
        Some(Token::Null) => {
            proof {
                lemma_cursor_advance(toks, pos0);
            }
            Ok(JsonValue::NullVal)
        },
        Some(Token::OpenBrace) => {
            proof {
                lemma_cursor_advance(toks, pos0);
            }
            match build_object_body(p) {
                Ok(ms) => Ok(JsonValue::ObjectVal(ms)),
                Err(e) => Err(e),
            }
        },
        Some(Token::OpenBracket) => {
            proof {
                lemma_cursor_advance(toks, pos0);
            }
            match build_array_body(p) {
                Ok(es) => Ok(JsonValue::ArrayVal(es)),
                Err(e) => Err(e),
            }
        },
        _ => Err(ParseError::InvalidValue),
    }
}

/// Builds an object's members, the cursor standing just after the `{`. On
/// success the cursor stands at the closing brace, checked but, as in the
/// object rule, not consumed.
fn build_object_body(p: &mut Parser) -> (r: Result<Vec<(Token, JsonValue)>, ParseError>)
    requires
        old(p).wf(),
    ensures
        final(p).tokens@ == old(p).tokens@,
        old(p).position <= final(p).position <= final(p).tokens@.len(),
        (match r {
            Ok(ms) => spec_parse_object(old(p).stream(), old(p).position as int)
                == Ok::<int, ParseError>(final(p).position as int) && tok_at(
                old(p).stream(),
                final(p).position as int,
            ) == Token::CloseBrace && (if ms@.len() == 0 {
                final(p).position == old(p).position
            } else {
                member_seq_match(
                    old(p).stream(),
                    old(p).position as int,
                    ms@,
                    0,
                    final(p).position as int,
                )
            }) && final(p).wf(),
            Err(e) => spec_parse_object(old(p).stream(), old(p).position as int)
                == Err::<int, ParseError>(e),
        }),
    decreases p.tokens@.len() - p.position, 1int,
{
    match p.peek() {
        Some(Token::CloseBrace) => Ok(Vec::new()),
        Some(Token::Identifier(_, _)) | Some(Token::StrLit(_, _)) => {
            let ms = match build_members(p) {
                Ok(ms) => ms,
                Err(e) => {
                    return Err(e);
                },
            };
            if !p.match_token(Token::CloseBrace) {
                return Err(ParseError::MissingClosingBrace);
            }
            Ok(ms)
        },
        Some(Token::Null) => Err(ParseError::InvalidValueInContext),
        Some(Token::EndOfInput) => Err(ParseError::EmptyDocument),
        None => Err(ParseError::EmptyDocument),
        _ => Err(ParseError::InvalidSymbolInContext),
    }
}

/// Builds a member list, the cursor standing at its first key. On success
/// the cursor stands where the object rule expects the closing brace.
fn build_members(p: &mut Parser) -> (r: Result<Vec<(Token, JsonValue)>, ParseError>)
    requires
        old(p).wf(),
    ensures
        final(p).tokens@ == old(p).tokens@,
        old(p).position <= final(p).position <= final(p).tokens@.len(),
        (match r {
            Ok(ms) => spec_parse_members(old(p).stream(), old(p).position as int)
                == Ok::<int, ParseError>(final(p).position as int) && ms@.len() >= 1
                && member_seq_match(
                old(p).stream(),
                old(p).position as int,
                ms@,
                0,
                final(p).position as int,
            ) && final(p).wf() && old(p).position + 3 <= final(p).position,
            Err(e) => spec_parse_members(old(p).stream(), old(p).position as int)
                == Err::<int, ParseError>(e),
        }),
    decreases p.tokens@.len() - p.position, 0int,
{
    let ghost toks = p.tokens@;
    let ghost kpos = p.position as int;
    let key = match p.advance() {
        Some(Token::Identifier(st, ln)) => Token::Identifier(st, ln),
        Some(Token::StrLit(st, ln)) => Token::StrLit(st, ln),
        _ => {
            return Err(ParseError::InvalidKey);
        },
    };
    proof {
        lemma_cursor_advance(toks, kpos);
    }
    if !p.match_token(Token::Colon) {
        return Err(ParseError::InvalidSymbolInContext);
    }
    p.advance();
    proof {
        lemma_cursor_advance(toks, kpos + 1);
    }
    let val = match p.advance() {
        Some(Token::Identifier(st, ln)) => {
            proof {
                lemma_cursor_advance(toks, kpos + 2);
            }
            JsonValue::IdentVal(st, ln)
        },
        Some(Token::StrLit(st, ln)) => {
            proof {
                lemma_cursor_advance(toks, kpos + 2);
            }
            JsonValue::StrVal(st, ln)
        },
        Some(Token::Boolean(b)) => {
            proof {
                lemma_cursor_advance(toks, kpos + 2);
            }
            JsonValue::BoolVal(b)
        },
        Some(Token::Null) => {
            proof {
                lemma_cursor_advance(toks, kpos + 2);
            }
            JsonValue::NullVal
        },
        Some(Token::OpenBrace) => {
            proof {
                lemma_cursor_advance(toks, kpos + 2);
            }
            match build_object_body(p) {
                Ok(ms) => JsonValue::ObjectVal(ms),
                Err(e) => {
                    return Err(e);
                },
            }
        },
        Some(Token::OpenBracket) => {
            proof {
                lemma_cursor_advance(toks, kpos + 2);
            }
            match build_array_body(p) {
                Ok(es) => JsonValue::ArrayVal(es),
                Err(e) => {
                    return Err(e);
                },
            }
        },
        _ => {
            return Err(ParseError::InvalidValueInContext);
        },
    };
    let ghost vend = p.position as int;
    proof {
        assert(value_matches(toks, kpos + 2, val, vend));
        assert(spec_parse_value(toks, kpos + 2) == Ok::<int, ParseError>(vend));
    }
    if !p.match_token(Token::Comma) {
        let mut ms: Vec<(Token, JsonValue)> = Vec::new();
        ms.push((key, val));
        proof {
            assert(ms@ == seq![(key, val)]);
            assert(member_seq_match(toks, kpos, ms@, 0, vend));
            assert(spec_parse_members(toks, kpos) == Ok::<int, ParseError>(vend));
        }
        return Ok(ms);
    }
    p.advance();
    proof {
        lemma_cursor_advance(toks, vend);
    }
    let rest = match build_members(p) {
        Ok(ms) => ms,
        Err(e) => {
            return Err(e);
        },
    };
    let ghost rest_view = rest@;
    let ghost end = p.position as int;
    let mut ms = rest;
    ms.insert(0, (key, val));
    proof {
        assert(ms@ =~= seq![(key, val)] + rest_view);
        lemma_member_seq_shift(toks, vend + 1, (key, val), rest_view, 0, end);
        assert(member_seq_match(toks, vend + 1, ms@, 1, end));
        assert(member_seq_match(toks, kpos, ms@, 0, end));
        assert(spec_parse_members(toks, kpos) == Ok::<int, ParseError>(end));
    }
    Ok(ms)
}

/// Builds an array's elements, the cursor standing just after the `[`. On
/// success the cursor stands past the consumed `]`.
fn build_array_body(p: &mut Parser) -> (r: Result<Vec<JsonValue>, ParseError>)
    requires
        old(p).wf(),
    ensures
        final(p).tokens@ == old(p).tokens@,
        old(p).position <= final(p).position <= final(p).tokens@.len(),
        (match r {
            Ok(es) => spec_parse_array(old(p).stream(), old(p).position as int)
                == Ok::<int, ParseError>(final(p).position as int) && (if es@.len() == 0 {
                tok_at(old(p).stream(), old(p).position as int) == Token::CloseBracket
                    && final(p).position == old(p).position + 1
            } else {
                elem_seq_match(
                    old(p).stream(),
                    old(p).position as int,
                    es@,
                    0,
                    final(p).position as int,
                )
            }) && final(p).wf() && old(p).position < final(p).position,
            Err(e) => spec_parse_array(old(p).stream(), old(p).position as int)
                == Err::<int, ParseError>(e),
        }),
    decreases p.tokens@.len() - p.position, 3int,
{
    let ghost toks = p.tokens@;
    let ghost pos0 = p.position as int;
    if p.match_token(Token::CloseBracket) {
        p.advance();
        proof {
            lemma_cursor_advance(toks, pos0);
        }
        return Ok(Vec::new());
    }
    build_elements(p)
}

/// Builds a non-empty array's element list, the cursor standing at its
/// first value. On success the cursor stands past the consumed `]`.
fn build_elements(p: &mut Parser) -> (r: Result<Vec<JsonValue>, ParseError>)
    requires
        old(p).wf(),
    ensures
        final(p).tokens@ == old(p).tokens@,
        old(p).position <= final(p).position <= final(p).tokens@.len(),
        (match r {
            Ok(es) => spec_parse_elems(old(p).stream(), old(p).position as int)
                == Ok::<int, ParseError>(final(p).position as int) && es@.len() >= 1
                && elem_seq_match(
                old(p).stream(),
                old(p).position as int,
                es@,
                0,
                final(p).position as int,
            ) && final(p).wf() && old(p).position < final(p).position,
            Err(e) => spec_parse_elems(old(p).stream(), old(p).position as int)
                == Err::<int, ParseError>(e),
        }),
    decreases p.tokens@.len() - p.position, 2int,
{
    let ghost toks = p.tokens@;
    let ghost pos0 = p.position as int;
    let val = match build_value(p) {
        Ok(v) => v,
        Err(e) => {
            return Err(e);
        },
    };
    let ghost vend = p.position as int;
    if p.match_token(Token::Comma) {
        p.advance();
        proof {
            lemma_cursor_advance(toks, vend);
        }
        let rest = match build_elements(p) {
            Ok(es) => es,
            Err(e) => {
                return Err(e);
            },
        };
        let ghost rest_view = rest@;
        let ghost end = p.position as int;
        let mut es = rest;
        es.insert(0, val);
        proof {
            assert(es@ =~= seq![val] + rest_view);
            lemma_elem_seq_shift(toks, vend + 1, val, rest_view, 0, end);
            assert(elem_seq_match(toks, vend + 1, es@, 1, end));
            assert(elem_seq_match(toks, pos0, es@, 0, end));
            assert(spec_parse_elems(toks, pos0) == Ok::<int, ParseError>(end));
        }
        Ok(es)
    } else if p.match_token(Token::CloseBracket) {
        p.advance();
        proof {
            lemma_cursor_advance(toks, vend);
        }
        let mut es: Vec<JsonValue> = Vec::new();
        es.push(val);
        proof {
            assert(es@ == seq![val]);
            assert(elem_seq_match(toks, pos0, es@, 0, vend + 1));
            assert(spec_parse_elems(toks, pos0) == Ok::<int, ParseError>(vend + 1));
        }
        Ok(es)
    } else {
        Err(ParseError::MissingClosingBracket)
    }
}

/// Builds the whole document's value: the document rule, returning the
/// root object's tree instead of a bare verdict. Which tree or error comes
/// back is a function of the token stream alone.
pub fn build_document(p: &mut Parser) -> (r: Result<JsonValue, ParseError>)
    requires
        old(p).wf(),
    ensures
        final(p).tokens@ == old(p).tokens@,
        old(p).position <= final(p).position <= final(p).tokens@.len(),
        (match r {
            Ok(v) => spec_parse_document(old(p).stream(), old(p).position as int)
                == Ok::<int, ParseError>(final(p).position as int) && value_matches(
                old(p).stream(),
                old(p).position as int,
                v,
                final(p).position as int,
            ) && (v matches JsonValue::ObjectVal(_)) && final(p).wf(),
            Err(e) => spec_parse_document(old(p).stream(), old(p).position as int)
                == Err::<int, ParseError>(e),
        }),
{
    let ghost toks = p.tokens@;
    let ghost pos0 = p.position as int;
    match p.advance() {
        Some(Token::OpenBrace) => {
            proof {
                lemma_cursor_advance(toks, pos0);
            }
            match build_object_body(p) {
                Ok(ms) => Ok(JsonValue::ObjectVal(ms)),
                Err(e) => Err(e),
            }
        },
        Some(Token::CloseBrace) => Err(ParseError::InvalidSymbolInContext),
        Some(Token::OpenBracket) => Err(ParseError::InvalidSymbolInContext),
        Some(Token::CloseBracket) => Err(ParseError::InvalidSymbolInContext),
        Some(Token::Colon) => Err(ParseError::InvalidSymbolInContext),
        Some(Token::Comma) => Err(ParseError::InvalidSymbolInContext),
        Some(Token::Identifier(_, _)) => Err(ParseError::InvalidValueAtTopLevel),
        Some(Token::Boolean(_)) => Err(ParseError::InvalidValueAtTopLevel),
        Some(Token::Null) => Err(ParseError::InvalidValueAtTopLevel),
        Some(Token::StrLit(_, _)) => Err(ParseError::InvalidValueAtTopLevel),
        Some(Token::EndOfInput) => Err(ParseError::EmptyDocument),
        None => Err(ParseError::EmptyDocument),
    }
}

} // verus!
