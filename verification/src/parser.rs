//! The parser: recursive descent over a fixed token stream, threaded
//! through a single cursor. Every rule surfaces its first failure to its
//! caller unchanged; parsing halts at the first violation.
//!
//! The object rule never consumes a closing brace: it only checks that the
//! current token is one, leaving the caller responsible for it when entered
//! via nesting.

use vstd::prelude::*;

verus! {

use crate::token::{Token, ParseError, stream_wf, cursor_ok, tok_at, lemma_cursor_in_range,
    lemma_cursor_advance};

/// The value rule: a string, boolean, null or identifier token is a
/// terminal value; `{` recurses into the object rule and `[` into the
/// array rule; any other token is an invalid value. On success the result
/// is the cursor after the value.
pub open spec fn spec_parse_value(toks: Seq<Token>, pos: int) -> Result<int, ParseError>
    decreases toks.len() - pos, 0int,
{
    match tok_at(toks, pos) {
        Token::StrLit(_, _) => Ok(pos + 1),
        Token::Boolean(_) => Ok(pos + 1),
        Token::Null => Ok(pos + 1),
        Token::Identifier(_, _) => Ok(pos + 1),
        Token::OpenBrace => spec_parse_object(toks, pos + 1),
        Token::OpenBracket => spec_parse_array(toks, pos + 1),
        _ => Err(ParseError::InvalidValue),
    }
}

/// The member-list rule: a key (string or identifier), a colon, a value,
/// then either a comma and another member — a trailing comma therefore
/// fails, since the loop re-enters member parsing unconditionally — or the
/// end of the list. On success the result is the cursor after the last
/// member, where the object rule expects its closing brace.
pub open spec fn spec_parse_members(toks: Seq<Token>, pos: int) -> Result<int, ParseError>
    decreases toks.len() - pos, 0int,
{
    match tok_at(toks, pos) {
        Token::Identifier(_, _) | Token::StrLit(_, _) => {
            if tok_at(toks, pos + 1) != Token::Colon {
                Err(ParseError::InvalidSymbolInContext)
            } else {
                let v = match tok_at(toks, pos + 2) {
                    Token::Identifier(_, _) => Ok(pos + 3),
                    Token::StrLit(_, _) => Ok(pos + 3),
                    Token::Boolean(_) => Ok(pos + 3),
                    Token::Null => Ok(pos + 3),
                    Token::OpenBrace => spec_parse_object(toks, pos + 3),
                    Token::OpenBracket => spec_parse_array(toks, pos + 3),
                    _ => Err(ParseError::InvalidValueInContext),
                };
                match v {
                    Ok(p) => if p < pos + 3 {
                        // a parse never moves the cursor backwards; this
                        // branch only bounds the recursion
                        Err(ParseError::InvalidValueInContext)
                    } else if tok_at(toks, p) == Token::Comma {
                        spec_parse_members(toks, p + 1)
                    } else {
                        Ok(p)
                    },
                    Err(e) => Err(e),
                }
            }
        },
        _ => Err(ParseError::InvalidKey),
    }
}

/// The object rule, entered just after its `{`: an immediate `}` is the
/// empty object, a key delegates to the member list, and anything else is
/// rejected. The closing brace is required but not consumed.
pub open spec fn spec_parse_object(toks: Seq<Token>, pos: int) -> Result<int, ParseError>
    decreases toks.len() - pos, 1int,
{
    match tok_at(toks, pos) {
        Token::CloseBrace => Ok(pos),
        Token::Identifier(_, _) | Token::StrLit(_, _) => match spec_parse_members(toks, pos) {
            Ok(p) => if tok_at(toks, p) == Token::CloseBrace {
                Ok(p)
            } else {
                Err(ParseError::MissingClosingBrace)
            },
            Err(e) => Err(e),
        },
        Token::Null => Err(ParseError::InvalidValueInContext),
        Token::EndOfInput => Err(ParseError::EmptyDocument),
        _ => Err(ParseError::InvalidSymbolInContext),
    }
}

/// The array rule, entered just after its `[`: an immediate `]` is the
/// empty array; otherwise elements follow. On success the result is the
/// cursor after the consumed `]`.
pub open spec fn spec_parse_array(toks: Seq<Token>, pos: int) -> Result<int, ParseError>
    decreases toks.len() - pos, 3int,
{
    if tok_at(toks, pos) == Token::CloseBracket {
        Ok(pos + 1)
    } else {
        spec_parse_elems(toks, pos)
    }
}

/// A non-empty array's elements: one value, then either a comma and
/// another element — so a comma is only ever valid between two elements —
/// or the required `]`, which is consumed; an absent closer fails.
pub open spec fn spec_parse_elems(toks: Seq<Token>, pos: int) -> Result<int, ParseError>
    decreases toks.len() - pos, 2int,
{
    match spec_parse_value(toks, pos) {
        Ok(p) => if p <= pos {
            // a parse never moves the cursor backwards; this branch only
            // bounds the recursion
            Err(ParseError::InvalidValue)
        } else if tok_at(toks, p) == Token::Comma {
            spec_parse_elems(toks, p + 1)
        } else if tok_at(toks, p) == Token::CloseBracket {
            Ok(p + 1)
        } else {
            Err(ParseError::MissingClosingBracket)
        },
        Err(e) => Err(e),
    }
}

/// The document rule: the very first token must open an object; a value
/// there is rejected as a top-level value, a structural token as a symbol
/// out of context, and bare end-of-input as an empty document.
pub open spec fn spec_parse_document(toks: Seq<Token>, pos: int) -> Result<int, ParseError> {
    match tok_at(toks, pos) {
        Token::OpenBrace => spec_parse_object(toks, pos + 1),
        Token::Identifier(_, _) => Err(ParseError::InvalidValueAtTopLevel),
        Token::StrLit(_, _) => Err(ParseError::InvalidValueAtTopLevel),
        Token::Boolean(_) => Err(ParseError::InvalidValueAtTopLevel),
        Token::Null => Err(ParseError::InvalidValueAtTopLevel),
        Token::EndOfInput => Err(ParseError::EmptyDocument),
        _ => Err(ParseError::InvalidSymbolInContext),
    }
}

/// The parser: a cursor into a borrowed token stream. The cursor is
/// monotonically non-decreasing during a parse and owned exclusively by
/// one parser instance for the lifetime of one parse call.
pub struct Parser<'a> {
    pub position: usize,
    pub tokens: &'a [Token],
}

impl<'a> Parser<'a> {
    /// The token stream as a mathematical sequence.
    pub open spec fn stream(self) -> Seq<Token> {
        self.tokens@
    }

    /// The parser's invariant: a well-formed stream, with a cursor that
    /// has consumed only proper tokens, so a token is always left to read.
    pub open spec fn wf(self) -> bool {
        stream_wf(self.tokens@) && cursor_ok(self.tokens@, self.position as int)
    }

    /// A fresh parser over a stream, its cursor at the first token.
    pub fn new(tokens: &'a [Token]) -> (p: Self)
        ensures
            p.tokens@ == tokens@,
            p.position == 0,
    {
        Self { position: 0, tokens }
    }

    /// Whether the token under the cursor is the given one; consumes
    /// nothing.
    pub fn match_token(&mut self, to_match: Token) -> (r: bool)
        requires
            old(self).wf(),
        ensures
            *final(self) == *old(self),
            r == (tok_at(old(self).stream(), old(self).position as int) == to_match),
    {
        proof {
            lemma_cursor_in_range(self.tokens@, self.position as int);
        }
        if self.tokens[self.position] == to_match {
            return true;
        }
        false
    }

    /// The token under the cursor, without consuming it.
    pub fn peek(&self) -> (r: Option<Token>)
        requires
            self.wf(),
        ensures
            r == Some(tok_at(self.stream(), self.position as int)),
    {
        proof {
            lemma_cursor_in_range(self.tokens@, self.position as int);
        }
        Some(self.tokens[self.position])
    }

    /// Consumes and returns the token under the cursor.
    pub fn advance(&mut self) -> (r: Option<Token>)
        requires
            old(self).wf(),
        ensures
            final(self).tokens@ == old(self).tokens@,
            final(self).position == old(self).position + 1,
            final(self).position <= final(self).tokens@.len(),
            r == Some(tok_at(old(self).stream(), old(self).position as int)),
    {
        proof {
            lemma_cursor_in_range(self.tokens@, self.position as int);
        }
        let next_token = self.tokens[self.position];
        self.position = self.position + 1;
        Some(next_token)
    }

    /// The value rule. On success the cursor stands after the value; on
    /// failure the rule's first error is returned.
    pub fn parse_json_value(&mut self) -> (r: Result<(), ParseError>)
        requires
            old(self).wf(),
        ensures
            final(self).tokens@ == old(self).tokens@,
            old(self).position <= final(self).position <= final(self).tokens@.len(),
            (match r {
                Ok(()) => spec_parse_value(old(self).stream(), old(self).position as int)
                    == Ok::<int, ParseError>(final(self).position as int) && final(self).wf()
                    && old(self).position < final(self).position,
                Err(e) => spec_parse_value(old(self).stream(), old(self).position as int)
                    == Err::<int, ParseError>(e),
            }),
        decreases self.tokens@.len() - self.position, 0int,
    {
        let ghost toks = self.tokens@;
        let ghost pos0 = self.position as int;
        match self.advance() {
            Some(Token::StrLit(_, _)) => {
                proof {
                    lemma_cursor_advance(toks, pos0);
                }
                Ok(())
            },
            Some(Token::Boolean(_)) => {
                proof {
                    lemma_cursor_advance(toks, pos0);
                }
                Ok(())
            },
            Some(Token::Null) => {
                proof {
                    lemma_cursor_advance(toks, pos0);
                }
                Ok(())
            },
            Some(Token::Identifier(_, _)) => {
                proof {
                    lemma_cursor_advance(toks, pos0);
                }
                Ok(())
            },
            Some(Token::OpenBrace) => {
                proof {
                    lemma_cursor_advance(toks, pos0);
                }
                self.parse_json_object()
            },
            Some(Token::OpenBracket) => {
                proof {
                    lemma_cursor_advance(toks, pos0);
                }
                self.parse_json_array()
            },
            _ => Err(ParseError::InvalidValue),
        }
    }

    /// The array rule, entered with the cursor just after `[`. On success
    /// the cursor stands after the consumed `]`.
    pub fn parse_json_array(&mut self) -> (r: Result<(), ParseError>)
        requires
            old(self).wf(),
        ensures
            final(self).tokens@ == old(self).tokens@,
            old(self).position <= final(self).position <= final(self).tokens@.len(),
            (match r {
                Ok(()) => spec_parse_array(old(self).stream(), old(self).position as int)
                    == Ok::<int, ParseError>(final(self).position as int) && final(self).wf(),
                Err(e) => spec_parse_array(old(self).stream(), old(self).position as int)
                    == Err::<int, ParseError>(e),
            }),
        decreases self.tokens@.len() - self.position, 3int,
    {
        let ghost toks = self.tokens@;
        let ghost pos0 = self.position as int;
        if self.match_token(Token::CloseBracket) {
            self.advance();
            proof {
                lemma_cursor_advance(toks, pos0);
            }
            return Ok(());
        }
        loop
            invariant
                old(self).tokens@ == toks,
                old(self).position as int == pos0,
                self.tokens@ == toks,
                self.wf(),
                pos0 <= self.position as int <= toks.len(),
                tok_at(toks, pos0) != Token::CloseBracket,
                spec_parse_elems(toks, pos0) == spec_parse_elems(toks, self.position as int),
            decreases toks.len() - self.position,
        {
            let ghost vpos = self.position as int;
            match self.parse_json_value() {
                Ok(()) => {},
                Err(e) => {
                    return Err(e);
                },
            }
            let ghost p = self.position as int;
            if self.match_token(Token::Comma) {
                self.advance();
                proof {
                    lemma_cursor_advance(toks, p);
                    assert(spec_parse_elems(toks, vpos) == spec_parse_elems(toks, p + 1));
                }
            } else if self.match_token(Token::CloseBracket) {
                self.advance();
                proof {
                    lemma_cursor_advance(toks, p);
                    assert(spec_parse_elems(toks, vpos) == Ok::<int, ParseError>(p + 1));
                }
                return Ok(());
            } else {
                proof {
                    assert(spec_parse_elems(toks, vpos) == Err::<int, ParseError>(
                        ParseError::MissingClosingBracket,
                    ));
                }
                return Err(ParseError::MissingClosingBracket);
            }
        }
    }

    /// The member-list rule, entered with the cursor at the first key. On
    /// success the cursor stands where the object rule expects `}`.
    pub fn parse_key_value_pair(&mut self) -> (r: Result<(), ParseError>)
        requires
            old(self).wf(),
        ensures
            final(self).tokens@ == old(self).tokens@,
            old(self).position <= final(self).position <= final(self).tokens@.len(),
            (match r {
                Ok(()) => spec_parse_members(old(self).stream(), old(self).position as int)
                    == Ok::<int, ParseError>(final(self).position as int) && final(self).wf(),
                Err(e) => spec_parse_members(old(self).stream(), old(self).position as int)
                    == Err::<int, ParseError>(e),
            }),
        decreases self.tokens@.len() - self.position, 0int,
    {
        let ghost toks = self.tokens@;
        let ghost pos0 = self.position as int;
        loop
            invariant
                old(self).tokens@ == toks,
                old(self).position as int == pos0,
                self.tokens@ == toks,
                self.wf(),
                pos0 <= self.position as int <= toks.len(),
                spec_parse_members(toks, pos0) == spec_parse_members(toks, self.position as int),
            decreases toks.len() - self.position,
        {
            let ghost kpos = self.position as int;
            match self.advance() {
                Some(Token::Identifier(_, _)) => {},
                Some(Token::StrLit(_, _)) => {},
                _ => {
                    return Err(ParseError::InvalidKey);
                },
            }
            proof {
                lemma_cursor_advance(toks, kpos);
            }
            if !self.match_token(Token::Colon) {
                return Err(ParseError::InvalidSymbolInContext);
            }
            self.advance();
            proof {
                lemma_cursor_advance(toks, kpos + 1);
            }
            match self.advance() {
                Some(Token::Identifier(_, _)) | Some(Token::StrLit(_, _)) | Some(
                    Token::Boolean(_),
                ) | Some(Token::Null) => {
                    proof {
                        lemma_cursor_advance(toks, kpos + 2);
                    }
                },
                Some(Token::OpenBrace) => {
                    proof {
                        lemma_cursor_advance(toks, kpos + 2);
                    }
                    match self.parse_json_object() {
                        Ok(()) => {},
                        Err(e) => {
                            return Err(e);
                        },
                    }
                },
                Some(Token::OpenBracket) => {
                    proof {
                        lemma_cursor_advance(toks, kpos + 2);
                    }
                    match self.parse_json_array() {
                        Ok(()) => {},
                        Err(e) => {
                            return Err(e);
                        },
                    }
                },
                _ => {
                    return Err(ParseError::InvalidValueInContext);
                },
            }
            let ghost p = self.position as int;
            if !self.match_token(Token::Comma) {
                proof {
                    assert(spec_parse_members(toks, kpos) == Ok::<int, ParseError>(p));
                }
                return Ok(());
            }
            self.advance();
            proof {
                lemma_cursor_advance(toks, p);
                assert(spec_parse_members(toks, kpos) == spec_parse_members(toks, p + 1));
            }
        }
    }

    /// The object rule, entered with the cursor just after `{`. On success
    /// the cursor stands at the closing brace, which is checked but not
    /// consumed.
    pub fn parse_json_object(&mut self) -> (r: Result<(), ParseError>)
        requires
            old(self).wf(),
        ensures
            final(self).tokens@ == old(self).tokens@,
            old(self).position <= final(self).position <= final(self).tokens@.len(),
            (match r {
                Ok(()) => spec_parse_object(old(self).stream(), old(self).position as int)
                    == Ok::<int, ParseError>(final(self).position as int) && final(self).wf(),
                Err(e) => spec_parse_object(old(self).stream(), old(self).position as int)
                    == Err::<int, ParseError>(e),
            }),
        decreases self.tokens@.len() - self.position, 1int,
    {
        match self.peek() {
            Some(Token::OpenBrace) => {
                return Err(ParseError::InvalidSymbolInContext);
            },
            Some(Token::CloseBrace) => {
                return Ok(());
            },
            Some(Token::OpenBracket) => {
                return Err(ParseError::InvalidSymbolInContext);
            },
            Some(Token::CloseBracket) => {
                return Err(ParseError::InvalidSymbolInContext);
            },
            Some(Token::Colon) => {
                return Err(ParseError::InvalidSymbolInContext);
            },
            Some(Token::Comma) => {
                return Err(ParseError::InvalidSymbolInContext);
            },
            Some(Token::Identifier(_, _)) => {
                match self.parse_key_value_pair() {
                    Ok(()) => {},
                    Err(e) => {
                        return Err(e);
                    },
                }
            },
            Some(Token::Boolean(_)) => {
                return Err(ParseError::InvalidSymbolInContext);
            },
            Some(Token::Null) => {
                return Err(ParseError::InvalidValueInContext);
            },
            Some(Token::StrLit(_, _)) => {
                match self.parse_key_value_pair() {
                    Ok(()) => {},
                    Err(e) => {
                        return Err(e);
                    },
                }
            },
            Some(Token::EndOfInput) => {
                return Err(ParseError::EmptyDocument);
            },
            None => {
                return Err(ParseError::EmptyDocument);
            },
        }
        if !self.match_token(Token::CloseBrace) {
            return Err(ParseError::MissingClosingBrace);
        }
        Ok(())
    }

    /// The document rule: consumes the leading token, which must open an
    /// object, and delegates to the object rule. Whether the parse accepts
    /// or rejects, and with which error, is a function of the token stream
    /// alone.
    pub fn parse(&mut self) -> (r: Result<(), ParseError>)
        requires
            old(self).wf(),
        ensures
            final(self).tokens@ == old(self).tokens@,
            old(self).position <= final(self).position <= final(self).tokens@.len(),
            (match r {
                Ok(()) => spec_parse_document(old(self).stream(), old(self).position as int)
                    == Ok::<int, ParseError>(final(self).position as int) && final(self).wf(),
                Err(e) => spec_parse_document(old(self).stream(), old(self).position as int)
                    == Err::<int, ParseError>(e),
            }),
    {
        let ghost toks = self.tokens@;
        let ghost pos0 = self.position as int;
        match self.advance() {
            Some(Token::OpenBrace) => {
                proof {
                    lemma_cursor_advance(toks, pos0);
                }
                match self.parse_json_object() {
                    Ok(()) => {},
                    Err(e) => {
                        return Err(e);
                    },
                }
            },
            Some(Token::CloseBrace) => {
                return Err(ParseError::InvalidSymbolInContext);
            },
            Some(Token::OpenBracket) => {
                return Err(ParseError::InvalidSymbolInContext);
            },
            Some(Token::CloseBracket) => {
                return Err(ParseError::InvalidSymbolInContext);
            },
            Some(Token::Colon) => {
                return Err(ParseError::InvalidSymbolInContext);
            },
            Some(Token::Comma) => {
                return Err(ParseError::InvalidSymbolInContext);
            },
            Some(Token::Identifier(_, _)) => {
                return Err(ParseError::InvalidValueAtTopLevel);
            },
            Some(Token::Boolean(_)) => {
                return Err(ParseError::InvalidValueAtTopLevel);
            },
            Some(Token::Null) => {
                return Err(ParseError::InvalidValueAtTopLevel);
            },
            Some(Token::StrLit(_, _)) => {
                return Err(ParseError::InvalidValueAtTopLevel);
            },
            Some(Token::EndOfInput) => {
                return Err(ParseError::EmptyDocument);
            },
            None => {
                return Err(ParseError::EmptyDocument);
            },
        }
        Ok(())
    }
}

} // verus!
