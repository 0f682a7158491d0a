//! Laws that relate the stages to each other and to the original text:
//! what holds of every input, stated over the same spec functions that the
//! executable functions' contracts use.

use vstd::prelude::*;

verus! {

use crate::token::{Token, LexError, ParseError};
use crate::lexer::{
    spec_scan,
    close_quote,
    ident_end,
    is_ws_byte,
    is_ident_byte,
    lemma_close_quote_bounds,
    lemma_ident_end_bounds,
};
use crate::{DocumentError, spec_check_document};

/// A whitespace-only buffer scans, from any position, to the bare
/// end-of-input marker.
proof fn lemma_ws_scan(s: Seq<u8>, pos: int)
    requires
        0 <= pos,
        forall|i: int| 0 <= i < s.len() ==> is_ws_byte(s[i]),
    ensures
        spec_scan(s, pos) == Ok::<Seq<Token>, LexError>(seq![Token::EndOfInput]),
    decreases s.len() - pos,
{
    if pos < s.len() {
        lemma_ws_scan(s, pos + 1);
    }
}

/// Every input consisting only of ASCII whitespace, the empty input
/// included, lexes successfully and is then rejected by the parser as an
/// empty document.
pub proof fn lemma_blank_input_rejected(s: Seq<u8>)
    requires
        forall|i: int| 0 <= i < s.len() ==> is_ws_byte(s[i]),
    ensures
        spec_check_document(s) == Err::<(), DocumentError>(
            DocumentError::Parse(ParseError::EmptyDocument),
        ),
{
    lemma_ws_scan(s, 0);
    assert(crate::token::tok_at(seq![Token::EndOfInput], 0) == Token::EndOfInput);
}

/// A literal token's span denotes exactly its lexeme's text in the
/// original buffer. A string's span is in bounds, preceded by its opening
/// quote, free of quotes, and followed by its closing quote or the
/// buffer's end; an identifier's span is a non-empty, maximal run of
/// identifier characters. Re-joining the spanned bytes therefore recovers
/// every literal's exact original text, minus the quote delimiters of
/// strings.
pub open spec fn span_faithful(s: Seq<u8>, t: Token) -> bool {
    match t {
        Token::StrLit(st, ln) => 1 <= st && st + ln <= s.len() && s[st - 1] == 34 && (forall|
            i: int,
        |
            st <= i < st + ln ==> s[i] != 34) && (st + ln == s.len() || s[st + ln] == 34),
        Token::Identifier(st, ln) => 1 <= ln && st + ln <= s.len() && (forall|i: int|
            st <= i < st + ln ==> is_ident_byte(s[i])) && (st + ln == s.len() || !is_ident_byte(
            s[st + ln],
        )),
        _ => true,
    }
}

proof fn lemma_spans_faithful_from(s: Seq<u8>, pos: int)
    requires
        0 <= pos,
        s.len() <= usize::MAX,
    ensures
        spec_scan(s, pos) matches Ok(toks) ==> forall|j: int|
            0 <= j < toks.len() ==> #[trigger] span_faithful(s, toks[j]),
    decreases s.len() - pos,
{
    if pos >= s.len() {
    } else if is_ws_byte(s[pos]) {
        lemma_spans_faithful_from(s, pos + 1);
    } else if s[pos] == 34 {
        lemma_close_quote_bounds(s, pos + 1);
        let q = close_quote(s, pos + 1);
        let t = Token::StrLit((pos + 1) as usize, (q - pos - 1) as usize);
        assert(span_faithful(s, t));
        if q < s.len() {
            lemma_spans_faithful_from(s, q + 1);
            match spec_scan(s, q + 1) {
                Ok(rest) => {
                    let toks = seq![t] + rest;
                    assert forall|j: int| 0 <= j < toks.len() implies #[trigger] span_faithful(
                        s,
                        toks[j],
                    ) by {
                        if j > 0 {
                            assert(toks[j] == rest[j - 1]);
                            assert(span_faithful(s, rest[j - 1]));
                        }
                    }
                },
                Err(_) => {},
            }
        }
    } else if is_ident_byte(s[pos]) {
        lemma_ident_end_bounds(s, pos);
        let e = ident_end(s, pos);
        let t = crate::lexer::classify_word(s, pos, e);
        assert(span_faithful(s, t));
        lemma_spans_faithful_from(s, e);
        match spec_scan(s, e) {
            Ok(rest) => {
                let toks = seq![t] + rest;
                assert forall|j: int| 0 <= j < toks.len() implies #[trigger] span_faithful(
                    s,
                    toks[j],
                ) by {
                    if j > 0 {
                        assert(toks[j] == rest[j - 1]);
                        assert(span_faithful(s, rest[j - 1]));
                    }
                }
            },
            Err(_) => {},
        }
    } else {
        lemma_spans_faithful_from(s, pos + 1);
        match spec_scan(s, pos + 1) {
            Ok(rest) => {
                match spec_scan(s, pos) {
                    Ok(toks) => {
                        assert forall|j: int|
                            0 <= j < toks.len() implies #[trigger] span_faithful(s, toks[j]) by {
                            if j > 0 {
                                assert(toks[j] == rest[j - 1]);
                                assert(span_faithful(s, rest[j - 1]));
                            }
                        }
                    },
                    Err(_) => {},
                }
            },
            Err(_) => {},
        }
    }
}

/// The round trip from text to tokens and back: when the lexer accepts a
/// buffer, every string and identifier token's span recovers that
/// lexeme's exact original text (minus the quote delimiters of strings).
pub proof fn lemma_round_trip(s: Seq<u8>)
    requires
        s.len() <= usize::MAX,
    ensures
        spec_scan(s, 0) matches Ok(toks) ==> forall|j: int|
            0 <= j < toks.len() ==> #[trigger] span_faithful(s, toks[j]),
{
    lemma_spans_faithful_from(s, 0);
}

/// Parsing is idempotent: `Parser::parse` ties its result to
/// `spec_parse_document` of the stream and the starting cursor alone, so
/// any two results obtained over the same token sequence from fresh
/// cursors — in particular two parses of the same valid sequence — are
/// the same.
pub proof fn lemma_parse_deterministic(
    toks: Seq<Token>,
    r1: Result<int, ParseError>,
    r2: Result<int, ParseError>,
)
    requires
        r1 == crate::parser::spec_parse_document(toks, 0),
        r2 == crate::parser::spec_parse_document(toks, 0),
    ensures
        r1 == r2,
{
}

} // verus!
