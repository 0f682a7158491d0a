//! The lexer: one linear pass over the byte buffer, left to right, producing
//! an ordered token sequence terminated by the end-of-input marker. No
//! lookahead beyond the current lexeme, no backtracking.

use vstd::prelude::*;

verus! {

use crate::token::{Token, LexError, stream_wf};

/// ASCII whitespace as the lexer skips it: space, horizontal tab, line
/// feed, form feed, carriage return.
pub open spec fn is_ws_byte(b: u8) -> bool {
    b == 32 || b == 9 || b == 10 || b == 12 || b == 13
}

/// The identifier character class `[A-Za-z_]`.
pub open spec fn is_ident_byte(b: u8) -> bool {
    b == 95 || (65 <= b && b <= 90) || (97 <= b && b <= 122)
}

/// Where a string lexeme's text ends: the first `"` at or after `from`, or
/// the buffer's end when no closing quote follows (an unterminated string
/// is treated leniently as ending at the buffer boundary).
pub open spec fn close_quote(s: Seq<u8>, from: int) -> int
    decreases s.len() - from,
{
    if from < 0 || from >= s.len() {
        s.len() as int
    } else if s[from] == 34 {
        from
    } else {
        close_quote(s, from + 1)
    }
}

pub proof fn lemma_close_quote_bounds(s: Seq<u8>, from: int)
    requires
        0 <= from <= s.len(),
    ensures
        from <= close_quote(s, from) <= s.len(),
        close_quote(s, from) < s.len() ==> s[close_quote(s, from)] == 34,
        forall|i: int| from <= i < close_quote(s, from) ==> s[i] != 34,
    decreases s.len() - from,
{
    if from < s.len() && s[from] != 34 {
        lemma_close_quote_bounds(s, from + 1);
    }
}

/// The scanned range is exactly delimited: a region free of quotes that
/// ends at a quote or at the buffer's end is what `close_quote` finds.
proof fn lemma_close_quote_at(s: Seq<u8>, from: int, e: int)
    requires
        0 <= from <= e <= s.len(),
        forall|i: int| from <= i < e ==> s[i] != 34,
        e == s.len() || s[e] == 34,
    ensures
        close_quote(s, from) == e,
    decreases e - from,
{
    if from < e {
        lemma_close_quote_at(s, from + 1, e);
    }
}

/// Where an identifier lexeme ends: the first position at or after `from`
/// whose byte falls outside the identifier class, or the buffer's end.
pub open spec fn ident_end(s: Seq<u8>, from: int) -> int
    decreases s.len() - from,
{
    if 0 <= from < s.len() && is_ident_byte(s[from]) {
        ident_end(s, from + 1)
    } else {
        from
    }
}

pub proof fn lemma_ident_end_bounds(s: Seq<u8>, from: int)
    requires
        0 <= from <= s.len(),
    ensures
        from <= ident_end(s, from) <= s.len(),
        ident_end(s, from) < s.len() ==> !is_ident_byte(s[ident_end(s, from)]),
        forall|i: int| from <= i < ident_end(s, from) ==> is_ident_byte(s[i]),
        from < s.len() && is_ident_byte(s[from]) ==> from < ident_end(s, from),
    decreases s.len() - from,
{
    if from < s.len() && is_ident_byte(s[from]) {
        lemma_ident_end_bounds(s, from + 1);
    }
}

/// The scanned range is exactly delimited, as for strings.
proof fn lemma_ident_end_at(s: Seq<u8>, from: int, e: int)
    requires
        0 <= from <= e <= s.len(),
        forall|i: int| from <= i < e ==> is_ident_byte(s[i]),
        e == s.len() || !is_ident_byte(s[e]),
    ensures
        ident_end(s, from) == e,
    decreases e - from,
{
    if from < e {
        lemma_ident_end_at(s, from + 1, e);
    }
}

/// The lexeme text of the literal spelled `true`.
pub open spec fn lit_true() -> Seq<u8> {
    seq![116u8, 114u8, 117u8, 101u8]
}

/// The lexeme text of the literal spelled `false`.
pub open spec fn lit_false() -> Seq<u8> {
    seq![102u8, 97u8, 108u8, 115u8, 101u8]
}

/// The lexeme text of the literal spelled `null`.
pub open spec fn lit_null() -> Seq<u8> {
    seq![110u8, 117u8, 108u8, 108u8]
}

/// The token an identifier lexeme at `[start, end)` yields: the three
/// recognized literals give a boolean or null token; any other text gives
/// a generic identifier, for the grammar to judge in context.
pub open spec fn classify_word(s: Seq<u8>, start: int, end: int) -> Token {
    let w = s.subrange(start, end);
    if w == lit_true() {
        Token::Boolean(true)
    } else if w == lit_false() {
        Token::Boolean(false)
    } else if w == lit_null() {
        Token::Null
    } else {
        Token::Identifier(start as usize, (end - start) as usize)
    }
}

/// Prepends one token to the outcome of scanning the rest of the buffer.
pub open spec fn scan_cons(t: Token, r: Result<Seq<Token>, LexError>) -> Result<
    Seq<Token>,
    LexError,
> {
    match r {
        Ok(rest) => Ok(seq![t] + rest),
        Err(e) => Err(e),
    }
}

/// The token sequence of the buffer from `pos` on: whitespace is skipped,
/// single characters map to structural tokens, `"` opens a string lexeme,
/// an identifier byte opens an identifier lexeme, and any other byte is an
/// error naming the byte and its offset. The sequence always ends with the
/// end-of-input marker.
pub open spec fn spec_scan(s: Seq<u8>, pos: int) -> Result<Seq<Token>, LexError>
    decreases s.len() - pos,
{
    if pos < 0 || pos >= s.len() {
        Ok(seq![Token::EndOfInput])
    } else if is_ws_byte(s[pos]) {
        spec_scan(s, pos + 1)
    } else if s[pos] == 123 {
        scan_cons(Token::OpenBrace, spec_scan(s, pos + 1))
    } else if s[pos] == 125 {
        scan_cons(Token::CloseBrace, spec_scan(s, pos + 1))
    } else if s[pos] == 91 {
        scan_cons(Token::OpenBracket, spec_scan(s, pos + 1))
    } else if s[pos] == 93 {
        scan_cons(Token::CloseBracket, spec_scan(s, pos + 1))
    } else if s[pos] == 58 {
        scan_cons(Token::Colon, spec_scan(s, pos + 1))
    } else if s[pos] == 44 {
        scan_cons(Token::Comma, spec_scan(s, pos + 1))
    } else if s[pos] == 34 {
        proof {
            lemma_close_quote_bounds(s, pos + 1);
        }
        let q = close_quote(s, pos + 1);
        let t = Token::StrLit((pos + 1) as usize, (q - pos - 1) as usize);
        if q >= s.len() {
            Ok(seq![t, Token::EndOfInput])
        } else {
            scan_cons(t, spec_scan(s, q + 1))
        }
    } else if is_ident_byte(s[pos]) {
        proof {
            lemma_ident_end_bounds(s, pos);
        }
        scan_cons(classify_word(s, pos, ident_end(s, pos)), spec_scan(s, ident_end(s, pos)))
    } else {
        Err(LexError::UnknownSymbol(s[pos], pos as usize))
    }
}

/// A successful scan always yields a well-formed stream: at least one
/// token, the last of them the end-of-input marker.
pub proof fn lemma_scan_wf(s: Seq<u8>, pos: int)
    requires
        0 <= pos,
    ensures
        spec_scan(s, pos) matches Ok(toks) ==> stream_wf(toks),
    decreases s.len() - pos,
{
    if pos >= s.len() {
    } else if is_ws_byte(s[pos]) {
        lemma_scan_wf(s, pos + 1);
    } else if s[pos] == 34 {
        lemma_close_quote_bounds(s, pos + 1);
        let q = close_quote(s, pos + 1);
        if q < s.len() {
            lemma_scan_wf(s, q + 1);
        }
    } else if is_ident_byte(s[pos]) {
        lemma_ident_end_bounds(s, pos);
        lemma_scan_wf(s, ident_end(s, pos));
    } else {
        lemma_scan_wf(s, pos + 1);
    }
}

/// The tokens already emitted, joined with the outcome of scanning the
/// rest of the buffer.
pub open spec fn scan_emitted(pre: Seq<Token>, r: Result<Seq<Token>, LexError>) -> Result<
    Seq<Token>,
    LexError,
> {
    match r {
        Ok(rest) => Ok(pre + rest),
        Err(e) => Err(e),
    }
}

/// Emitting a token moves it from the pending outcome to the prefix.
proof fn lemma_emit(pre: Seq<Token>, t: Token, r: Result<Seq<Token>, LexError>)
    ensures
        scan_emitted(pre, scan_cons(t, r)) == scan_emitted(pre.push(t), r),
{
    match r {
        Ok(rest) => {
            assert(pre + (seq![t] + rest) =~= pre.push(t) + rest);
        },
        Err(_) => {},
    }
}

/// Whether a byte is in the identifier character class `[A-Za-z_]`.
fn ident_byte(b: u8) -> (r: bool)
    ensures
        r == is_ident_byte(b),
{
    b == 95 || (65 <= b && b <= 90) || (97 <= b && b <= 122)
}

/// Scans a string lexeme whose text begins at `start`, just after the
/// opening quote: the text runs until the next `"`, or to the buffer's end
/// when no closing quote follows. Returns the token, whose span excludes
/// the delimiting quotes, and the number of bytes consumed, which counts
/// both quotes.
pub fn scan_string(content: &[u8], start: usize) -> (r: (Token, usize))
    requires
        1 <= start <= content@.len(),
        content@.len() < usize::MAX,
    ensures
        ({
            let q = close_quote(content@, start as int);
            r.0 == Token::StrLit(start, (q - start) as usize) && r.1 == q - start + 2
        }),
{
    let ghost s = content@;
    let mut end: usize = start;
    while end < content.len() && content[end] != 34
        invariant
            start <= end <= s.len(),
            s == content@,
            forall|i: int| start <= i < end ==> s[i] != 34,
        decreases s.len() - end,
    {
        end = end + 1;
    }
    proof {
        lemma_close_quote_at(s, start as int, end as int);
    }
    (Token::StrLit(start, end - start), end - start + 2)
}

/// Scans an identifier lexeme beginning at `start`: consumes while the
/// character class `[A-Za-z_]` continues, then classifies the lexeme,
/// recognizing the literals `true`, `false` and `null`. Returns the token
/// and the lexeme's byte length.
pub fn scan_identifier(content: &[u8], start: usize) -> (r: (Token, usize))
    requires
        start < content@.len(),
        is_ident_byte(content@[start as int]),
    ensures
        r.0 == classify_word(content@, start as int, ident_end(content@, start as int)),
        r.1 == ident_end(content@, start as int) - start,
{
    let ghost s = content@;
    let mut end: usize = start;
    while end < content.len() && ident_byte(content[end])
        invariant
            start <= end <= s.len(),
            s == content@,
            forall|i: int| start <= i < end ==> is_ident_byte(s[i]),
        decreases s.len() - end,
    {
        end = end + 1;
    }
    proof {
        lemma_ident_end_at(s, start as int, end as int);
    }
    let ghost w = s.subrange(start as int, end as int);
    let n: usize = end - start;
    if n == 4 && content[start] == 116 && content[start + 1] == 114 && content[start + 2] == 117
        && content[start + 3] == 101 {
        proof {
            assert(w =~= lit_true());
        }
        (Token::Boolean(true), n)
    } else if n == 5 && content[start] == 102 && content[start + 1] == 97 && content[start + 2]
        == 108 && content[start + 3] == 115 && content[start + 4] == 101 {
        proof {
            assert(w =~= lit_false());
            assert(w != lit_true());
        }
        (Token::Boolean(false), n)
    } else if n == 4 && content[start] == 110 && content[start + 1] == 117 && content[start + 2]
        == 108 && content[start + 3] == 108 {
        proof {
            assert(w =~= lit_null());
            assert(w[0] == 110 && lit_true()[0] == 116);
            assert(w != lit_true());
            assert(w.len() == 4 && lit_false().len() == 5);
            assert(w != lit_false());
        }
        (Token::Null, n)
    } else {
        proof {
            assert(w.len() == n);
            assert(forall|k: int| 0 <= k < w.len() ==> w[k] == s[start + k]);
            if w == lit_true() {
                assert(lit_true().len() == 4);
                assert(lit_true()[0] == 116 && lit_true()[1] == 114 && lit_true()[2] == 117
                    && lit_true()[3] == 101);
                assert(n == 4);
                assert(w[0] == 116 && w[1] == 114 && w[2] == 117 && w[3] == 101);
                assert(s[start as int] == 116);
                assert(s[start as int + 1] == 114);
                assert(s[start as int + 2] == 117);
                assert(s[start as int + 3] == 101);
                assert(false);
            }
            if w == lit_false() {
                assert(lit_false().len() == 5);
                assert(lit_false()[0] == 102 && lit_false()[1] == 97 && lit_false()[2] == 108
                    && lit_false()[3] == 115 && lit_false()[4] == 101);
                assert(n == 5);
                assert(w[0] == 102 && w[1] == 97 && w[2] == 108 && w[3] == 115 && w[4] == 101);
                assert(false);
            }
            if w == lit_null() {
                assert(lit_null().len() == 4);
                assert(lit_null()[0] == 110 && lit_null()[1] == 117 && lit_null()[2] == 108
                    && lit_null()[3] == 108);
                assert(n == 4);
                assert(w[0] == 110 && w[1] == 117 && w[2] == 108 && w[3] == 108);
                assert(s[start as int] == 110);
                assert(s[start as int + 1] == 117);
                assert(s[start as int + 2] == 108);
                assert(s[start as int + 3] == 108);
                assert(false);
            }
        }
        (Token::Identifier(start, n), n)
    }
}

/// One left-to-right pass over the whole buffer: skips ASCII whitespace,
/// maps single-character lexemes to structural tokens, scans string and
/// identifier lexemes, and appends the end-of-input marker. The first byte
/// outside the grammar's alphabet is returned as an error carrying the
/// byte and its offset.
pub fn scan_json(content: &[u8]) -> (r: Result<Vec<Token>, LexError>)
    requires
        content@.len() < usize::MAX,
    ensures
        match r {
            Ok(tokens) => spec_scan(content@, 0) == Ok::<Seq<Token>, LexError>(tokens@)
                && stream_wf(tokens@),
            Err(e) => spec_scan(content@, 0) == Err::<Seq<Token>, LexError>(e),
        },
{
    let ghost s = content@;
    let mut tokens: Vec<Token> = Vec::new();
    let mut current: usize = 0;

    proof {
        assert(scan_emitted(tokens@, spec_scan(s, 0)) == spec_scan(s, 0)) by {
            match spec_scan(s, 0) {
                Ok(rest) => {
                    assert(tokens@ + rest =~= rest);
                },
                Err(_) => {},
            }
        }
    }
    while current < content.len()
        invariant
            current <= s.len(),
            s.len() < usize::MAX,
            s == content@,
            spec_scan(s, 0) == scan_emitted(tokens@, spec_scan(s, current as int)),
        decreases s.len() - current,
    {
        let ghost pre = tokens@;
        let ghost cur = current as int;
        let b = content[current];
        if b == 32 || b == 9 || b == 10 || b == 12 || b == 13 {
            current = current + 1;
        } else if b == 123 {
            tokens.push(Token::OpenBrace);
            proof {
                lemma_emit(pre, Token::OpenBrace, spec_scan(s, cur + 1));
            }
            current = current + 1;
        } else if b == 125 {
            tokens.push(Token::CloseBrace);
            proof {
                lemma_emit(pre, Token::CloseBrace, spec_scan(s, cur + 1));
            }
            current = current + 1;
        } else if b == 91 {
            tokens.push(Token::OpenBracket);
            proof {
                lemma_emit(pre, Token::OpenBracket, spec_scan(s, cur + 1));
            }
            current = current + 1;
        } else if b == 93 {
            tokens.push(Token::CloseBracket);
            proof {
                lemma_emit(pre, Token::CloseBracket, spec_scan(s, cur + 1));
            }
            current = current + 1;
        } else if b == 58 {
            tokens.push(Token::Colon);
            proof {
                lemma_emit(pre, Token::Colon, spec_scan(s, cur + 1));
            }
            current = current + 1;
        } else if b == 44 {
            tokens.push(Token::Comma);
            proof {
                lemma_emit(pre, Token::Comma, spec_scan(s, cur + 1));
            }
            current = current + 1;
        } else if b == 34 {
            let (token, length) = scan_string(content, current + 1);
            tokens.push(token);
            let ghost q = close_quote(s, cur + 1);
            proof {
                lemma_close_quote_bounds(s, cur + 1);
            }
            let next = current + length;
            if next > content.len() {
                // unterminated string: the lexeme ends at the buffer boundary
                proof {
                    assert(q >= s.len());
                    assert(spec_scan(s, cur) == Ok::<Seq<Token>, LexError>(
                        seq![token, Token::EndOfInput],
                    ));
                    assert(pre + seq![token, Token::EndOfInput] =~= pre.push(token) + seq![
                        Token::EndOfInput,
                    ]);
                    assert(spec_scan(s, s.len() as int) == Ok::<Seq<Token>, LexError>(
                        seq![Token::EndOfInput],
                    ));
                }
                current = content.len();
            } else {
                proof {
                    assert(q < s.len());
                    assert(next == q + 1);
                    lemma_emit(pre, token, spec_scan(s, q + 1));
                }
                current = next;
            }
        } else if ident_byte(b) {
            let (token, length) = scan_identifier(content, current);
            tokens.push(token);
            proof {
                lemma_ident_end_bounds(s, cur);
                lemma_emit(pre, token, spec_scan(s, ident_end(s, cur)));
            }
            current = current + length;
        } else {
            proof {
                assert(spec_scan(s, cur) == Err::<Seq<Token>, LexError>(
                    LexError::UnknownSymbol(b, current),
                ));
            }
            return Err(LexError::UnknownSymbol(b, current));
        }
    }
    let ghost pre = tokens@;
    tokens.push(Token::EndOfInput);
    proof {
        assert(spec_scan(s, current as int) == Ok::<Seq<Token>, LexError>(
            seq![Token::EndOfInput],
        ));
        assert(pre + seq![Token::EndOfInput] =~= tokens@);
    }
    Ok(tokens)
}

} // verus!
