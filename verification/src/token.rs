//! The token model shared by the lexer and the parser.

use vstd::prelude::*;

verus! {

/// A classified unit of input. Literal tokens carry a span `(start, len)`
/// into the original buffer: `start` is the byte offset of the lexeme's
/// text and `len` its byte length, so no text is copied. For a string the
/// span excludes the two delimiting quotes; the lexer advances over
/// `len + 2` bytes for it.
#[derive(Debug, Clone, Copy, PartialEq, Eq, Structural)]
pub enum Token {
    OpenBrace,
    CloseBrace,
    OpenBracket,
    CloseBracket,
    Colon,
    Comma,
    Identifier(usize, usize),
    StrLit(usize, usize),
    Boolean(bool),
    Null,
    EndOfInput,
}

/// The lexer's only error: a byte outside the grammar's alphabet, together
/// with its offset in the buffer.
#[derive(Debug, Clone, Copy, PartialEq, Eq, Structural)]
pub enum LexError {
    UnknownSymbol(u8, usize),
}

/// Which grammar rule a parse violated. Every rule surfaces its first
/// failure unchanged to its caller; parsing halts at the first violation.
#[derive(Debug, Clone, Copy, PartialEq, Eq, Structural)]
pub enum ParseError {
    /// No object found at all: the input held no token before end-of-input.
    EmptyDocument,
    /// The top-level token is a value rather than `{`.
    InvalidValueAtTopLevel,
    /// A structural token appears where the grammar forbids it.
    InvalidSymbolInContext,
    /// A member's key is neither a string nor an identifier.
    InvalidKey,
    /// A value position holds an unparsable token.
    InvalidValue,
    /// A member's value position holds an unparsable token.
    InvalidValueInContext,
    /// An object's body is well formed but its `}` is absent.
    MissingClosingBrace,
    /// An array's elements are well formed but its `]` is absent.
    MissingClosingBracket,
}

/// A well-formed token stream: non-empty, and its last element is always
/// the end-of-input marker.
pub open spec fn stream_wf(toks: Seq<Token>) -> bool {
    toks.len() >= 1 && toks[toks.len() - 1] == Token::EndOfInput
}

/// A valid cursor into a stream: within bounds, with only proper tokens
/// (never the end-of-input marker) consumed so far.
pub open spec fn cursor_ok(toks: Seq<Token>, pos: int) -> bool {
    0 <= pos <= toks.len() && (forall|i: int| 0 <= i < pos ==> toks[i] != Token::EndOfInput)
}

/// The token a cursor reads: past the end of the stream everything reads
/// as end-of-input.
pub open spec fn tok_at(toks: Seq<Token>, pos: int) -> Token {
    if 0 <= pos < toks.len() {
        toks[pos]
    } else {
        Token::EndOfInput
    }
}

/// Consuming a proper token keeps a cursor valid.
pub proof fn lemma_cursor_advance(toks: Seq<Token>, pos: int)
    requires
        cursor_ok(toks, pos),
        0 <= pos < toks.len(),
        toks[pos] != Token::EndOfInput,
    ensures
        cursor_ok(toks, pos + 1),
{
    assert forall|i: int| 0 <= i < pos + 1 implies toks[i] != Token::EndOfInput by {
        if i < pos {
        }
    }
}

/// In a well-formed stream a valid cursor always has a token left to read:
/// it cannot have passed the final end-of-input marker.
pub proof fn lemma_cursor_in_range(toks: Seq<Token>, pos: int)
    requires
        stream_wf(toks),
        cursor_ok(toks, pos),
    ensures
        pos < toks.len(),
{
    if pos == toks.len() {
        assert(toks[toks.len() - 1] != Token::EndOfInput);
    }
}

} // verus!
