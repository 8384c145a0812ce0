//! The data model of the scanner's output: token categories, tokens,
//! lexical errors, and the mathematical view of a token.

use vstd::prelude::*;

verus! {

/// The lexical category of a token: a closed set, so that consumers can
/// match exhaustively.
#[derive(Debug, Clone, Copy, PartialEq, Eq, Structural)]
pub enum TokenType {
    // Literals
    Number,
    Str,
    Identifier,
    // Single-character tokens
    LeftParen,
    RightParen,
    LeftBrace,
    RightBrace,
    Comma,
    Dot,
    SemiColon,
    Plus,
    Minus,
    Slash,
    Star,
    // One- or two-character operators
    Greater,
    GreaterEqual,
    Less,
    LessEqual,
    Equal,
    EqualEqual,
    Neg,
    NegEqual,
    // Declared categories that the scan loop never emits
    Keyword,
    Eof,
}

/// A classified, positioned unit of lexical output.
///
/// `literal` carries the raw text for `Number`, `Str` and `Identifier`
/// tokens and is absent for punctuation and operators. `line` is the
/// 0-based line on which the token's first character was consumed;
/// `column` is the running count of characters consumed from the start of
/// scanning up to and including the token's last character.
#[derive(Debug, Clone)]
pub struct Token {
    pub kind: TokenType,
    pub literal: Option<String>,
    pub line: u32,
    pub column: u32,
}

/// A lexical failure, tagged with a source position.
///
/// In both variants `line` is the 0-based line of the offending position
/// and `column` is the running count of consumed characters: for an
/// unsupported character, up to and including that character; for an
/// unterminated string, up to and including the opening quote.
#[derive(Debug, Clone, Copy, PartialEq, Eq, Structural)]
pub enum LexError {
    UnsupportedCharacter { line: u32, column: u32, ch: char },
    UnterminatedString { line: u32, column: u32 },
}

/// The mathematical image of a `Token`: the literal as a character
/// sequence, the positions as unbounded integers.
#[verifier::ext_equal]
pub struct TokenModel {
    pub kind: TokenType,
    pub literal: Option<Seq<char>>,
    pub line: int,
    pub column: int,
}

/// The character sequence that an optional literal denotes.
pub open spec fn literal_view(l: Option<String>) -> Option<Seq<char>> {
    match l {
        Some(s) => Some(s@),
        None => None,
    }
}

impl View for Token {
    type V = TokenModel;

    open spec fn view(&self) -> TokenModel {
        TokenModel {
            kind: self.kind,
            literal: literal_view(self.literal),
            line: self.line as int,
            column: self.column as int,
        }
    }
}

/// The sequence of token models that a sequence of tokens denotes.
pub open spec fn token_views(ts: Seq<Token>) -> Seq<TokenModel> {
    ts.map_values(|t: Token| t@)
}

} // verus!
