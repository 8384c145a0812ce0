//! The mathematical model of scanning: character classes, the boundaries
//! of the value-bearing tokens, and `spec_lex`, the function that says
//! what token sequence (or which error) a source text denotes.

use vstd::prelude::*;

use crate::token::{LexError, TokenModel, TokenType};

verus! {

// ----------------------------------------------------------------------
// Character classes
// ----------------------------------------------------------------------
/// An ASCII decimal digit.
pub open spec fn is_digit(c: char) -> bool {
    48 <= c as u32 && c as u32 <= 57
}

/// An ASCII letter.
pub open spec fn is_ascii_letter(c: char) -> bool {
    (65 <= c as u32 && c as u32 <= 90) || (97 <= c as u32 && c as u32 <= 122)
}

/// A character that may open an identifier: an ASCII letter or an
/// underscore. Digits are intercepted by the number rule, so they never
/// reach the identifier rule as a lead character.
pub open spec fn is_identifier_start(c: char) -> bool {
    is_ascii_letter(c) || c == '_'
}

/// A character that may continue an identifier: an ASCII letter, an
/// ASCII digit or an underscore.
pub open spec fn is_identifier_char(c: char) -> bool {
    is_ascii_letter(c) || is_digit(c) || c == '_'
}

/// A whitespace character: the White_Space set that `char::is_whitespace`
/// recognises, written out by code point.
pub open spec fn is_space(c: char) -> bool {
    let u = c as u32;
    (9 <= u && u <= 13) || u == 32 || u == 133 || u == 160 || u == 5760 || (8192 <= u && u
        <= 8202) || u == 8232 || u == 8233 || u == 8239 || u == 8287 || u == 12288
}

/// A punctuation or operator character that forms a token on its own,
/// with no lookahead.
pub open spec fn is_single_punct(c: char) -> bool {
    c == '(' || c == ')' || c == '{' || c == '}' || c == ',' || c == '.' || c == ';' || c == '+'
        || c == '-' || c == '*'
}

/// The token category of a single-character punctuation token.
pub open spec fn single_punct_kind(c: char) -> TokenType {
    if c == '(' {
        TokenType::LeftParen
    } else if c == ')' {
        TokenType::RightParen
    } else if c == '{' {
        TokenType::LeftBrace
    } else if c == '}' {
        TokenType::RightBrace
    } else if c == ',' {
        TokenType::Comma
    } else if c == '.' {
        TokenType::Dot
    } else if c == ';' {
        TokenType::SemiColon
    } else if c == '+' {
        TokenType::Plus
    } else if c == '-' {
        TokenType::Minus
    } else {
        TokenType::Star
    }
}

/// A character that opens a one- or two-character relational or equality
/// operator: the two-character form is taken when `=` follows.
pub open spec fn is_compound_start(c: char) -> bool {
    c == '=' || c == '<' || c == '>' || c == '!'
}

/// The token category of the two-character operator opened by `c`.
pub open spec fn compound_kind(c: char) -> TokenType {
    if c == '=' {
        TokenType::EqualEqual
    } else if c == '<' {
        TokenType::LessEqual
    } else if c == '>' {
        TokenType::GreaterEqual
    } else {
        TokenType::NegEqual
    }
}

/// The token category of `c` standing alone, when no `=` follows.
pub open spec fn lone_kind(c: char) -> TokenType {
    if c == '=' {
        TokenType::Equal
    } else if c == '<' {
        TokenType::Less
    } else if c == '>' {
        TokenType::Greater
    } else {
        TokenType::Neg
    }
}

// ----------------------------------------------------------------------
// Token boundaries
// ----------------------------------------------------------------------
/// The first index at or after `i` that does not hold an ASCII digit, or
/// `s.len()` if the digits run to the end of the input.
pub open spec fn digits_end(s: Seq<char>, i: int) -> int
    decreases s.len() - i,
{
    if 0 <= i < s.len() && is_digit(s[i]) {
        digits_end(s, i + 1)
    } else {
        i
    }
}

/// The first index at or after `i` that does not hold an identifier
/// character, or `s.len()` if the identifier runs to the end of the input.
pub open spec fn ident_end(s: Seq<char>, i: int) -> int
    decreases s.len() - i,
{
    if 0 <= i < s.len() && is_identifier_char(s[i]) {
        ident_end(s, i + 1)
    } else {
        i
    }
}

/// The first index at or after `i` that holds the character `t`, or
/// `s.len()` if `t` does not occur at or after `i`.
pub open spec fn find_char(s: Seq<char>, i: int, t: char) -> int
    decreases s.len() - i,
{
    if 0 <= i < s.len() && s[i] != t {
        find_char(s, i + 1, t)
    } else {
        i
    }
}

/// The number of newline characters among `s[i..j)`.
pub open spec fn newlines_in(s: Seq<char>, i: int, j: int) -> int
    decreases j - i,
{
    if i >= j {
        0
    } else {
        (if 0 <= i < s.len() && s[i] == '\n' {
            1int
        } else {
            0int
        }) + newlines_in(s, i + 1, j)
    }
}

/// `digits_end` stays within `[i, s.len()]`, everything before it is a
/// digit, and the character at it (if any) is not.
pub proof fn lemma_digits_end(s: Seq<char>, i: int)
    requires
        0 <= i <= s.len(),
    ensures
        i <= digits_end(s, i) <= s.len(),
        forall|k: int| i <= k < digits_end(s, i) ==> is_digit(s[k]),
        digits_end(s, i) < s.len() ==> !is_digit(s[digits_end(s, i)]),
    decreases s.len() - i,
{
    if 0 <= i < s.len() && is_digit(s[i]) {
        lemma_digits_end(s, i + 1);
    }
}

/// `ident_end` stays within `[i, s.len()]`, everything before it is an
/// identifier character, and the character at it (if any) is not.
pub proof fn lemma_ident_end(s: Seq<char>, i: int)
    requires
        0 <= i <= s.len(),
    ensures
        i <= ident_end(s, i) <= s.len(),
        forall|k: int| i <= k < ident_end(s, i) ==> is_identifier_char(s[k]),
        ident_end(s, i) < s.len() ==> !is_identifier_char(s[ident_end(s, i)]),
    decreases s.len() - i,
{
    if 0 <= i < s.len() && is_identifier_char(s[i]) {
        lemma_ident_end(s, i + 1);
    }
}

/// `find_char` stays within `[i, s.len()]`, `t` occurs nowhere before it,
/// and it points at `t` unless it is `s.len()`.
pub proof fn lemma_find_char(s: Seq<char>, i: int, t: char)
    requires
        0 <= i <= s.len(),
    ensures
        i <= find_char(s, i, t) <= s.len(),
        forall|k: int| i <= k < find_char(s, i, t) ==> s[k] != t,
        find_char(s, i, t) < s.len() ==> s[find_char(s, i, t)] == t,
    decreases s.len() - i,
{
    if 0 <= i < s.len() && s[i] != t {
        lemma_find_char(s, i + 1, t);
    }
}

/// Extending a span one character to the right adds one to its newline
/// count exactly when that character is a newline.
pub proof fn lemma_newlines_in_snoc(s: Seq<char>, i: int, j: int)
    requires
        0 <= i <= j < s.len(),
    ensures
        newlines_in(s, i, j + 1) == newlines_in(s, i, j) + (if s[j] == '\n' {
            1int
        } else {
            0int
        }),
    decreases j - i,
{
    if i < j {
        lemma_newlines_in_snoc(s, i + 1, j);
        assert(newlines_in(s, i, j + 1) == (if 0 <= i < s.len() && s[i] == '\n' {
            1int
        } else {
            0int
        }) + newlines_in(s, i + 1, j + 1));
    } else {
        assert(newlines_in(s, j + 1, j + 1) == 0);
        assert(newlines_in(s, i, j) == 0);
    }
}

// ----------------------------------------------------------------------
// The meaning of a scan
// ----------------------------------------------------------------------
/// A token model with no literal payload.
pub open spec fn punct(kind: TokenType, line: int, column: int) -> TokenModel {
    TokenModel { kind: kind, literal: None, line: line, column: column }
}

/// Prepends a token to the result of scanning the rest of the input; an
/// error swallows the token.
pub open spec fn cons_token(t: TokenModel, rest: Result<Seq<TokenModel>, LexError>) -> Result<
    Seq<TokenModel>,
    LexError,
> {
    match rest {
        Ok(ts) => Ok(seq![t] + ts),
        Err(e) => Err(e),
    }
}

/// Prefixes already-emitted tokens onto the result of scanning the rest
/// of the input; an error stands whatever was emitted before it.
pub open spec fn prepend_tokens(
    pre: Seq<TokenModel>,
    rest: Result<Seq<TokenModel>, LexError>,
) -> Result<Seq<TokenModel>, LexError> {
    match rest {
        Ok(ts) => Ok(pre + ts),
        Err(e) => Err(e),
    }
}

/// Emitting a token and then scanning on is the same as prepending that
/// token to the scan of the rest.
pub proof fn lemma_prepend_push(
    pre: Seq<TokenModel>,
    t: TokenModel,
    rest: Result<Seq<TokenModel>, LexError>,
)
    ensures
        prepend_tokens(pre.push(t), rest) == prepend_tokens(pre, cons_token(t, rest)),
{
    match rest {
        Ok(ts) => {
            assert(pre.push(t) + ts =~= pre + (seq![t] + ts));
        },
        Err(_) => {},
    }
}

/// The tokens (or the first error) that `s[i..]` denotes, entered with
/// `line` newlines and `column` characters already consumed.
///
/// Positions in emitted tokens and errors follow the scanner's
/// conventions: a token's `line` is the line on which its first character
/// was consumed, and its `column` is the count of characters consumed up
/// to and including its last character.
pub open spec fn spec_lex_from(s: Seq<char>, i: int, line: int, column: int) -> Result<
    Seq<TokenModel>,
    LexError,
>
    decreases s.len() - i,
    via spec_lex_from_decreases
{
    if !(0 <= i < s.len()) {
        Ok(Seq::empty())
    } else {
        let c = s[i];
        if is_single_punct(c) {
            cons_token(
                punct(single_punct_kind(c), line, column + 1),
                spec_lex_from(s, i + 1, line, column + 1),
            )
        } else if c == '/' {
            if i + 1 < s.len() && s[i + 1] == '/' {
                // A line comment: it contributes no token. If a newline
                // ends it, the newline is consumed too and the line count
                // grows by one; otherwise the comment runs to the end of
                // the input.
                let j = find_char(s, i + 2, '\n');
                if j < s.len() {
                    spec_lex_from(s, j + 1, line + 1, column + (j + 1 - i))
                } else {
                    spec_lex_from(s, j, line, column + (j - i))
                }
            } else {
                cons_token(
                    punct(TokenType::Slash, line, column + 1),
                    spec_lex_from(s, i + 1, line, column + 1),
                )
            }
        } else if is_compound_start(c) {
            if i + 1 < s.len() && s[i + 1] == '=' {
                cons_token(
                    punct(compound_kind(c), line, column + 2),
                    spec_lex_from(s, i + 2, line, column + 2),
                )
            } else {
                cons_token(
                    punct(lone_kind(c), line, column + 1),
                    spec_lex_from(s, i + 1, line, column + 1),
                )
            }
        } else if c == '"' {
            let j = find_char(s, i + 1, '"');
            if j < s.len() {
                cons_token(
                    TokenModel {
                        kind: TokenType::Str,
                        literal: Some(s.subrange(i + 1, j)),
                        line: line,
                        column: column + (j + 1 - i),
                    },
                    spec_lex_from(s, j + 1, line + newlines_in(s, i + 1, j), column + (j + 1 - i)),
                )
            } else {
                Err(LexError::UnterminatedString { line: line as u32, column: (column + 1) as u32 })
            }
        } else if is_digit(c) {
            let j = digits_end(s, i + 1);
            cons_token(
                TokenModel {
                    kind: TokenType::Number,
                    literal: Some(s.subrange(i, j)),
                    line: line,
                    column: column + (j - i),
                },
                spec_lex_from(s, j, line, column + (j - i)),
            )
        } else if is_identifier_start(c) {
            let j = ident_end(s, i + 1);
            cons_token(
                TokenModel {
                    kind: TokenType::Identifier,
                    literal: Some(s.subrange(i, j)),
                    line: line,
                    column: column + (j - i),
                },
                spec_lex_from(s, j, line, column + (j - i)),
            )
        } else if is_space(c) {
            spec_lex_from(
                s,
                i + 1,
                if c == '\n' {
                    line + 1
                } else {
                    line
                },
                column + 1,
            )
        } else {
            Err(
                LexError::UnsupportedCharacter {
                    line: line as u32,
                    column: (column + 1) as u32,
                    ch: c,
                },
            )
        }
    }
}

#[via_fn]
proof fn spec_lex_from_decreases(s: Seq<char>, i: int, line: int, column: int) {
    if 0 <= i < s.len() {
        lemma_digits_end(s, i + 1);
        lemma_ident_end(s, i + 1);
        lemma_find_char(s, i + 1, '"');
        if i + 2 <= s.len() {
            lemma_find_char(s, i + 2, '\n');
        }
    }
}

/// The tokens (or the first error) that the whole source `s` denotes.
pub open spec fn spec_lex(s: Seq<char>) -> Result<Seq<TokenModel>, LexError> {
    spec_lex_from(s, 0, 0, 0)
}

} // verus!
