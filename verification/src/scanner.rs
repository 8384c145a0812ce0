//! The executable scanner: a single-pass cursor over the source
//! characters with one character of lookahead, proved to return exactly
//! the token sequence (or the error) that `model::spec_lex` assigns to
//! the source.

use vstd::prelude::*;
use vstd::string::StrSliceExecFns;

use crate::model::{
    compound_kind, cons_token, digits_end, find_char, ident_end, is_compound_start, is_digit,
    is_identifier_char, is_identifier_start, is_single_punct, is_space, lemma_digits_end,
    lemma_find_char, lemma_ident_end, lemma_newlines_in_snoc, lemma_prepend_push, lone_kind,
    newlines_in, prepend_tokens, punct, single_punct_kind, spec_lex_from,
};
use crate::token::{literal_view, token_views, LexError, Token, TokenModel, TokenType};

verus! {

/// Relies on `String::push` of std: it appends exactly the given
/// character to the string.
pub assume_specification[ String::push ](s: &mut String, ch: char)
    ensures
        final(s)@ == old(s)@.push(ch),
;

/// The scanner: the source as characters, the cursor, the position
/// counters, and the tokens emitted so far.
pub struct Scanner {
    source: Vec<char>,
    pos: usize,
    line: u32,
    column: u32,
    tokens: Vec<Token>,
}

/// The mathematical image of a scanner's state.
#[verifier::ext_equal]
pub struct ScannerModel {
    pub source: Seq<char>,
    pub pos: int,
    pub line: int,
    pub column: int,
    pub tokens: Seq<TokenModel>,
}

impl View for Scanner {
    type V = ScannerModel;

    closed spec fn view(&self) -> ScannerModel {
        ScannerModel {
            source: self.source@,
            pos: self.pos as int,
            line: self.line as int,
            column: self.column as int,
            tokens: token_views(self.tokens@),
        }
    }
}

// ----------------------------------------------------------------------
// Character classification
// ----------------------------------------------------------------------
fn digit_char(c: char) -> (r: bool)
    ensures
        r == is_digit(c),
{
    let u = c as u32;
    48 <= u && u <= 57
}

fn identifier_start_char(c: char) -> (r: bool)
    ensures
        r == is_identifier_start(c),
{
    let u = c as u32;
    (65 <= u && u <= 90) || (97 <= u && u <= 122) || c == '_'
}

fn identifier_char(c: char) -> (r: bool)
    ensures
        r == is_identifier_char(c),
{
    let u = c as u32;
    (65 <= u && u <= 90) || (97 <= u && u <= 122) || (48 <= u && u <= 57) || c == '_'
}

fn space_char(c: char) -> (r: bool)
    ensures
        r == is_space(c),
{
    let u = c as u32;
    (9 <= u && u <= 13) || u == 32 || u == 133 || u == 160 || u == 5760 || (8192 <= u && u
        <= 8202) || u == 8232 || u == 8233 || u == 8239 || u == 8287 || u == 12288
}

fn single_punct_char(c: char) -> (r: bool)
    ensures
        r == is_single_punct(c),
{
    c == '(' || c == ')' || c == '{' || c == '}' || c == ',' || c == '.' || c == ';' || c == '+'
        || c == '-' || c == '*'
}

fn single_punct_token_kind(c: char) -> (k: TokenType)
    requires
        is_single_punct(c),
    ensures
        k == single_punct_kind(c),
{
    if c == '(' {
        TokenType::LeftParen
    } else if c == ')' {
        TokenType::RightParen
    } else if c == '{' {
        TokenType::LeftBrace
    } else if c == '}' {
        TokenType::RightBrace
    } else if c == ',' {
        TokenType::Comma
    } else if c == '.' {
        TokenType::Dot
    } else if c == ';' {
        TokenType::SemiColon
    } else if c == '+' {
        TokenType::Plus
    } else if c == '-' {
        TokenType::Minus
    } else {
        TokenType::Star
    }
}

fn compound_start_char(c: char) -> (r: bool)
    ensures
        r == is_compound_start(c),
{
    c == '=' || c == '<' || c == '>' || c == '!'
}

fn compound_token_kinds(c: char) -> (ks: (TokenType, TokenType))
    requires
        is_compound_start(c),
    ensures
        ks.0 == compound_kind(c),
        ks.1 == lone_kind(c),
{
    if c == '=' {
        (TokenType::EqualEqual, TokenType::Equal)
    } else if c == '<' {
        (TokenType::LessEqual, TokenType::Less)
    } else if c == '>' {
        (TokenType::GreaterEqual, TokenType::Greater)
    } else {
        (TokenType::NegEqual, TokenType::Neg)
    }
}

// ----------------------------------------------------------------------
// The scanner
// ----------------------------------------------------------------------
impl Scanner {
    /// The scanner's internal invariant: the cursor stays inside the
    /// source, the column counter equals the count of consumed
    /// characters, the line counter never exceeds it, and every count
    /// fits its counter.
    pub closed spec fn wf(&self) -> bool {
        &&& self.pos <= self.source@.len()
        &&& self.column as int == self.pos as int
        &&& self.line as int <= self.pos as int
        &&& self.source@.len() <= u32::MAX
    }

    /// Builds a scanner over the given source, with nothing consumed and
    /// no tokens emitted. The length bound keeps the position counters
    /// within their machine type.
    pub fn new(source: &str) -> (s: Scanner)
        requires
            source@.len() <= u32::MAX,
        ensures
            s.wf(),
            s@ == (ScannerModel {
                source: source@,
                pos: 0,
                line: 0,
                column: 0,
                tokens: Seq::empty(),
            }),
    {
        let n = source.unicode_len();
        let mut chars: Vec<char> = Vec::new();
        let mut i: usize = 0;
        while i < n
            invariant
                n == source@.len(),
                i <= n,
                chars@ == source@.subrange(0, i as int),
            decreases n - i,
        {
            let c = source.get_char(i);
            chars.push(c);
            proof {
                assert(chars@ =~= source@.subrange(0, i + 1));
            }
            i = i + 1;
        }
        let s = Scanner { source: chars, pos: 0, line: 0, column: 0, tokens: Vec::new() };
        proof {
            assert(s.source@ =~= source@);
            assert(token_views(s.tokens@) =~= Seq::<TokenModel>::empty());
            assert(s@ =~= (ScannerModel {
                source: source@,
                pos: 0,
                line: 0,
                column: 0,
                tokens: Seq::empty(),
            }));
        }
        s
    }

    /// Consumes and returns the next character, advancing the cursor and
    /// the column counter; returns `None` at the end of the input.
    fn next(&mut self) -> (r: Option<char>)
        requires
            old(self).wf(),
        ensures
            final(self).wf(),
            final(self)@.source == old(self)@.source,
            final(self)@.tokens == old(self)@.tokens,
            final(self)@.line == old(self)@.line,
            old(self)@.pos < old(self)@.source.len() ==> r == Some(
                old(self)@.source[old(self)@.pos],
            ) && final(self)@.pos == old(self)@.pos + 1 && final(self)@.column == old(self)@.column
                + 1,
            old(self)@.pos >= old(self)@.source.len() ==> r is None && final(self)@ == old(self)@,
    {
        if self.pos < self.source.len() {
            let c = self.source[self.pos];
            self.pos = self.pos + 1;
            self.column = self.column + 1;
            Some(c)
        } else {
            None
        }
    }

    /// Returns the next character without consuming it, or `None` at the
    /// end of the input.
    pub fn peek(&self) -> (r: Option<char>)
        ensures
            r == (if self@.pos < self@.source.len() {
                Some(self@.source[self@.pos])
            } else {
                None::<char>
            }),
    {
        if self.pos < self.source.len() {
            Some(self.source[self.pos])
        } else {
            None
        }
    }

    /// Consumes the next character exactly when it equals `expected`,
    /// and reports whether it did.
    pub fn match_char(&mut self, expected: char) -> (r: bool)
        requires
            old(self).wf(),
        ensures
            final(self).wf(),
            final(self)@.source == old(self)@.source,
            final(self)@.tokens == old(self)@.tokens,
            final(self)@.line == old(self)@.line,
            r == (old(self)@.pos < old(self)@.source.len() && old(self)@.source[old(self)@.pos]
                == expected),
            r ==> final(self)@.pos == old(self)@.pos + 1 && final(self)@.column == old(self)@.column
                + 1,
            !r ==> final(self)@ == old(self)@,
    {
        if self.pos < self.source.len() {
            let c = self.source[self.pos];
            if c == expected {
                self.pos = self.pos + 1;
                self.column = self.column + 1;
                return true;
            }
        }
        false
    }

    /// Emits one token of the given kind and payload at the current
    /// position.
    fn add_token(&mut self, token_ty: TokenType, literal: Option<String>)
        ensures
            final(self)@.source == old(self)@.source,
            final(self)@.pos == old(self)@.pos,
            final(self)@.line == old(self)@.line,
            final(self)@.column == old(self)@.column,
            final(self)@.tokens == old(self)@.tokens.push(
                (TokenModel {
                    kind: token_ty,
                    literal: literal_view(literal),
                    line: old(self)@.line,
                    column: old(self)@.column,
                }),
            ),
            old(self).wf() ==> final(self).wf(),
    {
        let t = Token { kind: token_ty, literal: literal, line: self.line, column: self.column };
        self.tokens.push(t);
        proof {
            assert(token_views(self.tokens@) =~= token_views(old(self).tokens@).push(
                (TokenModel {
                    kind: token_ty,
                    literal: literal_view(literal),
                    line: old(self)@.line,
                    column: old(self)@.column,
                }),
            ));
        }
    }

    /// Scans the continuation of a number whose first digit was just
    /// consumed, and emits the `Number` token, whose literal is the whole
    /// maximal digit run. The first character after the digits is left
    /// unconsumed: it belongs to the next token.
    fn lex_number(&mut self, first: char)
        requires
            old(self).wf(),
            1 <= old(self)@.pos,
            old(self)@.source[old(self)@.pos - 1] == first,
        ensures
            final(self).wf(),
            final(self)@.source == old(self)@.source,
            final(self)@.line == old(self)@.line,
            final(self)@.pos == digits_end(old(self)@.source, old(self)@.pos),
            final(self)@.tokens == old(self)@.tokens.push(
                (TokenModel {
                    kind: TokenType::Number,
                    literal: Some(
                        old(self)@.source.subrange(
                            old(self)@.pos - 1,
                            digits_end(old(self)@.source, old(self)@.pos),
                        ),
                    ),
                    line: old(self)@.line,
                    column: digits_end(old(self)@.source, old(self)@.pos),
                }),
            ),
    {
        let ghost s = self@.source;
        let ghost start = self@.pos;
        let ghost line0 = self@.line;
        let ghost toks0 = self@.tokens;
        let mut literal = String::new();
        literal.push(first);
        proof {
            assert(literal@ =~= s.subrange(start - 1, start));
        }
        loop
            invariant
                self.wf(),
                self@.source == s,
                self@.line == line0,
                self@.tokens == toks0,
                1 <= start <= self@.pos <= s.len(),
                digits_end(s, self@.pos) == digits_end(s, start),
                literal@ == s.subrange(start - 1, self@.pos),
            ensures
                self.wf(),
                self@.source == s,
                self@.line == line0,
                self@.tokens == toks0,
                self@.pos == digits_end(s, start),
                literal@ == s.subrange(start - 1, digits_end(s, start)),
            decreases s.len() - self@.pos,
        {
            match self.peek() {
                Some(c) => {
                    if digit_char(c) {
                        let _ = self.next();
                        literal.push(c);
                        proof {
                            assert(s.subrange(start - 1, self@.pos) =~= s.subrange(
                                start - 1,
                                self@.pos - 1,
                            ).push(c));
                        }
                    } else {
                        proof {
                            assert(digits_end(s, self@.pos) == self@.pos);
                        }
                        break ;
                    }
                },
                None => {
                    proof {
                        assert(digits_end(s, self@.pos) == self@.pos);
                    }
                    break ;
                },
            }
        }
        self.add_token(TokenType::Number, Some(literal));
    }

    /// Scans the continuation of an identifier whose first character was
    /// just consumed, and emits the `Identifier` token, whose literal is
    /// the whole maximal identifier run. The first character after it is
    /// left unconsumed: it belongs to the next token.
    fn lex_identifier(&mut self, first: char)
        requires
            old(self).wf(),
            1 <= old(self)@.pos,
            old(self)@.source[old(self)@.pos - 1] == first,
        ensures
            final(self).wf(),
            final(self)@.source == old(self)@.source,
            final(self)@.line == old(self)@.line,
            final(self)@.pos == ident_end(old(self)@.source, old(self)@.pos),
            final(self)@.tokens == old(self)@.tokens.push(
                (TokenModel {
                    kind: TokenType::Identifier,
                    literal: Some(
                        old(self)@.source.subrange(
                            old(self)@.pos - 1,
                            ident_end(old(self)@.source, old(self)@.pos),
                        ),
                    ),
                    line: old(self)@.line,
                    column: ident_end(old(self)@.source, old(self)@.pos),
                }),
            ),
    {
        let ghost s = self@.source;
        let ghost start = self@.pos;
        let ghost line0 = self@.line;
        let ghost toks0 = self@.tokens;
        let mut literal = String::new();
        literal.push(first);
        proof {
            assert(literal@ =~= s.subrange(start - 1, start));
        }
        loop
            invariant
                self.wf(),
                self@.source == s,
                self@.line == line0,
                self@.tokens == toks0,
                1 <= start <= self@.pos <= s.len(),
                ident_end(s, self@.pos) == ident_end(s, start),
                literal@ == s.subrange(start - 1, self@.pos),
            ensures
                self.wf(),
                self@.source == s,
                self@.line == line0,
                self@.tokens == toks0,
                self@.pos == ident_end(s, start),
                literal@ == s.subrange(start - 1, ident_end(s, start)),
            decreases s.len() - self@.pos,
        {
            match self.peek() {
                Some(c) => {
                    if identifier_char(c) {
                        let _ = self.next();
                        literal.push(c);
                        proof {
                            assert(s.subrange(start - 1, self@.pos) =~= s.subrange(
                                start - 1,
                                self@.pos - 1,
                            ).push(c));
                        }
                    } else {
                        proof {
                            assert(ident_end(s, self@.pos) == self@.pos);
                        }
                        break ;
                    }
                },
                None => {
                    proof {
                        assert(ident_end(s, self@.pos) == self@.pos);
                    }
                    break ;
                },
            }
        }
        self.add_token(TokenType::Identifier, Some(literal));
    }

    /// Scans a string literal whose opening quote was just consumed. On
    /// success the `Str` token carries the text between the quotes (the
    /// quotes excluded), tagged with the line of the opening quote;
    /// newlines inside the literal advance the line counter. If the input
    /// ends before a closing quote, the scan fails with
    /// `UnterminatedString` at the opening quote's position.
    #[verifier::loop_isolation(false)]
    fn lex_string(&mut self) -> (r: Result<(), LexError>)
        requires
            old(self).wf(),
            1 <= old(self)@.pos,
            old(self)@.source[old(self)@.pos - 1] == '"',
        ensures
            final(self).wf(),
            final(self)@.source == old(self)@.source,
            ({
                let s = old(self)@.source;
                let start = old(self)@.pos;
                let j = find_char(s, start, '"');
                if j < s.len() {
                    r is Ok && final(self)@.pos == j + 1 && final(self)@.line == old(self)@.line
                        + newlines_in(s, start, j) && final(self)@.tokens
                        == old(self)@.tokens.push(
                        (TokenModel {
                            kind: TokenType::Str,
                            literal: Some(s.subrange(start, j)),
                            line: old(self)@.line,
                            column: j + 1,
                        }),
                    )
                } else {
                    r == Err::<(), LexError>(
                        (LexError::UnterminatedString {
                            line: old(self)@.line as u32,
                            column: old(self)@.pos as u32,
                        }),
                    ) && final(self)@.tokens == old(self)@.tokens
                }
            }),
    {
        let ghost s = self@.source;
        let ghost start = self@.pos;
        let ghost line0 = self@.line;
        let ghost toks0 = self@.tokens;
        let start_line = self.line;
        let start_column = self.column;
        let mut literal = String::new();
        proof {
            assert(literal@ =~= s.subrange(start, start));
        }
        loop
            invariant
                self.wf(),
                self@.source == s,
                self@.tokens == toks0,
                1 <= start <= self@.pos <= s.len(),
                find_char(s, self@.pos, '"') == find_char(s, start, '"'),
                literal@ == s.subrange(start, self@.pos),
                self@.line == line0 + newlines_in(s, start, self@.pos),
                start_line as int == line0,
                start_column as int == start,
            decreases s.len() - self@.pos,
        {
            match self.peek() {
                Some(c) => {
                    if c == '"' {
                        proof {
                            assert(find_char(s, self@.pos, '"') == self@.pos);
                        }
                        let ghost e = self@.pos;
                        let _ = self.next();
                        let t = Token {
                            kind: TokenType::Str,
                            literal: Some(literal),
                            line: start_line,
                            column: self.column,
                        };
                        self.tokens.push(t);
                        proof {
                            assert(token_views(self.tokens@) =~= toks0.push(t@));
                            assert(t@ =~= (TokenModel {
                                kind: TokenType::Str,
                                literal: Some(s.subrange(start, e)),
                                line: line0,
                                column: e + 1,
                            }));
                        }
                        return Ok(());
                    } else {
                        let _ = self.next();
                        literal.push(c);
                        if c == '\n' {
                            self.line = self.line + 1;
                        }
                        proof {
                            assert(s.subrange(start, self@.pos) =~= s.subrange(
                                start,
                                self@.pos - 1,
                            ).push(c));
                            lemma_newlines_in_snoc(s, start, self@.pos - 1);
                        }
                    }
                },
                None => {
                    proof {
                        assert(find_char(s, self@.pos, '"') == self@.pos);
                    }
                    return Err(
                        LexError::UnterminatedString { line: start_line, column: start_column },
                    );
                },
            }
        }
    }

    /// Drains the remaining source and returns the full token sequence,
    /// or the first lexical error.
    ///
    /// The result is exactly what `spec_lex_from` assigns to the
    /// remaining input: on success, the tokens already emitted followed
    /// by those of the rest of the source; on failure, the error the
    /// remaining source denotes. On a scanner fresh from `new` this is
    /// `spec_lex` of the whole source.
    #[verifier::loop_isolation(false)]
    pub fn lex(self) -> (r: Result<Vec<Token>, LexError>)
        requires
            self.wf(),
        ensures
            ({
                let res = spec_lex_from(self@.source, self@.pos, self@.line, self@.column);
                match r {
                    Ok(ts) => res is Ok && token_views(ts@) == self@.tokens + res->Ok_0,
                    Err(e) => res == Err::<Seq<TokenModel>, LexError>(e),
                }
            }),
    {
        let ghost m0 = self@;
        let ghost goal = spec_lex_from(m0.source, m0.pos, m0.line, m0.column);
        let mut sc = self;
        while sc.pos < sc.source.len()
            invariant
                sc.wf(),
                sc@.source == m0.source,
                prepend_tokens(
                    sc@.tokens,
                    spec_lex_from(m0.source, sc@.pos, sc@.line, sc@.column),
                ) == prepend_tokens(m0.tokens, goal),
            decreases m0.source.len() - sc@.pos,
        {
            let ghost pre = sc@;
            let ghost cur = spec_lex_from(m0.source, pre.pos, pre.line, pre.column);
            let copt = sc.next();
            let c = copt.unwrap();
            if single_punct_char(c) {
                let k = single_punct_token_kind(c);
                sc.add_token(k, None);
                proof {
                    lemma_prepend_push(
                        pre.tokens,
                        punct(single_punct_kind(c), pre.line, pre.column + 1),
                        spec_lex_from(m0.source, pre.pos + 1, pre.line, pre.column + 1),
                    );
                    assert(cur == cons_token(
                        punct(single_punct_kind(c), pre.line, pre.column + 1),
                        spec_lex_from(m0.source, pre.pos + 1, pre.line, pre.column + 1),
                    ));
                }
            } else if c == '/' {
                if sc.match_char('/') {
                    // A line comment: discard everything up to the next
                    // newline (or the end of the input), then consume the
                    // newline itself, if there is one.
                    let ghost cstart = sc@.pos;
                    while sc.pos < sc.source.len() && sc.source[sc.pos] != '\n'
                        invariant
                            sc.wf(),
                            sc@.source == m0.source,
                            sc@.tokens == pre.tokens,
                            sc@.line == pre.line,
                            cstart <= sc@.pos <= m0.source.len(),
                            find_char(m0.source, sc@.pos, '\n') == find_char(
                                m0.source,
                                cstart,
                                '\n',
                            ),
                        decreases m0.source.len() - sc@.pos,
                    {
                        let _ = sc.next();
                    }
                    proof {
                        assert(find_char(m0.source, sc@.pos, '\n') == sc@.pos);
                        lemma_find_char(m0.source, cstart, '\n');
                    }
                    if sc.match_char('\n') {
                        sc.line = sc.line + 1;
                        proof {
                            assert(cur == spec_lex_from(m0.source, sc@.pos, sc@.line, sc@.column));
                        }
                    } else {
                        proof {
                            assert(sc@.pos == m0.source.len());
                            assert(cur == spec_lex_from(m0.source, sc@.pos, sc@.line, sc@.column));
                        }
                    }
                } else {
                    sc.add_token(TokenType::Slash, None);
                    proof {
                        lemma_prepend_push(
                            pre.tokens,
                            punct(TokenType::Slash, pre.line, pre.column + 1),
                            spec_lex_from(m0.source, pre.pos + 1, pre.line, pre.column + 1),
                        );
                        assert(cur == cons_token(
                            punct(TokenType::Slash, pre.line, pre.column + 1),
                            spec_lex_from(m0.source, pre.pos + 1, pre.line, pre.column + 1),
                        ));
                    }
                }
            } else if compound_start_char(c) {
                let ks = compound_token_kinds(c);
                sc.add_token_conditionally('=', ks.0, ks.1);
                proof {
                    if pre.pos + 1 < m0.source.len() && m0.source[pre.pos + 1] == '=' {
                        lemma_prepend_push(
                            pre.tokens,
                            punct(compound_kind(c), pre.line, pre.column + 2),
                            spec_lex_from(m0.source, pre.pos + 2, pre.line, pre.column + 2),
                        );
                        assert(cur == cons_token(
                            punct(compound_kind(c), pre.line, pre.column + 2),
                            spec_lex_from(m0.source, pre.pos + 2, pre.line, pre.column + 2),
                        ));
                    } else {
                        lemma_prepend_push(
                            pre.tokens,
                            punct(lone_kind(c), pre.line, pre.column + 1),
                            spec_lex_from(m0.source, pre.pos + 1, pre.line, pre.column + 1),
                        );
                        assert(cur == cons_token(
                            punct(lone_kind(c), pre.line, pre.column + 1),
                            spec_lex_from(m0.source, pre.pos + 1, pre.line, pre.column + 1),
                        ));
                    }
                }
            } else if c == '"' {
                let res = sc.lex_string();
                match res {
                    Ok(_) => {
                        proof {
                            let j = find_char(m0.source, pre.pos + 1, '"');
                            lemma_find_char(m0.source, pre.pos + 1, '"');
                            lemma_prepend_push(
                                pre.tokens,
                                (TokenModel {
                                    kind: TokenType::Str,
                                    literal: Some(m0.source.subrange(pre.pos + 1, j)),
                                    line: pre.line,
                                    column: j + 1,
                                }),
                                spec_lex_from(
                                    m0.source,
                                    j + 1,
                                    pre.line + newlines_in(m0.source, pre.pos + 1, j),
                                    j + 1,
                                ),
                            );
                            assert(cur == cons_token(
                                (TokenModel {
                                    kind: TokenType::Str,
                                    literal: Some(m0.source.subrange(pre.pos + 1, j)),
                                    line: pre.line,
                                    column: j + 1,
                                }),
                                spec_lex_from(
                                    m0.source,
                                    j + 1,
                                    pre.line + newlines_in(m0.source, pre.pos + 1, j),
                                    j + 1,
                                ),
                            ));
                        }
                    },
                    Err(e) => {
                        proof {
                            lemma_find_char(m0.source, pre.pos + 1, '"');
                            assert(cur == Err::<Seq<TokenModel>, LexError>(e));
                            assert(prepend_tokens(m0.tokens, goal) == Err::<
                                Seq<TokenModel>,
                                LexError,
                            >(e));
                            assert(goal == Err::<Seq<TokenModel>, LexError>(e));
                        }
                        return Err(e);
                    },
                }
            } else if digit_char(c) {
                sc.lex_number(c);
                proof {
                    lemma_digits_end(m0.source, pre.pos + 1);
                    let j = digits_end(m0.source, pre.pos + 1);
                    lemma_prepend_push(
                        pre.tokens,
                        (TokenModel {
                            kind: TokenType::Number,
                            literal: Some(m0.source.subrange(pre.pos, j)),
                            line: pre.line,
                            column: j,
                        }),
                        spec_lex_from(m0.source, j, pre.line, j),
                    );
                    assert(cur == cons_token(
                        (TokenModel {
                            kind: TokenType::Number,
                            literal: Some(m0.source.subrange(pre.pos, j)),
                            line: pre.line,
                            column: j,
                        }),
                        spec_lex_from(m0.source, j, pre.line, j),
                    ));
                }
            } else if identifier_start_char(c) {
                sc.lex_identifier(c);
                proof {
                    lemma_ident_end(m0.source, pre.pos + 1);
                    let j = ident_end(m0.source, pre.pos + 1);
                    lemma_prepend_push(
                        pre.tokens,
                        (TokenModel {
                            kind: TokenType::Identifier,
                            literal: Some(m0.source.subrange(pre.pos, j)),
                            line: pre.line,
                            column: j,
                        }),
                        spec_lex_from(m0.source, j, pre.line, j),
                    );
                    assert(cur == cons_token(
                        (TokenModel {
                            kind: TokenType::Identifier,
                            literal: Some(m0.source.subrange(pre.pos, j)),
                            line: pre.line,
                            column: j,
                        }),
                        spec_lex_from(m0.source, j, pre.line, j),
                    ));
                }
            } else if space_char(c) {
                if c == '\n' {
                    sc.line = sc.line + 1;
                }
                proof {
                    assert(cur == spec_lex_from(m0.source, sc@.pos, sc@.line, sc@.column));
                }
            } else {
                let e = LexError::UnsupportedCharacter { line: sc.line, column: sc.column, ch: c };
                proof {
                    assert(cur == Err::<Seq<TokenModel>, LexError>(e));
                    assert(prepend_tokens(m0.tokens, goal) == Err::<Seq<TokenModel>, LexError>(e));
                    assert(goal == Err::<Seq<TokenModel>, LexError>(e));
                }
                return Err(e);
            }
        }
        proof {
            assert(spec_lex_from(m0.source, sc@.pos, sc@.line, sc@.column) == Ok::<
                Seq<TokenModel>,
                LexError,
            >(Seq::empty()));
            assert(sc@.tokens + Seq::<TokenModel>::empty() =~= sc@.tokens);
            assert(goal is Ok);
            assert(token_views(sc.tokens@) == m0.tokens + goal->Ok_0);
        }
        Ok(sc.tokens)
    }

    /// Looks ahead for `expected`: consumes it and emits the two-character
    /// token when it is next, and emits the one-character token otherwise.
    fn add_token_conditionally(&mut self, expected: char, true_case: TokenType, false_case: TokenType)
        requires
            old(self).wf(),
        ensures
            final(self).wf(),
            final(self)@.source == old(self)@.source,
            final(self)@.line == old(self)@.line,
            (if old(self)@.pos < old(self)@.source.len() && old(self)@.source[old(self)@.pos]
                == expected {
                final(self)@.pos == old(self)@.pos + 1 && final(self)@.column == old(self)@.column
                    + 1 && final(self)@.tokens == old(self)@.tokens.push(
                    punct(true_case, old(self)@.line, old(self)@.column + 1),
                )
            } else {
                final(self)@.pos == old(self)@.pos && final(self)@.column == old(self)@.column
                    && final(self)@.tokens == old(self)@.tokens.push(
                    punct(false_case, old(self)@.line, old(self)@.column),
                )
            }),
    {
        if self.match_char(expected) {
            self.add_token(true_case, None);
        } else {
            self.add_token(false_case, None);
        }
    }
}

} // verus!
