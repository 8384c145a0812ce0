//! Laws of the scanner, stated over the specification model and proved
//! once and for all. Together with `Scanner::lex`'s contract they hold of
//! every run of the executable scanner.

use vstd::prelude::*;

use crate::model::{
    cons_token, is_compound_start, is_single_punct, lone_kind, punct, single_punct_kind, spec_lex,
    spec_lex_from,
};
use crate::token::{LexError, TokenModel, TokenType};

verus! {

/// A punctuation or operator character that forms a complete token on
/// its own when it is the whole source.
pub open spec fn is_operator_char(c: char) -> bool {
    is_single_punct(c) || is_compound_start(c) || c == '/'
}

/// The kind of the token that such a character forms on its own.
pub open spec fn operator_kind(c: char) -> TokenType {
    if is_single_punct(c) {
        single_punct_kind(c)
    } else if c == '/' {
        TokenType::Slash
    } else {
        lone_kind(c)
    }
}

/// Scanning any source that consists of exactly one supported
/// punctuation or operator character yields exactly one token: it has
/// that character's kind, no literal payload, line 0, and column 1.
pub proof fn lemma_single_operator(c: char)
    requires
        is_operator_char(c),
    ensures
        spec_lex(seq![c]) == Ok::<Seq<TokenModel>, LexError>(seq![punct(operator_kind(c), 0, 1)]),
{
    let s = seq![c];
    assert(s.len() == 1 && s[0] == c);
    assert(spec_lex_from(s, 1, 0, 1) == Ok::<Seq<TokenModel>, LexError>(Seq::empty()));
    if is_single_punct(c) {
        assert(spec_lex_from(s, 0, 0, 0) == cons_token(
            punct(single_punct_kind(c), 0, 1),
            spec_lex_from(s, 1, 0, 1),
        ));
    } else if c == '/' {
        assert(spec_lex_from(s, 0, 0, 0) == cons_token(
            punct(TokenType::Slash, 0, 1),
            spec_lex_from(s, 1, 0, 1),
        ));
    } else {
        assert(spec_lex_from(s, 0, 0, 0) == cons_token(
            punct(lone_kind(c), 0, 1),
            spec_lex_from(s, 1, 0, 1),
        ));
    }
    assert(seq![punct(operator_kind(c), 0, 1)] + Seq::<TokenModel>::empty() =~= seq![
        punct(operator_kind(c), 0, 1),
    ]);
}

} // verus!
