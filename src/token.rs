//! Tokens of a Unify file.
use vstd::prelude::*;
use crate::chars::same_text;

verus! {

/// What a token is.
#[derive(Clone, Copy, Debug, PartialEq, Eq, Structural)]
pub enum TokenKind {
    Word,
    /// `COMP` or `COMPILER`
    Comp,
    /// `ARGS` or `ARGUMENTS`
    Args,
    /// Any single character that starts no other token, such as `:` or `,`.
    Symbol,
    /// The text between two double quotes.
    StringLiteral,
}

/// A lexical unit: its kind and the text it was made from.
#[derive(Debug)]
pub struct Token {
    pub kind: TokenKind,
    pub lexeme: String,
}

/// A token as the contracts see it.
pub type TokenView = (TokenKind, Seq<char>);

impl View for Token {
    type V = TokenView;

    open spec fn view(&self) -> TokenView {
        (self.kind, self.lexeme@)
    }
}

/// The kind of a word: one of the two section keywords, or a plain word.
pub open spec fn word_kind(w: Seq<char>) -> TokenKind {
    if w == "COMP"@ || w == "COMPILER"@ {
        TokenKind::Comp
    } else if w == "ARGS"@ || w == "ARGUMENTS"@ {
        TokenKind::Args
    } else {
        TokenKind::Word
    }
}

impl Token {
    /// A word token, classified as a keyword where its text is one.
    pub fn new(lexeme: String) -> (r: Token)
        ensures
            r@ == (word_kind(lexeme@), lexeme@),
    {
        let kind = if same_text(lexeme.as_str(), "COMP") || same_text(lexeme.as_str(), "COMPILER") {
            TokenKind::Comp
        } else if same_text(lexeme.as_str(), "ARGS") || same_text(lexeme.as_str(), "ARGUMENTS") {
            TokenKind::Args
        } else {
            TokenKind::Word
        };
        Token { kind, lexeme }
    }
}

} // verus!
