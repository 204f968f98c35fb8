//! Tokens produced by the lexer, and the tags that classify word tokens.

use vstd::prelude::*;

verus! {

/// Classification label attached to word tokens.
#[derive(Debug, Clone, Copy, PartialEq, Eq, Structural)]
pub enum Tag {
    /// An identifier.
    Id,
    /// A type keyword such as `i32`.
    Type,
    /// A structural symbol: brace or semicolon.
    Symbol,
    /// A literal value keyword such as `true`.
    Primary,
    /// A comparison operator such as `<=`.
    Comparison,
    /// Unclassified.
    Nothing,
}

/// The mathematical content of a [`Token`].
pub enum TokenView {
    /// An integer literal and its value.
    I32 { num: int },
    /// A floating-point literal, kept as its source text.
    F32 { text: Seq<char> },
    /// A word: an identifier, keyword or operator, with its tag.
    Word { tag: Tag, lexeme: Seq<char> },
}

/// A lexical unit: an integer literal, a floating-point literal
/// (carried as its source text), or a tagged word.
#[derive(Debug)]
pub enum Token {
    NumI32 { num: i32 },
    NumF32 { text: String },
    Word { tag: Tag, lexeme: String },
}

impl View for Token {
    type V = TokenView;

    open spec fn view(&self) -> TokenView {
        match self {
            Token::NumI32 { num } => TokenView::I32 { num: *num as int },
            Token::NumF32 { text } => TokenView::F32 { text: text@ },
            Token::Word { tag, lexeme } => (TokenView::Word { tag: *tag, lexeme: lexeme@ }),
        }
    }
}

impl Clone for Token {
    /// A clone is equal to the original, string contents included.
    fn clone(&self) -> (r: Self)
        ensures
            r == *self,
    {
        match self {
            Token::NumI32 { num } => Token::NumI32 { num: *num },
            Token::NumF32 { text } => Token::NumF32 { text: text.clone() },
            Token::Word { tag, lexeme } => (Token::Word { tag: *tag, lexeme: lexeme.clone() }),
        }
    }
}

impl Token {
    /// An integer-literal token with the given value.
    pub fn new_numi32(num: i32) -> (t: Token)
        ensures
            t == (Token::NumI32 { num }),
    {
        Token::NumI32 { num }
    }

    /// A floating-point-literal token carrying the literal's source text.
    pub fn new_numf32(text: String) -> (t: Token)
        ensures
            t == (Token::NumF32 { text }),
    {
        Token::NumF32 { text }
    }

    /// A word token with the given tag and lexeme.
    pub fn new_word(tag: Tag, lexeme: &str) -> (t: Token)
        ensures
            t@ == (TokenView::Word { tag, lexeme: lexeme@ }),
    {
        Token::Word { tag, lexeme: lexeme.to_owned() }
    }
}

} // verus!
