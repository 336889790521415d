//! The tokens the lexer produces.

use vstd::prelude::*;

verus! {

/// The smallest lexical unit of a JSON text.
#[derive(Debug, PartialEq, Eq)]
pub enum Token {
    LeftBrace,
    RightBrace,
    LeftBracket,
    RightBracket,
    Colon,
    Comma,
    /// Marks that the whole input was consumed.
    Eof,
    /// A string literal with its escapes already resolved.
    String(String),
    /// The raw lexeme of a number: digits and at most one decimal point.
    Number(String),
    /// One of the spellings `true`, `false` or `null`.
    Keyword(String),
}

/// What a [`Token`] stands for, with text as a sequence of characters.
pub enum TokenView {
    LeftBrace,
    RightBrace,
    LeftBracket,
    RightBracket,
    Colon,
    Comma,
    Eof,
    String(Seq<char>),
    Number(Seq<char>),
    Keyword(Seq<char>),
}

impl View for Token {
    type V = TokenView;

    open spec fn view(&self) -> TokenView {
        match *self {
            Token::LeftBrace => TokenView::LeftBrace,
            Token::RightBrace => TokenView::RightBrace,
            Token::LeftBracket => TokenView::LeftBracket,
            Token::RightBracket => TokenView::RightBracket,
            Token::Colon => TokenView::Colon,
            Token::Comma => TokenView::Comma,
            Token::Eof => TokenView::Eof,
            Token::String(text) => TokenView::String(text@),
            Token::Number(text) => TokenView::Number(text@),
            Token::Keyword(text) => TokenView::Keyword(text@),
        }
    }
}

impl Clone for Token {
    fn clone(&self) -> (copy: Self)
        ensures
            copy == *self,
    {
        match self {
            Token::LeftBrace => Token::LeftBrace,
            Token::RightBrace => Token::RightBrace,
            Token::LeftBracket => Token::LeftBracket,
            Token::RightBracket => Token::RightBracket,
            Token::Colon => Token::Colon,
            Token::Comma => Token::Comma,
            Token::Eof => Token::Eof,
            Token::String(text) => Token::String(text.clone()),
            Token::Number(text) => Token::Number(text.clone()),
            Token::Keyword(text) => Token::Keyword(text.clone()),
        }
    }
}

/// The views of a run of tokens, in order.
pub open spec fn token_views(tokens: Seq<Token>) -> Seq<TokenView> {
    Seq::new(tokens.len(), |i: int| tokens[i]@)
}

/// Appending a token appends its view.
pub proof fn lemma_token_views_push(tokens: Seq<Token>, token: Token)
    ensures
        token_views(tokens.push(token)) == token_views(tokens).push(token@),
{
    assert(token_views(tokens.push(token)) =~= token_views(tokens).push(token@));
}

} // verus!
