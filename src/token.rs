use vstd::prelude::*;

use crate::error::syntax;
use crate::reporting::Region;

verus! {

/// A lexical token of the language.
#[derive(Clone, Debug, PartialEq)]
pub enum Token {
    LParen,
    RParen,
    LBrace,
    RBrace,
    Comma,
    Colon,
    Hash,
    Data,
    Service,
    Enum,
    Def,
    /// A line comment, without its leading `//`.
    Comment(String),
    Identifier(String),
    /// An operator such as `<=`, or a property access such as `.country`.
    Symbol(String),
    /// A string literal, escapes resolved.
    String(String),
    /// A keyword literal `:name`, without its colon.
    Keyword(String),
    Boolean(bool),
    /// A numeric literal, as written.
    Number(String),
    Eof,
}

/// A token with its text as a sequence of characters.
pub enum TokenView {
    LParen,
    RParen,
    LBrace,
    RBrace,
    Comma,
    Colon,
    Hash,
    Data,
    Service,
    Enum,
    Def,
    Comment(Seq<char>),
    Identifier(Seq<char>),
    Symbol(Seq<char>),
    String(Seq<char>),
    Keyword(Seq<char>),
    Boolean(bool),
    Number(Seq<char>),
    Eof,
}

impl View for Token {
    type V = TokenView;

    open spec fn view(&self) -> TokenView {
        match self {
            Token::LParen => TokenView::LParen,
            Token::RParen => TokenView::RParen,
            Token::LBrace => TokenView::LBrace,
            Token::RBrace => TokenView::RBrace,
            Token::Comma => TokenView::Comma,
            Token::Colon => TokenView::Colon,
            Token::Hash => TokenView::Hash,
            Token::Data => TokenView::Data,
            Token::Service => TokenView::Service,
            Token::Enum => TokenView::Enum,
            Token::Def => TokenView::Def,
            Token::Comment(s) => TokenView::Comment(s@),
            Token::Identifier(s) => TokenView::Identifier(s@),
            Token::Symbol(s) => TokenView::Symbol(s@),
            Token::String(s) => TokenView::String(s@),
            Token::Keyword(s) => TokenView::Keyword(s@),
            Token::Boolean(b) => TokenView::Boolean(*b),
            Token::Number(s) => TokenView::Number(s@),
            Token::Eof => TokenView::Eof,
        }
    }
}

/// One item of the lexer's output: a token with the region it was read
/// from, or a malformed token.
pub type LexResult = Result<(Region, Token), syntax::Token>;

pub type LexResultView = Result<(Region, TokenView), syntax::Token>;

pub open spec fn lex_result_view(r: LexResult) -> LexResultView {
    match r {
        Ok((region, token)) => Ok((region, token@)),
        Err(e) => Err(e),
    }
}

} // verus!
