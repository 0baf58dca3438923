use vstd::prelude::*;

verus! {

/// A lexical token of Klang source text.
///
/// A numeric literal is kept as its value written as a canonical decimal
/// numeral (see `lexer::canonical_numeral`), so two literals with the same
/// value are the same token.
#[derive(Debug, PartialEq)]
pub enum Token {
    Fun,
    Use,
    Delimiter,
    OpeningParenthesis,
    ClosingParenthesis,
    OpeningBrace,
    ClosingBrace,
    Comma,
    Ident(String),
    Number(String),
    Operator(String),
    If,
    Else,
}

/// The value of a token: its kind, and the characters of its text for the
/// kinds that carry one.
pub enum TokenView {
    Fun,
    Use,
    Delimiter,
    OpeningParenthesis,
    ClosingParenthesis,
    OpeningBrace,
    ClosingBrace,
    Comma,
    Ident(Seq<char>),
    Number(Seq<char>),
    Operator(Seq<char>),
    If,
    Else,
}

impl View for Token {
    type V = TokenView;

    open spec fn view(&self) -> TokenView {
        match self {
            Token::Fun => TokenView::Fun,
            Token::Use => TokenView::Use,
            Token::Delimiter => TokenView::Delimiter,
            Token::OpeningParenthesis => TokenView::OpeningParenthesis,
            Token::ClosingParenthesis => TokenView::ClosingParenthesis,
            Token::OpeningBrace => TokenView::OpeningBrace,
            Token::ClosingBrace => TokenView::ClosingBrace,
            Token::Comma => TokenView::Comma,
            Token::Ident(s) => TokenView::Ident(s@),
            Token::Number(s) => TokenView::Number(s@),
            Token::Operator(s) => TokenView::Operator(s@),
            Token::If => TokenView::If,
            Token::Else => TokenView::Else,
        }
    }
}

/// The values of a sequence of tokens.
pub open spec fn tokens_view(ts: Seq<Token>) -> Seq<TokenView> {
    ts.map_values(|t: Token| t@)
}

impl Clone for Token {
    fn clone(&self) -> (r: Token)
        ensures
            r == *self,
    {
        match self {
            Token::Fun => Token::Fun,
            Token::Use => Token::Use,
            Token::Delimiter => Token::Delimiter,
            Token::OpeningParenthesis => Token::OpeningParenthesis,
            Token::ClosingParenthesis => Token::ClosingParenthesis,
            Token::OpeningBrace => Token::OpeningBrace,
            Token::ClosingBrace => Token::ClosingBrace,
            Token::Comma => Token::Comma,
            Token::Ident(s) => Token::Ident(s.clone()),
            Token::Number(s) => Token::Number(s.clone()),
            Token::Operator(s) => Token::Operator(s.clone()),
            Token::If => Token::If,
            Token::Else => Token::Else,
        }
    }
}

} // verus!
