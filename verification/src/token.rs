use vstd::prelude::*;

verus! {

/// One lexical token of the game language.
#[derive(Debug, PartialEq, Clone)]
pub enum Token {
    Name,
    Symbol(String),
    Number(i64),
    Stack,
    Deck,
    Players,
    CurrentPlayer,
    Define,
    OpenParens,
    CloseParens,
    Comma,
    OpenBracket,
    CloseBracket,
    Transfer,
    Check,
    Is,
    If,
    Newline,
    True,
    False,
    Ampersand,
    Return,
}

/// The mathematical form of a token: symbol text as a character sequence,
/// numbers as unbounded integers.
pub enum TokenModel {
    Name,
    Symbol(Seq<char>),
    Number(int),
    Stack,
    Deck,
    Players,
    CurrentPlayer,
    Define,
    OpenParens,
    CloseParens,
    Comma,
    OpenBracket,
    CloseBracket,
    Transfer,
    Check,
    Is,
    If,
    Newline,
    True,
    False,
    Ampersand,
    Return,
}

impl View for Token {
    type V = TokenModel;

    open spec fn view(&self) -> TokenModel {
        match self {
            Token::Name => TokenModel::Name,
            Token::Symbol(s) => TokenModel::Symbol(s@),
            Token::Number(n) => TokenModel::Number(*n as int),
            Token::Stack => TokenModel::Stack,
            Token::Deck => TokenModel::Deck,
            Token::Players => TokenModel::Players,
            Token::CurrentPlayer => TokenModel::CurrentPlayer,
            Token::Define => TokenModel::Define,
            Token::OpenParens => TokenModel::OpenParens,
            Token::CloseParens => TokenModel::CloseParens,
            Token::Comma => TokenModel::Comma,
            Token::OpenBracket => TokenModel::OpenBracket,
            Token::CloseBracket => TokenModel::CloseBracket,
            Token::Transfer => TokenModel::Transfer,
            Token::Check => TokenModel::Check,
            Token::Is => TokenModel::Is,
            Token::If => TokenModel::If,
            Token::Newline => TokenModel::Newline,
            Token::True => TokenModel::True,
            Token::False => TokenModel::False,
            Token::Ampersand => TokenModel::Ampersand,
            Token::Return => TokenModel::Return,
        }
    }
}

/// A token together with the 1-based source line it came from.
#[derive(Debug, PartialEq, Clone)]
pub struct SourceToken {
    pub token: Token,
    pub line_number: u32,
}

pub struct SourceTokenModel {
    pub token: TokenModel,
    pub line_number: u32,
}

impl View for SourceToken {
    type V = SourceTokenModel;

    open spec fn view(&self) -> SourceTokenModel {
        SourceTokenModel { token: self.token@, line_number: self.line_number }
    }
}

/// The view of a token stream, token by token.
pub open spec fn tokens_view(ts: Seq<SourceToken>) -> Seq<SourceTokenModel> {
    ts.map_values(|t: SourceToken| t@)
}

} // verus!
