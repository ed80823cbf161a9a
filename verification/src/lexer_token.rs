use vstd::prelude::*;

verus! {

/// The kinds of token the lexer produces.
#[derive(PartialEq, Eq, Debug, Clone, Copy, Structural)]
pub enum TokenType {
    LeftParen,
    RightParen,
    LeftBrace,
    RightBrace,
    Comma,
    Dot,
    Minus,
    Plus,
    Semicolon,
    Slash,
    Star,
    Bang,
    BangEqual,
    Equal,
    EqualEqual,
    Greater,
    GreaterEqual,
    Less,
    LessEqual,
    Identifier,
    String,
    Number,
    And,
    Or,
    True,
    False,
    Fun,
    Let,
    For,
    While,
    If,
    Else,
    Print,
    Return,
    Nil,
    Struct,
    Enum,
    Eof,
}

/// A token: its text, its kind and the line it ends on.
pub struct Token {
    pub lexeme: String,
    pub token: TokenType,
    pub line: usize,
}

/// The mathematical value of a token.
pub struct TokenView {
    pub lexeme: Seq<char>,
    pub token: TokenType,
    pub line: nat,
}

impl View for Token {
    type V = TokenView;

    open spec fn view(&self) -> TokenView {
        TokenView { lexeme: self.lexeme@, token: self.token, line: self.line as nat }
    }
}

/// The views of a sequence of tokens.
pub open spec fn tokens_view(ts: Seq<Token>) -> Seq<TokenView> {
    ts.map_values(|t: Token| t@)
}

} // verus!
