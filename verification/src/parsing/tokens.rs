//! Tokens: the lexical categories and what a token carries.

use crate::text::{decimal, decimal_text};
use vstd::prelude::*;
use vstd::string::StringExecFns;

verus! {

/// The lexical categories.
#[allow(non_camel_case_types)]
#[derive(Debug, Clone, Copy, PartialEq, Eq, Structural)]
pub enum TokenType {
    LEFT_PAREN,
    RIGHT_PAREN,
    LEFT_BRACE,
    RIGHT_BRACE,
    COMMA,
    DOT,
    MINUS,
    PLUS,
    SEMICOLON,
    SLASH,
    STAR,

    BANG,
    BANG_EQUAL,
    EQUAL,
    EQUAL_EQUAL,
    GREATER,
    GREATER_EQUAL,
    LESS,
    LESS_EQUAL,

    IDENTIFIER,
    STRING,
    NUMBER,

    AND,
    CLASS,
    ELSE,
    FALSE,
    DEF,
    FOR,
    IF,
    NIL,
    OR,
    PRINT,
    RETURN,
    SUPER,
    THIS,
    TRUE,
    VAR,
    WHILE,

    EOF,
}

/// A token: its category, the source text it was read from, the decoded
/// payload of a literal, and the line it stands on.
///
/// `string` holds the text of a string literal without its quotes; `number`
/// holds the bit pattern of the binary64 value of a number literal.
#[derive(Debug, Clone)]
pub struct Token {
    pub variant: TokenType,
    pub lexeme: String,
    pub string: Option<String>,
    pub number: Option<u64>,
    pub line: u32,
}

/// What a token is, as plain mathematical values.
pub struct TokenView {
    pub variant: TokenType,
    pub lexeme: Seq<char>,
    pub string: Option<Seq<char>>,
    pub number: Option<u64>,
    pub line: u32,
}

impl View for Token {
    type V = TokenView;

    open spec fn view(&self) -> TokenView {
        TokenView {
            variant: self.variant,
            lexeme: self.lexeme@,
            string: match self.string {
                Some(s) => Some(s@),
                None => None,
            },
            number: self.number,
            line: self.line,
        }
    }
}

/// The views of a sequence of tokens, in order.
pub open spec fn token_views(tokens: Seq<Token>) -> Seq<TokenView> {
    Seq::new(tokens.len(), |i: int| tokens[i]@)
}

/// The name under which a category is written out.
pub open spec fn kind_name(kind: TokenType) -> Seq<char> {
    match kind {
        TokenType::LEFT_PAREN => "LEFT_PAREN"@,
        TokenType::RIGHT_PAREN => "RIGHT_PAREN"@,
        TokenType::LEFT_BRACE => "LEFT_BRACE"@,
        TokenType::RIGHT_BRACE => "RIGHT_BRACE"@,
        TokenType::COMMA => "COMMA"@,
        TokenType::DOT => "DOT"@,
        TokenType::MINUS => "MINUS"@,
        TokenType::PLUS => "PLUS"@,
        TokenType::SEMICOLON => "SEMICOLON"@,
        TokenType::SLASH => "SLASH"@,
        TokenType::STAR => "STAR"@,
        TokenType::BANG => "BANG"@,
        TokenType::BANG_EQUAL => "BANG_EQUAL"@,
        TokenType::EQUAL => "EQUAL"@,
        TokenType::EQUAL_EQUAL => "EQUAL_EQUAL"@,
        TokenType::GREATER => "GREATER"@,
        TokenType::GREATER_EQUAL => "GREATER_EQUAL"@,
        TokenType::LESS => "LESS"@,
        TokenType::LESS_EQUAL => "LESS_EQUAL"@,
        TokenType::IDENTIFIER => "IDENTIFIER"@,
        TokenType::STRING => "STRING"@,
        TokenType::NUMBER => "NUMBER"@,
        TokenType::AND => "AND"@,
        TokenType::CLASS => "CLASS"@,
        TokenType::ELSE => "ELSE"@,
        TokenType::FALSE => "FALSE"@,
        TokenType::DEF => "DEF"@,
        TokenType::FOR => "FOR"@,
        TokenType::IF => "IF"@,
        TokenType::NIL => "NIL"@,
        TokenType::OR => "OR"@,
        TokenType::PRINT => "PRINT"@,
        TokenType::RETURN => "RETURN"@,
        TokenType::SUPER => "SUPER"@,
        TokenType::THIS => "THIS"@,
        TokenType::TRUE => "TRUE"@,
        TokenType::VAR => "VAR"@,
        TokenType::WHILE => "WHILE"@,
        TokenType::EOF => "EOF"@,
    }
}

/// The textual form of a token: category, lexeme and line, separated by
/// single spaces.
pub open spec fn token_text(token: TokenView) -> Seq<char> {
    kind_name(token.variant) + seq![' '] + token.lexeme + seq![' '] + decimal(token.line as nat)
}

impl TokenType {
    /// The name under which this category is written out.
    pub fn name(&self) -> (r: &'static str)
        ensures
            r@ == kind_name(*self),
    {
        match self {
            TokenType::LEFT_PAREN => "LEFT_PAREN",
            TokenType::RIGHT_PAREN => "RIGHT_PAREN",
            TokenType::LEFT_BRACE => "LEFT_BRACE",
            TokenType::RIGHT_BRACE => "RIGHT_BRACE",
            TokenType::COMMA => "COMMA",
            TokenType::DOT => "DOT",
            TokenType::MINUS => "MINUS",
            TokenType::PLUS => "PLUS",
            TokenType::SEMICOLON => "SEMICOLON",
            TokenType::SLASH => "SLASH",
            TokenType::STAR => "STAR",
            TokenType::BANG => "BANG",
            TokenType::BANG_EQUAL => "BANG_EQUAL",
            TokenType::EQUAL => "EQUAL",
            TokenType::EQUAL_EQUAL => "EQUAL_EQUAL",
            TokenType::GREATER => "GREATER",
            TokenType::GREATER_EQUAL => "GREATER_EQUAL",
            TokenType::LESS => "LESS",
            TokenType::LESS_EQUAL => "LESS_EQUAL",
            TokenType::IDENTIFIER => "IDENTIFIER",
            TokenType::STRING => "STRING",
            TokenType::NUMBER => "NUMBER",
            TokenType::AND => "AND",
            TokenType::CLASS => "CLASS",
            TokenType::ELSE => "ELSE",
            TokenType::FALSE => "FALSE",
            TokenType::DEF => "DEF",
            TokenType::FOR => "FOR",
            TokenType::IF => "IF",
            TokenType::NIL => "NIL",
            TokenType::OR => "OR",
            TokenType::PRINT => "PRINT",
            TokenType::RETURN => "RETURN",
            TokenType::SUPER => "SUPER",
            TokenType::THIS => "THIS",
            TokenType::TRUE => "TRUE",
            TokenType::VAR => "VAR",
            TokenType::WHILE => "WHILE",
            TokenType::EOF => "EOF",
        }
    }
}

impl Token {
    /// A token without a payload.
    pub fn new(var: TokenType, lexeme: String, line: u32) -> (r: Self)
        ensures
            r@ == (TokenView { variant: var, lexeme: lexeme@, string: None, number: None, line }),
    {
        Token { variant: var, lexeme, line, string: None, number: None }
    }

    /// A token that carries the bit pattern of a decoded number.
    pub fn new_int(var: TokenType, lexeme: String, line: u32, bits: u64) -> (r: Self)
        ensures
            r@ == (TokenView { variant: var, lexeme: lexeme@, string: None, number: Some(bits), line }),
    {
        Token { variant: var, lexeme, line, string: None, number: Some(bits) }
    }

    /// A token that carries the text of a string literal.
    pub fn new_str(var: TokenType, lexeme: String, line: u32, string: String) -> (r: Self)
        ensures
            r@ == (TokenView {
                variant: var,
                lexeme: lexeme@,
                string: Some(string@),
                number: None,
                line,
            }),
    {
        Token { variant: var, lexeme, line, string: Some(string), number: None }
    }

    /// A copy of this token.
    pub fn duplicate(&self) -> (r: Self)
        ensures
            r@ == self@,
    {
        let string = match &self.string {
            Some(s) => Some(s.clone()),
            None => None,
        };
        Token {
            variant: self.variant,
            lexeme: self.lexeme.clone(),
            string,
            number: self.number,
            line: self.line,
        }
    }

    /// The textual form of this token: `<KIND> <lexeme> <line>`.
    pub fn to_text(&self) -> (r: String)
        ensures
            r@ == token_text(self@),
    {
        proof {
            reveal_strlit(" ");
        }
        let mut r = self.variant.name().to_owned();
        r.append(" ");
        r.append(self.lexeme.as_str());
        r.append(" ");
        let line = decimal_text(self.line);
        r.append(line.as_str());
        assert(r@ =~= token_text(self@));
        r
    }
}

} // verus!
