use vstd::prelude::*;

verus! {

/// The closed set of token kinds the scanner can produce. An ERROR token
/// carries its diagnostic message as its lexeme.
#[derive(Debug, Clone, Copy, PartialEq, Eq, Structural)]
#[allow(non_camel_case_types)]
pub enum TokenType {
    // Single-character tokens.
    LEFTPAREN,
    RIGHTPAREN,
    LEFTBRACE,
    RIGHTBRACE,
    COMMA,
    DOT,
    MINUS,
    PLUS,
    SEMICOLON,
    SLASH,
    STAR,
    // One or two character tokens.
    BANG,
    BANGEQUAL,
    EQUAL,
    EQUALEQUAL,
    GREATER,
    GREATEREQUAL,
    LESS,
    LESSEQUAL,
    // Literals.
    IDENTIFIER,
    STRING,
    NUMBER,
    // Keywords.
    AND,
    CLASS,
    ELSE,
    FALSE,
    FOR,
    FUN,
    IF,
    NIL,
    OR,
    PRINT,
    RETURN,
    SUPER,
    THIS,
    TRUE,
    VAR,
    WHILE,
    ERROR,
    EOF,
}

/// A scanned token: its kind, the bytes of its lexeme (without the quotes
/// for a string literal; the message text for an ERROR token), and the
/// source line it starts on.
#[derive(Debug, Clone)]
pub struct Token {
    pub token_type: TokenType,
    pub lexeme: Vec<u8>,
    pub line: usize,
}

impl Token {
    pub fn new(token_type: TokenType, lexeme: Vec<u8>, line: usize) -> (r: Self)
        ensures
            r.token_type == token_type,
            r.lexeme@ == lexeme@,
            r.line == line,
    {
        Token { token_type, lexeme, line }
    }

    /// A copy of this token with the same model.
    pub fn clone_token(&self) -> (r: Token)
        ensures
            r.token_type == self.token_type,
            r.lexeme@ == self.lexeme@,
            r.line == self.line,
    {
        Token {
            token_type: self.token_type,
            lexeme: vstd::slice::slice_to_vec(self.lexeme.as_slice()),
            line: self.line,
        }
    }

    /// Whether two tokens name the same identifier.
    pub fn is_equal(&self, other: &Token) -> (r: bool)
        ensures
            r == (self.lexeme@ == other.lexeme@),
    {
        crate::value::bytes_equal(&self.lexeme, &other.lexeme)
    }
}

} // verus!
