//! The token model: what the lexer produces and the translator reads.

use crate::text::same_text;
use vstd::prelude::*;

verus! {

/// The closed set of token kinds.
///
/// `LCurly`, `RCurly` and `Unknown` are reserved: the lexer never produces
/// them, and the translator passes over them.
#[derive(Debug, PartialEq, Eq, Clone, Copy)]
pub enum TokenType {
    String,
    Integer,
    Float,
    Boolean,
    Semicolon,
    LParen,
    RParen,
    LBrace,
    RBrace,
    LCurly,
    RCurly,
    Identifier,
    Keyword,
    Function,
    Unknown,
}

/// The payload of a token.
///
/// A floating point literal is carried as the text it was written with. The
/// lexer gives a token this payload only where the text is a float literal
/// (see [`crate::numeric::is_float_literal`]), so that whoever needs the
/// number can read it from the text.
#[derive(Debug, PartialEq, Eq, Clone)]
pub enum TokenValue {
    StrValue(String),
    IntValue(i32),
    FloatValue(String),
    BoolValue(bool),
    Identifier(String),
    Keyword(String),
    NoValue,
}

/// A classified unit of source text: a kind and its payload.
#[derive(Debug, PartialEq, Eq, Clone)]
pub struct Token {
    pub token_type: TokenType,
    pub value: TokenValue,
}

/// The fixed set of reserved words.
#[derive(Debug, PartialEq, Eq, Clone, Copy)]
pub enum Keywords {
    Fn,
    If,
    Let,
    Else,
    True,
    False,
}

/// The mathematical value of a [`TokenValue`]: texts are character sequences.
pub enum Payload {
    Str(Seq<char>),
    Int(i32),
    Float(Seq<char>),
    Bool(bool),
    Identifier(Seq<char>),
    Keyword(Seq<char>),
    NoValue,
}

/// The mathematical value of a [`Token`].
pub struct TokenModel {
    pub kind: TokenType,
    pub value: Payload,
}

impl View for TokenValue {
    type V = Payload;

    open spec fn view(&self) -> Payload {
        match self {
            TokenValue::StrValue(text) => Payload::Str(text@),
            TokenValue::IntValue(number) => Payload::Int(*number),
            TokenValue::FloatValue(text) => Payload::Float(text@),
            TokenValue::BoolValue(flag) => Payload::Bool(*flag),
            TokenValue::Identifier(name) => Payload::Identifier(name@),
            TokenValue::Keyword(word) => Payload::Keyword(word@),
            TokenValue::NoValue => Payload::NoValue,
        }
    }
}

impl View for Token {
    type V = TokenModel;

    open spec fn view(&self) -> TokenModel {
        TokenModel { kind: self.token_type, value: self.value@ }
    }
}

impl TokenModel {
    /// The payload has the shape that the kind calls for.
    pub open spec fn consistent(self) -> bool {
        match self.kind {
            TokenType::String => self.value is Str,
            TokenType::Integer => self.value is Int,
            TokenType::Float => self.value is Float,
            TokenType::Boolean => self.value is Bool,
            TokenType::Identifier | TokenType::Function => self.value is Identifier,
            TokenType::Keyword => self.value is Keyword,
            TokenType::Semicolon
            | TokenType::LParen
            | TokenType::RParen
            | TokenType::LBrace
            | TokenType::RBrace
            | TokenType::LCurly
            | TokenType::RCurly
            | TokenType::Unknown => self.value is NoValue,
        }
    }

    /// A token of a kind that carries no payload.
    pub open spec fn bare(kind: TokenType) -> TokenModel {
        TokenModel { kind, value: Payload::NoValue }
    }
}

/// The models of a sequence of tokens, in the same order.
pub open spec fn models(tokens: Seq<Token>) -> Seq<TokenModel> {
    tokens.map_values(|token: Token| token@)
}

impl Keywords {
    /// The text that the reserved word is written with.
    pub open spec fn text(self) -> Seq<char> {
        match self {
            Keywords::Fn => "fn"@,
            Keywords::If => "if"@,
            Keywords::Let => "let"@,
            Keywords::Else => "else"@,
            Keywords::True => "true"@,
            Keywords::False => "false"@,
        }
    }

    /// The reserved word that is written as `text`, if there is one.
    pub open spec fn lookup(text: Seq<char>) -> Option<Keywords> {
        if text == Keywords::Fn.text() {
            Some(Keywords::Fn)
        } else if text == Keywords::If.text() {
            Some(Keywords::If)
        } else if text == Keywords::Let.text() {
            Some(Keywords::Let)
        } else if text == Keywords::Else.text() {
            Some(Keywords::Else)
        } else if text == Keywords::True.text() {
            Some(Keywords::True)
        } else if text == Keywords::False.text() {
            Some(Keywords::False)
        } else {
            None
        }
    }

    /// The text that the reserved word is written with.
    pub fn as_str(&self) -> (text: &'static str)
        ensures
            text@ == self.text(),
    {
        match self {
            Keywords::Fn => "fn",
            Keywords::If => "if",
            Keywords::Let => "let",
            Keywords::Else => "else",
            Keywords::True => "true",
            Keywords::False => "false",
        }
    }

    /// Finds the reserved word that is written as `text`.
    pub fn from_text(text: &str) -> (found: Option<Keywords>)
        ensures
            found == Keywords::lookup(text@),
    {
        if same_text(text, Keywords::Fn.as_str()) {
            Some(Keywords::Fn)
        } else if same_text(text, Keywords::If.as_str()) {
            Some(Keywords::If)
        } else if same_text(text, Keywords::Let.as_str()) {
            Some(Keywords::Let)
        } else if same_text(text, Keywords::Else.as_str()) {
            Some(Keywords::Else)
        } else if same_text(text, Keywords::True.as_str()) {
            Some(Keywords::True)
        } else if same_text(text, Keywords::False.as_str()) {
            Some(Keywords::False)
        } else {
            None
        }
    }

    /// Each reserved word is found again from its own text, and a text
    /// that names a reserved word is the text of that word.
    pub proof fn lookup_inverts_text(word: Keywords, text: Seq<char>)
        ensures
            Keywords::lookup(word.text()) == Some(word),
            Keywords::lookup(text) == Some(word) <==> text == word.text(),
    {
        reveal_strlit("fn");
        reveal_strlit("if");
        reveal_strlit("let");
        reveal_strlit("else");
        reveal_strlit("true");
        reveal_strlit("false");
        assert("fn"@.len() == 2 && "if"@.len() == 2 && "let"@.len() == 3);
        assert("else"@.len() == 4 && "true"@.len() == 4 && "false"@.len() == 5);
        assert("fn"@[0] == 'f' && "if"@[0] == 'i');
        assert("else"@[0] == 'e' && "true"@[0] == 't');
    }
}

impl Token {
    /// A token of a kind that carries no payload.
    pub fn bare(kind: TokenType) -> (token: Token)
        ensures
            token@ == TokenModel::bare(kind),
    {
        Token { token_type: kind, value: TokenValue::NoValue }
    }

    /// Tells whether the payload has the shape that the kind calls for.
    pub fn is_consistent(&self) -> (consistent: bool)
        ensures
            consistent == self@.consistent(),
    {
        match self.token_type {
            TokenType::String => matches!(self.value, TokenValue::StrValue(_)),
            TokenType::Integer => matches!(self.value, TokenValue::IntValue(_)),
            TokenType::Float => matches!(self.value, TokenValue::FloatValue(_)),
            TokenType::Boolean => matches!(self.value, TokenValue::BoolValue(_)),
            TokenType::Identifier | TokenType::Function => matches!(
                self.value,
                TokenValue::Identifier(_)
            ),
            TokenType::Keyword => matches!(self.value, TokenValue::Keyword(_)),
            TokenType::Semicolon
            | TokenType::LParen
            | TokenType::RParen
            | TokenType::LBrace
            | TokenType::RBrace
            | TokenType::LCurly
            | TokenType::RCurly
            | TokenType::Unknown => matches!(self.value, TokenValue::NoValue),
        }
    }
}

} // verus!
