//! The vocabulary of lexical units.

use vstd::prelude::*;
use crate::text::{push_char, str_eq};

verus! {

/// How many kinds of token there are.
pub const KIND_COUNT: usize = 27;

/// The kind of a lexical unit.
#[derive(Clone, Copy, Debug, PartialEq, Eq, Structural, Hash)]
pub enum TokenType {
    Illegal,
    EOF,
    Integer,
    Identifier,
    Assign,
    Plus,
    Minus,
    Bang,
    Asterisk,
    Slash,
    LT,
    GT,
    Comma,
    Semicolon,
    LeftParen,
    RightParen,
    LeftBrace,
    RightBrace,
    Function,
    Let,
    True,
    False,
    IF,
    ELSE,
    Return,
    EQ,
    NotEQ,
}

impl TokenType {
    /// The kind that the reserved-word table gives to `text`: the kind of the
    /// reserved word that `text` equals, and `Identifier` where it equals
    /// none of the seven.
    pub open spec fn spec_lookup_ident(text: Seq<char>) -> TokenType {
        if text == "fn"@ {
            TokenType::Function
        } else if text == "let"@ {
            TokenType::Let
        } else if text == "true"@ {
            TokenType::True
        } else if text == "false"@ {
            TokenType::False
        } else if text == "if"@ {
            TokenType::IF
        } else if text == "else"@ {
            TokenType::ELSE
        } else if text == "return"@ {
            TokenType::Return
        } else {
            TokenType::Identifier
        }
    }

    /// Looks `ident` up in the reserved-word table.
    pub fn lookup_ident(ident: &str) -> (kind: TokenType)
        ensures
            kind == Self::spec_lookup_ident(ident@),
    {
        if str_eq(ident, "fn") {
            TokenType::Function
        } else if str_eq(ident, "let") {
            TokenType::Let
        } else if str_eq(ident, "true") {
            TokenType::True
        } else if str_eq(ident, "false") {
            TokenType::False
        } else if str_eq(ident, "if") {
            TokenType::IF
        } else if str_eq(ident, "else") {
            TokenType::ELSE
        } else if str_eq(ident, "return") {
            TokenType::Return
        } else {
            TokenType::Identifier
        }
    }

    /// The place of a kind among the kinds, in the order of their declaration.
    pub open spec fn spec_index(self) -> int {
        match self {
            TokenType::Illegal => 0,
            TokenType::EOF => 1,
            TokenType::Integer => 2,
            TokenType::Identifier => 3,
            TokenType::Assign => 4,
            TokenType::Plus => 5,
            TokenType::Minus => 6,
            TokenType::Bang => 7,
            TokenType::Asterisk => 8,
            TokenType::Slash => 9,
            TokenType::LT => 10,
            TokenType::GT => 11,
            TokenType::Comma => 12,
            TokenType::Semicolon => 13,
            TokenType::LeftParen => 14,
            TokenType::RightParen => 15,
            TokenType::LeftBrace => 16,
            TokenType::RightBrace => 17,
            TokenType::Function => 18,
            TokenType::Let => 19,
            TokenType::True => 20,
            TokenType::False => 21,
            TokenType::IF => 22,
            TokenType::ELSE => 23,
            TokenType::Return => 24,
            TokenType::EQ => 25,
            TokenType::NotEQ => 26,
        }
    }

    /// The place of this kind among the kinds, by which a table of
    /// `KIND_COUNT` entries is indexed.
    pub fn index(&self) -> (index: usize)
        ensures
            index == self.spec_index(),
            index < KIND_COUNT,
    {
        match self {
            TokenType::Illegal => 0,
            TokenType::EOF => 1,
            TokenType::Integer => 2,
            TokenType::Identifier => 3,
            TokenType::Assign => 4,
            TokenType::Plus => 5,
            TokenType::Minus => 6,
            TokenType::Bang => 7,
            TokenType::Asterisk => 8,
            TokenType::Slash => 9,
            TokenType::LT => 10,
            TokenType::GT => 11,
            TokenType::Comma => 12,
            TokenType::Semicolon => 13,
            TokenType::LeftParen => 14,
            TokenType::RightParen => 15,
            TokenType::LeftBrace => 16,
            TokenType::RightBrace => 17,
            TokenType::Function => 18,
            TokenType::Let => 19,
            TokenType::True => 20,
            TokenType::False => 21,
            TokenType::IF => 22,
            TokenType::ELSE => 23,
            TokenType::Return => 24,
            TokenType::EQ => 25,
            TokenType::NotEQ => 26,
        }
    }

    /// The text that spells an operator, a delimiter or a reserved word;
    /// `None` for the kinds whose text varies.
    pub open spec fn spelling(self) -> Option<Seq<char>> {
        match self {
            TokenType::Illegal => None,
            TokenType::EOF => None,
            TokenType::Integer => None,
            TokenType::Identifier => None,
            TokenType::Assign => Some("="@),
            TokenType::Plus => Some("+"@),
            TokenType::Minus => Some("-"@),
            TokenType::Bang => Some("!"@),
            TokenType::Asterisk => Some("*"@),
            TokenType::Slash => Some("/"@),
            TokenType::LT => Some("<"@),
            TokenType::GT => Some(">"@),
            TokenType::Comma => Some(","@),
            TokenType::Semicolon => Some(";"@),
            TokenType::LeftParen => Some("("@),
            TokenType::RightParen => Some(")"@),
            TokenType::LeftBrace => Some("{"@),
            TokenType::RightBrace => Some("}"@),
            TokenType::Function => Some("fn"@),
            TokenType::Let => Some("let"@),
            TokenType::True => Some("true"@),
            TokenType::False => Some("false"@),
            TokenType::IF => Some("if"@),
            TokenType::ELSE => Some("else"@),
            TokenType::Return => Some("return"@),
            TokenType::EQ => Some("=="@),
            TokenType::NotEQ => Some("!="@),
        }
    }

    /// Whether the kind is that of a reserved word.
    pub open spec fn is_keyword(self) -> bool {
        self == TokenType::Function || self == TokenType::Let || self == TokenType::True || self
            == TokenType::False || self == TokenType::IF || self == TokenType::ELSE || self
            == TokenType::Return
    }

    /// The name under which a kind appears in diagnostics.
    pub open spec fn spec_name(self) -> Seq<char> {
        match self {
            TokenType::Illegal => "Illegal"@,
            TokenType::EOF => "EOF"@,
            TokenType::Integer => "Integer"@,
            TokenType::Identifier => "Identifier"@,
            TokenType::Assign => "Assign"@,
            TokenType::Plus => "Plus"@,
            TokenType::Minus => "Minus"@,
            TokenType::Bang => "Bang"@,
            TokenType::Asterisk => "Asterisk"@,
            TokenType::Slash => "Slash"@,
            TokenType::LT => "LT"@,
            TokenType::GT => "GT"@,
            TokenType::Comma => "Comma"@,
            TokenType::Semicolon => "Semicolon"@,
            TokenType::LeftParen => "LeftParen"@,
            TokenType::RightParen => "RightParen"@,
            TokenType::LeftBrace => "LeftBrace"@,
            TokenType::RightBrace => "RightBrace"@,
            TokenType::Function => "Function"@,
            TokenType::Let => "Let"@,
            TokenType::True => "True"@,
            TokenType::False => "False"@,
            TokenType::IF => "IF"@,
            TokenType::ELSE => "ELSE"@,
            TokenType::Return => "Return"@,
            TokenType::EQ => "EQ"@,
            TokenType::NotEQ => "NotEQ"@,
        }
    }

    /// The name under which this kind appears in diagnostics.
    pub fn name(&self) -> (name: &'static str)
        ensures
            name@ == self.spec_name(),
    {
        match self {
            TokenType::Illegal => "Illegal",
            TokenType::EOF => "EOF",
            TokenType::Integer => "Integer",
            TokenType::Identifier => "Identifier",
            TokenType::Assign => "Assign",
            TokenType::Plus => "Plus",
            TokenType::Minus => "Minus",
            TokenType::Bang => "Bang",
            TokenType::Asterisk => "Asterisk",
            TokenType::Slash => "Slash",
            TokenType::LT => "LT",
            TokenType::GT => "GT",
            TokenType::Comma => "Comma",
            TokenType::Semicolon => "Semicolon",
            TokenType::LeftParen => "LeftParen",
            TokenType::RightParen => "RightParen",
            TokenType::LeftBrace => "LeftBrace",
            TokenType::RightBrace => "RightBrace",
            TokenType::Function => "Function",
            TokenType::Let => "Let",
            TokenType::True => "True",
            TokenType::False => "False",
            TokenType::IF => "IF",
            TokenType::ELSE => "ELSE",
            TokenType::Return => "Return",
            TokenType::EQ => "EQ",
            TokenType::NotEQ => "NotEQ",
        }
    }
}

/// The reserved-word table: a text has the kind of a reserved word exactly
/// when it spells that word, and the kind `Identifier` when it spells none.
pub proof fn lemma_keyword_table(text: Seq<char>, kind: TokenType)
    requires
        kind.is_keyword(),
    ensures
        TokenType::spec_lookup_ident(text) == kind <==> text == kind.spelling()->0,
        TokenType::spec_lookup_ident(text).is_keyword() || TokenType::spec_lookup_ident(text)
            == TokenType::Identifier,
{
    reveal_strlit("fn");
    reveal_strlit("let");
    reveal_strlit("true");
    reveal_strlit("false");
    reveal_strlit("if");
    reveal_strlit("else");
    reveal_strlit("return");
    // Two reserved words differ in length or in their first letter.
    assert("fn"@.len() == 2 && "if"@.len() == 2 && "let"@.len() == 3);
    assert("true"@.len() == 4 && "else"@.len() == 4);
    assert("false"@.len() == 5 && "return"@.len() == 6);
    assert("fn"@[0] != "if"@[0]);
    assert("true"@[0] != "else"@[0]);
}

/// Two kinds with the same place are the same kind, and every place is
/// below `KIND_COUNT`.
pub proof fn lemma_index_identifies_kind(a: TokenType, b: TokenType)
    ensures
        0 <= a.spec_index() < KIND_COUNT,
        a.spec_index() == b.spec_index() ==> a == b,
{
}

/// A lexical unit: its kind and the source text that it was read from.
#[derive(Debug)]
pub struct Token {
    pub token_type: TokenType,
    pub literal: String,
}

/// What a `Token` stands for: its kind and the characters of its text.
pub struct TokenView {
    pub token_type: TokenType,
    pub literal: Seq<char>,
}

impl View for Token {
    type V = TokenView;

    open spec fn view(&self) -> TokenView {
        TokenView { token_type: self.token_type, literal: self.literal@ }
    }
}

impl DeepView for Token {
    type V = TokenView;

    open spec fn deep_view(&self) -> TokenView {
        self@
    }
}

impl Clone for Token {
    fn clone(&self) -> (copy: Self)
        ensures
            copy == *self,
    {
        Token { token_type: self.token_type, literal: self.literal.clone() }
    }
}

impl Token {
    /// A token of the given kind and text.
    pub fn new(token_type: TokenType, literal: String) -> (token: Self)
        ensures
            token.token_type == token_type,
            token.literal == literal,
    {
        Token { token_type, literal }
    }

    /// A token of the given kind whose text is the one character `ch`.
    pub fn new_char(token_type: TokenType, ch: char) -> (token: Self)
        ensures
            token@ == (TokenView { token_type, literal: seq![ch] }),
    {
        let mut literal = String::new();
        push_char(&mut literal, ch);
        Token { token_type, literal }
    }
}

} // verus!
