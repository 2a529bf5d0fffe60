//! Front end of the Mazgamet language: a byte-oriented lexer, the token and
//! syntax-tree models, and a Pratt-style parser that collects its diagnostics
//! instead of stopping at the first one.
//!
//! Bytes go one way: `Lexer` turns them into `Token`s, and `Parser` turns
//! the tokens into a `Program`. What each of them computes is stated over
//! sequences of bytes and of tokens in `lexer` and `grammar`.

pub mod ast;
pub mod grammar;
pub mod lexer;
pub mod parser;
pub mod text;
pub mod token;

pub use ast::{
    Expression, ExpressionStatement, Identifier, LetStatement, Node, Program, ReturnStatement,
    Statement,
};
pub use grammar::{InfixParseFn, PrefixParseFn};
pub use lexer::{tokenize, Lexer};
pub use parser::{Parser, Precedence};
pub use token::{Token, TokenType};
