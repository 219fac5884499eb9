//! A small source-to-source transpiler: a lexer that turns text into tokens
//! and a translator that turns tokens into text of the target dialect.

pub mod lexer;
pub mod numeric;
pub mod text;
pub mod token;
pub mod translator;

pub use lexer::{parse_token, tokenize};
pub use token::{models, Keywords, Payload, Token, TokenModel, TokenType, TokenValue};
pub use translator::translate;
