//! A small record store: a fixed binary record codec, an append-only store of
//! fixed-size pages, a line tokenizer and the command dispatcher around them.
pub mod codec;
pub mod dispatch;
pub mod lexer;
pub mod store;

pub use codec::{DecodeError, Entity, ValidationError};
pub use store::Database;
pub use lexer::{Command, Lexer, Token};
pub use dispatch::{App, CommandError, Reply};
