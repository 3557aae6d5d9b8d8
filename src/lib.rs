//! Infrastructure for building lexers: a cursor-tracking buffer, the
//! capability through which token producers read and reposition it, and the
//! contracts that produce one token at a time.
pub mod lexer;
pub mod read;

pub use lexer::{Lexer, ScopedToken, Token};
pub use read::Analyser;
