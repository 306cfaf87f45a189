pub mod charset;
pub mod delimiter;
pub mod format;
pub mod identifier;
pub mod interface;
pub mod keyword;
pub mod laws;
pub mod lexer;
pub mod parser;
pub mod primaryunit;
pub mod statement;
pub mod subunit;
pub mod symbol;
pub mod token;
