//! The language front end: positions, lexemes and the scanner.
pub mod lexeme;
pub mod lexer;
pub mod position;
pub mod scan;
pub mod stream;
pub mod utf8;
