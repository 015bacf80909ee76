//! A lexical scanner for a small templating language.
//!
//! The scanner turns UTF-8 encoded input into classified tokens, each one
//! carrying the positions between which it was read.
pub mod lang;
