pub mod ast;
pub mod cards;
pub mod game;
pub mod laws;
pub mod lex;
pub mod parse;
pub mod runtime;
pub mod text;
pub mod token;
