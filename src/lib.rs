//! Tokenizer and Pratt parser for the Monkey language.
//!
//! `lexer` turns source text into tokens, `parser` turns tokens into a syntax
//! tree (`ast`), collecting one error per failed statement (`util`). `grammar`
//! states what the parser computes, and `printer` renders a tree back to a
//! fully parenthesized text.
pub mod ast;
pub mod grammar;
pub mod lexer;
pub mod parser;
pub mod printer;
pub mod token;
pub mod util;
