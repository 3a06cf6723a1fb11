//! Front end for a small class-based, expression-oriented language: a
//! tokenizer that turns source text into position-tagged tokens, and a
//! recursive-descent parser that turns the tokens into a syntax tree.
//!
//! Every executable function is verified against a mathematical model of
//! the lexical rules and of the grammar.
//!
//! - [`token`], [`ast`], [`copy`]: the tokens, the syntax tree and its
//!   copies.
//! - [`lexical`]: the lexical rules and what follows from them;
//!   [`lexer`], [`text`]: the tokenizer.
//! - [`grammar`]: the grammar; [`parser`], [`program`]: the parser for
//!   expressions and for whole programs.
//! - [`diagnostics`]: where a span lies in the text, and how it is shown.
//! - [`order`]: a parse keeps classes, features and formals in the order of
//!   the text.
//! - [`sentinel`]: a token sequence that holds the `Error` token does not
//!   parse.
//! - [`written`], [`writer`]: a tree written out as tokens.
//! - [`reading`], [`reading_program`], [`readback`], [`readback_program`],
//!   [`yields`]: parsing what was written yields the tree again, and every
//!   tree that a parse yields can be written and read back.

pub mod ast;
pub mod copy;
pub mod diagnostics;
pub mod grammar;
pub mod lexer;
pub mod lexical;
pub mod order;
pub mod parser;
pub mod program;
pub mod readback;
pub mod readback_program;
pub mod reading;
pub mod reading_program;
pub mod sentinel;
pub mod text;
pub mod token;
pub mod writer;
pub mod written;
pub mod yields;
