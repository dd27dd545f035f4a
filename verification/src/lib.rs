//! A tokenizer for a small Lisp-like expression language with `let` bindings,
//! integer arithmetic and a `print` form.
//!
//! The scanner and its token type live in [`lexer`]. What it computes is laid
//! down in [`grammar`], over the character classes and maximal runs of
//! [`chars`] and the decimal numerals of [`numeral`]; [`laws`] proves what
//! follows for the tokens of every text.

pub mod chars;
pub mod grammar;
pub mod laws;
pub mod lexer;
pub mod numeral;
