//! A reverse Polish notation calculator over a single operand stack.
//!
//! [`rpn`] holds the values, the stack and what each operator does to it. [`lexer`]
//! splits a line into tokens and reads them, and [`parser`] evaluates a line on a stack
//! and takes the reply off. [`history`] states what a stack holds after any run of
//! pushes and pops.
//!
//! Every function is verified against its contract but for the drawing of random
//! numbers, which is left to the `rand` crate.

pub mod history;
pub mod lexer;
pub mod parser;
pub mod rpn;
mod sample;
