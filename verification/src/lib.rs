//! A minimal interactive language processor: a tokenizer that turns one line
//! of text into a sequence of typed lexical tokens, and an evaluator that
//! drains that sequence as a double-ended stack, reducing additions and
//! dispatching keywords, collecting the lines it would print.

pub mod error;
pub mod lexer;
pub mod numbers;
pub mod runner;
pub mod text;
pub mod token;
