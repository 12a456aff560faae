//! A streaming lexer and parser for the WebAssembly text format.

pub mod bytes;
pub mod grammar;
pub mod lexer;
pub mod lines;
pub mod literals;
pub mod numbers;
pub mod scan;
pub mod wat;
