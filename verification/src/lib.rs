//! A small language for probabilistic text generation.
//!
//! Authors declare named rules made of weighted alternatives and optional
//! vocabularies of grammatically linked word forms; the engine parses that
//! source into an abstract syntax tree and expands a designated entry rule
//! into a concrete string by weighted random choice.

pub mod text;
pub mod lexer;
pub mod ast;
pub mod parser;
pub mod rng;
pub mod generator;
