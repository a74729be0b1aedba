//! A verified HTML markup tokenizer and tree-construction parser.
//!
//! The crate is a two-stage pipeline: a finite-state tokenizer that turns a
//! character stream into tag, character and end-of-input tokens, and a
//! stack-based tree builder that assembles those tokens into a document tree.
//! The behaviour of both stages is pinned down by specification functions
//! ([`lexer::next_spec`] and [`parser::parse_spec`]) that every public
//! operation is proved to implement; [`laws`] states and proves general
//! properties of the tree builder on top of them.

pub mod ast;
pub mod laws;
pub mod lexer;
pub mod parser;
pub mod strings;
pub mod token;
