//! The compiler for the protocol definition language.
//!
//! A schema describes a protocol as domains of types, commands and events.
//! The compiler turns the text of one or more schema files into typed
//! bindings, in six stages:
//!
//! 1. the [`lexer`] splits the text of a file into tokens;
//! 2. the [`parser`] builds the domains of a file from its tokens;
//! 3. the merger ([`merge`]) unions the domains of the files;
//! 4. the resolver ([`references`], [`graph`], [`resolver`]) finds the
//!    type that every reference stands for and holds the cycles among the
//!    domains against the list of references that are allowed on one;
//! 5. the [`filter`] prunes the schema by stability tier;
//! 6. the generator ([`order`], [`names`], [`generate`]) emits the
//!    bindings.
//!
//! [`compile`] runs them in a row. Each stage is a function of its input
//! alone; its contract says what it returns over the model of the schema
//! in [`model`].

pub mod bytes;
pub mod compile;
pub mod dep;
pub mod error;
pub mod filter;
pub mod generate;
pub mod graph;
pub mod lexer;
pub mod merge;
pub mod model;
pub mod names;
pub mod order;
pub mod parser;
pub mod pruning;
pub mod references;
pub mod resolver;
