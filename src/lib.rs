//! A block-based program graph and the generator that turns it into
//! source text.
//!
//! Blocks are nodes of a graph. Each block has a type taken from a catalog,
//! up to three structural children (a left branch, a right branch and the
//! next statement), and a list of hole values that are either literal text
//! or other blocks nested as arguments. Generation walks the graph from the
//! start block and expands each block's template.
//!
//! - `catalog`: block types, hole kinds, the language's catalog and the rule
//!   for dropping a block into a hole.
//! - `ast`: the two stores (structure and hole values), their operations and
//!   the generator, each stated against a spec model of the expansion.
//! - `text`: one-pass placeholder substitution and small text helpers.
//! - `input`: which texts a hole of each kind accepts.
//! - `laws`: properties of generation proved over the spec model.
pub mod catalog;
pub mod text;
pub mod ast;
pub mod laws;
pub mod input;
