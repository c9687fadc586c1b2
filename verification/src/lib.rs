//! Parsing of XPath-style location paths into a typed syntax tree.
//!
//! A text such as `//div[@class]/child::li | //ul` goes through two
//! stages. The grammar engine turns it into a parse tree of tagged
//! nodes; the lowering pass turns that tree into an [`xpath_object::XPath`]:
//! one expression for each alternative of the union, each a sequence of
//! pairs of an axis and a step. The lowering pass enforces what the
//! grammar leaves open: axes and steps must alternate, an axis name must
//! be a keyword, a predicate joins its clauses with one operator.
//!
//! Nothing here evaluates a path against a document.
//!
//! Every node of the parse tree and every name in the typed tree owns a
//! copy of the text it stands for: a parsed value does not borrow from
//! the text it was parsed from.
//!
//! - [`parse_tree`]: the nodes of the parse tree.
//! - [`grammar`]: the grammar, as functions from a text to its parse tree.
//! - [`xpath_parser`]: the parser that builds the tree of the grammar.
//! - [`xpath_object`]: axes, steps, expressions, and their lowering.
//! - [`selector`]: predicates and their lowering.
//! - [`error`]: the ways in which a parse can fail.
//! - [`laws`], [`path_laws`], [`conformance`]: what holds of every parse.
//! - [`typer`], [`string_types`]: types for the values of an evaluation.
use vstd::prelude::*;

pub mod conformance;
pub mod error;
pub mod grammar;
pub mod laws;
pub mod model;
pub mod parse_tree;
pub mod path_laws;
pub mod selector;
pub mod string_types;
pub mod text;
pub mod typer;
pub mod xpath_object;
pub mod xpath_parser;

