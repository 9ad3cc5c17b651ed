//! A small script-language front end and evaluator: a lexer that turns source
//! text into tokens, a recursive-descent parser that builds an abstract syntax
//! tree, and a tree-walking evaluator that executes the tree against a mutable
//! binding environment.
//!
//! Each stage carries a mathematical model: tokens, nodes and runtime values
//! have spec-level views, and the exec pipeline is proved to agree with spec
//! functions over those views.

pub mod ast;
pub mod attribute;
pub mod runtime;
pub mod token;
