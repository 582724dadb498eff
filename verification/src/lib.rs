//! A verified tree-walking interpreter for a small dynamically typed
//! scripting language: lexically scoped variables, arithmetic, strings,
//! booleans, control flow, and first-class functions with closures.
//!
//! The crate covers the semantic core: the abstract syntax tree, the
//! environment chain, the static resolver that binds every variable
//! reference to a scope distance, and the evaluator that executes the
//! tree against a chain of mutable scopes. Tokenization and parsing are
//! host-side collaborators; the library consumes a finished syntax tree.
//!
//! Both passes carry exact contracts: the resolver computes precisely the
//! binding table the `resolve_*_s` spec functions define, and every
//! evaluator method computes precisely what the big-step semantics in
//! [`interpreter`] says, for every input and every fuel bound. Numbers
//! are whole-valued: signed 64-bit integers with wrapping arithmetic, so
//! a host front end refuses fractional number literals.

pub mod ast;
pub mod environment;
pub mod errors;
pub mod interpreter;
pub mod lox;
pub mod numfmt;
pub mod resolver;
pub mod token;
pub mod value;
