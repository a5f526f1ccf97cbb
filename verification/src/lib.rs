//! Decides, for every function-scoped variable declaration of a program,
//! whether it can become a block-scoped declaration, and which one, and
//! rewrites the program accordingly.
//!
//! A program comes as a [`Node`]; `reading` builds one from the constructs
//! that a parser hands over. The analysis runs in passes, each in a module of
//! its own:
//!
//! 1. `outline`: `survey` walks the tree once and records the lexical scopes,
//!    the declaration sites and the identifier uses.
//! 2. `graph`: `analyze` registers the sites as bindings, hoisting each
//!    `var` to its function, and resolves every use to a binding.
//! 3. `verdict`: `classify` judges every function-scoped binding, and `flags`
//!    finds the loop variables that closures capture.
//! 4. `rewrite`: `decide` chooses one keyword for each statement, and
//!    `rewrite` builds the tree that carries the keywords.
//!
//! [`analyze_and_rewrite`] runs them all. Every pass is specified by a
//! function from the value of its input to the value of its result; the
//! module `laws` states what follows for every program.

pub mod binding;
pub mod graph;
pub mod laws;
pub mod outline;
pub mod reading;
pub mod rewrite;
pub mod scope;
pub mod statements;
pub mod syntax;
pub mod verdict;
pub mod visitor;

pub use crate::syntax::{DeclKind, DeclaredName, Node};
pub use crate::verdict::{CaptureSemanticsChange, UnsafeReason, Verdict};
pub use crate::visitor::{analyze_and_rewrite, Entry, SmartVarToLetVisitor};
