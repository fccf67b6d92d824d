//! A small Lisp interpreter core: the value model, lexically scoped
//! environments kept in an arena of frames, and a tree-walking evaluator whose
//! behaviour is stated as a big-step semantics.

pub mod data;
pub mod env;
pub mod builtins;
pub mod eval;
pub mod theorems;
