//! An interpreter for a Thue-style nondeterministic string-rewriting language.
//!
//! A program is an ordered list of rewrite rules followed by an initial state
//! string.  Execution repeatedly picks, at random, a rule whose pattern occurs
//! in the state and replaces one randomly chosen occurrence until no rule
//! matches.  The crate provides the verified core: the line-oriented rule
//! parser and the rewrite engine.  Reading the program source, standard input
//! and standard output stay with the caller; the engine reports the effect it
//! needs as a value.

pub mod engine;
pub mod parser;
pub mod random;
pub mod rules;
pub mod text;
