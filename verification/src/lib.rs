//! A small logic-programming engine in the µKanren style.
//!
//! A logical statement is built from variables, states, and goals.
//! Create an empty state, obtain variables (and the resulting state)
//! from it, and combine atomic goals with conjunction, disjunction and
//! predicates. Evaluating a goal against a state returns every state in
//! which the statement holds; an empty result means the statement is
//! unsatisfiable.

pub mod btmap;
pub mod goal;
pub mod state;
