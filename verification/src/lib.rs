//! A verified engine for two-dimensional life-like cellular automata.
//!
//! The engine keeps the generation in a padded, double-buffered grid
//! ([`game_of_life::BasicGoL`]), compiles rule strings such as `B3/S23`
//! into birth/survival predicates ([`rule::Rule`]), and advances the grid
//! one generation at a time.  The laws the engine obeys — determinism,
//! the zero border ring, the block fixed point, and the equivalence of
//! any cell-by-cell evaluation order with the sequential sweep — are
//! stated and proved in [`laws`].

pub mod game_of_life;
pub mod laws;
pub mod rule;
