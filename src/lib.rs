//! Ternary search for the minimum of a unimodal function on a bracket.
//!
//! The numeric work (evaluating the objective, splitting a floating-point
//! bracket) is done by the caller. This library decides, from the outcome of
//! each comparison, which third of the bracket to drop, and when to stop. Its
//! decisions are tied to an exact model of the bracket in which every law of
//! the method (width shrinking by two thirds per step, nesting, the cap on
//! steps, the tie rule) is proved.
pub mod bracket;
pub mod search;
