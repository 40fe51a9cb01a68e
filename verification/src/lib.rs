//! A small boolean-formula toolkit: formulas are written in Reverse Polish
//! Notation over the connectives NOT, AND, OR, XOR, IMPLIES and BICONDITIONAL.
//! The library parses such formulas into a tree, rewrites the tree into
//! canonical forms (derived connectives eliminated, negation normal form,
//! conjunctive normal form), serializes trees back to RPN text, evaluates
//! grounded formulas, and enumerates truth tables.
//!
//! It also holds three small bit-manipulation demos (a ripple-carry adder, a
//! shift-add multiplier and a binary-to-Gray-code converter) that are
//! independent of the formula pipeline.

pub mod adder;
pub mod ast;
pub mod gray_code;
pub mod multiplier;
pub mod rpn;
pub mod truth_table;
