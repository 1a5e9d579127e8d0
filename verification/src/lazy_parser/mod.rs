//! Handles into a buffer of parsed expressions.
pub mod expressions;
