//! The grammar, production by production.
//!
//! A production reads a prefix of its input.  On success it hands back what
//! is left of the input together with what it read; on failure it says which
//! production was expected and how far into the input.

pub mod identifier;
pub mod literal;
pub mod declaration;
pub mod field;
pub mod constant;
pub mod types;
pub mod comment;
pub mod msg;
pub mod block;
pub mod action;
pub mod srv;
