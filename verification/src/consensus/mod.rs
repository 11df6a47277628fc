//! The rules of the chain: what is issued and what is accepted.

pub mod monetary;
pub mod validation;
