//! Queries on the code graph: what stands around a symbol, what depends on it, where
//! symbols are, and how the project is made up.

pub mod neighborhood;
pub mod search;
pub mod overview;
pub mod reach;
