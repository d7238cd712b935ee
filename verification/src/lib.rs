//! An unbalanced binary search tree over any ordered, copyable element type.
//!
//! The tree keeps every inserted value, duplicates included, and answers
//! membership and extremum queries. Its structure can be rendered as a
//! Graphviz document.

pub mod graphviz;
pub mod order;
pub mod shape;
pub mod tree;
