//! Data structures.

pub mod binary_tree;
