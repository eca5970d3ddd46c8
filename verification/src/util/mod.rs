//! Utilities.

pub mod collections;
pub mod data_struct;
