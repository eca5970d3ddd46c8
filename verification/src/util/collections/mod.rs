//! Collections.

pub mod vec;
