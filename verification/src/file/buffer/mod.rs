//! Buffers that files can be bound to: pipes and sockets.

pub mod pipe;
pub mod socket;
