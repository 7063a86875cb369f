//! The requests that servers and clients exchange, and how a server answers them.

pub mod outer;
