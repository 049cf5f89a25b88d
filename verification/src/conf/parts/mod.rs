//! The parts of a machine configuration.

pub mod address;
pub mod control;
pub mod environment;
pub mod kont;
pub mod store;
