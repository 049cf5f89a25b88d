//! The CESK machine: configurations, their parts, and the program handler.

pub mod conf;
pub mod parts;
pub mod prog_handler;
pub mod semantics;

pub use self::prog_handler::ProgramHandler;
