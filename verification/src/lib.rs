//! A credential vault projected as a read-only virtual filesystem.

pub mod client;
pub mod clock;
pub mod message;
pub mod name_table;
pub mod names;
pub mod server;
