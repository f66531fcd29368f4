//! The programs that come with the system.

pub mod netconsole;
pub mod parsum;
pub mod precompile;
pub mod reactor;
pub mod readline;
pub mod sending;
pub mod tui;
