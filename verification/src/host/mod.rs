//! What an interpreted program can ask of the kernel.

pub mod blob;
pub mod cwd;
pub mod fd;
pub mod handover;
pub mod lifecycle;
pub mod listings;
pub mod mem;
pub mod naming;
pub mod net;
pub mod path;
pub mod pci;
pub mod proc;
pub mod random;
pub mod reply;
pub mod service;
pub mod smp;
pub mod state;
pub mod sysinfo;
pub mod term;
