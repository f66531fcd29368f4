//! The logic of a WASM-first operating system.

pub mod answers;
pub mod bytes;
pub mod exec_queue;
pub mod fiber;
pub mod host;
pub mod pipeline;
pub mod pixels;
pub mod raster;
pub mod shell;
pub mod suspend;
pub mod text;
pub mod tools;
pub mod wasi;
pub mod wording;
pub mod wt;
