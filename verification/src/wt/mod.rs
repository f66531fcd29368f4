//! The compiled-module runtime: windows, threads and memory.

pub mod args;
pub mod bands;
pub mod boot;
pub mod calls;
pub mod catalog;
pub mod compose;
pub mod cycle;
pub mod decor;
pub mod demand;
pub mod drawing;
pub mod frame;
pub mod gfx;
pub mod group;
pub mod input;
pub mod keys;
pub mod launcher;
pub mod lifecycle;
pub mod lifespan;
pub mod lists;
pub mod mem;
pub mod net;
pub mod modules;
pub mod pass;
pub mod picture;
pub mod platform;
pub mod shared;
pub mod stacking;
pub mod state;
pub mod sys;
pub mod term;
pub mod threads;
pub mod wakeups;
pub mod wasi;
pub mod window;
pub mod wm;
