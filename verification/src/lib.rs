//! A tmux-based scheduler of shell commands over a frozen set of CUDA devices
//! and CPU core slots: the parsing, planning, scheduling and script-building
//! logic, with its contracts.
pub mod cli;
pub mod cpu;
pub mod error;
pub mod format;
pub mod gpu;
pub mod input;
pub mod job;
pub mod namespace;
pub mod run;
pub mod scheduler;
pub mod script;
pub mod sorted;
pub mod text;
