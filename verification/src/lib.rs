//! A WebAssembly interpreter core with a wasmtime-compatible configuration surface.

pub mod trap;
pub mod config;
pub mod exec;
pub mod value;
pub mod canon;
pub mod engine;
pub mod backtrace;
pub mod exception;
pub mod gc_types;
