//! The interpreter: instruction semantics, operand stack, and the run loop.

pub mod cell;
pub mod op;
pub mod stack;
pub mod numeric;
pub mod memory;
pub mod machine;
pub mod compile;
pub mod int32;
pub mod int64;
pub mod convert;
pub mod epoch;
pub mod cast;
pub mod exn;
pub mod table;
pub mod simd;
