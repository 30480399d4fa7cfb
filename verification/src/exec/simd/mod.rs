//! Fixed-width SIMD (`v128`): lane arithmetic, whole-vector bit operations, lane access and the
//! `v128` memory instructions, all on integer lanes.

pub mod lanes;
pub mod lane_ops;
pub mod vector;
pub mod compute;
pub mod mem;
