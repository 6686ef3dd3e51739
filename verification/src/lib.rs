use vstd::prelude::*;

pub mod bit;
pub mod bit_range;
pub mod bv;
pub mod bytes;
pub mod clock;
pub mod clock_array;
pub mod edge_mask;
pub mod fmt;
pub mod index;
pub mod indexed_vec;
pub mod named_array;
pub mod names;
pub mod port;
pub mod sim_format_value;
pub mod simulation;
pub mod sync;
pub mod traits;
pub mod u8_ops;
pub mod utils;
pub mod models;
