//! A hardware description kernel: fixed-width bit vectors, signals with
//! proposed and committed values, hierarchical blocks, a fixed-point
//! convergence engine and a cooperative multi-testbench scheduler.

pub mod bits;
pub mod synth;
pub mod block;
pub mod signal;
pub mod constant;
pub mod dff;
pub mod strobe;
pub mod lfsr;
pub mod struct_valued;
pub mod sim;
pub mod tracer;
pub mod logger;
