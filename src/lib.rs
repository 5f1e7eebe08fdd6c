//! Shading virtual machine and the order-statistics primitives beneath it:
//! binary searches and a two-way partition, curves and read-only program
//! data, a bounded operand stack and the instruction set that runs on it,
//! plus small profiling helpers.

pub mod counter;
pub mod instr;
pub mod partition;
pub mod profiler;
pub mod rom;
pub mod search;
pub mod slice;
pub mod stack;

pub use counter::Counter;
pub use instr::{BinaryOp, CompareMode, Instruction, Lane, UnaryOp};
pub use partition::partition_bidir;
pub use profiler::{Profiler, SplitDuration};
pub use rom::{Curve, CurveIndex, InterpolationMode, Scalar, ROM};
pub use search::{lower_bound, upper_bound};
pub use slice::SliceExt;
pub use stack::Stack;
