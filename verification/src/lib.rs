//! Whole-system CPU profiler core: sample records shared with the kernel
//! samplers, the off-CPU start-time bookkeeping, kernel- and user-space
//! symbol resolution, and folding of symbolized stacks into collapsed
//! flame-graph lines.

pub mod fold;
pub mod kstack;
pub mod records;
pub mod render;
pub mod samplers;
pub mod session;
pub mod stack_tables;
pub mod start_table;
pub mod ustack;
