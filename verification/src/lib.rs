//! A small persistent memory for agents: memories are remembered with a
//! retention, weakened and reinforced in retention cycles, recalled strongest
//! first and pruned once their retention falls below one.
pub mod text;
pub mod memory_store;
pub mod memory;
pub mod ids;
pub mod command_line;
