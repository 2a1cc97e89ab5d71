//! Better Basic Tools: structured, read-only Linux observations for humans and agents.
//!
//! The library holds the logic of every command: argument grammar, procfs and
//! mount-table parsers, traversal bookkeeping for disk usage and directory trees,
//! and the construction of agent reports. Reading files and calling the kernel is
//! left to the program around it.

pub mod text;
pub mod agent;
pub mod output;
pub mod entry;
pub mod units;
pub mod visits;
pub mod order;
pub mod disk;
pub mod fs;
pub mod fs_tree;
pub mod fs_records;
pub mod cli;
pub mod mounts;
pub mod proc;
pub mod net;
pub mod service;
pub mod host;
pub mod pressure;
pub mod human;
