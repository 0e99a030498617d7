//! Value objects shared by the snapshot source and the query engine.

use vstd::prelude::*;

verus! {

/// One process observed in a snapshot.
///
/// `cpu_usage` is the process CPU utilization in hundredths of a percent
/// since the last refresh; it may exceed 10000 (more than one core).
/// `memory_usage` is resident memory in the unit the OS layer hands in
/// (kilobytes, as the table prints it).
#[derive(Debug, Clone, PartialEq, Eq)]
pub struct ProcessInfo {
    pub pid: i32,
    pub user: String,
    pub cpu_usage: u64,
    pub memory_usage: u64,
    pub command: String,
}

} // verus!
