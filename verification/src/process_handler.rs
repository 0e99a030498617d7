//! Snapshot source: owns the rolling aggregate CPU and memory histories and
//! turns raw per-process readings from the OS layer into `ProcessInfo`
//! samples. The OS layer itself (process enumeration, aggregate figures)
//! lives outside; it hands in plain values.

use vstd::prelude::*;

use crate::data_structures::ProcessInfo;
use crate::history::{spec_push, HistoryBuffer};

verus! {

/// Placeholder recorded when the process owner cannot be resolved.
pub open spec fn unknown_owner() -> Seq<char> {
    "Unknown"@
}

/// One raw per-process reading as the OS layer reports it: the owner is
/// absent when lookup failed for that process alone.
pub struct RawProcess {
    pub pid: i32,
    pub user_id: Option<String>,
    pub cpu_usage: u64,
    pub memory_usage: u64,
    pub command: String,
}

/// `p` is the sample that `raw` maps to: fields carried over, with the
/// placeholder owner substituted when lookup failed.
pub open spec fn row_mapped(raw: RawProcess, p: ProcessInfo) -> bool {
    &&& p.pid == raw.pid
    &&& p.cpu_usage == raw.cpu_usage
    &&& p.memory_usage == raw.memory_usage
    &&& p.command == raw.command
    &&& p.user@ == match raw.user_id {
        Some(u) => u@,
        None => unknown_owner(),
    }
}

/// Maps one raw reading to a sample. A failed owner lookup is recovered
/// locally with the placeholder and never surfaces.
pub fn make_sample(raw: RawProcess) -> (r: ProcessInfo)
    ensures
        row_mapped(raw, r),
{
    let user = match raw.user_id {
        Some(u) => u,
        None => String::from_str("Unknown"),
    };
    ProcessInfo {
        pid: raw.pid,
        user,
        cpu_usage: raw.cpu_usage,
        memory_usage: raw.memory_usage,
        command: raw.command,
    }
}

/// Maps a whole enumeration to a snapshot, one sample per reading, in
/// order. A single broken reading never invalidates the snapshot: each row
/// is mapped independently.
pub fn build_snapshot(rows: Vec<RawProcess>) -> (r: Vec<ProcessInfo>)
    ensures
        r@.len() == rows@.len(),
        forall|i: int| 0 <= i < rows@.len() ==> row_mapped(rows@[i], #[trigger] r@[i]),
{
    let ghost orig = rows@;
    let mut rest = rows;
    let mut out: Vec<ProcessInfo> = Vec::new();
    while rest.len() > 0
        invariant
            rest@.len() <= orig.len(),
            out@.len() + rest@.len() == orig.len(),
            forall|k: int| 0 <= k < rest@.len() ==> rest@[k] == orig[out@.len() + k],
            forall|i: int| 0 <= i < out@.len() ==> row_mapped(orig[i], #[trigger] out@[i]),
        decreases rest@.len(),
    {
        let row = rest.remove(0);
        out.push(make_sample(row));
    }
    out
}

/// Saturating percentage of memory in use, in hundredths of a percent.
pub open spec fn mem_centipercent(used: int, total: int) -> int
    recommends
        total > 0,
{
    let raw = used * 10000 / total;
    if raw > u64::MAX { u64::MAX as int } else { raw }
}

/// Bridge to OS process and resource information: owns the rolling
/// aggregate CPU and memory histories for its whole lifetime.
pub struct ProcessHandler {
    cpu_usage_history: HistoryBuffer,
    memory_usage_history: HistoryBuffer,
}

impl ProcessHandler {
    /// Contents of the aggregate CPU history, oldest first.
    pub closed spec fn cpu_hist(&self) -> Seq<u64> {
        self.cpu_usage_history@
    }

    /// Contents of the aggregate memory history, oldest first.
    pub closed spec fn mem_hist(&self) -> Seq<u64> {
        self.memory_usage_history@
    }

    /// Both histories respect the shared capacity bound.
    pub closed spec fn wf(&self) -> bool {
        self.cpu_usage_history.wf() && self.memory_usage_history.wf()
    }

    /// A handler with empty histories.
    pub fn new() -> (r: ProcessHandler)
        ensures
            r.wf(),
            r.cpu_hist() == Seq::<u64>::empty(),
            r.mem_hist() == Seq::<u64>::empty(),
    {
        ProcessHandler { cpu_usage_history: HistoryBuffer::new(), memory_usage_history: HistoryBuffer::new() }
    }

    /// Records one refresh cycle: the aggregate CPU percentage is appended
    /// to the CPU history, and the memory percentage `used / total * 100`
    /// (saturating, in hundredths of a percent) to the memory history —
    /// unless `total_memory` is zero (undefined device state), in which
    /// case the memory push is skipped rather than dividing by zero.
    pub fn refresh(&mut self, cpu_centipercent: u64, used_memory: u64, total_memory: u64)
        requires
            old(self).wf(),
        ensures
            final(self).wf(),
            final(self).cpu_hist() == spec_push(old(self).cpu_hist(), cpu_centipercent),
            total_memory > 0 ==> final(self).mem_hist() == spec_push(
                old(self).mem_hist(),
                mem_centipercent(used_memory as int, total_memory as int) as u64,
            ),
            total_memory == 0 ==> final(self).mem_hist() == old(self).mem_hist(),
    {
        self.cpu_usage_history.push(cpu_centipercent);
        if total_memory > 0 {
            let scaled: u128 = (used_memory as u128) * 10000 / (total_memory as u128);
            let sample: u64 = if scaled > u64::MAX as u128 {
                u64::MAX
            } else {
                scaled as u64
            };
            self.memory_usage_history.push(sample);
        }
    }

    /// Read-only view of the aggregate CPU history, oldest first.
    pub fn get_cpu_usage_history(&self) -> (r: &Vec<u64>)
        ensures
            r@ == self.cpu_hist(),
    {
        self.cpu_usage_history.values()
    }

    /// Read-only view of the aggregate memory history, oldest first.
    pub fn get_memory_usage_history(&self) -> (r: &Vec<u64>)
        ensures
            r@ == self.mem_hist(),
    {
        self.memory_usage_history.values()
    }
}

} // verus!
