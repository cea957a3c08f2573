//! Telemetry snapshot assembly.
//!
//! One query of the vendor telemetry boundary yields memory and
//! utilization counters (required), best-effort temperature, power draw
//! and performance-state readings, and the concatenation of the
//! compute-workload and graphics-workload process lists.  Callers perform
//! the query and the per-pid process-table check and hand the raw results
//! in; this module classifies ghosts, applies the documented defaults, and
//! assembles the snapshot.  A pid reported by both workload lists appears
//! twice, exactly as the two lists were handed in; duplicates are kept,
//! not merged.

use vstd::prelude::*;

verus! {

/// One accelerator-using process as seen by telemetry.
pub struct GpuProcess {
    pub pid: u32,
    pub used_mem_bytes: u64,
    /// True iff the pid was absent from the OS process table when observed.
    pub is_ghost: bool,
}

/// One sample of accelerator metrics, only constructed from a successful
/// query while the device is active.  Power draw is kept as the raw
/// milliwatt count the boundary reports; presentation scales it.
pub struct GpuStats {
    pub temp_celsius: u32,
    pub vram_used_mb: u64,
    pub vram_total_mb: u64,
    pub utilization_gpu: u32,
    pub utilization_mem: u32,
    pub power_usage_milliwatts: u32,
    pub performance_state: String,
    pub active_processes: Vec<GpuProcess>,
}

/// One raw process entry from a workload list, before classification:
/// the pid, the used-memory byte count where the driver reported a
/// concrete value, and whether the pid was present in the OS process
/// table at the moment of the query.  Assumed: the OS does not reuse a
/// pid between the telemetry snapshot and the process-table check; a
/// reuse would misclassify that pid for one tick, which the polling
/// cadence makes acceptable.
pub struct RawProcess {
    pub pid: u32,
    pub used_mem_bytes: Option<u64>,
    pub in_process_table: bool,
}

/// The raw outcome of one successful telemetry query.  The required
/// counters are plain values; the best-effort readings are absent where
/// their individual calls failed; `processes` is the compute list followed
/// by the graphics list, in reported order.
pub struct RawQuery {
    pub mem_used_bytes: u64,
    pub mem_total_bytes: u64,
    pub utilization_gpu: u32,
    pub utilization_mem: u32,
    pub temp_celsius: Option<u32>,
    pub power_milliwatts: Option<u32>,
    pub performance_state: Option<String>,
    pub processes: Vec<RawProcess>,
}

/// The classified record a raw process entry becomes: the pid is kept, an
/// unreported memory figure defaults to zero, and a pid missing from the
/// OS process table is marked a ghost.
pub open spec fn spec_classified(p: RawProcess) -> GpuProcess {
    GpuProcess {
        pid: p.pid,
        used_mem_bytes: match p.used_mem_bytes {
            Some(b) => b,
            None => 0,
        },
        is_ghost: !p.in_process_table,
    }
}

/// Classifies every raw process entry, in order: `is_ghost` is true iff
/// the pid was absent from the OS process table, and an unreported memory
/// figure becomes zero.
pub fn build_processes(raw: &Vec<RawProcess>) -> (r: Vec<GpuProcess>)
    ensures
        r@.len() == raw@.len(),
        forall|i: int| 0 <= i < raw@.len() ==> r@[i] == spec_classified(#[trigger] raw@[i]),
{
    let n = raw.len();
    let mut r: Vec<GpuProcess> = Vec::new();
    let mut i: usize = 0;
    while i < n
        invariant
            0 <= i <= n,
            n == raw@.len(),
            r@.len() == i,
            forall|j: int| 0 <= j < i ==> r@[j] == spec_classified(#[trigger] raw@[j]),
        decreases n - i,
    {
        let entry = &raw[i];
        let used = match entry.used_mem_bytes {
            Some(b) => b,
            None => 0,
        };
        r.push(
            GpuProcess { pid: entry.pid, used_mem_bytes: used, is_ghost: !entry.in_process_table },
        );
        i = i + 1;
    }
    r
}

/// How an assembled snapshot relates to the raw query it came from: the
/// required counters are taken as handed in, memory totals are scaled to
/// whole mebibytes rounding down, each best-effort reading falls back to
/// its documented default (zero, or `"Unknown"` for the performance
/// state), and the process list is classified in order.
pub open spec fn stats_match(raw: RawQuery, r: GpuStats) -> bool {
    &&& r.temp_celsius == (match raw.temp_celsius {
        Some(t) => t,
        None => 0u32,
    })
    &&& r.vram_used_mb == raw.mem_used_bytes / 1024 / 1024
    &&& r.vram_total_mb == raw.mem_total_bytes / 1024 / 1024
    &&& r.utilization_gpu == raw.utilization_gpu
    &&& r.utilization_mem == raw.utilization_mem
    &&& r.power_usage_milliwatts == (match raw.power_milliwatts {
        Some(p) => p,
        None => 0u32,
    })
    &&& (raw.performance_state matches Some(s) ==> r.performance_state == s)
    &&& (raw.performance_state is None ==> r.performance_state@ == "Unknown"@)
    &&& r.active_processes@.len() == raw.processes@.len()
    &&& forall|i: int|
        0 <= i < raw.processes@.len() ==> r.active_processes@[i] == spec_classified(
            #[trigger] raw.processes@[i],
        )
}

/// Assembles a snapshot from one successful query; see [`stats_match`]
/// for the exact field-by-field relation.
pub fn build_stats(raw: RawQuery) -> (r: GpuStats)
    ensures
        stats_match(raw, r),
{
    let active_processes = build_processes(&raw.processes);
    let performance_state = match raw.performance_state {
        Some(s) => s,
        None => String::from_str("Unknown"),
    };
    GpuStats {
        temp_celsius: match raw.temp_celsius {
            Some(t) => t,
            None => 0,
        },
        vram_used_mb: raw.mem_used_bytes / 1024 / 1024,
        vram_total_mb: raw.mem_total_bytes / 1024 / 1024,
        utilization_gpu: raw.utilization_gpu,
        utilization_mem: raw.utilization_mem,
        power_usage_milliwatts: match raw.power_milliwatts {
            Some(p) => p,
            None => 0,
        },
        performance_state,
        active_processes,
    }
}

} // verus!
