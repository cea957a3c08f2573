//! Ghost classification and snapshot assembly.

use gpumon::telemetry::{build_processes, build_stats, RawProcess, RawQuery};

fn raw(pid: u32, used: Option<u64>, alive: bool) -> RawProcess {
    RawProcess { pid, used_mem_bytes: used, in_process_table: alive }
}

#[test]
fn ghost_flag_mirrors_process_table_presence() {
    let procs = vec![raw(100, Some(2 * 1024 * 1024), true), raw(200, Some(1), false)];
    let out = build_processes(&procs);
    assert_eq!(out.len(), 2);
    assert_eq!(out[0].pid, 100);
    assert!(!out[0].is_ghost);
    assert_eq!(out[1].pid, 200);
    assert!(out[1].is_ghost);
}

#[test]
fn unreported_memory_defaults_to_zero() {
    let procs = vec![raw(7, None, true)];
    let out = build_processes(&procs);
    assert_eq!(out[0].used_mem_bytes, 0);
}

#[test]
fn duplicate_pids_are_preserved() {
    let procs = vec![raw(7, Some(10), true), raw(7, Some(20), true)];
    let out = build_processes(&procs);
    assert_eq!(out.len(), 2);
    assert_eq!(out[0].used_mem_bytes, 10);
    assert_eq!(out[1].used_mem_bytes, 20);
}

#[test]
fn stats_apply_documented_defaults() {
    let q = RawQuery {
        mem_used_bytes: 3 * 1024 * 1024 + 123,
        mem_total_bytes: 8 * 1024 * 1024 * 1024,
        utilization_gpu: 42,
        utilization_mem: 17,
        temp_celsius: None,
        power_milliwatts: None,
        performance_state: None,
        processes: Vec::new(),
    };
    let s = build_stats(q);
    assert_eq!(s.temp_celsius, 0);
    assert_eq!(s.power_usage_milliwatts, 0);
    assert_eq!(s.performance_state, "Unknown");
    assert_eq!(s.vram_used_mb, 3);
    assert_eq!(s.vram_total_mb, 8 * 1024);
    assert_eq!(s.utilization_gpu, 42);
    assert_eq!(s.utilization_mem, 17);
    assert!(s.active_processes.is_empty());
}

#[test]
fn stats_keep_reported_readings() {
    let q = RawQuery {
        mem_used_bytes: 0,
        mem_total_bytes: 0,
        utilization_gpu: 1,
        utilization_mem: 2,
        temp_celsius: Some(61),
        power_milliwatts: Some(17_250),
        performance_state: Some(String::from("P2")),
        processes: vec![raw(5, Some(4096), false)],
    };
    let s = build_stats(q);
    assert_eq!(s.temp_celsius, 61);
    assert_eq!(s.power_usage_milliwatts, 17_250);
    assert_eq!(s.performance_state, "P2");
    assert_eq!(s.active_processes.len(), 1);
    assert!(s.active_processes[0].is_ghost);
}
