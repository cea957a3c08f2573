//! The reconciler's tick behavior: power gating, cache reconciliation,
//! identity reuse and the end-to-end scenario.

use gpumon::cache::{IdentityCache, ProcessIdentity};
use gpumon::process_ops::kill_signal;
use gpumon::telemetry::{RawProcess, RawQuery};
use gpumon::worker::{AppCommand, QueryOutcome, ResolvedIdentity, Worker};

fn raw(pid: u32, used: Option<u64>, alive: bool) -> RawProcess {
    RawProcess { pid, used_mem_bytes: used, in_process_table: alive }
}

fn query_with(procs: Vec<RawProcess>) -> RawQuery {
    RawQuery {
        mem_used_bytes: 512 * 1024 * 1024,
        mem_total_bytes: 4 * 1024 * 1024 * 1024,
        utilization_gpu: 10,
        utilization_mem: 5,
        temp_celsius: Some(50),
        power_milliwatts: Some(9000),
        performance_state: Some(String::from("P8")),
        processes: procs,
    }
}

fn identity(pid: u32) -> ProcessIdentity {
    ProcessIdentity { name: format!("proc{}", pid), cmdline: format!("/bin/proc{} --run", pid) }
}

fn resolve_all(w: &Worker, procs: &Vec<RawProcess>) -> Vec<ResolvedIdentity> {
    w.pids_to_resolve(procs)
        .into_iter()
        .map(|pid| ResolvedIdentity { pid, identity: identity(pid) })
        .collect()
}

#[test]
fn cache_memoizes_and_evicts() {
    let mut c = IdentityCache::new();
    assert!(c.is_empty());
    assert!(c.lookup(100).is_none());
    c.insert(100, identity(100));
    c.insert(200, identity(200));
    assert_eq!(c.lookup(100).unwrap().name, "proc100");
    assert_eq!(c.lookup(200).unwrap().cmdline, "/bin/proc200 --run");
    c.retain_pids(&vec![200]);
    assert!(c.lookup(100).is_none());
    assert_eq!(c.lookup(200).unwrap().name, "proc200");
    c.clear();
    assert!(c.is_empty());
}

#[test]
fn inactive_tick_emits_no_stats_and_clears_cache() {
    let mut w = Worker::new();
    let env = w.tick(String::from("suspended"), String::from("auto"), QueryOutcome::NotQueried);
    assert_eq!(env.pci_status, "suspended");
    assert_eq!(env.pci_control, "auto");
    assert!(env.gpu_stats.is_none());
    assert!(env.processes.is_empty());
    assert!(w.cache_is_empty());
    assert!(!w.has_telemetry());
}

#[test]
fn failed_init_keeps_worker_unchanged() {
    let mut w = Worker::new();
    assert!(w.needs_init(true));
    w.note_init(false);
    assert!(!w.has_telemetry());
    assert!(!w.should_query(true));
    let env = w.tick(String::from("active"), String::from("on"), QueryOutcome::NotQueried);
    assert!(env.gpu_stats.is_none());
    assert!(env.processes.is_empty());
}

#[test]
fn failed_query_keeps_provider_and_cache() {
    let mut w = Worker::new();
    w.note_init(true);
    let procs = vec![raw(100, Some(1024), true)];
    let resolved = resolve_all(&w, &procs);
    w.tick(
        String::from("active"),
        String::from("on"),
        QueryOutcome::QueryOk(query_with(procs), resolved),
    );
    assert!(w.is_cached(100));
    let env = w.tick(String::from("active"), String::from("on"), QueryOutcome::QueryFailed);
    assert!(env.gpu_stats.is_none());
    assert!(env.processes.is_empty());
    assert!(w.has_telemetry());
    assert!(w.is_cached(100));
}

#[test]
fn cached_identity_is_not_resolved_again() {
    let mut w = Worker::new();
    w.note_init(true);
    let procs = vec![raw(100, Some(1024), true), raw(100, Some(2048), true)];
    let work = w.pids_to_resolve(&procs);
    assert_eq!(work, vec![100]);
    let resolved = resolve_all(&w, &procs);
    w.tick(
        String::from("active"),
        String::from("on"),
        QueryOutcome::QueryOk(query_with(procs), resolved),
    );
    let procs2 = vec![raw(100, Some(4096), true)];
    assert!(w.pids_to_resolve(&procs2).is_empty());
    let env = w.tick(
        String::from("active"),
        String::from("on"),
        QueryOutcome::QueryOk(query_with(procs2), Vec::new()),
    );
    assert_eq!(env.processes[0].name, "proc100");
    assert_eq!(env.processes[0].cmdline, "/bin/proc100 --run");
}

#[test]
fn unreported_pid_is_evicted_next_tick() {
    let mut w = Worker::new();
    w.note_init(true);
    let procs = vec![raw(100, Some(1024), true), raw(200, Some(1024), true)];
    let resolved = resolve_all(&w, &procs);
    w.tick(
        String::from("active"),
        String::from("on"),
        QueryOutcome::QueryOk(query_with(procs), resolved),
    );
    assert!(w.is_cached(100));
    assert!(w.is_cached(200));
    let procs2 = vec![raw(100, Some(1024), true)];
    w.tick(
        String::from("active"),
        String::from("on"),
        QueryOutcome::QueryOk(query_with(procs2), Vec::new()),
    );
    assert!(w.is_cached(100));
    assert!(!w.is_cached(200));
}

#[test]
fn full_scenario_discovery_to_kill() {
    let mut w = Worker::new();

    // Initial tick: device suspended.
    let env = w.tick(String::from("suspended"), String::from("auto"), QueryOutcome::NotQueried);
    assert!(env.gpu_stats.is_none());
    assert!(env.processes.is_empty());

    // Status transitions to active; provider acquired; query reports
    // pid 100 (present in the OS process table) and pid 200 (absent).
    assert!(w.needs_init(true));
    w.note_init(true);
    assert!(w.should_query(true));
    let procs = vec![raw(100, Some(3 * 1024 * 1024), true), raw(200, Some(1024), false)];
    let resolved = resolve_all(&w, &procs);
    let env = w.tick(
        String::from("active"),
        String::from("on"),
        QueryOutcome::QueryOk(query_with(procs), resolved),
    );
    let stats = env.gpu_stats.expect("stats expected on a successful query");
    assert_eq!(stats.performance_state, "P8");
    assert_eq!(env.processes.len(), 2);
    assert_eq!(env.processes[0].pid, 100);
    assert!(!env.processes[0].is_ghost);
    assert_eq!(env.processes[0].used_mem_mb, 3);
    assert_eq!(env.processes[1].pid, 200);
    assert!(env.processes[1].is_ghost);

    // A kill command for the ghost: the drain step dispatches the
    // forceful termination signal.
    let cmd = AppCommand::KillProcess(200);
    match cmd {
        AppCommand::KillProcess(pid) => {
            assert_eq!(pid, 200);
            assert_eq!(kill_signal(true), 9);
        },
        AppCommand::SetPowerMode(_) => panic!("expected a kill command"),
    }

    // Power leaves active: provider dropped, cache wiped, no stats.
    let env = w.tick(String::from("suspended"), String::from("auto"), QueryOutcome::NotQueried);
    assert!(env.gpu_stats.is_none());
    assert!(env.processes.is_empty());
    assert!(w.cache_is_empty());
    assert!(!w.has_telemetry());
}
