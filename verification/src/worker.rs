//! The reconciler: a power-gated polling state machine.
//!
//! Each tick the driving loop drains pending commands, reads the device's
//! power status and control policy, and hands the worker the raw outcome
//! of the telemetry step it was told to take.  The worker owns the
//! telemetry provider's lifecycle flag and the identity cache, decides
//! which telemetry step the loop must take, reconciles the cache against
//! the reported pids, and assembles the envelope published every tick.
//! All I/O — the attribute reads, the vendor telemetry query, the
//! process-table checks, the identity reads, the signal dispatch — happens
//! outside; the worker sees only the values those steps produced.

use vstd::prelude::*;
use crate::cache::{contains_pid, IdentityCache, ProcessIdentity};
use crate::pci::{is_active_status, spec_is_active};
use crate::telemetry::{build_stats, stats_match, GpuStats, RawProcess, RawQuery};

verus! {

/// The closed set of user-issued actions.
pub enum AppCommand {
    /// Write this mode token to the device's control file.
    SetPowerMode(String),
    /// Dispatch a forceful termination signal to this pid.
    KillProcess(u32),
}

/// One outbound process record: telemetry data merged with the resolved
/// identity.
pub struct FullProcessInfo {
    pub pid: u32,
    pub name: String,
    pub cmdline: String,
    pub used_mem_mb: u64,
    /// True if the pid was reported by telemetry but absent from the OS
    /// process table.
    pub is_ghost: bool,
}

/// The envelope published unconditionally every tick.
pub struct GpuUpdate {
    pub pci_status: String,
    pub pci_control: String,
    /// Absent on every tick that had no successful telemetry query.
    pub gpu_stats: Option<GpuStats>,
    pub processes: Vec<FullProcessInfo>,
}

/// An identity freshly resolved for one pid this tick.
pub struct ResolvedIdentity {
    pub pid: u32,
    pub identity: ProcessIdentity,
}

/// The raw outcome of the telemetry step the driving loop took this tick.
pub enum QueryOutcome {
    /// No provider was available (device inactive, or acquiring one
    /// failed), so nothing was queried.
    NotQueried,
    /// A provider was held but its query failed; the provider is kept.
    QueryFailed,
    /// The query succeeded; carries its raw data and the identities
    /// freshly resolved for exactly the reported pids that were not
    /// already cached.
    QueryOk(RawQuery, Vec<ResolvedIdentity>),
}

/// The pids of a raw process list, in reported order.
pub open spec fn pids_of(procs: Seq<RawProcess>) -> Seq<u32> {
    procs.map_values(|p: RawProcess| p.pid)
}

/// The pids that need fresh resolution: those of `pids` not in `dom`,
/// first sightings only, in order of first occurrence.
pub open spec fn missing_pids(dom: Set<u32>, pids: Seq<u32>) -> Seq<u32>
    decreases pids.len(),
{
    if pids.len() == 0 {
        Seq::empty()
    } else {
        let rest = missing_pids(dom, pids.drop_last());
        let p = pids.last();
        if dom.contains(p) || pids.drop_last().contains(p) {
            rest
        } else {
            rest.push(p)
        }
    }
}

proof fn lemma_push_contains<T>(s: Seq<T>, x: T, y: T)
    ensures
        s.push(x).contains(y) <==> (s.contains(y) || x == y),
{
    assert(s.push(x)[s.len() as int] == x);
    if s.contains(y) {
        let i = choose|i: int| 0 <= i < s.len() && s[i] == y;
        assert(s.push(x)[i] == y);
    }
    if s.push(x).contains(y) {
        let i = choose|i: int| 0 <= i < s.push(x).len() && s.push(x)[i] == y;
        if i < s.len() {
            assert(s[i] == y);
        }
    }
}

/// A pid needs fresh resolution exactly when it is reported and not
/// already cached.  In particular a cached pid is never resolved again:
/// identity resolution is idempotent under repeated sightings.
pub proof fn lemma_missing_pids_contains(dom: Set<u32>, pids: Seq<u32>, p: u32)
    ensures
        missing_pids(dom, pids).contains(p) <==> (!dom.contains(p) && pids.contains(p)),
    decreases pids.len(),
{
    if pids.len() == 0 {
    } else {
        let rest = missing_pids(dom, pids.drop_last());
        let q = pids.last();
        lemma_missing_pids_contains(dom, pids.drop_last(), p);
        lemma_push_contains(pids.drop_last(), q, p);
        assert(pids.drop_last().push(q) =~= pids);
        if !(dom.contains(q) || pids.drop_last().contains(q)) {
            lemma_push_contains(rest, q, p);
        }
    }
}

/// No pid appears twice in the resolution work list.
pub proof fn lemma_missing_pids_unique(dom: Set<u32>, pids: Seq<u32>)
    ensures
        forall|a: int, b: int|
            0 <= a < b < missing_pids(dom, pids).len() ==> #[trigger] missing_pids(dom, pids)[a]
                != #[trigger] missing_pids(dom, pids)[b],
    decreases pids.len(),
{
    if pids.len() == 0 {
    } else {
        let rest = missing_pids(dom, pids.drop_last());
        let q = pids.last();
        lemma_missing_pids_unique(dom, pids.drop_last());
        if !(dom.contains(q) || pids.drop_last().contains(q)) {
            lemma_missing_pids_contains(dom, pids.drop_last(), q);
            assert(!rest.contains(q));
            assert forall|a: int, b: int|
                0 <= a < b < rest.push(q).len() implies #[trigger] rest.push(q)[a]
                != #[trigger] rest.push(q)[b] by {
                if b == rest.len() {
                    if rest.push(q)[a] == q {
                        assert(rest[a] == q);
                    }
                }
            }
        }
    }
}

/// Identity resolution is idempotent under repeated sightings of the
/// same continuously reported pid: once its identity is cached, no later
/// resolution work list contains the pid, so its metadata is never read
/// again while it stays reported.
pub proof fn lemma_cached_pid_never_reresolved(dom: Set<u32>, pids: Seq<u32>, p: u32)
    requires
        dom.contains(p),
    ensures
        !missing_pids(dom, pids).contains(p),
{
    lemma_missing_pids_contains(dom, pids, p);
}

/// One outbound record agrees with its raw telemetry entry and the
/// identity the cache holds for its pid.
pub open spec fn record_matches(rec: FullProcessInfo, rp: RawProcess, id: ProcessIdentity) -> bool {
    &&& rec.pid == rp.pid
    &&& rec.name == id.name
    &&& rec.cmdline == id.cmdline
    &&& rec.used_mem_mb == (match rp.used_mem_bytes {
        Some(b) => b,
        None => 0u64,
    }) / 1024 / 1024
    &&& rec.is_ghost == !rp.in_process_table
}

/// The power-gated reconciler.  `NoTelemetry` is modeled as
/// `telemetry_held() == false`, `HasTelemetry` as `true`; the transition
/// is gated strictly by the latest observed power status.
pub struct Worker {
    telemetry_held: bool,
    cache: IdentityCache,
}

impl Worker {
    /// The cache is well formed, and a worker without a telemetry
    /// provider holds no cached identities.
    pub closed spec fn wf(self) -> bool {
        &&& self.cache.wf()
        &&& !self.telemetry_held ==> self.cache.dom() == Set::<u32>::empty()
    }

    /// Whether the worker currently holds a telemetry provider.
    pub closed spec fn telemetry_held(self) -> bool {
        self.telemetry_held
    }

    /// The set of pids with a cached identity.
    pub closed spec fn cache_dom(self) -> Set<u32> {
        self.cache.dom()
    }

    /// The identity cached for `p`; meaningful only when `cache_dom()`
    /// holds `p`.
    pub closed spec fn cached_identity(self, p: u32) -> ProcessIdentity {
        self.cache.at(p)
    }

    /// A fresh worker: no provider, nothing cached.
    pub fn new() -> (w: Worker)
        ensures
            w.wf(),
            !w.telemetry_held(),
            w.cache_dom() == Set::<u32>::empty(),
    {
        Worker { telemetry_held: false, cache: IdentityCache::new() }
    }

    /// Whether the worker holds a telemetry provider.
    pub fn has_telemetry(&self) -> (r: bool)
        ensures
            r == self.telemetry_held(),
    {
        self.telemetry_held
    }

    /// Whether nothing is cached.
    pub fn cache_is_empty(&self) -> (r: bool)
        ensures
            r == (self.cache_dom() == Set::<u32>::empty()),
    {
        self.cache.is_empty()
    }

    /// Whether `pid` has a cached identity.
    pub fn is_cached(&self, pid: u32) -> (r: bool)
        requires
            self.wf(),
        ensures
            r == self.cache_dom().contains(pid),
    {
        self.cache.lookup(pid).is_some()
    }

    /// Whether the driving loop must attempt to acquire a telemetry
    /// provider this tick: the device is active and none is held.
    pub fn needs_init(&self, active: bool) -> (r: bool)
        ensures
            r == (active && !self.telemetry_held()),
    {
        active && !self.telemetry_held
    }

    /// Records the outcome of a provider acquisition attempt.  On failure
    /// the worker simply stays without a provider; nothing else changes.
    pub fn note_init(&mut self, ok: bool)
        requires
            old(self).wf(),
            !old(self).telemetry_held(),
        ensures
            final(self).wf(),
            final(self).telemetry_held() == ok,
            final(self).cache_dom() == old(self).cache_dom(),
    {
        self.telemetry_held = ok;
    }

    /// Whether the driving loop must query telemetry this tick: the
    /// device is active and a provider is held.
    pub fn should_query(&self, active: bool) -> (r: bool)
        ensures
            r == (active && self.telemetry_held()),
    {
        active && self.telemetry_held
    }

    /// The pids whose identities must be freshly resolved before this
    /// tick's query outcome can be applied: the reported pids without a
    /// cached identity, first sightings only, in reported order.  Already
    /// cached pids never reappear here, so each pid is resolved at most
    /// once per continuous observation window.
    pub fn pids_to_resolve(&self, procs: &Vec<RawProcess>) -> (r: Vec<u32>)
        requires
            self.wf(),
        ensures
            r@ == missing_pids(self.cache_dom(), pids_of(procs@)),
    {
        let ghost pidsq = pids_of(procs@);
        let n = procs.len();
        let mut r: Vec<u32> = Vec::new();
        let mut i: usize = 0;
        while i < n
            invariant
                0 <= i <= n,
                n == procs@.len(),
                pidsq == pids_of(procs@),
                self.wf(),
                r@ == missing_pids(self.cache_dom(), pidsq.take(i as int)),
            decreases n - i,
        {
            let pid = procs[i].pid;
            let cached = self.cache.lookup(pid).is_some();
            let already = contains_pid(&r, pid);
            proof {
                let t1 = pidsq.take(i as int);
                let t2 = pidsq.take(i + 1 as int);
                assert(t2.drop_last() =~= t1);
                assert(t2.last() == pid);
                lemma_missing_pids_contains(self.cache_dom(), t1, pid);
            }
            if !cached && !already {
                r.push(pid);
            }
            i = i + 1;
        }
        proof {
            assert(pidsq.take(n as int) =~= pidsq);
        }
        r
    }

    /// Applies one successful query: reconciles the cache against the
    /// reported pids, stores the freshly resolved identities, and builds
    /// the snapshot and the outbound record list.
    #[verifier::rlimit(60)]
    #[verifier::loop_isolation(false)]
    fn apply_query(&mut self, raw: RawQuery, resolved: Vec<ResolvedIdentity>) -> (r: (
        GpuStats,
        Vec<FullProcessInfo>,
    ))
        requires
            old(self).wf(),
            old(self).telemetry_held(),
            resolved@.map_values(|x: ResolvedIdentity| x.pid) == missing_pids(
                old(self).cache_dom(),
                pids_of(raw.processes@),
            ),
        ensures
            final(self).wf(),
            final(self).telemetry_held(),
            forall|p: u32|
                final(self).cache_dom().contains(p) <==> pids_of(raw.processes@).contains(p),
            forall|p: u32|
                old(self).cache_dom().contains(p) && pids_of(raw.processes@).contains(p)
                    ==> final(self).cached_identity(p) == old(self).cached_identity(p),
            forall|j: int|
                0 <= j < resolved@.len() ==> final(self).cached_identity(
                    (#[trigger] resolved@[j]).pid,
                ) == resolved@[j].identity,
            stats_match(raw, r.0),
            r.1@.len() == raw.processes@.len(),
            forall|k: int|
                0 <= k < raw.processes@.len() ==> record_matches(
                    r.1@[k],
                    #[trigger] raw.processes@[k],
                    final(self).cached_identity(raw.processes@[k].pid),
                ),
    {
        let ghost prev = *self;
        let ghost pidsq = pids_of(raw.processes@);
        let ghost dom0 = prev.cache.dom();
        let ghost missing = missing_pids(dom0, pidsq);

        // The reported pids, in order, as an executable vector.
        let n = raw.processes.len();
        let mut pids: Vec<u32> = Vec::new();
        let mut i: usize = 0;
        while i < n
            invariant
                0 <= i <= n,
                n == raw.processes@.len(),
                pidsq == pids_of(raw.processes@),
                pids@ == pidsq.take(i as int),
            decreases n - i,
        {
            pids.push(raw.processes[i].pid);
            proof {
                assert(pidsq.take(i + 1 as int) =~= pidsq.take(i as int).push(pidsq[i as int]));
            }
            i = i + 1;
        }
        proof {
            assert(pidsq.take(n as int) =~= pidsq);
        }

        // Reconcile: evict every pid no longer reported.
        self.cache.retain_pids(&pids);

        // Store the freshly resolved identities; each is a first sighting.
        proof {
            lemma_missing_pids_unique(dom0, pidsq);
            assert forall|p: u32| #[trigger] self.cache.dom().contains(p) <==> ((dom0.contains(p)
                && pidsq.contains(p)) || missing.take(0).contains(p)) by {
                assert(missing.take(0).len() == 0);
                assert(!missing.take(0).contains(p));
            }
        }
        let m = resolved.len();
        let mut j: usize = 0;
        while j < m
            invariant
                0 <= j <= m,
                m == resolved@.len(),
                pidsq == pids_of(raw.processes@),
                dom0 == prev.cache.dom(),
                self.telemetry_held == prev.telemetry_held,
                missing == missing_pids(dom0, pidsq),
                resolved@.map_values(|x: ResolvedIdentity| x.pid) == missing,
                prev.cache.wf(),
                self.cache.wf(),
                forall|a: int, b: int|
                    0 <= a < b < missing.len() ==> #[trigger] missing[a] != #[trigger] missing[b],
                forall|p: u32|
                    #[trigger] self.cache.dom().contains(p) <==> ((dom0.contains(p)
                        && pidsq.contains(p)) || missing.take(j as int).contains(p)),
                forall|p: u32|
                    dom0.contains(p) && pidsq.contains(p) ==> #[trigger] self.cache.at(p)
                        == prev.cache.at(p),
                forall|l: int|
                    0 <= l < j ==> #[trigger] self.cache.at(missing[l]) == resolved@[l].identity,
            decreases m - j,
        {
            let rid = &resolved[j];
            proof {
                assert(resolved@.map_values(|x: ResolvedIdentity| x.pid)[j as int] == rid.pid);
                assert(rid.pid == missing[j as int]);
                lemma_missing_pids_contains(dom0, pidsq, rid.pid);
                assert(missing.contains(missing[j as int]));
                assert(!dom0.contains(rid.pid));
                if missing.take(j as int).contains(rid.pid) {
                    let l = choose|l: int|
                        0 <= l < j && #[trigger] missing.take(j as int)[l] == rid.pid;
                    assert(missing[l] == missing[j as int]);
                }
                assert(!self.cache.dom().contains(rid.pid));
            }
            let ghost before = self.cache;
            self.cache.insert(rid.pid, rid.identity.clone());
            proof {
                assert forall|p: u32| #[trigger] self.cache.dom().contains(p) implies ((
                dom0.contains(p) && pidsq.contains(p)) || missing.take(j + 1 as int).contains(
                    p,
                )) by {
                    if p != rid.pid {
                        assert(before.dom().contains(p));
                        if missing.take(j as int).contains(p) {
                            let l = choose|l: int|
                                0 <= l < j && #[trigger] missing.take(j as int)[l] == p;
                            assert(missing.take(j + 1 as int)[l] == p);
                        }
                    } else {
                        assert(missing.take(j + 1 as int)[j as int] == p);
                    }
                }
                assert forall|p: u32| ((dom0.contains(p) && pidsq.contains(p)) || missing.take(
                    j + 1 as int,
                ).contains(p)) implies #[trigger] self.cache.dom().contains(p) by {
                    if missing.take(j + 1 as int).contains(p) {
                        let l = choose|l: int|
                            0 <= l < j + 1 && #[trigger] missing.take(j + 1 as int)[l] == p;
                        if l < j {
                            assert(missing.take(j as int)[l] == p);
                            assert(before.dom().contains(p));
                        }
                    } else {
                        assert(before.dom().contains(p));
                    }
                }
                assert forall|l: int| 0 <= l < j + 1 implies #[trigger] self.cache.at(missing[l])
                    == resolved@[l].identity by {
                    if l < j {
                        assert(missing.take(j as int)[l] == missing[l]);
                        assert(missing.take(j as int).contains(missing[l]));
                        assert(before.dom().contains(missing[l]));
                        assert(before.at(missing[l]) == resolved@[l].identity);
                    }
                }
            }
            j = j + 1;
        }
        proof {
            assert(missing.take(m as int) =~= missing);
            assert forall|p: u32| #[trigger] self.cache.dom().contains(p) <==> pidsq.contains(
                p,
            ) by {
                lemma_missing_pids_contains(dom0, pidsq, p);
            }
        }

        // Build the outbound records from the now complete cache.
        let mut recs: Vec<FullProcessInfo> = Vec::new();
        let mut k: usize = 0;
        while k < n
            invariant
                0 <= k <= n,
                n == raw.processes@.len(),
                pidsq == pids_of(raw.processes@),
                self.cache.wf(),
                forall|p: u32| #[trigger] self.cache.dom().contains(p) <==> pidsq.contains(p),
                recs@.len() == k,
                forall|l: int|
                    0 <= l < k ==> record_matches(
                        recs@[l],
                        #[trigger] raw.processes@[l],
                        self.cache.at(raw.processes@[l].pid),
                    ),
            decreases n - k,
        {
            let rp = &raw.processes[k];
            proof {
                assert(pidsq[k as int] == rp.pid);
                assert(pidsq.contains(rp.pid));
            }
            let id = match self.cache.lookup(rp.pid) {
                Some(idref) => idref.clone(),
                None => vstd::pervasive::unreached(),
            };
            let used = match rp.used_mem_bytes {
                Some(b) => b,
                None => 0,
            };
            recs.push(
                FullProcessInfo {
                    pid: rp.pid,
                    name: id.name,
                    cmdline: id.cmdline,
                    used_mem_mb: used / 1024 / 1024,
                    is_ghost: !rp.in_process_table,
                },
            );
            k = k + 1;
        }

        let stats = build_stats(raw);
        proof {
            assert forall|jj: int| 0 <= jj < resolved@.len() implies self.cache.at(
                (#[trigger] resolved@[jj]).pid,
            ) == resolved@[jj].identity by {
                assert(resolved@.map_values(|x: ResolvedIdentity| x.pid)[jj] == resolved@[jj].pid);
                assert(resolved@[jj].pid == missing[jj]);
            }
        }
        (stats, recs)
    }

    /// One tick of the reconciler, given this tick's normalized power
    /// status and control policy and the raw outcome of the telemetry
    /// step the driving loop took.  Returns the envelope to publish,
    /// which always carries the status and control as read.
    ///
    /// While the device is not active, no stats are emitted, the provider
    /// is dropped and the identity cache ends the tick empty.  While it
    /// is active, a missing provider or a failed query leaves the worker
    /// exactly as it was — a transient query failure never tears the
    /// provider down — and emits no stats.  A successful query reconciles
    /// the cache to exactly the reported pids (a pid absent from this
    /// query is evicted), reuses every already cached identity unchanged,
    /// stores the freshly resolved ones, and emits the snapshot and one
    /// record per reported process entry, duplicates preserved.
    pub fn tick(&mut self, status: String, control: String, outcome: QueryOutcome) -> (env:
        GpuUpdate)
        requires
            old(self).wf(),
            (outcome is NotQueried) <==> !(spec_is_active(status@) && old(
                self,
            ).telemetry_held()),
            outcome matches QueryOutcome::QueryOk(raw, resolved) ==> resolved@.map_values(
                |x: ResolvedIdentity| x.pid,
            ) == missing_pids(old(self).cache_dom(), pids_of(raw.processes@)),
        ensures
            final(self).wf(),
            env.pci_status == status,
            env.pci_control == control,
            !spec_is_active(status@) ==> env.gpu_stats is None && env.processes@.len() == 0
                && !final(self).telemetry_held() && final(self).cache_dom() == Set::<u32>::empty(),
            spec_is_active(status@) && !(outcome is QueryOk) ==> env.gpu_stats is None
                && env.processes@.len() == 0 && *final(self) == *old(self),
            outcome matches QueryOutcome::QueryOk(raw, resolved) ==> {
                &&& final(self).telemetry_held()
                &&& (env.gpu_stats matches Some(s) && stats_match(raw, s))
                &&& env.processes@.len() == raw.processes@.len()
                &&& forall|k: int|
                    0 <= k < raw.processes@.len() ==> record_matches(
                        env.processes@[k],
                        #[trigger] raw.processes@[k],
                        final(self).cached_identity(raw.processes@[k].pid),
                    )
                &&& forall|p: u32|
                    final(self).cache_dom().contains(p) <==> pids_of(
                        raw.processes@,
                    ).contains(p)
                &&& forall|p: u32|
                    old(self).cache_dom().contains(p) && pids_of(raw.processes@).contains(p)
                        ==> final(self).cached_identity(p) == old(self).cached_identity(p)
                &&& forall|j: int|
                    0 <= j < resolved@.len() ==> final(self).cached_identity(
                        (#[trigger] resolved@[j]).pid,
                    ) == resolved@[j].identity
            },
    {
        let active = is_active_status(&status);
        let mut gpu_stats: Option<GpuStats> = None;
        let mut processes: Vec<FullProcessInfo> = Vec::new();
        if active {
            match outcome {
                QueryOutcome::QueryOk(raw, resolved) => {
                    let (stats, recs) = self.apply_query(raw, resolved);
                    gpu_stats = Some(stats);
                    processes = recs;
                },
                _ => {},
            }
        } else {
            self.telemetry_held = false;
            self.cache.clear();
        }
        GpuUpdate { pci_status: status, pci_control: control, gpu_stats, processes }
    }
}

} // verus!
