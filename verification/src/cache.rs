//! Memoized process identities with poll-driven eviction.
//!
//! Resolving a pid's display metadata costs two filesystem reads, so the
//! worker memoizes each resolved identity for as long as the pid stays
//! continuously reported.  The cache is keyed by pid, holds each pid at
//! most once, and shrinks in exactly two ways: per-pid eviction when a
//! reconcile pass no longer reports the pid, and a full wipe when the
//! telemetry provider is torn down.

use vstd::prelude::*;

verus! {

/// Cached display metadata for one pid.
pub struct ProcessIdentity {
    pub name: String,
    pub cmdline: String,
}

impl Clone for ProcessIdentity {
    fn clone(&self) -> (r: Self)
        ensures
            r == *self,
    {
        let r = ProcessIdentity { name: self.name.clone(), cmdline: self.cmdline.clone() };
        proof {
            assert(r == *self);
        }
        r
    }
}

struct CacheEntry {
    pid: u32,
    identity: ProcessIdentity,
}

/// Maps each continuously reported pid to its resolved identity.
pub struct IdentityCache {
    entries: Vec<CacheEntry>,
}

impl IdentityCache {
    /// Each pid appears at most once.
    pub closed spec fn wf(self) -> bool {
        forall|i: int, j: int|
            0 <= i < j < self.entries@.len() ==> (#[trigger] self.entries@[i]).pid != (
            #[trigger] self.entries@[j]).pid
    }

    /// The set of cached pids.
    pub closed spec fn dom(self) -> Set<u32> {
        Set::new(
            |p: u32|
                exists|i: int|
                    0 <= i < self.entries@.len() && (#[trigger] self.entries@[i]).pid == p,
        )
    }

    /// The identity cached for `p`; meaningful only when `dom()` holds `p`.
    pub closed spec fn at(self, p: u32) -> ProcessIdentity {
        let i = choose|i: int|
            0 <= i < self.entries@.len() && (#[trigger] self.entries@[i]).pid == p;
        self.entries@[i].identity
    }

    proof fn lemma_at_entry(self, i: int)
        requires
            self.wf(),
            0 <= i < self.entries@.len(),
        ensures
            self.dom().contains(self.entries@[i].pid),
            self.at(self.entries@[i].pid) == self.entries@[i].identity,
    {
        let p = self.entries@[i].pid;
        assert(self.dom().contains(p));
        let j = choose|j: int|
            0 <= j < self.entries@.len() && (#[trigger] self.entries@[j]).pid == p;
        assert(j == i);
    }

    /// An empty cache.
    pub fn new() -> (r: IdentityCache)
        ensures
            r.wf(),
            r.dom() == Set::<u32>::empty(),
    {
        let r = IdentityCache { entries: Vec::new() };
        proof {
            assert(r.dom() =~= Set::<u32>::empty());
        }
        r
    }

    /// Whether nothing is cached.
    pub fn is_empty(&self) -> (r: bool)
        ensures
            r == (self.dom() == Set::<u32>::empty()),
    {
        let r = self.entries.len() == 0;
        proof {
            if self.entries@.len() == 0 {
                assert(self.dom() =~= Set::<u32>::empty());
            } else {
                assert(self.dom().contains(self.entries@[0].pid));
            }
        }
        r
    }

    /// The cached identity for `pid`, or nothing when `pid` is not cached.
    pub fn lookup(&self, pid: u32) -> (r: Option<&ProcessIdentity>)
        requires
            self.wf(),
        ensures
            r is Some <==> self.dom().contains(pid),
            r matches Some(id) ==> *id == self.at(pid),
    {
        let n = self.entries.len();
        let mut i: usize = 0;
        while i < n
            invariant
                0 <= i <= n,
                n == self.entries@.len(),
                self.wf(),
                forall|j: int| 0 <= j < i ==> (#[trigger] self.entries@[j]).pid != pid,
            decreases n - i,
        {
            if self.entries[i].pid == pid {
                proof {
                    self.lemma_at_entry(i as int);
                }
                return Some(&self.entries[i].identity);
            }
            i = i + 1;
        }
        proof {
            assert(!self.dom().contains(pid));
        }
        None
    }

    /// Caches `identity` for a pid not yet cached; every other cached
    /// identity is untouched.
    pub fn insert(&mut self, pid: u32, identity: ProcessIdentity)
        requires
            old(self).wf(),
            !old(self).dom().contains(pid),
        ensures
            final(self).wf(),
            final(self).dom() == old(self).dom().insert(pid),
            final(self).at(pid) == identity,
            forall|q: u32|
                old(self).dom().contains(q) ==> #[trigger] final(self).at(q) == old(self).at(q),
    {
        let ghost olds = self.entries@;
        let ghost prev = *self;
        self.entries.push(CacheEntry { pid, identity });
        proof {
            let news = self.entries@;
            assert(forall|i: int| 0 <= i < olds.len() ==> (#[trigger] olds[i]).pid != pid) by {
                assert forall|i: int| 0 <= i < olds.len() implies (#[trigger] olds[i]).pid
                    != pid by {
                    if olds[i].pid == pid {
                        assert(prev.dom().contains(pid));
                    }
                }
            }
            assert(self.wf());
            assert(self.dom() =~= prev.dom().insert(pid)) by {
                assert forall|p: u32| self.dom().contains(p) implies prev.dom().insert(
                    pid,
                ).contains(p) by {
                    let i = choose|i: int| 0 <= i < news.len() && (#[trigger] news[i]).pid == p;
                    if i < olds.len() {
                        assert(prev.dom().contains(p));
                    }
                }
                assert forall|p: u32| prev.dom().insert(pid).contains(p) implies self.dom()
                    .contains(p) by {
                    if p == pid {
                        assert(news[olds.len() as int].pid == p);
                    } else {
                        let i = choose|i: int|
                            0 <= i < olds.len() && (#[trigger] olds[i]).pid == p;
                        assert(news[i].pid == p);
                    }
                }
            }
            self.lemma_at_entry(olds.len() as int);
            assert forall|q: u32| prev.dom().contains(q) implies self.at(q) == prev.at(
                q,
            ) by {
                let i = choose|i: int| 0 <= i < olds.len() && (#[trigger] olds[i]).pid == q;
                prev.lemma_at_entry(i);
                self.lemma_at_entry(i);
            }
        }
    }

    /// Reconcile pass: drops every cached entry whose pid is not in
    /// `keep`; kept identities are untouched.
    #[verifier::rlimit(60)]
    pub fn retain_pids(&mut self, keep: &Vec<u32>)
        requires
            old(self).wf(),
        ensures
            final(self).wf(),
            forall|p: u32|
                #[trigger] final(self).dom().contains(p) <==> (old(self).dom().contains(p)
                    && keep@.contains(p)),
            forall|p: u32|
                final(self).dom().contains(p) ==> #[trigger] final(self).at(p) == old(self).at(p),
    {
        let ghost prev = *self;
        let ghost olds = self.entries@;
        let n = self.entries.len();
        let mut kept: Vec<CacheEntry> = Vec::new();
        // Ghost bookkeeping: `src[k]` is the source index of `kept[k]`, and
        // `dst[j]` is where source entry `j` went (or -1 when dropped).
        let ghost mut src: Seq<int> = Seq::empty();
        let ghost mut dst: Seq<int> = Seq::empty();
        let mut i: usize = 0;
        while i < n
            invariant
                0 <= i <= n,
                n == olds.len(),
                self.entries@ == olds,
                prev.entries@ == olds,
                prev.wf(),
                src.len() == kept@.len(),
                dst.len() == i,
                forall|k: int|
                    0 <= k < src.len() ==> 0 <= #[trigger] src[k] < i && kept@[k] == olds[src[k]]
                        && keep@.contains(olds[src[k]].pid),
                forall|k1: int, k2: int|
                    0 <= k1 < k2 < src.len() ==> #[trigger] src[k1] < #[trigger] src[k2],
                forall|j: int|
                    0 <= j < i && keep@.contains((#[trigger] olds[j]).pid) ==> 0 <= dst[j]
                        < kept@.len() && kept@[dst[j]] == olds[j],
            decreases n - i,
        {
            let entry = &self.entries[i];
            if contains_pid(keep, entry.pid) {
                let copied = CacheEntry { pid: entry.pid, identity: entry.identity.clone() };
                proof {
                    assert(copied == olds[i as int]);
                    dst = dst.push(src.len() as int);
                    src = src.push(i as int);
                }
                kept.push(copied);
            } else {
                proof {
                    dst = dst.push(-1);
                }
            }
            i = i + 1;
        }
        self.entries = kept;
        proof {
            let news = self.entries@;
            assert forall|a: int, b: int|
                0 <= a < b < news.len() implies (#[trigger] news[a]).pid != (
            #[trigger] news[b]).pid by {
                assert(news[a] == olds[src[a]] && news[b] == olds[src[b]]);
                assert(src[a] < src[b]);
            }
            assert(self.wf());
            assert forall|p: u32| self.dom().contains(p) implies (prev.dom().contains(p)
                && keep@.contains(p)) by {
                let k = choose|k: int| 0 <= k < news.len() && (#[trigger] news[k]).pid == p;
                assert(news[k] == olds[src[k]]);
                prev.lemma_at_entry(src[k]);
            }
            assert forall|p: u32| (prev.dom().contains(p) && keep@.contains(p)) implies self.dom()
                .contains(p) by {
                let j = choose|j: int| 0 <= j < olds.len() && (#[trigger] olds[j]).pid == p;
                assert(news[dst[j]].pid == p);
            }
            assert forall|p: u32| self.dom().contains(p) implies self.at(p) == prev.at(p) by {
                let k = choose|k: int| 0 <= k < news.len() && (#[trigger] news[k]).pid == p;
                assert(news[k] == olds[src[k]]);
                self.lemma_at_entry(k);
                prev.lemma_at_entry(src[k]);
            }
        }
    }

    /// Wipes every entry; used when the telemetry provider is torn down.
    pub fn clear(&mut self)
        ensures
            final(self).wf(),
            final(self).dom() == Set::<u32>::empty(),
    {
        self.entries = Vec::new();
        proof {
            assert(self.dom() =~= Set::<u32>::empty());
        }
    }
}

/// Whether `v` holds `x`.
pub fn contains_pid(v: &Vec<u32>, x: u32) -> (r: bool)
    ensures
        r == v@.contains(x),
{
    let n = v.len();
    let mut i: usize = 0;
    while i < n
        invariant
            0 <= i <= n,
            n == v@.len(),
            forall|j: int| 0 <= j < i ==> v@[j] != x,
        decreases n - i,
    {
        if v[i] == x {
            return true;
        }
        i = i + 1;
    }
    false
}

} // verus!
