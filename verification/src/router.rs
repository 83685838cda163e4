//! Multi-region routing policy: which replicas serve a read, which one
//! takes a write, and what health data the decisions rest on. The HTTP
//! traffic itself happens outside the library.

use vstd::prelude::*;

verus! {

/// How reads pick among healthy regions.
pub enum RoutingStrategy {
    LowestLatency,
    GeoHash,
    RoundRobin,
    Sticky,
}

/// One region's observed health.
pub struct HealthStatus {
    /// Last observed probe latency, in milliseconds.
    pub latency_ms: u64,
    /// When the region was last seen, in milliseconds since the Unix epoch.
    pub last_seen_ms: u64,
    /// Whether the last probe succeeded.
    pub healthy: bool,
}

impl Default for HealthStatus {
    /// A fresh region is presumed healthy with a sentinel latency.
    fn default() -> (r: HealthStatus)
        ensures
            r.latency_ms == 9999,
            r.last_seen_ms == 0,
            r.healthy,
    {
        HealthStatus { latency_ms: 9999, last_seen_ms: 0, healthy: true }
    }
}

/// A remote cache entry as reported over the wire.
pub struct RemoteCacheEntry {
    pub key: String,
    pub size: u64,
}

/// The regions a read consults: every healthy one, in configured order.
pub fn select_read_order(healthy: &Vec<bool>) -> (r: Vec<usize>)
    ensures
        forall|k: int| 0 <= k < r@.len() ==> (#[trigger] r@[k]) < healthy@.len(),
        forall|k: int| 0 <= k < r@.len() ==> healthy@[r@[k] as int],
        forall|i: int| 0 <= i < healthy@.len() && healthy@[i] ==> r@.contains(i as usize),
        forall|k1: int, k2: int| 0 <= k1 < k2 < r@.len() ==> r@[k1] < r@[k2],
{
    let mut out: Vec<usize> = Vec::new();
    let mut i: usize = 0;
    while i < healthy.len()
        invariant
            i <= healthy@.len(),
            forall|k: int| 0 <= k < out@.len() ==> (#[trigger] out@[k]) < i,
            forall|k: int| 0 <= k < out@.len() ==> healthy@[out@[k] as int],
            forall|j: int| 0 <= j < i && healthy@[j] ==> out@.contains(j as usize),
            forall|k1: int, k2: int| 0 <= k1 < k2 < out@.len() ==> out@[k1] < out@[k2],
        decreases healthy@.len() - i,
    {
        let ghost old_out = out@;
        if healthy[i] {
            out.push(i);
            proof {
                assert forall|j: int| 0 <= j < i + 1 && healthy@[j] implies out@.contains(
                    j as usize,
                ) by {
                    if j < i {
                        let m = choose|m: int| 0 <= m < old_out.len() && old_out[m] == j as usize;
                        assert(out@[m] == j as usize);
                    } else {
                        assert(out@.last() == i as usize);
                    }
                }
            }
        }
        i = i + 1;
    }
    out
}

/// The region a write lands on first: the first healthy one, or the first
/// region when none is healthy.
pub fn select_primary(healthy: &Vec<bool>) -> (r: usize)
    requires
        healthy@.len() > 0,
    ensures
        r < healthy@.len(),
        healthy@[r as int] || forall|i: int| 0 <= i < healthy@.len() ==> !healthy@[i],
        forall|i: int| 0 <= i < r ==> !healthy@[i],
{
    let mut i: usize = 0;
    while i < healthy.len()
        invariant
            i <= healthy@.len(),
            healthy@.len() > 0,
            forall|j: int| 0 <= j < i ==> !healthy@[j],
        decreases healthy@.len() - i,
    {
        if healthy[i] {
            return i;
        }
        i = i + 1;
    }
    0
}

/// The regions a write fans out to after the primary: every other region.
pub fn select_replicas(count: usize, primary: usize) -> (r: Vec<usize>)
    ensures
        forall|k: int| 0 <= k < r@.len() ==> (#[trigger] r@[k]) < count,
        forall|k: int| 0 <= k < r@.len() ==> r@[k] != primary,
        forall|i: int| 0 <= i < count && i != primary ==> r@.contains(#[trigger] (i as usize)),
{
    let mut out: Vec<usize> = Vec::new();
    let mut i: usize = 0;
    while i < count
        invariant
            i <= count,
            forall|k: int| 0 <= k < out@.len() ==> (#[trigger] out@[k]) < i,
            forall|k: int| 0 <= k < out@.len() ==> out@[k] != primary,
            forall|j: int| 0 <= j < i && j != primary ==> out@.contains(#[trigger] (j as usize)),
        decreases count - i,
    {
        let ghost old_out = out@;
        if i != primary {
            out.push(i);
            proof {
                assert forall|j: int| 0 <= j < i + 1 && j != primary implies out@.contains(
                    #[trigger] (j as usize),
                ) by {
                    if j < i {
                        let m = choose|m: int| 0 <= m < old_out.len() && old_out[m] == j as usize;
                        assert(out@[m] == j as usize);
                    } else {
                        assert(out@.last() == i as usize);
                    }
                }
            }
        }
        i = i + 1;
    }
    out
}

} // verus!
