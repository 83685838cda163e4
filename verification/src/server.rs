//! The records of the remote cache server's data contract: cache entries
//! with usage bookkeeping, analytics rows, layer statistics, and the bodies
//! of the garbage-collection and layer-registration requests. The HTTP
//! server and its metadata persistence live outside the library; a write's
//! CAS verification is `crate::storage::cas_check`.

use vstd::prelude::*;

verus! {

/// A server-side cache entry: where the blob lives and how it is used.
pub struct CacheEntry {
    pub hash: String,
    pub artifact_path: String,
    pub size: u64,
    pub created_at: String,
    pub last_used: String,
    pub hit_count: u32,
}

/// One recorded build: how many nodes were dirty, how many were served
/// from the cache, and how long the build took.
pub struct BuildRecord {
    pub id: i32,
    pub timestamp: String,
    pub dirty_nodes: u32,
    pub cached_nodes: u32,
    pub duration_ms: u64,
}

/// Aggregate layer statistics: how much of the stored bytes deduplication
/// shares between artifacts.
pub struct LayerStats {
    pub total_layers: u32,
    pub total_size: u64,
    pub deduplicated_size: u64,
}

/// The garbage-collection request: delete entries older than this many
/// days, then purge unreferenced layers.
pub struct GcQuery {
    pub days: u32,
}

/// A build summary as posted to the analytics endpoint.
pub struct AnalyticsData {
    pub dirty: u32,
    pub cached: u32,
    pub duration_ms: u64,
}

/// The body registering a node's ordered chunk list.
pub struct RegisterLayersRequest {
    pub layers: Vec<String>,
    pub total_size: u64,
}

/// Which cache entries a garbage-collection pass removes: exactly those
/// whose last use lies more than `days` days before `now` (both in seconds
/// since the Unix epoch).
pub open spec fn expired(last_used_secs: int, now_secs: int, days: int) -> bool {
    last_used_secs + days * 86400 < now_secs
}

/// Decide which entries a garbage-collection pass removes, given each
/// entry's last-use time in seconds since the Unix epoch.
pub fn gc_select(last_used_secs: &Vec<i64>, now_secs: i64, days: u32) -> (r: Vec<usize>)
    ensures
        forall|k: int| 0 <= k < r@.len() ==> (#[trigger] r@[k]) < last_used_secs@.len(),
        forall|k: int|
            0 <= k < r@.len() ==> expired(
                last_used_secs@[r@[k] as int] as int,
                now_secs as int,
                days as int,
            ),
        forall|i: int|
            0 <= i < last_used_secs@.len() && expired(
                #[trigger] last_used_secs@[i] as int,
                now_secs as int,
                days as int,
            ) ==> r@.contains(i as usize),
{
    let mut out: Vec<usize> = Vec::new();
    let mut i: usize = 0;
    while i < last_used_secs.len()
        invariant
            i <= last_used_secs@.len(),
            forall|k: int| 0 <= k < out@.len() ==> (#[trigger] out@[k]) < i,
            forall|k: int|
                0 <= k < out@.len() ==> expired(
                    last_used_secs@[out@[k] as int] as int,
                    now_secs as int,
                    days as int,
                ),
            forall|j: int|
                0 <= j < i && expired(
                    #[trigger] last_used_secs@[j] as int,
                    now_secs as int,
                    days as int,
                ) ==> out@.contains(j as usize),
        decreases last_used_secs@.len() - i,
    {
        let ghost old_out = out@;
        let cutoff = days as i64 * 86400;
        if last_used_secs[i] < i64::MAX - cutoff && last_used_secs[i] + cutoff < now_secs {
            out.push(i);
            proof {
                assert forall|j: int|
                    0 <= j < i + 1 && expired(
                        #[trigger] last_used_secs@[j] as int,
                        now_secs as int,
                        days as int,
                    ) implies out@.contains(j as usize) by {
                    if j < i {
                        let m = choose|m: int| 0 <= m < old_out.len() && old_out[m] == j as usize;
                        assert(out@[m] == j as usize);
                    } else {
                        assert(out@.last() == i as usize);
                    }
                }
            }
        } else {
            proof {
                assert(!expired(last_used_secs@[i as int] as int, now_secs as int, days as int));
            }
        }
        i = i + 1;
    }
    out
}

} // verus!
