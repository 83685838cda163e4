//! Build events and observers: what the executor reports while a build
//! runs, and the metrics and trace records built from those reports.

use vstd::prelude::*;
use crate::encode::dec_of;

verus! {

/// The lifecycle state of one node as the dashboard sees it.
pub enum BuildStatus {
    Queued,
    Building,
    Completed,
    Cached,
    Failed(String),
}

/// One node's event record.
pub struct NodeEvent {
    pub node_id: usize,
    pub name: String,
    pub status: BuildStatus,
    pub duration_ms: Option<u64>,
}

/// The events a build emits, in per-node order Started then
/// Completed-or-Failed.
pub enum BuildEvent {
    BuildStarted { total_nodes: usize },
    NodeStarted { node_id: usize, name: String },
    NodeCompleted { node_id: usize, name: String, duration_ms: u64, cache_hit: bool },
    NodeFailed { node_id: usize, name: String, error: String },
    BuildCompleted { total_duration_ms: u64, cache_hits: usize, executed_nodes: usize },
}

/// A sink for build events. Observers outlive a single build; the executor
/// only borrows them.
pub trait BuildObserver {
    fn on_event(&self, event: &BuildEvent);
}

/// The observer that discards every event.
pub struct NoopObserver;

impl BuildObserver for NoopObserver {
    fn on_event(&self, _event: &BuildEvent) {
    }
}

/// Counters aggregated over builds.
pub struct BuildMetrics {
    pub total_builds: u64,
    pub successful_builds: u64,
    pub failed_builds: u64,
    pub cache_hits: u64,
    pub cache_misses: u64,
    pub total_duration_ms: u64,
    pub total_artifacts_bytes: u64,
}

impl BuildMetrics {
    /// Fresh metrics: every counter at zero.
    pub fn new() -> (r: BuildMetrics)
        ensures
            r.total_builds == 0,
            r.successful_builds == 0,
            r.failed_builds == 0,
            r.cache_hits == 0,
            r.cache_misses == 0,
            r.total_duration_ms == 0,
            r.total_artifacts_bytes == 0,
    {
        BuildMetrics {
            total_builds: 0,
            successful_builds: 0,
            failed_builds: 0,
            cache_hits: 0,
            cache_misses: 0,
            total_duration_ms: 0,
            total_artifacts_bytes: 0,
        }
    }
}

/// Events for distributed tracing.
pub enum TraceEvent {
    BuildStarted { dockerfile: String },
    NodeExecuting { node_id: usize, node_name: String },
    NodeCached { node_id: usize },
    CacheHit { hash: String, duration_ms: u64 },
    CacheMiss { hash: String },
    RemoteSync { direction: String, bytes: u64 },
    LayerBuilt { hash: String, size_bytes: u64 },
    Error { component: String, message: String },
}

/// The first eight characters of a digest, or all of it when shorter: the
/// short form used in status lines.
pub open spec fn short_hash(h: Seq<char>) -> Seq<char> {
    if h.len() > 8 {
        h.take(8)
    } else {
        h
    }
}

fn short_of(h: &str) -> (r: String)
    ensures
        r@ == short_hash(h@),
{
    let n = h.unicode_len();
    if n > 8 {
        let piece = h.substring_char(0, 8);
        proof {
            assert(h@.subrange(0, 8) =~= h@.take(8));
        }
        piece.to_owned()
    } else {
        h.to_owned()
    }
}

/// The rendered form of each trace event.
pub open spec fn trace_message_spec(e: TraceEvent) -> Seq<char> {
    match e {
        TraceEvent::BuildStarted { dockerfile } => "Build started: "@ + dockerfile@,
        TraceEvent::NodeExecuting { node_id, node_name } => {
            "Executing node "@ + dec_of(node_id as int) + " ("@ + node_name@ + ")"@
        },
        TraceEvent::NodeCached { node_id } => "Using cached node "@ + dec_of(node_id as int),
        TraceEvent::CacheHit { hash, duration_ms } => {
            "Cache hit for "@ + short_hash(hash@) + " ("@ + dec_of(duration_ms as int) + "ms)"@
        },
        TraceEvent::CacheMiss { hash } => "Cache miss for "@ + short_hash(hash@),
        TraceEvent::RemoteSync { direction, bytes } => {
            "Remote sync "@ + dec_of(bytes as int) + " bytes "@ + direction@
        },
        TraceEvent::LayerBuilt { hash, size_bytes } => {
            "Layer built "@ + short_hash(hash@) + " ("@ + dec_of(size_bytes as int) + " bytes)"@
        },
        TraceEvent::Error { component, message } => {
            "Error in "@ + component@ + ": "@ + message@
        },
    }
}

impl TraceEvent {
    /// Render the trace event as a single line of text.
    pub fn message(&self) -> (r: String)
        ensures
            r@ == trace_message_spec(*self),
    {
        match self {
            TraceEvent::BuildStarted { dockerfile } => {
                let mut s = String::from_str("Build started: ");
                s.append(dockerfile.as_str());
                s
            },
            TraceEvent::NodeExecuting { node_id, node_name } => {
                let mut s = String::from_str("Executing node ");
                let d = crate::encode::dec_u64(*node_id as u64);
                s.append(d.as_str());
                s.append(" (");
                s.append(node_name.as_str());
                s.append(")");
                s
            },
            TraceEvent::NodeCached { node_id } => {
                let mut s = String::from_str("Using cached node ");
                let d = crate::encode::dec_u64(*node_id as u64);
                s.append(d.as_str());
                s
            },
            TraceEvent::CacheHit { hash, duration_ms } => {
                let mut s = String::from_str("Cache hit for ");
                let sh = short_of(hash.as_str());
                s.append(sh.as_str());
                s.append(" (");
                let d = crate::encode::dec_u64(*duration_ms);
                s.append(d.as_str());
                s.append("ms)");
                s
            },
            TraceEvent::CacheMiss { hash } => {
                let mut s = String::from_str("Cache miss for ");
                let sh = short_of(hash.as_str());
                s.append(sh.as_str());
                s
            },
            TraceEvent::RemoteSync { direction, bytes } => {
                let mut s = String::from_str("Remote sync ");
                let d = crate::encode::dec_u64(*bytes);
                s.append(d.as_str());
                s.append(" bytes ");
                s.append(direction.as_str());
                s
            },
            TraceEvent::LayerBuilt { hash, size_bytes } => {
                let mut s = String::from_str("Layer built ");
                let sh = short_of(hash.as_str());
                s.append(sh.as_str());
                s.append(" (");
                let d = crate::encode::dec_u64(*size_bytes);
                s.append(d.as_str());
                s.append(" bytes)");
                s
            },
            TraceEvent::Error { component, message } => {
                let mut s = String::from_str("Error in ");
                s.append(component.as_str());
                s.append(": ");
                s.append(message.as_str());
                s
            },
        }
    }
}

} // verus!
