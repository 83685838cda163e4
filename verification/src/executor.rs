//! The incremental executor's decision core: cache-first evaluation of the
//! graph, level by level, with partition of each level into parallel and
//! sequential halves. Sandbox processes and remote dispatch run outside the
//! library; what they are asked to do is decided here.

use vstd::prelude::*;
use vstd::string::StringSliceAdditionalSpecFns;
use crate::graph::{BuildGraph, Node};
use crate::storage::CacheIndex;

verus! {

/// What one build run did.
pub struct ExecutionStats {
    pub total_nodes: usize,
    pub executed_nodes: usize,
    pub cache_hits: usize,
    pub cache_misses: usize,
    pub parallel_levels: usize,
    pub total_execution_time_ms: u64,
}

impl Default for ExecutionStats {
    /// All counts zero.
    fn default() -> (r: ExecutionStats)
        ensures
            r.total_nodes == 0,
            r.executed_nodes == 0,
            r.cache_hits == 0,
            r.cache_misses == 0,
            r.parallel_levels == 0,
            r.total_execution_time_ms == 0,
    {
        ExecutionStats {
            total_nodes: 0,
            executed_nodes: 0,
            cache_hits: 0,
            cache_misses: 0,
            parallel_levels: 0,
            total_execution_time_ms: 0,
        }
    }
}

/// How a node is evaluated once the cache has been consulted.
pub enum NodeAction {
    /// The artifact was in the cache; nothing runs.
    UseCached,
    /// Dry-run mode: skip execution, store nothing.
    SkipDryRun,
    /// Dispatch the command to the remote executor.
    DispatchRemote,
    /// Run the command in the local sandbox.
    RunSandbox,
    /// Not runnable: emit an empty artifact.
    EmitEmpty,
}

/// The evaluation decision: cache first; then dry-run; then remote dispatch
/// for runnable nodes when a remote executor is configured; then the local
/// sandbox for runnable nodes; metadata-only nodes just emit an empty
/// artifact.
pub open spec fn plan_node_spec(n: Node, cached: bool, dry_run: bool, has_remote: bool)
    -> NodeAction {
    if cached {
        NodeAction::UseCached
    } else if dry_run {
        NodeAction::SkipDryRun
    } else if n.kind.runnable() && has_remote {
        NodeAction::DispatchRemote
    } else if n.kind.runnable() {
        NodeAction::RunSandbox
    } else {
        NodeAction::EmitEmpty
    }
}

/// Decide how a node is evaluated.
pub fn plan_node(n: &Node, cached: bool, dry_run: bool, has_remote: bool) -> (r: NodeAction)
    ensures
        r == plan_node_spec(*n, cached, dry_run, has_remote),
{
    if cached {
        NodeAction::UseCached
    } else if dry_run {
        NodeAction::SkipDryRun
    } else if n.kind.is_runnable() && has_remote {
        NodeAction::DispatchRemote
    } else if n.kind.is_runnable() {
        NodeAction::RunSandbox
    } else {
        NodeAction::EmitEmpty
    }
}

/// Partition a level into its parallelizable and sequential nodes, keeping
/// the within-level order of each half.
pub fn partition_level(graph: &BuildGraph, level: &Vec<usize>) -> (r: (Vec<usize>, Vec<usize>))
    requires
        forall|k: int| 0 <= k < level@.len() ==> (#[trigger] level@[k]) < graph.nodes@.len(),
    ensures
        r.0@ == level@.filter(
            |id: usize| graph.nodes@[id as int].metadata.parallelizable,
        ),
        r.1@ == level@.filter(
            |id: usize| !graph.nodes@[id as int].metadata.parallelizable,
        ),
{
    let mut par: Vec<usize> = Vec::new();
    let mut seq_nodes: Vec<usize> = Vec::new();
    let mut i: usize = 0;
    proof {
        reveal(Seq::filter);
        assert(level@.take(0) =~= Seq::<usize>::empty());
        assert(par@ =~= level@.take(0).filter(
            |id: usize| graph.nodes@[id as int].metadata.parallelizable,
        ));
        assert(seq_nodes@ =~= level@.take(0).filter(
            |id: usize| !graph.nodes@[id as int].metadata.parallelizable,
        ));
    }
    while i < level.len()
        invariant
            i <= level@.len(),
            forall|k: int| 0 <= k < level@.len() ==> (#[trigger] level@[k]) < graph.nodes@.len(),
            par@ == level@.take(i as int).filter(
                |id: usize| graph.nodes@[id as int].metadata.parallelizable,
            ),
            seq_nodes@ == level@.take(i as int).filter(
                |id: usize| !graph.nodes@[id as int].metadata.parallelizable,
            ),
        decreases level@.len() - i,
    {
        let id = level[i];
        proof {
            assert(level@.take(i as int + 1).drop_last() =~= level@.take(i as int));
            assert(level@.take(i as int + 1).last() == level@[i as int]);
            reveal(Seq::filter);
        }
        if graph.nodes[id].metadata.parallelizable {
            par.push(id);
        } else {
            seq_nodes.push(id);
        }
        i = i + 1;
    }
    proof {
        assert(level@.take(level@.len() as int) =~= level@);
    }
    (par, seq_nodes)
}

/// How many of the first `i` nodes' keys the index holds.
pub open spec fn hit_count(g: BuildGraph, index: CacheIndex, i: int) -> nat
    decreases i,
{
    if i <= 0 || i > g.nodes@.len() {
        0
    } else {
        hit_count(g, index, i - 1) + (if index.keys().contains(g.nodes@[i - 1].hash@) {
            1nat
        } else {
            0nat
        })
    }
}

/// The cache-first core of a build run: visit every node in ordinal order
/// (a topological order) and serve each one whose key the cache index
/// holds; the rest are counted as executed — the caller performs the
/// planned sandbox or remote work for each miss. Each node's `cache_hit`
/// mark records the outcome, and a hit clears its dirty flag.
pub fn evaluate_cached(graph: &mut BuildGraph, index: &CacheIndex) -> (r: ExecutionStats)
    requires
        old(graph).wf(),
    ensures
        final(graph).nodes@.len() == old(graph).nodes@.len(),
        final(graph).wf(),
        r.total_nodes == old(graph).nodes@.len(),
        r.cache_hits == hit_count(*old(graph), *index, old(graph).nodes@.len() as int),
        r.cache_misses == r.total_nodes - r.cache_hits,
        r.executed_nodes == r.cache_misses,
        r.total_execution_time_ms == 0,
        old(graph).nodes@.len() == 0 ==> r.parallel_levels == 0,
        old(graph).nodes@.len() > 0 ==> r.parallel_levels == 1 + crate::graph::max_of(
            Seq::new(
                old(graph).nodes@.len(),
                |i: int| crate::graph::node_level(*old(graph), i),
            ),
        ),
        forall|i: int|
            0 <= i < old(graph).nodes@.len() ==> {
                let prev = old(graph).nodes@[i];
                let cur = #[trigger] final(graph).nodes@[i];
                let hit = index.keys().contains(prev.hash@);
                &&& cur.id == prev.id
                &&& cur.name == prev.name
                &&& cur.content == prev.content
                &&& cur.kind == prev.kind
                &&& cur.deps == prev.deps
                &&& cur.source_path == prev.source_path
                &&& cur.env == prev.env
                &&& cur.metadata == prev.metadata
                &&& cur.hash == prev.hash
                &&& cur.cache_hit == hit
                &&& cur.dirty == (prev.dirty && !hit)
            },
{
    let levels = graph.levels();
    let parallel_levels = levels.len();
    let n = graph.nodes.len();
    let mut hits: usize = 0;
    let mut i: usize = 0;
    while i < n
        invariant
            old(graph).wf(),
            n == old(graph).nodes@.len(),
            n == graph.nodes@.len(),
            i <= n,
            hits == hit_count(*old(graph), *index, i as int),
            hits <= i,
            forall|k: int| i <= k < n ==> graph.nodes@[k] == old(graph).nodes@[k],
            forall|k: int|
                0 <= k < i ==> {
                    let prev = old(graph).nodes@[k];
                    let cur = #[trigger] graph.nodes@[k];
                    let hit = index.keys().contains(prev.hash@);
                    &&& cur.id == prev.id
                    &&& cur.name == prev.name
                    &&& cur.content == prev.content
                    &&& cur.kind == prev.kind
                    &&& cur.deps == prev.deps
                    &&& cur.source_path == prev.source_path
                    &&& cur.env == prev.env
                    &&& cur.metadata == prev.metadata
                    &&& cur.hash == prev.hash
                    &&& cur.cache_hit == hit
                    &&& cur.dirty == (prev.dirty && !hit)
                },
        decreases n - i,
    {
        let hit = index.contains_key(graph.nodes[i].hash.as_str());
        let node = &mut graph.nodes[i];
        node.cache_hit = hit;
        if hit {
            node.dirty = false;
            hits = hits + 1;
        }
        i = i + 1;
    }
    ExecutionStats {
        total_nodes: n,
        executed_nodes: n - hits,
        cache_hits: hits,
        cache_misses: n - hits,
        parallel_levels,
        total_execution_time_ms: 0,
    }
}

/// A clean rebuild is fully cached, stated for the whole graph: when the
/// cache index holds every node's key (as it does after an unchanged
/// rebuild, whose keys are the same pure functions of the same inputs),
/// the hit count over all nodes equals the node count — by
/// `evaluate_cached`'s contract, every node is reported a hit and none
/// executes.
pub proof fn lemma_clean_rebuild_fully_cached(g: BuildGraph, index: CacheIndex)
    requires
        forall|k: int|
            0 <= k < g.nodes@.len() ==> index.keys().contains((#[trigger] g.nodes@[k]).hash@),
    ensures
        hit_count(g, index, g.nodes@.len() as int) == g.nodes@.len(),
{
    lemma_full_cache_all_hits(g, index, g.nodes@.len() as int);
}

/// A prefix of a fully cached graph scores a hit for every node in it.
pub proof fn lemma_full_cache_all_hits(g: BuildGraph, index: CacheIndex, i: int)
    requires
        0 <= i <= g.nodes@.len(),
        forall|k: int|
            0 <= k < g.nodes@.len() ==> index.keys().contains((#[trigger] g.nodes@[k]).hash@),
    ensures
        hit_count(g, index, i) == i,
    decreases i,
{
    if i > 0 {
        lemma_full_cache_all_hits(g, index, i - 1);
    }
}

} // verus!
