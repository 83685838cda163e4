//! Build optimization heuristics: prioritise promising Run nodes and attach
//! a predicted execution time to every node.

use vstd::prelude::*;
use vstd::string::StringSliceAdditionalSpecFns;
use crate::graph::{BuildGraph, NodeKind};
use crate::strutil::contains_seq;
use crate::fingerprint::EnvFingerprint;

verus! {

/// The predicted duration of a command, in milliseconds: dependency
/// installs and compiles take a minute, tests half of that, everything
/// else a few seconds.
pub open spec fn predicted_ms(content: Seq<char>) -> u64 {
    if contains_seq(content, "npm install"@) || contains_seq(content, "cargo build"@) {
        60000
    } else if contains_seq(content, "test"@) {
        30000
    } else {
        5000
    }
}

/// Is a Run node promoted: does its command look like a build or test step?
pub open spec fn promoted(n: crate::graph::Node) -> bool {
    n.kind is Run && (contains_seq(n.content@, "test"@) || contains_seq(n.content@, "build"@))
}

/// The heuristic optimizer over a build graph.
pub struct BuildOptimizer;

impl BuildOptimizer {
    pub fn new() -> (r: BuildOptimizer) {
        BuildOptimizer
    }

    /// Predict how long a command will take, in milliseconds.
    pub fn predict_execution_time(&self, content: &str) -> (r: u64)
        ensures
            r == predicted_ms(content@),
    {
        if crate::strutil::contains_sub(content, "npm install") || crate::strutil::contains_sub(
            content,
            "cargo build",
        ) {
            60000
        } else if crate::strutil::contains_sub(content, "test") {
            30000
        } else {
            5000
        }
    }

    /// Promote Run nodes whose command looks like a build or test step to
    /// high priority and parallel execution, and record a predicted
    /// duration on every node. Nothing else about the graph changes.
    pub fn optimize_graph(&self, graph: &mut BuildGraph, _env_fp: &EnvFingerprint)
        ensures
            final(graph).nodes@.len() == old(graph).nodes@.len(),
            forall|i: int|
                0 <= i < old(graph).nodes@.len() ==> {
                    let prev = old(graph).nodes@[i];
                    let cur = #[trigger] final(graph).nodes@[i];
                    &&& cur.id == prev.id
                    &&& cur.name == prev.name
                    &&& cur.content == prev.content
                    &&& cur.kind == prev.kind
                    &&& cur.deps == prev.deps
                    &&& cur.hash == prev.hash
                    &&& cur.dirty == prev.dirty
                    &&& cur.source_path == prev.source_path
                    &&& cur.env == prev.env
                    &&& cur.cache_hit == prev.cache_hit
                    &&& cur.metadata.tags == prev.metadata.tags
                    &&& cur.metadata.last_executed == prev.metadata.last_executed
                    &&& cur.metadata.source_content_hash == prev.metadata.source_content_hash
                    &&& cur.metadata.input_manifest_hash == prev.metadata.input_manifest_hash
                    &&& cur.metadata.output_manifest_hash == prev.metadata.output_manifest_hash
                    &&& cur.metadata.extra_source_paths == prev.metadata.extra_source_paths
                    &&& cur.metadata.priority == (if promoted(prev) {
                        10u8
                    } else {
                        prev.metadata.priority
                    })
                    &&& cur.metadata.parallelizable == (promoted(prev)
                        || prev.metadata.parallelizable)
                    &&& cur.metadata.execution_time_ms matches Some(t) && t == predicted_ms(
                        prev.content@,
                    )
                },
    {
        let n = graph.nodes.len();
        let mut i: usize = 0;
        while i < n
            invariant
                n == old(graph).nodes@.len(),
                n == graph.nodes@.len(),
                i <= n,
                forall|k: int| i <= k < n ==> graph.nodes@[k] == old(graph).nodes@[k],
                forall|k: int|
                    0 <= k < i ==> {
                        let prev = old(graph).nodes@[k];
                        let cur = #[trigger] graph.nodes@[k];
                        &&& cur.id == prev.id
                        &&& cur.name == prev.name
                        &&& cur.content == prev.content
                        &&& cur.kind == prev.kind
                        &&& cur.deps == prev.deps
                        &&& cur.hash == prev.hash
                        &&& cur.dirty == prev.dirty
                        &&& cur.source_path == prev.source_path
                        &&& cur.env == prev.env
                        &&& cur.cache_hit == prev.cache_hit
                        &&& cur.metadata.tags == prev.metadata.tags
                        &&& cur.metadata.last_executed == prev.metadata.last_executed
                        &&& cur.metadata.source_content_hash == prev.metadata.source_content_hash
                        &&& cur.metadata.input_manifest_hash == prev.metadata.input_manifest_hash
                        &&& cur.metadata.output_manifest_hash
                            == prev.metadata.output_manifest_hash
                        &&& cur.metadata.extra_source_paths == prev.metadata.extra_source_paths
                        &&& cur.metadata.priority == (if promoted(prev) {
                            10u8
                        } else {
                            prev.metadata.priority
                        })
                        &&& cur.metadata.parallelizable == (promoted(prev)
                            || prev.metadata.parallelizable)
                        &&& cur.metadata.execution_time_ms matches Some(t) && t == predicted_ms(
                            prev.content@,
                        )
                    },
            decreases n - i,
        {
            let is_run = match &graph.nodes[i].kind {
                NodeKind::Run => true,
                _ => false,
            };
            let looks_heavy = crate::strutil::contains_sub(graph.nodes[i].content.as_str(), "test")
                || crate::strutil::contains_sub(graph.nodes[i].content.as_str(), "build");
            let predicted = self.predict_execution_time(graph.nodes[i].content.as_str());
            let node = &mut graph.nodes[i];
            if is_run && looks_heavy {
                node.metadata.priority = 10;
                node.metadata.parallelizable = true;
            }
            node.metadata.execution_time_ms = Some(predicted);
            i = i + 1;
        }
    }
}

} // verus!
