use memobuild::dag::build_graph_from_instructions;
use memobuild::digest::hash_str;
use memobuild::executor::{evaluate_cached, partition_level, plan_node, NodeAction};
use memobuild::fingerprint::EnvFingerprint;
use memobuild::manifest::ArtifactManifest;
use memobuild::parser::parse_dockerfile;
use memobuild::pipeline::{compute_composite_hashes, detect_changes, propagate_dirty,
    propagate_manifests};
use memobuild::storage::{CacheEntry, CacheIndex};

fn fingerprint() -> EnvFingerprint {
    EnvFingerprint::new(
        "linux".to_string(),
        "x86_64".to_string(),
        vec!["rustc 1.0".to_string()],
        vec![("PATH".to_string(), "/usr/bin".to_string())],
    )
}

fn build(script: &str) -> memobuild::graph::BuildGraph {
    build_graph_from_instructions(parse_dockerfile(script), ".".to_string())
}

#[test]
fn test_detect_changes_marks_new_nodes_dirty() {
    let mut graph = build("FROM alpine\nRUN echo hi");
    let external = vec![None, None];
    detect_changes(&mut graph, &external, &vec![None, None]);
    assert!(graph.nodes[0].dirty);
    assert!(graph.nodes[1].dirty);
    assert_eq!(graph.nodes[1].hash, hash_str("echo hi"));
}

#[test]
fn test_detect_changes_unchanged_hash_stays_clean() {
    let mut graph = build("FROM alpine\nRUN echo hi");
    let external = vec![None, None];
    detect_changes(&mut graph, &external, &vec![None, None]);
    // settle the dirty flags, then rehash with identical inputs
    for node in graph.nodes.iter_mut() {
        node.dirty = false;
    }
    detect_changes(&mut graph, &external, &vec![None, None]);
    assert!(graph.nodes.iter().all(|n| !n.dirty));
}

#[test]
fn test_source_change_invalidates_transitively() {
    // the Copy node's subtree hash changes; the Run that depends on it goes
    // dirty too, the base image does not
    let mut graph = build("FROM alpine\nCOPY app .\nRUN sh -c 'cat app/x'");
    detect_changes(&mut graph, &vec![None, Some("tree-v1".to_string()), None], &vec![None, None, None]);
    propagate_dirty(&mut graph);
    for node in graph.nodes.iter_mut() {
        node.dirty = false;
    }
    detect_changes(&mut graph, &vec![None, Some("tree-v2".to_string()), None], &vec![None, None, None]);
    propagate_dirty(&mut graph);
    assert!(!graph.nodes[0].dirty, "base image must stay clean");
    assert!(graph.nodes[1].dirty, "the Copy node must be dirty");
    assert!(graph.nodes[2].dirty, "the dependent Run must be dirty");
}

#[test]
fn test_composite_hashes_deterministic() {
    let fp = fingerprint();
    let mut g1 = build("FROM alpine\nCOPY app .\nRUN make");
    let mut g2 = build("FROM alpine\nCOPY app .\nRUN make");
    detect_changes(&mut g1, &vec![None, None, None], &vec![None, None, None]);
    detect_changes(&mut g2, &vec![None, None, None], &vec![None, None, None]);
    compute_composite_hashes(&mut g1, &fp);
    compute_composite_hashes(&mut g2, &fp);
    for (a, b) in g1.nodes.iter().zip(g2.nodes.iter()) {
        assert_eq!(a.hash, b.hash);
        assert_eq!(a.hash.len(), 64);
    }
}

#[test]
fn test_composite_hashes_depend_on_fingerprint() {
    let fp1 = fingerprint();
    let fp2 = EnvFingerprint::new(
        "linux".to_string(),
        "aarch64".to_string(),
        vec!["rustc 1.0".to_string()],
        vec![("PATH".to_string(), "/usr/bin".to_string())],
    );
    let mut g1 = build("FROM alpine\nRUN make");
    let mut g2 = build("FROM alpine\nRUN make");
    detect_changes(&mut g1, &vec![None, None], &vec![None, None]);
    detect_changes(&mut g2, &vec![None, None], &vec![None, None]);
    compute_composite_hashes(&mut g1, &fp1);
    compute_composite_hashes(&mut g2, &fp2);
    assert_ne!(g1.nodes[1].hash, g2.nodes[1].hash);
}

#[test]
fn test_fingerprint_hash_ignores_env_order() {
    let a = EnvFingerprint::new(
        "linux".to_string(),
        "x86_64".to_string(),
        vec![],
        vec![
            ("A".to_string(), "1".to_string()),
            ("B".to_string(), "2".to_string()),
        ],
    );
    let b = EnvFingerprint::new(
        "linux".to_string(),
        "x86_64".to_string(),
        vec![],
        vec![
            ("B".to_string(), "2".to_string()),
            ("A".to_string(), "1".to_string()),
        ],
    );
    assert_eq!(a.hash(), b.hash());
}

#[test]
fn test_clean_rebuild_is_fully_cached() {
    // build once, remember the keys, rebuild against a cache holding them
    let fp = fingerprint();
    let mut graph = build("FROM alpine\nRUN echo hi");
    detect_changes(&mut graph, &vec![None, None], &vec![None, None]);
    propagate_dirty(&mut graph);
    compute_composite_hashes(&mut graph, &fp);

    let mut index = CacheIndex::new();
    for node in &graph.nodes {
        index.insert(CacheEntry {
            cache_key: node.hash.clone(),
            created_at: 0,
            artifact_path: format!("{}.bin", node.hash),
            size: 0,
        });
    }

    let mut second = build("FROM alpine\nRUN echo hi");
    detect_changes(&mut second, &vec![None, None], &vec![None, None]);
    propagate_dirty(&mut second);
    compute_composite_hashes(&mut second, &fp);
    let stats = evaluate_cached(&mut second, &index);
    assert_eq!(stats.total_nodes, 2);
    assert_eq!(stats.cache_hits, stats.total_nodes);
    assert_eq!(stats.executed_nodes, 0);
    assert_eq!(stats.cache_misses, 0);
    assert!(second.nodes.iter().all(|n| n.cache_hit));
}

#[test]
fn test_empty_graph_executes_nothing() {
    let mut graph = memobuild::graph::BuildGraph::new();
    let index = CacheIndex::new();
    let stats = evaluate_cached(&mut graph, &index);
    assert_eq!(stats.total_nodes, 0);
    assert_eq!(stats.executed_nodes, 0);
    assert_eq!(stats.cache_hits, 0);
    assert_eq!(stats.cache_misses, 0);
    assert_eq!(stats.parallel_levels, 0);
}

#[test]
fn test_cold_cache_executes_everything() {
    let fp = fingerprint();
    let mut graph = build("FROM alpine\nRUN echo hi");
    detect_changes(&mut graph, &vec![None, None], &vec![None, None]);
    compute_composite_hashes(&mut graph, &fp);
    let index = CacheIndex::new();
    let stats = evaluate_cached(&mut graph, &index);
    assert_eq!(stats.cache_hits, 0);
    assert_eq!(stats.executed_nodes, 2);
}

#[test]
fn test_plan_node_order_of_decisions() {
    let graph = build("FROM alpine\nRUN echo hi");
    let run = &graph.nodes[1];
    let from = &graph.nodes[0];
    assert!(matches!(plan_node(run, true, false, true), NodeAction::UseCached));
    assert!(matches!(plan_node(run, false, true, true), NodeAction::SkipDryRun));
    assert!(matches!(plan_node(run, false, false, true), NodeAction::DispatchRemote));
    assert!(matches!(plan_node(run, false, false, false), NodeAction::RunSandbox));
    assert!(matches!(plan_node(from, false, false, true), NodeAction::EmitEmpty));
}

#[test]
fn test_partition_level_by_parallelizable() {
    let graph = build("FROM alpine\nRUN rm -rf x\nRUN echo ok");
    let level: Vec<usize> = vec![0, 1, 2];
    let (par, seq) = partition_level(&graph, &level);
    assert_eq!(par, vec![0, 2]);
    assert_eq!(seq, vec![1]);
}

#[test]
fn test_rehash_records_copy_subtree_manifest() {
    // change detection records the Copy node's subtree manifest digest as
    // its input-manifest digest, and a later manifest pass with no
    // parent files leaves it standing
    let mut graph = build("FROM alpine\nCOPY app .");
    let subtree = ArtifactManifest::from_files(&vec![("app/x".to_string(), b"v1".to_vec())]);
    let expected = subtree.hash();
    let external = vec![None, Some("tree-v1".to_string())];
    let manifests = vec![None, Some(subtree)];
    detect_changes(&mut graph, &external, &manifests);
    assert_eq!(graph.nodes[0].metadata.input_manifest_hash, None);
    assert_eq!(
        graph.nodes[1].metadata.input_manifest_hash,
        Some(expected.clone())
    );
    let copies = collect_copies(&manifests);
    propagate_manifests(&mut graph, &copies);
    assert_eq!(graph.nodes[1].metadata.input_manifest_hash, Some(expected));
}

fn collect_copies(
    manifests: &Vec<Option<ArtifactManifest>>,
) -> Vec<Option<ArtifactManifest>> {
    manifests
        .iter()
        .map(|m| {
            m.as_ref().map(|m| ArtifactManifest {
                files: m
                    .files
                    .iter()
                    .map(|f| memobuild::manifest::FileEntry {
                        path: f.path.clone(),
                        hash: f.hash.clone(),
                        size: f.size,
                    })
                    .collect(),
            })
        })
        .collect()
}

#[test]
fn test_propagate_manifests_records_digests() {
    let mut graph = build("FROM alpine\nCOPY app .\nRUN make");
    let copy_manifest = ArtifactManifest::from_files(&vec![
        ("app/x".to_string(), b"v1".to_vec()),
    ]);
    let copies = vec![None, Some(copy_manifest), None];
    let all = propagate_manifests(&mut graph, &copies);
    // one input and one output manifest pair per node
    assert_eq!(all.len(), 6);
    for (digest, manifest) in &all {
        assert_eq!(digest, &manifest.hash());
    }
    assert!(graph.nodes[1].metadata.output_manifest_hash.is_some());
    // the Run node inherits the Copy node's output as its input
    let run_input = graph.nodes[2].metadata.input_manifest_hash.clone().unwrap();
    let copy_output = graph.nodes[1].metadata.output_manifest_hash.clone().unwrap();
    assert_eq!(run_input, copy_output);
}

#[test]
fn test_optimizer_promotes_heavy_runs() {
    let fp = fingerprint();
    let mut graph = build("FROM alpine\nRUN cargo build --release\nRUN rm -rf target");
    let optimizer = memobuild::optimizer::BuildOptimizer::new();
    optimizer.optimize_graph(&mut graph, &fp);
    assert_eq!(graph.nodes[1].metadata.priority, 10);
    assert!(graph.nodes[1].metadata.parallelizable);
    assert_eq!(graph.nodes[1].metadata.execution_time_ms, Some(60000));
    assert_eq!(graph.nodes[2].metadata.priority, 0);
    assert_eq!(graph.nodes[2].metadata.execution_time_ms, Some(5000));
    assert_eq!(optimizer.predict_execution_time("npm install"), 60000);
    assert_eq!(optimizer.predict_execution_time("make test"), 30000);
    assert_eq!(optimizer.predict_execution_time("echo hi"), 5000);
}
