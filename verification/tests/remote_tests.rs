use memobuild::export::{create_config, status_hash, LayerInfo, OciExporter};
use memobuild::remote::{action_to_node, select_worker_index, ActionRequest, Digest,
    SchedulingStrategy};
use memobuild::reproducible::normalize_artifact;
use memobuild::router::{select_primary, select_read_order, select_replicas, HealthStatus};
use memobuild::sandbox::{plan_command, CommandPlan, LocalSandbox};

fn action(hash: &str) -> ActionRequest {
    ActionRequest {
        command: vec!["/bin/sh".to_string(), "-c".to_string(), "echo hi".to_string()],
        env: vec![("K".to_string(), "V".to_string())],
        input_root_digest: Digest { hash: hash.to_string(), size_bytes: 0 },
        timeout_ms: 600_000,
        platform_properties: Vec::new(),
        output_files: Vec::new(),
        output_directories: Vec::new(),
    }
}

fn locality_pick(hash: &str, workers: usize) -> usize {
    let mut counter = 0usize;
    select_worker_index(&SchedulingStrategy::DataLocality, workers, &mut counter, 0, hash)
        .expect("workers available")
}

#[test]
fn test_data_locality_routing_stable() {
    // five dispatches with hashes A B C A B: 1 and 4 land together, 2 and 5
    // land together
    let picks: Vec<usize> = ["A", "B", "C", "A", "B"]
        .iter()
        .map(|h| locality_pick(h, 3))
        .collect();
    assert_eq!(picks[0], picks[3]);
    assert_eq!(picks[1], picks[4]);
    for &p in &picks {
        assert!(p < 3);
    }
}

#[test]
fn test_round_robin_walks_counter() {
    let mut counter = 0usize;
    let a = select_worker_index(&SchedulingStrategy::RoundRobin, 3, &mut counter, 0, "").unwrap();
    let b = select_worker_index(&SchedulingStrategy::RoundRobin, 3, &mut counter, 0, "").unwrap();
    let c = select_worker_index(&SchedulingStrategy::RoundRobin, 3, &mut counter, 0, "").unwrap();
    let d = select_worker_index(&SchedulingStrategy::RoundRobin, 3, &mut counter, 0, "").unwrap();
    assert_eq!((a, b, c, d), (0, 1, 2, 0));
}

#[test]
fn test_empty_worker_set_refused() {
    let mut counter = 0usize;
    let r = select_worker_index(&SchedulingStrategy::RoundRobin, 0, &mut counter, 0, "");
    let err = r.expect_err("no workers must be an error");
    assert!(err.message().contains("No available workers"));
}

#[test]
fn test_random_takes_draw() {
    let mut counter = 0usize;
    let r = select_worker_index(&SchedulingStrategy::Random, 4, &mut counter, 2, "").unwrap();
    assert_eq!(r, 2);
    assert_eq!(counter, 0);
}

#[test]
fn test_action_to_node_shape() {
    let a = action("abcdef1234567890");
    let node = action_to_node(&a);
    assert_eq!(node.name, "remote-action-abcdef12");
    assert_eq!(node.content, "/bin/sh -c echo hi");
    assert_eq!(node.hash, "abcdef1234567890");
    assert!(node.dirty);
    assert!(node.deps.is_empty());
    assert_eq!(node.env, vec![("K".to_string(), "V".to_string())]);
    assert!(matches!(node.kind, memobuild::graph::NodeKind::Run));
}

#[test]
fn test_router_selections() {
    let healthy = vec![false, true, true, false];
    assert_eq!(select_read_order(&healthy), vec![1, 2]);
    assert_eq!(select_primary(&healthy), 1);
    assert_eq!(select_replicas(4, 1), vec![0, 2, 3]);
    let none_healthy = vec![false, false];
    assert_eq!(select_primary(&none_healthy), 0);
    let fresh = HealthStatus::default();
    assert!(fresh.healthy);
    assert_eq!(fresh.latency_ms, 9999);
}

#[test]
fn test_sandbox_command_plans() {
    let graph = memobuild::dag::build_graph_from_instructions(
        memobuild::parser::parse_dockerfile(
            "FROM alpine\nRUN echo hi\nCOPY_EXTEND src dst\nHOOK lint strict",
        ),
        ".".to_string(),
    );
    assert!(matches!(plan_command(&graph.nodes[0]), CommandPlan::Synthetic(s) if s.starts_with("Artifact for ")));
    assert!(matches!(plan_command(&graph.nodes[1]), CommandPlan::Shell(c) if c == "echo hi"));
    assert!(
        matches!(plan_command(&graph.nodes[2]), CommandPlan::CopyPath { src, dst } if src == "src" && dst == "dst")
    );
    assert!(matches!(plan_command(&graph.nodes[3]), CommandPlan::Shell(c) if c == "lint strict"));

    let sandbox = LocalSandbox::new("/workspace".to_string());
    let env = sandbox.prepare_env(&graph.nodes[1]);
    assert_eq!(env.workspace_dir, "/workspace");
    assert!(env.env_vars.is_empty());
}

#[test]
fn test_reproducible_config_is_stable() {
    let graph = memobuild::dag::build_graph_from_instructions(
        memobuild::parser::parse_dockerfile("FROM scratch\nENV FOO=bar\nWORKDIR /app"),
        ".".to_string(),
    );
    let layers = vec![LayerInfo {
        digest: "sha256:aa".to_string(),
        size: 10,
        diff_id: "sha256:bb".to_string(),
    }];
    let c1 = create_config(&graph, &layers, true);
    let c2 = create_config(&graph, &layers, true);
    assert_eq!(c1.history.len(), 3);
    for (h1, h2) in c1.history.iter().zip(c2.history.iter()) {
        assert_eq!(h1.created, "1970-01-01T00:00:00Z");
        assert_eq!(h1.created, h2.created);
        assert_eq!(h1.created_by, h2.created_by);
    }
    assert_eq!(c1.config.env, vec!["FOO=bar".to_string()]);
    assert_eq!(c1.rootfs.diff_ids, vec!["sha256:bb".to_string()]);
    assert_eq!(c1.architecture, "amd64");
}

#[test]
fn test_exporter_accumulates_layers() {
    let mut exporter = OciExporter::new("out".to_string());
    assert!(exporter.layers.is_empty());
    exporter
        .add_layer(LayerInfo {
            digest: "sha256:aa".to_string(),
            size: 1,
            diff_id: "sha256:bb".to_string(),
        })
        .unwrap();
    assert_eq!(exporter.layers.len(), 1);
    assert_eq!(exporter.output_dir, "out");
}

#[test]
fn test_status_hash_short_form() {
    assert_eq!(status_hash("sha256:0123456789abcdef"), "01234567");
    assert_eq!(status_hash("short"), "short");
}

#[test]
fn test_gc_selects_expired_entries() {
    // entries older than the threshold go; younger ones stay
    let day = 86400i64;
    let now = 100 * day;
    let last_used = vec![now - 10 * day, now - day, now - 8 * day];
    let selected = memobuild::server::gc_select(&last_used, now, 7);
    assert_eq!(selected, vec![0, 2]);
}

#[test]
fn test_build_metrics_start_at_zero() {
    let m = memobuild::events::BuildMetrics::new();
    assert_eq!(m.total_builds, 0);
    assert_eq!(m.cache_hits, 0);
    assert_eq!(m.cache_misses, 0);
}

#[test]
fn test_normalize_artifact_passthrough() {
    let data = b"artifact bytes".to_vec();
    let out = normalize_artifact(data.clone()).unwrap();
    assert_eq!(out, data);
}
