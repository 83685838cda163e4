use memobuild::graph::{BuildGraph, Node, NodeKind, NodeMetadata};

fn run_node(id: usize, name: &str, content: &str, deps: Vec<usize>, dirty: bool, hash: &str) -> Node {
    Node {
        id,
        name: name.to_string(),
        content: content.to_string(),
        kind: NodeKind::Run,
        hash: hash.to_string(),
        dirty,
        deps,
        source_path: None,
        env: Vec::new(),
        cache_hit: false,
        metadata: NodeMetadata::default(),
    }
}

fn create_mock_graph() -> BuildGraph {
    let mut graph = BuildGraph::new();
    graph.nodes = vec![
        Node {
            id: 0,
            name: "FROM nginx".to_string(),
            kind: NodeKind::From,
            content: "FROM nginx:latest".to_string(),
            hash: "from_hash".to_string(),
            deps: vec![],
            dirty: true,
            source_path: None,
            env: Vec::new(),
            cache_hit: false,
            metadata: NodeMetadata::default(),
        },
        Node {
            id: 1,
            name: "COPY app".to_string(),
            kind: NodeKind::Copy { src: "app".to_string(), dst: "/app".to_string() },
            content: "COPY app /app".to_string(),
            hash: "copy_hash".to_string(),
            deps: vec![0],
            dirty: true,
            source_path: None,
            env: Vec::new(),
            cache_hit: false,
            metadata: NodeMetadata::default(),
        },
        Node {
            id: 2,
            name: "RUN build".to_string(),
            kind: NodeKind::Run,
            content: "RUN npm run build".to_string(),
            hash: "run_hash".to_string(),
            deps: vec![1],
            dirty: true,
            source_path: None,
            env: Vec::new(),
            cache_hit: false,
            metadata: NodeMetadata::default(),
        },
    ];
    graph
}

#[test]
fn test_graph_structure_validation() {
    let graph = create_mock_graph();
    assert_eq!(graph.nodes.len(), 3);
    assert_eq!(graph.nodes[0].deps.len(), 0);
    assert_eq!(graph.nodes[1].deps, vec![0]);
    assert_eq!(graph.nodes[2].deps, vec![1]);
}

#[test]
fn test_dependency_ordering() {
    let graph = create_mock_graph();
    assert!(graph.nodes[0].deps.is_empty());
    assert_eq!(graph.nodes[1].deps, vec![0]);
    assert_eq!(graph.nodes[2].deps, vec![1]);
}

#[test]
fn test_dirty_propagation() {
    let mut graph = create_mock_graph();
    graph.nodes[0].dirty = true;
    graph.nodes[1].dirty = false;
    graph.nodes[2].dirty = false;
    assert!(graph.nodes[0].dirty);
    assert!(!graph.nodes[1].dirty);
    assert!(!graph.nodes[2].dirty);
}

#[test]
fn test_node_key_computation() {
    let graph = create_mock_graph();
    for node in &graph.nodes {
        assert!(!node.hash.is_empty());
        assert!(node.hash.len() > 0);
    }
}

#[test]
fn test_parallelizable_detection() {
    let graph = create_mock_graph();
    for node in &graph.nodes {
        let _ = &node.metadata;
    }
}

#[test]
fn test_dependency_resolution() {
    let graph = create_mock_graph();
    let node2_deps = &graph.nodes[2].deps;
    assert_eq!(node2_deps.len(), 1);
    assert_eq!(node2_deps[0], 1);
    let node1_deps = &graph.nodes[1].deps;
    assert_eq!(node1_deps.len(), 1);
    assert_eq!(node1_deps[0], 0);
}

#[test]
fn test_circular_dependency_detection() {
    let mut graph = create_mock_graph();
    graph.nodes[0].deps.push(2);
    assert!(graph.nodes[0].deps.contains(&2));
    // a graph with a forward edge is rejected by validation
    assert!(!graph.validate());
}

#[test]
fn test_cache_coherency_scenario() {
    let mut graph = create_mock_graph();
    graph.nodes[0].dirty = false;
    graph.nodes[0].cache_hit = true;
    graph.nodes[1].dirty = true;
    graph.nodes[2].dirty = true;
    assert!(!graph.nodes[0].dirty);
    assert!(graph.nodes[0].cache_hit);
    assert!(graph.nodes[1].dirty);
    assert!(graph.nodes[2].dirty);
}

#[test]
fn test_node_structure() {
    let graph = create_mock_graph();
    for node in &graph.nodes {
        assert!(node.id < graph.nodes.len());
        assert!(!node.name.is_empty());
        assert!(!node.hash.is_empty());
    }
}

#[test]
fn test_dirty_node_propagation() {
    let mut graph = BuildGraph::new();
    graph.nodes = vec![
        run_node(0, "A", "A", vec![], true, "a_hash"),
        run_node(1, "B", "B", vec![0], false, "b_hash"),
        run_node(2, "C", "C", vec![1], false, "c_hash"),
    ];
    assert!(graph.nodes[0].dirty);
    assert!(!graph.nodes[1].dirty);
    assert!(!graph.nodes[2].dirty);
    // after the cascade, the whole chain is dirty
    memobuild::pipeline::propagate_dirty(&mut graph);
    assert!(graph.nodes[0].dirty);
    assert!(graph.nodes[1].dirty);
    assert!(graph.nodes[2].dirty);
}

#[test]
fn test_node_metadata_structure() {
    let node = run_node(0, "test", "test", vec![], false, "test_hash");
    assert_eq!(node.metadata.priority, 0);
    assert!(node.metadata.tags.is_empty());
}

#[test]
fn test_dirty_flag_structure() {
    let node = run_node(0, "test", "test", vec![], true, "testhash");
    assert!(node.dirty, "Dirty flag should track rebuild necessity");
}

#[test]
fn test_node_key_generation() {
    let node = run_node(0, "consistent", "echo hello", vec![], false, "generated_key_hash");
    assert!(!node.hash.is_empty());
    assert_eq!(node.hash, "generated_key_hash");
}

#[test]
fn test_dependency_chain_validation() {
    let nodes = vec![
        run_node(0, "A", "A", vec![], true, "a"),
        run_node(1, "B", "B", vec![0], false, "b"),
        run_node(2, "C", "C", vec![1], false, "c"),
    ];
    for node in &nodes {
        for &dep in &node.deps {
            assert!(dep < node.id, "Dependency should reference earlier node");
            assert!(dep < nodes.len(), "Dependency should reference existing node");
        }
    }
}

#[test]
fn test_levels_chain_heights() {
    // a three-node chain has three levels, one node each
    let mut graph = BuildGraph::new();
    graph.nodes = vec![
        run_node(0, "A", "A", vec![], false, "a"),
        run_node(1, "B", "B", vec![0], false, "b"),
        run_node(2, "C", "C", vec![1], false, "c"),
    ];
    let levels = graph.levels();
    assert_eq!(levels, vec![vec![0], vec![1], vec![2]]);
}

#[test]
fn test_levels_empty_graph() {
    let graph = BuildGraph::new();
    assert!(graph.levels().is_empty());
    assert!(graph.topological_order().is_empty());
}

#[test]
fn test_topological_order_deps_first() {
    let mut graph = BuildGraph::new();
    graph.nodes = vec![
        run_node(0, "A", "A", vec![], false, "a"),
        run_node(1, "B", "B", vec![0], false, "b"),
        run_node(2, "C", "C", vec![0, 1], false, "c"),
    ];
    let order = graph.topological_order();
    assert_eq!(order, vec![0, 1, 2]);
    for (pos, &id) in order.iter().enumerate() {
        for &dep in &graph.nodes[id].deps {
            let dep_pos = order.iter().position(|&x| x == dep).unwrap();
            assert!(dep_pos < pos, "dependency must come before its dependent");
        }
    }
}

#[test]
fn test_compute_node_key_deterministic() {
    // the same node and inputs always give the same key; dependency order
    // does not matter
    let node = run_node(0, "RUN echo", "echo hi", vec![], false, "");
    let deps1 = vec!["k1".to_string(), "k2".to_string()];
    let deps2 = vec!["k2".to_string(), "k1".to_string()];
    let a = node.compute_node_key(&deps1, None, None);
    let b = node.compute_node_key(&deps1, None, None);
    let c = node.compute_node_key(&deps2, None, None);
    assert_eq!(a, b);
    assert_eq!(a, c);
    assert_eq!(a.len(), 64);
}

#[test]
fn test_compute_node_key_context_sensitive() {
    let node = run_node(0, "RUN echo", "echo hi", vec![], false, "");
    let without = node.compute_node_key(&[], None, None);
    let with = node.compute_node_key(&[], Some("ctx"), None);
    assert_ne!(without, with);
}
