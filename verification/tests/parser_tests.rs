use memobuild::dag::build_graph_from_instructions;
use memobuild::graph::NodeKind;
use memobuild::parser::{parse_dockerfile, parse_docker_extensions, Instruction};

#[test]
fn test_dockerfile_parsing_simple() {
    let dockerfile = r#"
FROM alpine:latest
RUN echo "hello"
COPY . /app
RUN cd /app && ls
"#;
    let instructions = parse_dockerfile(dockerfile);
    assert_eq!(instructions.len(), 4);
}

#[test]
fn test_dag_building_from_dockerfile() {
    let dockerfile = r#"
FROM node:16
WORKDIR /app
COPY package.json .
RUN npm install
COPY . .
RUN npm run build
"#;
    let instructions = parse_dockerfile(dockerfile);
    let dag = build_graph_from_instructions(instructions, ".".to_string());
    assert_eq!(dag.nodes.len(), 6);
}

#[test]
fn test_multi_stage_build_structure() {
    let dockerfile = r#"
FROM node:16 AS builder
WORKDIR /app
COPY . .
RUN npm run build

FROM nginx:alpine
COPY --from=builder /app/dist /usr/share/nginx/html
"#;
    let instructions = parse_dockerfile(dockerfile);
    assert!(instructions.len() >= 2);
}

#[test]
fn test_run_command_dependency_chain() {
    let dockerfile = r#"
FROM alpine
RUN apk add --no-cache python3
RUN python3 --version
"#;
    let instructions = parse_dockerfile(dockerfile);
    let dag = build_graph_from_instructions(instructions, ".".to_string());
    for i in 1..dag.nodes.len() {
        if !dag.nodes[i].deps.is_empty() {
            assert!(dag.nodes[i].deps[0] < i);
        }
    }
}

#[test]
fn test_dag_linking() {
    let dockerfile_content = r#"
FROM node:16-alpine
COPY package.json .
RUN npm install
COPY . .
RUN npm run build
"#;
    let instructions = parse_dockerfile(dockerfile_content);
    let graph = build_graph_from_instructions(instructions, ".".to_string());
    assert_eq!(graph.nodes.len(), 5, "Should have 5 nodes");

    let copy_package_idx = graph
        .nodes
        .iter()
        .position(|n| matches!(&n.kind, NodeKind::Copy { src, .. } if src == "package.json"))
        .expect("Should find COPY package.json node");
    let run_npm_idx = graph
        .nodes
        .iter()
        .position(|n| matches!(&n.kind, NodeKind::Run) && n.content.contains("npm install"))
        .expect("Should find RUN npm install node");
    assert!(
        graph.nodes[run_npm_idx].deps.contains(&copy_package_idx),
        "RUN npm install should depend on COPY package.json"
    );
}

#[test]
fn test_parallel_levels() {
    let dockerfile_content = r#"
FROM node:16-alpine
ENV NODE_ENV=production
WORKDIR /app
COPY package.json .
COPY package-lock.json .
RUN npm install --only=production
"#;
    let instructions = parse_dockerfile(dockerfile_content);
    let graph = build_graph_from_instructions(instructions, ".".to_string());
    let levels = graph.levels();
    assert!(levels.len() > 1, "Should have multiple execution levels");
    assert_eq!(levels[0].len(), 1, "Level 0 should have 1 node (FROM)");

    let env_idx = graph
        .nodes
        .iter()
        .position(|n| matches!(&n.kind, NodeKind::Env))
        .expect("Should find ENV node");
    let workdir_idx = graph
        .nodes
        .iter()
        .position(|n| matches!(&n.kind, NodeKind::Workdir))
        .expect("Should find WORKDIR node");
    assert!(graph.nodes[env_idx].metadata.parallelizable, "ENV node should be parallelizable");
    assert!(
        graph.nodes[workdir_idx].metadata.parallelizable,
        "WORKDIR node should be parallelizable"
    );

    let copy_package_idx = graph
        .nodes
        .iter()
        .position(|n| matches!(&n.kind, NodeKind::Copy { src, .. } if src == "package.json"))
        .expect("Should find COPY package.json node");
    let copy_lock_idx = graph
        .nodes
        .iter()
        .position(|n| matches!(&n.kind, NodeKind::Copy { src, .. } if src == "package-lock.json"))
        .expect("Should find COPY package-lock.json node");
    assert!(graph.nodes[copy_package_idx].metadata.parallelizable);
    assert!(graph.nodes[copy_lock_idx].metadata.parallelizable);
}

#[test]
fn test_content_addressed_identities() {
    let dockerfile_content = r#"
FROM node:16-alpine
COPY package.json .
RUN npm install
"#;
    let instructions = parse_dockerfile(dockerfile_content);
    let graph = build_graph_from_instructions(instructions, ".".to_string());

    let dep_hashes: Vec<String> = vec![];
    let from_key1 = graph.nodes[0].compute_node_key(&dep_hashes, None, None);
    let from_key2 = graph.nodes[0].compute_node_key(&dep_hashes, None, None);
    assert_eq!(from_key1, from_key2, "Same node should produce same key");

    let copy_key = graph.nodes[1].compute_node_key(std::slice::from_ref(&from_key1), None, None);
    assert_ne!(from_key1, copy_key, "Different nodes should produce different keys");

    let copy_key_with_context =
        graph.nodes[1].compute_node_key(&[from_key1], Some("different_context"), None);
    assert_ne!(copy_key, copy_key_with_context, "Key should change with different context");
}

#[test]
fn test_parse_env_forms() {
    let instructions = parse_dockerfile("ENV KEY=VALUE\nENV NAME some value");
    assert_eq!(instructions.len(), 2);
    assert!(matches!(&instructions[0], Instruction::Env(k, v) if k == "KEY" && v == "VALUE"));
    assert!(matches!(&instructions[1], Instruction::Env(k, v) if k == "NAME" && v == "some value"));
}

#[test]
fn test_parse_comments_and_blanks_skipped() {
    let instructions = parse_dockerfile("# a comment\n\n   \nFROM alpine\n");
    assert_eq!(instructions.len(), 1);
    assert!(matches!(&instructions[0], Instruction::From(img) if img == "alpine"));
}

#[test]
fn test_parse_case_insensitive_keywords() {
    let instructions = parse_dockerfile("from alpine\nrUn echo hi");
    assert_eq!(instructions.len(), 2);
    assert!(matches!(&instructions[0], Instruction::From(img) if img == "alpine"));
    assert!(matches!(&instructions[1], Instruction::Run(cmd) if cmd == "echo hi"));
}

#[test]
fn test_parse_git_default_target() {
    let instructions = parse_dockerfile("GIT https://example.test/repo.git");
    assert_eq!(instructions.len(), 1);
    assert!(
        matches!(&instructions[0], Instruction::Git(url, target)
            if url == "https://example.test/repo.git" && target == ".")
    );
}

#[test]
fn test_parse_unknown_keyword_becomes_other() {
    let instructions = parse_dockerfile("LABEL maintainer=a@example.test");
    assert_eq!(instructions.len(), 1);
    assert!(
        matches!(&instructions[0], Instruction::Other(line)
            if line == "LABEL maintainer=a@example.test")
    );
}

#[test]
fn test_parse_docker_extensions_kinds() {
    let lines = vec![
        "RUN_EXTEND make -j4".to_string(),
        "COPY_EXTEND src dst tag1 tag2".to_string(),
        "HOOK lint strict".to_string(),
        "FROM alpine".to_string(),
    ];
    let kinds = parse_docker_extensions(&lines);
    assert_eq!(kinds.len(), 3);
    assert!(
        matches!(&kinds[0], NodeKind::RunExtend { command, parallelizable }
            if command == "make -j4" && *parallelizable)
    );
    assert!(
        matches!(&kinds[1], NodeKind::CopyExtend { src, dst, tags }
            if src == "src" && dst == "dst" && tags == &vec!["tag1".to_string(), "tag2".to_string()])
    );
    assert!(
        matches!(&kinds[2], NodeKind::CustomHook { hook_name, params }
            if hook_name == "lint" && params == &vec!["strict".to_string()])
    );
}

#[test]
fn test_run_nodes_with_destructive_verbs_sequential() {
    let instructions = parse_dockerfile("FROM alpine\nRUN rm -rf /tmp/x\nRUN echo ok");
    let graph = build_graph_from_instructions(instructions, ".".to_string());
    assert!(!graph.nodes[1].metadata.parallelizable);
    assert!(graph.nodes[2].metadata.parallelizable);
}
