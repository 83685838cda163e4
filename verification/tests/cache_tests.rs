use memobuild::chunks::{merge_artifact, missing_layers, split_artifact, CHUNK_SIZE};
use memobuild::digest::{blake3_hex, hash_str, hex_lower, sha256_string};
use memobuild::hasher::{hash_file_entries, IgnoreRules};
use memobuild::manifest::{ArtifactManifest, FileEntry};
use memobuild::storage::{cas_check, CacheEntry, CacheIndex, LocalStorage};

#[test]
fn test_hex_rendering_exact() {
    assert_eq!(hex_lower(&[]), "");
    assert_eq!(hex_lower(&[0x00, 0xff, 0x1a]), "00ff1a");
}

#[test]
fn test_blake3_known_vector() {
    // BLAKE3 of the empty input
    assert_eq!(
        blake3_hex(&[]),
        "af1349b9f5f9a1a6a0404dea36dcc9499bcb25c9adc112b7cc9a93cae41f3262"
    );
    assert_eq!(hash_str(""), blake3_hex(&[]));
}

#[test]
fn test_sha256_known_vector() {
    assert_eq!(
        sha256_string(""),
        "e3b0c44298fc1c149afbf4c8996fb92427ae41e4649b934ca495991b7852b855"
    );
}

#[test]
fn test_split_merge_roundtrip() {
    let data: Vec<u8> = (0u32..3_000_000).map(|i| (i % 251) as u8).collect();
    let layers = split_artifact(&data);
    assert_eq!(layers.len(), 3);
    assert_eq!(layers[0].data.len(), CHUNK_SIZE);
    assert_eq!(layers[1].data.len(), CHUNK_SIZE);
    assert_eq!(layers[2].data.len(), 3_000_000 - 2 * CHUNK_SIZE);
    for layer in &layers {
        assert_eq!(layer.hash, blake3_hex(&layer.data));
    }
    let merged = merge_artifact(layers.into_iter().map(|l| l.data).collect());
    assert_eq!(merged, data);
}

#[test]
fn test_split_exactly_one_chunk() {
    let data = vec![7u8; CHUNK_SIZE];
    let layers = split_artifact(&data);
    assert_eq!(layers.len(), 1);
    assert_eq!(layers[0].data, data);
    assert_eq!(layers[0].hash, blake3_hex(&data));
}

#[test]
fn test_split_empty_artifact() {
    let layers = split_artifact(&[]);
    assert!(layers.is_empty());
    let merged = merge_artifact(Vec::new());
    assert!(merged.is_empty());
}

#[test]
fn test_missing_layers_dedup() {
    // only absent layers are uploaded; shared chunks are sent once
    let present = vec![true, false, true, false];
    let to_upload = missing_layers(&present);
    assert_eq!(to_upload, vec![1, 3]);
}

#[test]
fn test_shared_chunk_deduplicates() {
    // two artifacts sharing their first chunk name the same layer hash in
    // position 0, so the chunk is stored once
    let mut a = vec![1u8; CHUNK_SIZE];
    a.extend_from_slice(b"tail of a");
    let mut b = vec![1u8; CHUNK_SIZE];
    b.extend_from_slice(b"another tail");
    let la = split_artifact(&a);
    let lb = split_artifact(&b);
    assert_eq!(la[0].hash, lb[0].hash);
    assert_ne!(la[1].hash, lb[1].hash);
}

#[test]
fn test_cas_accepts_matching_write() {
    let body = b"hello".to_vec();
    let key = blake3_hex(&body);
    assert!(cas_check(&key, &body).is_ok());
}

#[test]
fn test_cas_rejects_bad_write() {
    let zeros = "0000000000000000000000000000000000000000000000000000000000000000";
    let result = cas_check(zeros, b"hello");
    let err = result.expect_err("a mismatched write must be rejected");
    let msg = err.message();
    assert!(msg.contains("CAS integrity failure"));
    assert!(msg.contains(zeros));
}

#[test]
fn test_cache_index_insert_and_lookup() {
    let mut index = CacheIndex::new();
    assert!(!index.contains_key("k1"));
    index.insert(CacheEntry {
        cache_key: "k1".to_string(),
        created_at: 10,
        artifact_path: "k1.bin".to_string(),
        size: 5,
    });
    assert!(index.contains_key("k1"));
    assert!(!index.contains_key("k2"));
    // replacing the entry under a key keeps a single entry
    index.insert(CacheEntry {
        cache_key: "k1".to_string(),
        created_at: 11,
        artifact_path: "k1.bin".to_string(),
        size: 6,
    });
    assert_eq!(index.entries.len(), 1);
}

#[test]
fn test_sharded_path_layout() {
    let storage = LocalStorage::new("/tmp/cache");
    let path = storage.get_sharded_path("abcdef123456");
    assert_eq!(path, "/tmp/cache/blobs/sha256/ab/cd/abcdef123456");
    assert!(path.contains("ab/cd/abcdef"));
    let short = storage.get_sharded_path("ab");
    assert_eq!(short, "/tmp/cache/blobs/sha256/ab");
}

#[test]
fn test_manifest_hash_order_independent() {
    let a = ArtifactManifest {
        files: vec![
            FileEntry { path: "a.txt".to_string(), hash: "h1".to_string(), size: 1 },
            FileEntry { path: "b.txt".to_string(), hash: "h2".to_string(), size: 2 },
        ],
    };
    let b = ArtifactManifest {
        files: vec![
            FileEntry { path: "b.txt".to_string(), hash: "h2".to_string(), size: 2 },
            FileEntry { path: "a.txt".to_string(), hash: "h1".to_string(), size: 1 },
        ],
    };
    assert_eq!(a.hash(), b.hash());
    let changed = ArtifactManifest {
        files: vec![
            FileEntry { path: "a.txt".to_string(), hash: "h1x".to_string(), size: 1 },
            FileEntry { path: "b.txt".to_string(), hash: "h2".to_string(), size: 2 },
        ],
    };
    assert_ne!(a.hash(), changed.hash());
}

#[test]
fn test_manifest_merge_right_wins() {
    let mut base = ArtifactManifest {
        files: vec![
            FileEntry { path: "a.txt".to_string(), hash: "old".to_string(), size: 1 },
            FileEntry { path: "b.txt".to_string(), hash: "keep".to_string(), size: 2 },
        ],
    };
    let other = ArtifactManifest {
        files: vec![
            FileEntry { path: "a.txt".to_string(), hash: "new".to_string(), size: 3 },
            FileEntry { path: "c.txt".to_string(), hash: "add".to_string(), size: 4 },
        ],
    };
    base.merge(&other);
    assert_eq!(base.files.len(), 3);
    assert_eq!(base.files[0].path, "a.txt");
    assert_eq!(base.files[0].hash, "new");
    assert_eq!(base.files[1].path, "b.txt");
    assert_eq!(base.files[1].hash, "keep");
    assert_eq!(base.files[2].path, "c.txt");
    assert_eq!(base.files[2].hash, "add");
}

#[test]
fn test_manifest_from_files_sorted() {
    let m = ArtifactManifest::from_files(&vec![
        ("z.txt".to_string(), b"zz".to_vec()),
        ("a.txt".to_string(), b"aa".to_vec()),
    ]);
    assert_eq!(m.files.len(), 2);
    assert_eq!(m.files[0].path, "a.txt");
    assert_eq!(m.files[0].hash, blake3_hex(b"aa"));
    assert_eq!(m.files[0].size, 2);
    assert_eq!(m.files[1].path, "z.txt");
}

#[test]
fn test_tree_hash_is_order_independent() {
    // the hasher must not rely on directory iteration order
    let walk1 = vec![
        ("src/main.rs".to_string(), b"fn main() {}".to_vec()),
        ("README.md".to_string(), b"docs".to_vec()),
    ];
    let walk2 = vec![
        ("README.md".to_string(), b"docs".to_vec()),
        ("src/main.rs".to_string(), b"fn main() {}".to_vec()),
    ];
    assert_eq!(hash_file_entries(&walk1), hash_file_entries(&walk2));
}

#[test]
fn test_tree_hash_detects_content_changes() {
    let v1 = vec![("x.txt".to_string(), b"v1".to_vec())];
    let v2 = vec![("x.txt".to_string(), b"v2".to_vec())];
    assert_ne!(hash_file_entries(&v1), hash_file_entries(&v2));
    // empty set and empty file differ
    let none: Vec<(String, Vec<u8>)> = Vec::new();
    let empty_file = vec![("x.txt".to_string(), Vec::new())];
    assert_ne!(hash_file_entries(&none), hash_file_entries(&empty_file));
}

#[test]
fn test_exact_match() {
    let rules = IgnoreRules::parse("node_modules\n.git");
    assert!(rules.is_ignored("node_modules"));
    assert!(rules.is_ignored(".git"));
    assert!(!rules.is_ignored("src"));
}

#[test]
fn test_wildcard() {
    let rules = IgnoreRules::parse("*.log");
    assert!(rules.is_ignored("build.log"));
    assert!(!rules.is_ignored("main.rs"));
}

#[test]
fn test_ignore_rules_basic() {
    let rules = IgnoreRules::parse("node_modules\n.git\n*.log");
    assert!(rules.is_ignored("node_modules"));
    assert!(rules.is_ignored(".git"));
    assert!(rules.is_ignored("build.log"));
    assert!(!rules.is_ignored("src"));
}

#[test]
fn test_ignore_rules_wildcard() {
    let rules = IgnoreRules::parse("*.tmp\ntest_*");
    assert!(rules.is_ignored("file.tmp"));
    assert!(rules.is_ignored("test_one"));
    assert!(rules.is_ignored("test_two.txt"));
    assert!(!rules.is_ignored("file.txt"));
}

#[test]
fn test_ignore_rules_empty() {
    let rules = IgnoreRules::parse("");
    assert!(!rules.is_ignored("anything"));
    assert!(!rules.is_ignored("node_modules"));
}

#[test]
fn test_ignore_rules_ancestor_match() {
    let rules = IgnoreRules::parse("node_modules");
    assert!(rules.is_ignored("node_modules/pkg/index.js"));
    assert!(!rules.is_ignored("src/node_modules_like.rs"));
}
