//! The per-build pipeline over the graph: rehash inputs and mark dirty
//! nodes, cascade dirtiness along reverse dependencies, recompute composite
//! keys in topological order, and propagate artifact manifests.

use vstd::prelude::*;
use vstd::string::StringSliceAdditionalSpecFns;
use crate::graph::{BuildGraph, Node, NodeMetadata, node_key_spec, opt_string_view};
use crate::fingerprint::{EnvFingerprint, fingerprint_hash_spec};
use crate::manifest::{ArtifactManifest, EntryView, entry_views, canonical, dedup_last,
    manifest_hash_spec};
use crate::encode::utf8;
use crate::digest::blake3_hex_of;

verus! {

/// The fresh input hash of a node: an externally supplied digest (filesystem
/// subtree for Copy nodes, remote HEAD for Git nodes) or, failing that, the
/// digest of the instruction text itself.
pub open spec fn rehash_target(n: Node, ext: Option<String>) -> Seq<char> {
    match ext {
        Some(h) => h@,
        None => blake3_hex_of(utf8(n.content@)),
    }
}

/// The node's identity fields are the same: everything except the hash,
/// the dirty flag and the metadata.
pub open spec fn same_node_core(a: Node, b: Node) -> bool {
    &&& b.id == a.id
    &&& b.name == a.name
    &&& b.content == a.content
    &&& b.kind == a.kind
    &&& b.deps == a.deps
    &&& b.source_path == a.source_path
    &&& b.env == a.env
    &&& b.cache_hit == a.cache_hit
}

/// Everything except the hash and the dirty flag is the same.
pub open spec fn same_but_hash_dirty(a: Node, b: Node) -> bool {
    same_node_core(a, b) && b.metadata == a.metadata
}

/// The metadata is the same except for the input-manifest digest.
pub open spec fn same_metadata_but_input_manifest(a: NodeMetadata, b: NodeMetadata) -> bool {
    &&& b.last_executed == a.last_executed
    &&& b.execution_time_ms == a.execution_time_ms
    &&& b.parallelizable == a.parallelizable
    &&& b.priority == a.priority
    &&& b.tags == a.tags
    &&& b.source_content_hash == a.source_content_hash
    &&& b.output_manifest_hash == a.output_manifest_hash
    &&& b.extra_source_paths == a.extra_source_paths
}

/// Everything except the dirty flag is the same.
pub open spec fn same_but_dirty(a: Node, b: Node) -> bool {
    same_but_hash_dirty(a, b) && b.hash == a.hash
}

/// Detect changes: give each node its fresh input hash and mark it dirty if
/// the hash moved. `external_hashes[i]` carries the digest computed outside
/// for nodes whose input lives outside the instruction text (a Copy node's
/// source subtree, a Git node's remote HEAD); `None` falls back to hashing
/// the instruction text. For a Copy node, `subtree_manifests[i]` carries
/// the manifest of its source subtree, whose digest is recorded as the
/// node's input-manifest digest.
pub fn detect_changes(
    graph: &mut BuildGraph,
    external_hashes: &Vec<Option<String>>,
    subtree_manifests: &Vec<Option<ArtifactManifest>>,
)
    requires
        old(graph).nodes@.len() == external_hashes@.len(),
        old(graph).nodes@.len() == subtree_manifests@.len(),
    ensures
        final(graph).nodes@.len() == old(graph).nodes@.len(),
        forall|i: int|
            0 <= i < old(graph).nodes@.len() ==> {
                let prev = old(graph).nodes@[i];
                let cur = #[trigger] final(graph).nodes@[i];
                let nh = rehash_target(prev, external_hashes@[i]);
                &&& same_node_core(prev, cur)
                &&& same_metadata_but_input_manifest(prev.metadata, cur.metadata)
                &&& cur.hash@ == nh
                &&& cur.dirty == (prev.dirty || prev.hash@ != nh)
                &&& match subtree_manifests@[i] {
                    Some(m) => cur.metadata.input_manifest_hash matches Some(h) && h@
                        == manifest_hash_spec(m),
                    None => cur.metadata.input_manifest_hash
                        == prev.metadata.input_manifest_hash,
                }
            },
{
    let n = graph.nodes.len();
    let mut i: usize = 0;
    while i < n
        invariant
            n == old(graph).nodes@.len(),
            n == graph.nodes@.len(),
            n == external_hashes@.len(),
            n == subtree_manifests@.len(),
            i <= n,
            forall|k: int| i <= k < n ==> graph.nodes@[k] == old(graph).nodes@[k],
            forall|k: int|
                0 <= k < i ==> {
                    let prev = old(graph).nodes@[k];
                    let cur = #[trigger] graph.nodes@[k];
                    let nh = rehash_target(prev, external_hashes@[k]);
                    &&& same_node_core(prev, cur)
                    &&& same_metadata_but_input_manifest(prev.metadata, cur.metadata)
                    &&& cur.hash@ == nh
                    &&& cur.dirty == (prev.dirty || prev.hash@ != nh)
                    &&& match subtree_manifests@[k] {
                        Some(m) => cur.metadata.input_manifest_hash matches Some(h) && h@
                            == manifest_hash_spec(m),
                        None => cur.metadata.input_manifest_hash
                            == prev.metadata.input_manifest_hash,
                    }
                },
        decreases n - i,
    {
        let new_hash: String = match &external_hashes[i] {
            Some(h) => h.clone(),
            None => crate::digest::hash_str(graph.nodes[i].content.as_str()),
        };
        let changed = !crate::strutil::str_eq(new_hash.as_str(), graph.nodes[i].hash.as_str());
        let manifest_digest: Option<String> = match &subtree_manifests[i] {
            Some(m) => Some(m.hash()),
            None => None,
        };
        let node = &mut graph.nodes[i];
        if changed {
            node.dirty = true;
        }
        node.hash = new_hash;
        match manifest_digest {
            Some(h) => {
                node.metadata.input_manifest_hash = Some(h);
            },
            None => {},
        }
        i = i + 1;
    }
}

/// Is `n` transitively reachable from `m` along dependency edges, walking
/// only backwards (as every well-formed edge does)?
pub open spec fn reaches(g: BuildGraph, m: int, n: int) -> bool
    decreases m,
{
    0 <= m < g.nodes@.len() && exists|j: int|
        {
            &&& 0 <= j < g.nodes@[m].deps@.len()
            &&& (#[trigger] g.nodes@[m].deps@[j]) < m
            &&& {
                ||| g.nodes@[m].deps@[j] == n
                ||| reaches(g, g.nodes@[m].deps@[j] as int, n)
            }
        }
}

/// The dirty state a node settles into when dirtiness cascades to a fixed
/// point: dirty already, or some dependency settles dirty.
pub open spec fn dirty_after(g: BuildGraph, i: int) -> bool
    decreases i, g.nodes@[i].deps@.len() + 1,
{
    if 0 <= i < g.nodes@.len() {
        g.nodes@[i].dirty || any_dep_dirty(g, g.nodes@[i].deps@, i)
    } else {
        false
    }
}

/// Does any dependency in `ds` (all taken below `i`) settle dirty?
pub open spec fn any_dep_dirty(g: BuildGraph, ds: Seq<usize>, i: int) -> bool
    decreases i, ds.len(),
{
    if ds.len() == 0 {
        false
    } else {
        let head = if 0 <= (ds.last() as int) < i {
            dirty_after(g, ds.last() as int)
        } else {
            false
        };
        head || any_dep_dirty(g, ds.drop_last(), i)
    }
}

/// Cascade dirtiness to a fixed point: after the pass, a node is dirty
/// exactly when it was already dirty or depends, transitively, on a dirty
/// node. Because every dependency points backwards, one forward pass
/// reaches the fixed point.
pub fn propagate_dirty(graph: &mut BuildGraph)
    requires
        old(graph).wf(),
    ensures
        final(graph).nodes@.len() == old(graph).nodes@.len(),
        final(graph).wf(),
        forall|i: int|
            0 <= i < old(graph).nodes@.len() ==> {
                &&& same_but_dirty(old(graph).nodes@[i], #[trigger] final(graph).nodes@[i])
                &&& final(graph).nodes@[i].dirty == dirty_after(*old(graph), i)
            },
{
    let n = graph.nodes.len();
    let mut i: usize = 0;
    while i < n
        invariant
            old(graph).wf(),
            n == old(graph).nodes@.len(),
            n == graph.nodes@.len(),
            i <= n,
            forall|k: int| i <= k < n ==> graph.nodes@[k] == old(graph).nodes@[k],
            forall|k: int|
                0 <= k < i ==> {
                    &&& same_but_dirty(old(graph).nodes@[k], #[trigger] graph.nodes@[k])
                    &&& graph.nodes@[k].dirty == dirty_after(*old(graph), k)
                },
        decreases n - i,
    {
        let ds_len = graph.nodes[i].deps.len();
        let mut deps_dirty = false;
        let mut j: usize = 0;
        let ghost ds = graph.nodes@[i as int].deps@;
        while j < ds_len
            invariant
                old(graph).wf(),
                n == old(graph).nodes@.len(),
                n == graph.nodes@.len(),
                i < n,
                ds == graph.nodes@[i as int].deps@,
                ds == old(graph).nodes@[i as int].deps@,
                ds_len == ds.len(),
                j <= ds_len,
                graph.nodes@[i as int] == old(graph).nodes@[i as int],
                forall|k: int| i <= k < n ==> graph.nodes@[k] == old(graph).nodes@[k],
                forall|k: int|
                    0 <= k < i ==> {
                        &&& same_but_dirty(old(graph).nodes@[k], #[trigger] graph.nodes@[k])
                        &&& graph.nodes@[k].dirty == dirty_after(*old(graph), k)
                    },
                deps_dirty == any_dep_dirty(*old(graph), ds.take(j as int), i as int),
            decreases ds_len - j,
        {
            let d = graph.nodes[i].deps[j];
            proof {
                assert(ds[j as int] < i);
                assert(ds.take(j as int + 1).drop_last() =~= ds.take(j as int));
                assert(ds.take(j as int + 1).last() == ds[j as int]);
            }
            if graph.nodes[d].dirty {
                deps_dirty = true;
            }
            j = j + 1;
        }
        proof {
            assert(ds.take(ds_len as int) =~= ds);
        }
        let node = &mut graph.nodes[i];
        if deps_dirty && !node.dirty {
            node.dirty = true;
        }
        proof {
            assert(graph.nodes@[i as int].dirty == dirty_after(*old(graph), i as int));
        }
        i = i + 1;
    }
}

/// Dirtiness cascades transitively: after propagation, every node that
/// transitively depends on a dirty node is itself dirty.
pub proof fn lemma_dirty_cascade(g: BuildGraph, m: int, n: int)
    requires
        g.wf(),
        0 <= n < g.nodes@.len(),
        g.nodes@[n].dirty,
        reaches(g, m, n),
    ensures
        dirty_after(g, m),
    decreases m,
{
    let j = choose|j: int|
        0 <= j < g.nodes@[m].deps@.len() && (#[trigger] g.nodes@[m].deps@[j]) < m && (
        g.nodes@[m].deps@[j] == n || reaches(g, g.nodes@[m].deps@[j] as int, n));
    let d = g.nodes@[m].deps@[j] as int;
    if g.nodes@[m].deps@[j] == n {
        assert(dirty_after(g, d));
    } else {
        lemma_dirty_cascade(g, d, n);
    }
    lemma_any_dep_dirty_witness(g, g.nodes@[m].deps@, m, j);
}

/// If one dependency settles dirty, the disjunction over all of them holds.
proof fn lemma_any_dep_dirty_witness(g: BuildGraph, ds: Seq<usize>, i: int, j: int)
    requires
        0 <= j < ds.len(),
        0 <= (ds[j] as int) < i,
        dirty_after(g, ds[j] as int),
    ensures
        any_dep_dirty(g, ds, i),
    decreases ds.len(),
{
    if j == ds.len() - 1 {
    } else {
        assert(ds.drop_last()[j] == ds[j]);
        lemma_any_dep_dirty_witness(g, ds.drop_last(), i, j);
    }
}

/// The composite key a node settles into after rekeying: its key computed
/// over the settled keys of its dependencies, with its source content hash
/// as context and the environment fingerprint folded in.
pub open spec fn composite_key(g: BuildGraph, i: int, fp: Seq<char>) -> Seq<char>
    decreases i, g.nodes@[i].deps@.len() + 1,
{
    if 0 <= i < g.nodes@.len() {
        node_key_spec(
            g.nodes@[i],
            dep_keys(g, g.nodes@[i].deps@, i, fp),
            opt_string_view(g.nodes@[i].metadata.source_content_hash),
            Some(fp),
        )
    } else {
        Seq::empty()
    }
}

/// The settled keys of the dependencies in `ds`, in list order.
pub open spec fn dep_keys(g: BuildGraph, ds: Seq<usize>, i: int, fp: Seq<char>) -> Seq<Seq<char>>
    decreases i, ds.len(),
{
    if ds.len() == 0 {
        Seq::empty()
    } else {
        let last: Seq<char> = if 0 <= (ds.last() as int) < i {
            composite_key(g, ds.last() as int, fp)
        } else {
            Seq::empty()
        };
        dep_keys(g, ds.drop_last(), i, fp).push(last)
    }
}

/// Recompute every node's composite key, in topological order, so that each
/// key reflects the node's own inputs, its dependencies' settled keys, and
/// the environment fingerprint.
pub fn compute_composite_hashes(graph: &mut BuildGraph, env_fp: &EnvFingerprint)
    requires
        old(graph).wf(),
    ensures
        final(graph).nodes@.len() == old(graph).nodes@.len(),
        final(graph).wf(),
        forall|i: int|
            0 <= i < old(graph).nodes@.len() ==> {
                &&& same_but_hash_dirty(old(graph).nodes@[i], #[trigger] final(graph).nodes@[i])
                &&& final(graph).nodes@[i].dirty == old(graph).nodes@[i].dirty
                &&& final(graph).nodes@[i].hash@ == composite_key(
                    *old(graph),
                    i,
                    fingerprint_hash_spec(*env_fp),
                )
            },
{
    let n = graph.nodes.len();
    let ghost fp = fingerprint_hash_spec(*env_fp);
    let mut i: usize = 0;
    while i < n
        invariant
            old(graph).wf(),
            n == old(graph).nodes@.len(),
            n == graph.nodes@.len(),
            i <= n,
            fp == fingerprint_hash_spec(*env_fp),
            forall|k: int| i <= k < n ==> graph.nodes@[k] == old(graph).nodes@[k],
            forall|k: int|
                0 <= k < i ==> {
                    &&& same_but_hash_dirty(old(graph).nodes@[k], #[trigger] graph.nodes@[k])
                    &&& graph.nodes@[k].dirty == old(graph).nodes@[k].dirty
                    &&& graph.nodes@[k].hash@ == composite_key(*old(graph), k, fp)
                },
        decreases n - i,
    {
        let ds_len = graph.nodes[i].deps.len();
        let ghost ds = graph.nodes@[i as int].deps@;
        let mut dep_hashes: Vec<String> = Vec::new();
        let mut j: usize = 0;
        proof {
            assert(crate::strutil::seq_views(dep_hashes@) =~= dep_keys(
                *old(graph),
                ds.take(0),
                i as int,
                fp,
            ));
        }
        while j < ds_len
            invariant
                old(graph).wf(),
                n == old(graph).nodes@.len(),
                n == graph.nodes@.len(),
                i < n,
                fp == fingerprint_hash_spec(*env_fp),
                ds == graph.nodes@[i as int].deps@,
                ds == old(graph).nodes@[i as int].deps@,
                ds_len == ds.len(),
                j <= ds_len,
                forall|k: int| i <= k < n ==> graph.nodes@[k] == old(graph).nodes@[k],
                forall|k: int|
                    0 <= k < i ==> {
                        &&& same_but_hash_dirty(old(graph).nodes@[k], #[trigger] graph.nodes@[k])
                        &&& graph.nodes@[k].dirty == old(graph).nodes@[k].dirty
                        &&& graph.nodes@[k].hash@ == composite_key(*old(graph), k, fp)
                    },
                crate::strutil::seq_views(dep_hashes@) == dep_keys(
                    *old(graph),
                    ds.take(j as int),
                    i as int,
                    fp,
                ),
            decreases ds_len - j,
        {
            let d = graph.nodes[i].deps[j];
            proof {
                assert(ds[j as int] < i);
                assert(ds.take(j as int + 1).drop_last() =~= ds.take(j as int));
                assert(ds.take(j as int + 1).last() == ds[j as int]);
            }
            let ghost old_dh = dep_hashes@;
            dep_hashes.push(graph.nodes[d].hash.clone());
            proof {
                assert(crate::strutil::seq_views(dep_hashes@) =~= crate::strutil::seq_views(
                    old_dh,
                ).push(graph.nodes@[d as int].hash@));
                assert(crate::strutil::seq_views(dep_hashes@) =~= dep_keys(
                    *old(graph),
                    ds.take(j as int + 1),
                    i as int,
                    fp,
                ));
            }
            j = j + 1;
        }
        proof {
            assert(ds.take(ds_len as int) =~= ds);
        }
        let context_hash: Option<&str> = match &graph.nodes[i].metadata.source_content_hash {
            Some(s) => Some(s.as_str()),
            None => None,
        };
        let key = graph.nodes[i].compute_node_key(
            dep_hashes.as_slice(),
            context_hash,
            Some(env_fp),
        );
        proof {
            assert(key@ == composite_key(*old(graph), i as int, fp));
        }
        let node = &mut graph.nodes[i];
        node.hash = key;
        i = i + 1;
    }
}

/// The union of two manifests at the view level: entries joined by path,
/// the right one winning, canonicalized by path order.
pub open spec fn spec_merge(a: Seq<EntryView>, b: Seq<EntryView>) -> Seq<EntryView> {
    canonical(dedup_last(a + b))
}

/// The input manifest a node settles into: the union of its dependencies'
/// output manifests, joined left to right.
pub open spec fn input_manifest_of(
    g: BuildGraph,
    copies: Seq<Option<ArtifactManifest>>,
    i: int,
) -> Seq<EntryView>
    decreases i, g.nodes@[i].deps@.len() + 1, 0nat,
{
    if 0 <= i < g.nodes@.len() {
        merged_dep_outputs(g, copies, g.nodes@[i].deps@, i)
    } else {
        Seq::empty()
    }
}

/// The outputs of the dependencies in `ds` (all taken below `i`), merged in
/// list order.
pub open spec fn merged_dep_outputs(
    g: BuildGraph,
    copies: Seq<Option<ArtifactManifest>>,
    ds: Seq<usize>,
    i: int,
) -> Seq<EntryView>
    decreases i, ds.len(), 0nat,
{
    if ds.len() == 0 {
        Seq::empty()
    } else {
        let last: Seq<EntryView> = if 0 <= (ds.last() as int) < i {
            output_manifest_of(g, copies, ds.last() as int)
        } else {
            Seq::empty()
        };
        spec_merge(merged_dep_outputs(g, copies, ds.drop_last(), i), last)
    }
}

/// The output manifest a node settles into: its input manifest, plus (for a
/// Copy node) the manifest of its own source subtree.
pub open spec fn output_manifest_of(
    g: BuildGraph,
    copies: Seq<Option<ArtifactManifest>>,
    i: int,
) -> Seq<EntryView>
    decreases i, g.nodes@[i].deps@.len() + 1, 1nat,
{
    if 0 <= i < g.nodes@.len() {
        let inm = input_manifest_of(g, copies, i);
        if 0 <= i < copies.len() && copies[i] is Some {
            spec_merge(inm, entry_views(copies[i]->0.files@))
        } else {
            inm
        }
    } else {
        Seq::empty()
    }
}

/// Copy a manifest, entry for entry.
fn clone_manifest(m: &ArtifactManifest) -> (r: ArtifactManifest)
    ensures
        entry_views(r.files@) == entry_views(m.files@),
{
    let mut files: Vec<crate::manifest::FileEntry> = Vec::new();
    let mut i: usize = 0;
    proof {
        assert(entry_views(files@) =~= entry_views(m.files@).take(0));
    }
    while i < m.files.len()
        invariant
            i <= m.files@.len(),
            entry_views(files@) == entry_views(m.files@).take(i as int),
        decreases m.files@.len() - i,
    {
        let ghost old_files = files@;
        files.push(
            crate::manifest::FileEntry {
                path: m.files[i].path.clone(),
                hash: m.files[i].hash.clone(),
                size: m.files[i].size,
            },
        );
        proof {
            assert(entry_views(files@) =~= entry_views(old_files).push(
                entry_views(m.files@)[i as int],
            ));
            assert(entry_views(files@) =~= entry_views(m.files@).take(i as int + 1));
        }
        i = i + 1;
    }
    proof {
        assert(entry_views(m.files@).take(m.files@.len() as int) =~= entry_views(m.files@));
    }
    ArtifactManifest { files }
}

/// Propagate manifests in topological order: each node's input manifest is
/// the union of its dependencies' output manifests; its output manifest adds
/// (for Copy nodes) the manifest of its own source subtree, supplied in
/// `copy_manifests`. The two digests are recorded on the node (the input
/// digest only when the input manifest is non-empty), and each node's pair
/// of manifests is returned with their digests so that callers can upload
/// them to the cache.
#[verifier::rlimit(50)]
pub fn propagate_manifests(
    graph: &mut BuildGraph,
    copy_manifests: &Vec<Option<ArtifactManifest>>,
) -> (r: Vec<(String, ArtifactManifest)>)
    requires
        old(graph).wf(),
        old(graph).nodes@.len() == copy_manifests@.len(),
    ensures
        final(graph).nodes@.len() == old(graph).nodes@.len(),
        final(graph).wf(),
        forall|i: int|
            0 <= i < old(graph).nodes@.len() ==> {
                let prev = old(graph).nodes@[i];
                let cur = #[trigger] final(graph).nodes@[i];
                let inm = input_manifest_of(*old(graph), copy_manifests@, i);
                let outm = output_manifest_of(*old(graph), copy_manifests@, i);
                &&& cur.id == prev.id
                &&& cur.name == prev.name
                &&& cur.content == prev.content
                &&& cur.kind == prev.kind
                &&& cur.deps == prev.deps
                &&& cur.hash == prev.hash
                &&& cur.dirty == prev.dirty
                &&& inm.len() > 0 ==> (cur.metadata.input_manifest_hash matches Some(h) && h@
                    == blake3_hex_of(crate::manifest::entries_bytes(inm)))
                &&& inm.len() == 0 ==> cur.metadata.input_manifest_hash
                    == prev.metadata.input_manifest_hash
                &&& (cur.metadata.output_manifest_hash matches Some(oh) && oh@ == blake3_hex_of(
                    crate::manifest::entries_bytes(outm),
                ))
            },
        r@.len() == 2 * old(graph).nodes@.len(),
        forall|i: int|
            0 <= i < old(graph).nodes@.len() ==> {
                let inm = input_manifest_of(*old(graph), copy_manifests@, i);
                let outm = output_manifest_of(*old(graph), copy_manifests@, i);
                &&& entry_views((#[trigger] r@[2 * i]).1.files@) == inm
                &&& r@[2 * i].0@ == blake3_hex_of(crate::manifest::entries_bytes(inm))
                &&& entry_views(r@[2 * i + 1].1.files@) == outm
                &&& r@[2 * i + 1].0@ == blake3_hex_of(crate::manifest::entries_bytes(outm))
            },
{
    let n = graph.nodes.len();
    let mut node_manifests: Vec<ArtifactManifest> = Vec::new();
    let mut all: Vec<(String, ArtifactManifest)> = Vec::new();
    let mut i: usize = 0;
    while i < n
        invariant
            old(graph).wf(),
            n == old(graph).nodes@.len(),
            n == graph.nodes@.len(),
            n == copy_manifests@.len(),
            i <= n,
            node_manifests@.len() == i,
            all@.len() == 2 * i,
            forall|k: int| i <= k < n ==> graph.nodes@[k] == old(graph).nodes@[k],
            forall|k: int|
                0 <= k < i ==> entry_views((#[trigger] node_manifests@[k]).files@)
                    == output_manifest_of(*old(graph), copy_manifests@, k),
            forall|k: int|
                0 <= k < i ==> {
                    let prev = old(graph).nodes@[k];
                    let cur = #[trigger] graph.nodes@[k];
                    let inm = input_manifest_of(*old(graph), copy_manifests@, k);
                    let outm = output_manifest_of(*old(graph), copy_manifests@, k);
                    &&& cur.id == prev.id
                    &&& cur.name == prev.name
                    &&& cur.content == prev.content
                    &&& cur.kind == prev.kind
                    &&& cur.deps == prev.deps
                    &&& cur.hash == prev.hash
                    &&& cur.dirty == prev.dirty
                    &&& inm.len() > 0 ==> (cur.metadata.input_manifest_hash matches Some(h) && h@
                        == blake3_hex_of(crate::manifest::entries_bytes(inm)))
                    &&& inm.len() == 0 ==> cur.metadata.input_manifest_hash
                        == prev.metadata.input_manifest_hash
                    &&& (cur.metadata.output_manifest_hash matches Some(oh) && oh@
                        == blake3_hex_of(crate::manifest::entries_bytes(outm)))
                },
            forall|k: int|
                0 <= k < i ==> {
                    let inm = input_manifest_of(*old(graph), copy_manifests@, k);
                    let outm = output_manifest_of(*old(graph), copy_manifests@, k);
                    &&& entry_views((#[trigger] all@[2 * k]).1.files@) == inm
                    &&& all@[2 * k].0@ == blake3_hex_of(crate::manifest::entries_bytes(inm))
                    &&& entry_views(all@[2 * k + 1].1.files@) == outm
                    &&& all@[2 * k + 1].0@ == blake3_hex_of(crate::manifest::entries_bytes(outm))
                },
        decreases n - i,
    {
        let ds_len = graph.nodes[i].deps.len();
        let ghost ds = graph.nodes@[i as int].deps@;
        let mut input_manifest = ArtifactManifest { files: Vec::new() };
        let mut j: usize = 0;
        proof {
            assert(entry_views(input_manifest.files@) =~= merged_dep_outputs(
                *old(graph),
                copy_manifests@,
                ds.take(0),
                i as int,
            ));
        }
        while j < ds_len
            invariant
                old(graph).wf(),
                n == old(graph).nodes@.len(),
                n == graph.nodes@.len(),
                n == copy_manifests@.len(),
                i < n,
                node_manifests@.len() == i,
                ds == graph.nodes@[i as int].deps@,
                ds == old(graph).nodes@[i as int].deps@,
                ds_len == ds.len(),
                j <= ds_len,
                forall|k: int|
                    0 <= k < i ==> entry_views((#[trigger] node_manifests@[k]).files@)
                        == output_manifest_of(*old(graph), copy_manifests@, k),
                entry_views(input_manifest.files@) == merged_dep_outputs(
                    *old(graph),
                    copy_manifests@,
                    ds.take(j as int),
                    i as int,
                ),
            decreases ds_len - j,
        {
            let d = graph.nodes[i].deps[j];
            proof {
                assert(ds[j as int] < i);
                assert(ds.take(j as int + 1).drop_last() =~= ds.take(j as int));
                assert(ds.take(j as int + 1).last() == ds[j as int]);
            }
            input_manifest.merge(&node_manifests[d]);
            j = j + 1;
        }
        proof {
            assert(ds.take(ds_len as int) =~= ds);
        }
        let ghost inm = input_manifest_of(*old(graph), copy_manifests@, i as int);
        proof {
            assert(entry_views(input_manifest.files@) == inm);
            lemma_manifest_of_canonical(*old(graph), copy_manifests@, i as int);
        }
        let ih = input_manifest.hash();
        if input_manifest.files.len() > 0 {
            let node = &mut graph.nodes[i];
            node.metadata.input_manifest_hash = Some(ih.clone());
        }
        let stored_in = clone_manifest(&input_manifest);
        all.push((ih, stored_in));
        proof {
            assert(all@.last().0@ == blake3_hex_of(crate::manifest::entries_bytes(inm)));
            assert(entry_views(all@.last().1.files@) == inm);
        }
        let ghost all_mid = all@;
        let mut output_manifest = clone_manifest(&input_manifest);
        match &copy_manifests[i] {
            Some(delta) => {
                output_manifest.merge(delta);
            },
            None => {},
        }
        let ghost outm = output_manifest_of(*old(graph), copy_manifests@, i as int);
        proof {
            assert(entry_views(output_manifest.files@) == outm);
        }
        let oh = output_manifest.hash();
        let node = &mut graph.nodes[i];
        node.metadata.output_manifest_hash = Some(oh.clone());
        let stored_out = clone_manifest(&output_manifest);
        all.push((oh, stored_out));
        node_manifests.push(output_manifest);
        proof {
            assert(all@.len() == 2 * i + 2);
            assert(all@[2 * i as int] == all_mid[2 * i as int]);
            assert(all@[2 * i as int] == all_mid.last());
            assert(all@[2 * i as int + 1] == all@.last());
            assert(all@.last().0@ == blake3_hex_of(crate::manifest::entries_bytes(outm)));
            assert(entry_views(all@.last().1.files@) == outm);
        }
        i = i + 1;
    }
    all
}

/// A settled manifest is already canonical, so its digest is the digest of
/// its entries as they stand.
proof fn lemma_manifest_of_canonical(
    g: BuildGraph,
    copies: Seq<Option<ArtifactManifest>>,
    i: int,
)
    ensures
        canonical(input_manifest_of(g, copies, i)) == input_manifest_of(g, copies, i),
        canonical(output_manifest_of(g, copies, i)) == output_manifest_of(g, copies, i),
{
    if 0 <= i < g.nodes@.len() {
        lemma_merged_dep_outputs_canonical(g, copies, g.nodes@[i].deps@, i);
        let inm = input_manifest_of(g, copies, i);
        if 0 <= i < copies.len() && copies[i] is Some {
            lemma_canonical_of_canonical(dedup_last(inm + entry_views(copies[i]->0.files@)));
        }
    } else {
        assert(input_manifest_of(g, copies, i) =~= Seq::<EntryView>::empty());
        assert(canonical(Seq::<EntryView>::empty()) =~= Seq::<EntryView>::empty());
    }
}

/// The merge of dependency outputs is canonical (empty, or freshly
/// canonicalized by the last merge step).
proof fn lemma_merged_dep_outputs_canonical(
    g: BuildGraph,
    copies: Seq<Option<ArtifactManifest>>,
    ds: Seq<usize>,
    i: int,
)
    ensures
        canonical(merged_dep_outputs(g, copies, ds, i)) == merged_dep_outputs(g, copies, ds, i),
    decreases ds.len(),
{
    if ds.len() == 0 {
        assert(merged_dep_outputs(g, copies, ds, i) =~= Seq::<EntryView>::empty());
        assert(canonical(Seq::<EntryView>::empty()) =~= Seq::<EntryView>::empty());
    } else {
        let last: Seq<EntryView> = if 0 <= (ds.last() as int) < i {
            output_manifest_of(g, copies, ds.last() as int)
        } else {
            Seq::empty()
        };
        lemma_canonical_of_canonical(
            dedup_last(merged_dep_outputs(g, copies, ds.drop_last(), i) + last),
        );
    }
}

/// A canonical entry list canonicalizes to itself, so a manifest whose
/// entries are already canonical hashes to the digest of those entries.
proof fn lemma_canonical_of_canonical(s: Seq<EntryView>)
    ensures
        canonical(canonical(s)) == canonical(s),
{
    crate::strutil::lemma_sort_by_key_ensures(s, crate::manifest::path_key());
    crate::strutil::lemma_sort_by_key_idempotent(canonical(s), crate::manifest::path_key());
}

} // verus!
