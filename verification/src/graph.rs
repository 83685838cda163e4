//! The build graph: nodes, dependencies, composite content-addressed keys,
//! topological order and parallel levels.

use vstd::prelude::*;
use vstd::string::StringSliceAdditionalSpecFns;
use crate::encode::{utf8, opt_utf8, env_bytes, cat_utf8, dec_of};
use crate::strutil::{sort_by_key, pair_views, seq_views, fst_key, str_key, lex_leq};
use crate::digest::blake3_hex_of;
use crate::fingerprint::{EnvFingerprint, fingerprint_hash_spec};

verus! {

/// What kind of build step a node performs.
#[derive(Clone)]
pub enum NodeKind {
    From,
    Run,
    Copy { src: String, dst: String },
    Env,
    Workdir,
    Cmd,
    Git { url: String, target: String },
    RunExtend { command: String, parallelizable: bool },
    CopyExtend { src: String, dst: String, tags: Vec<String> },
    CustomHook { hook_name: String, params: Vec<String> },
    Other,
}

/// The canonical name of a node kind's variant tag, as fed into the key.
pub open spec fn kind_tag_spec(k: NodeKind) -> Seq<char> {
    match k {
        NodeKind::From => "From"@,
        NodeKind::Run => "Run"@,
        NodeKind::Copy { .. } => "Copy"@,
        NodeKind::Env => "Env"@,
        NodeKind::Workdir => "Workdir"@,
        NodeKind::Cmd => "Cmd"@,
        NodeKind::Git { .. } => "Git"@,
        NodeKind::RunExtend { .. } => "RunExtend"@,
        NodeKind::CopyExtend { .. } => "CopyExtend"@,
        NodeKind::CustomHook { .. } => "CustomHook"@,
        NodeKind::Other => "Other"@,
    }
}

impl NodeKind {
    /// The canonical name of this kind's variant tag.
    pub fn canonical_tag(&self) -> (r: &'static str)
        ensures
            r@ == kind_tag_spec(*self),
    {
        match self {
            NodeKind::From => "From",
            NodeKind::Run => "Run",
            NodeKind::Copy { .. } => "Copy",
            NodeKind::Env => "Env",
            NodeKind::Workdir => "Workdir",
            NodeKind::Cmd => "Cmd",
            NodeKind::Git { .. } => "Git",
            NodeKind::RunExtend { .. } => "RunExtend",
            NodeKind::CopyExtend { .. } => "CopyExtend",
            NodeKind::CustomHook { .. } => "CustomHook",
            NodeKind::Other => "Other",
        }
    }

    /// A node is runnable when it executes a command rather than shaping
    /// image metadata; runnable nodes may be dispatched to remote workers.
    pub fn is_runnable(&self) -> (r: bool)
        ensures
            r == self.runnable(),
    {
        match self {
            NodeKind::Run => true,
            NodeKind::RunExtend { .. } => true,
            NodeKind::CustomHook { .. } => true,
            NodeKind::Git { .. } => true,
            _ => false,
        }
    }

    pub open spec fn runnable(self) -> bool {
        match self {
            NodeKind::Run => true,
            NodeKind::RunExtend { .. } => true,
            NodeKind::CustomHook { .. } => true,
            NodeKind::Git { .. } => true,
            _ => false,
        }
    }
}

/// Bookkeeping carried by every node beyond its immutable identity.
#[derive(Clone)]
pub struct NodeMetadata {
    /// When the node last executed, in milliseconds since the Unix epoch.
    pub last_executed: Option<u64>,
    /// How long the last execution took, in milliseconds.
    pub execution_time_ms: Option<u64>,
    /// Whether the node may run concurrently with its level peers.
    pub parallelizable: bool,
    /// Scheduling priority.
    pub priority: u8,
    /// Free-form categorisation tags.
    pub tags: Vec<String>,
    /// Content digest of the node's source subtree (Copy nodes).
    pub source_content_hash: Option<String>,
    /// Digest of the manifest describing the node's inputs.
    pub input_manifest_hash: Option<String>,
    /// Digest of the manifest describing the node's outputs.
    pub output_manifest_hash: Option<String>,
    /// Further source paths discovered by dependency analysis.
    pub extra_source_paths: Vec<String>,
}

impl Default for NodeMetadata {
    /// Fresh metadata: nothing recorded, not parallelizable, priority zero.
    fn default() -> (r: NodeMetadata)
        ensures
            r.last_executed is None,
            r.execution_time_ms is None,
            !r.parallelizable,
            r.priority == 0,
            r.tags@.len() == 0,
            r.source_content_hash is None,
            r.input_manifest_hash is None,
            r.output_manifest_hash is None,
            r.extra_source_paths@.len() == 0,
    {
        NodeMetadata {
            last_executed: None,
            execution_time_ms: None,
            parallelizable: false,
            priority: 0,
            tags: Vec::new(),
            source_content_hash: None,
            input_manifest_hash: None,
            output_manifest_hash: None,
            extra_source_paths: Vec::new(),
        }
    }
}

/// One build step.
#[derive(Clone)]
pub struct Node {
    /// Dense ordinal assigned at graph construction.
    pub id: usize,
    /// Human-readable name.
    pub name: String,
    /// The instruction text.
    pub content: String,
    /// The step's kind.
    pub kind: NodeKind,
    /// The node's current content-addressed key (lowercase hex).
    pub hash: String,
    /// Whether the node's inputs changed since its key was computed.
    pub dirty: bool,
    /// Ordinals of the nodes this one depends on; all strictly smaller
    /// than `id`.
    pub deps: Vec<usize>,
    /// For Copy nodes: the source path hashed from the filesystem.
    pub source_path: Option<String>,
    /// Environment bindings (Env nodes).
    pub env: Vec<(String, String)>,
    /// Whether the last evaluation was served from the cache.
    pub cache_hit: bool,
    /// Additional bookkeeping.
    pub metadata: NodeMetadata,
}

/// `parallelizable=…` as fed into the key.
pub open spec fn par_str(b: bool) -> Seq<char> {
    if b {
        "parallelizable=true"@
    } else {
        "parallelizable=false"@
    }
}

/// `priority=…` as fed into the key.
pub open spec fn prio_str(p: u8) -> Seq<char> {
    "priority="@ + dec_of(p as int)
}

/// View of an optional borrowed string.
pub open spec fn opt_str_view(o: Option<&str>) -> Option<Seq<char>> {
    match o {
        Some(s) => Some(s@),
        None => None,
    }
}

/// View of an optional owned string.
pub open spec fn opt_string_view(o: Option<String>) -> Option<Seq<char>> {
    match o {
        Some(s) => Some(s@),
        None => None,
    }
}

/// The byte material hashed into a node's composite key: variant tag,
/// instruction text, key-sorted environment bindings, context hash, source
/// content hash, sorted dependency keys, the parallelizable and priority
/// marks, and the environment fingerprint digest.
pub open spec fn node_key_material(
    node: Node,
    dep_hashes: Seq<Seq<char>>,
    context_hash: Option<Seq<char>>,
    env_fp_digest: Option<Seq<char>>,
) -> Seq<u8> {
    utf8(kind_tag_spec(node.kind)) + utf8(node.content@) + env_bytes(
        sort_by_key(pair_views(node.env@), fst_key()),
    ) + opt_utf8(context_hash) + opt_utf8(opt_string_view(node.metadata.source_content_hash))
        + cat_utf8(sort_by_key(dep_hashes, str_key())) + utf8(par_str(node.metadata.parallelizable))
        + utf8(prio_str(node.metadata.priority)) + opt_utf8(env_fp_digest)
}

/// A node's composite key: the BLAKE3 hex digest of its key material.
pub open spec fn node_key_spec(
    node: Node,
    dep_hashes: Seq<Seq<char>>,
    context_hash: Option<Seq<char>>,
    env_fp_digest: Option<Seq<char>>,
) -> Seq<char> {
    blake3_hex_of(node_key_material(node, dep_hashes, context_hash, env_fp_digest))
}

/// View of an optional fingerprint: its digest.
pub open spec fn opt_fp_digest(o: Option<&EnvFingerprint>) -> Option<Seq<char>> {
    match o {
        Some(fp) => Some(fingerprint_hash_spec(*fp)),
        None => None,
    }
}

impl Node {
    /// Compute the node's composite content-addressed key. The key is a pure
    /// function of the variant tag, instruction text, sorted environment,
    /// context hash, source content hash, sorted dependency keys, the
    /// parallelizable and priority marks, and the fingerprint digest.
    pub fn compute_node_key(
        &self,
        dep_hashes: &[String],
        context_hash: Option<&str>,
        env_fingerprint: Option<&EnvFingerprint>,
    ) -> (r: String)
        ensures
            r@ == node_key_spec(
                *self,
                seq_views(dep_hashes@),
                opt_str_view(context_hash),
                opt_fp_digest(env_fingerprint),
            ),
            r@.len() == 64,
    {
        let mut m: Vec<u8> = Vec::new();
        crate::encode::append_str_bytes(&mut m, self.kind.canonical_tag());
        crate::encode::append_str_bytes(&mut m, self.content.as_str());
        let sorted_env = crate::strutil::sort_pairs(&self.env);
        crate::encode::append_env_bytes(&mut m, &sorted_env);
        if let Some(ch) = context_hash {
            crate::encode::append_str_bytes(&mut m, ch);
        }
        if let Some(sh) = &self.metadata.source_content_hash {
            crate::encode::append_str_bytes(&mut m, sh.as_str());
        }
        let sorted_deps = crate::strutil::sort_strings(dep_hashes);
        crate::encode::append_cat_bytes(&mut m, &sorted_deps);
        if self.metadata.parallelizable {
            crate::encode::append_str_bytes(&mut m, "parallelizable=true");
        } else {
            crate::encode::append_str_bytes(&mut m, "parallelizable=false");
        }
        crate::encode::append_str_bytes(&mut m, "priority=");
        let prio = crate::encode::dec_u64(self.metadata.priority as u64);
        crate::encode::append_str_bytes(&mut m, prio.as_str());
        if let Some(fp) = env_fingerprint {
            let fph = fp.hash();
            crate::encode::append_str_bytes(&mut m, fph.as_str());
        }
        proof {
            assert(m@ =~= node_key_material(
                *self,
                seq_views(dep_hashes@),
                opt_str_view(context_hash),
                opt_fp_digest(env_fingerprint),
            )) by {
                assert(utf8("priority="@) + utf8(dec_of(self.metadata.priority as int)) =~= utf8(
                    prio_str(self.metadata.priority),
                )) by {
                    crate::encode::lemma_utf8_concat("priority="@, dec_of(
                        self.metadata.priority as int,
                    ));
                }
            }
        }
        crate::digest::blake3_hex(m.as_slice())
    }
}

/// The composite key is pure and order-insensitive where the design says so:
/// two nodes with the same variant tag, instruction text, environment
/// bindings (as a set, with distinct keys), context, source hash, dependency
/// keys (as a multiset) and marks receive the same key, whatever order the
/// environment or the dependency list came in.
pub proof fn lemma_node_key_pure(
    a: Node,
    b: Node,
    deps_a: Seq<Seq<char>>,
    deps_b: Seq<Seq<char>>,
    context_hash: Option<Seq<char>>,
    env_fp_digest: Option<Seq<char>>,
)
    requires
        kind_tag_spec(a.kind) == kind_tag_spec(b.kind),
        a.content@ == b.content@,
        pair_views(a.env@).to_multiset() == pair_views(b.env@).to_multiset(),
        forall|p: (Seq<char>, Seq<char>), q: (Seq<char>, Seq<char>)|
            pair_views(a.env@).to_multiset().contains(p) && pair_views(a.env@).to_multiset()
                .contains(q) && p.0 == q.0 ==> p == q,
        opt_string_view(a.metadata.source_content_hash) == opt_string_view(
            b.metadata.source_content_hash,
        ),
        deps_a.to_multiset() == deps_b.to_multiset(),
        a.metadata.parallelizable == b.metadata.parallelizable,
        a.metadata.priority == b.metadata.priority,
    ensures
        node_key_spec(a, deps_a, context_hash, env_fp_digest) == node_key_spec(
            b,
            deps_b,
            context_hash,
            env_fp_digest,
        ),
{
    crate::strutil::lemma_sort_by_key_ensures(pair_views(a.env@), fst_key());
    crate::strutil::lemma_sort_by_key_ensures(pair_views(b.env@), fst_key());
    crate::strutil::lemma_sorted_unique(
        sort_by_key(pair_views(a.env@), fst_key()),
        sort_by_key(pair_views(b.env@), fst_key()),
        fst_key(),
    );
    crate::strutil::lemma_sort_by_key_ensures(deps_a, str_key());
    crate::strutil::lemma_sort_by_key_ensures(deps_b, str_key());
    crate::strutil::lemma_sorted_unique(
        sort_by_key(deps_a, str_key()),
        sort_by_key(deps_b, str_key()),
        str_key(),
    );
}

/// The ordered sequence of nodes making up one build.
pub struct BuildGraph {
    pub nodes: Vec<Node>,
}

/// The maximum of a sequence of naturals (zero when empty).
pub open spec fn max_of(s: Seq<nat>) -> nat
    decreases s.len(),
{
    if s.len() == 0 {
        0
    } else {
        let rest = max_of(s.drop_last());
        if s.last() >= rest {
            s.last()
        } else {
            rest
        }
    }
}

/// The height of node `i` in the graph: 0 with no dependencies, otherwise
/// one more than the highest dependency. This equals the length of the
/// longest dependency chain ending at the node. Dependencies at or above the
/// node's own ordinal (absent in well-formed graphs) count as height 0.
pub open spec fn node_level(g: BuildGraph, i: int) -> nat
    decreases i, g.nodes@[i].deps@.len() + 1,
{
    if 0 <= i < g.nodes@.len() {
        let ds = g.nodes@[i].deps@;
        if ds.len() == 0 {
            0
        } else {
            1 + deps_level_max(g, ds, i)
        }
    } else {
        0
    }
}

/// The highest level among the dependencies in `ds`, all taken below `i`.
pub open spec fn deps_level_max(g: BuildGraph, ds: Seq<usize>, i: int) -> nat
    decreases i, ds.len(),
{
    if ds.len() == 0 {
        0
    } else {
        let rest = deps_level_max(g, ds.drop_last(), i);
        let dl: nat = if 0 <= (ds.last() as int) < i {
            node_level(g, ds.last() as int)
        } else {
            0
        };
        if dl >= rest {
            dl
        } else {
            rest
        }
    }
}

impl BuildGraph {
    /// Well-formed: each node records its own position, and every dependency
    /// points strictly backwards, which makes the graph acyclic in insertion
    /// order.
    pub open spec fn wf(self) -> bool {
        forall|i: int|
            0 <= i < self.nodes@.len() ==> {
                &&& (#[trigger] self.nodes@[i]).id == i
                &&& forall|j: int|
                    0 <= j < self.nodes@[i].deps@.len() ==> (#[trigger] self.nodes@[i].deps@[j])
                        < i
            }
    }

    pub fn new() -> (r: BuildGraph)
        ensures
            r.nodes@.len() == 0,
            r.wf(),
    {
        BuildGraph { nodes: Vec::new() }
    }

    /// Check well-formedness: ordinals dense, dependencies strictly
    /// backwards. A graph built from instructions always passes; a graph
    /// with a dependency cycle cannot.
    pub fn validate(&self) -> (r: bool)
        ensures
            r == self.wf(),
    {
        let n = self.nodes.len();
        let mut i: usize = 0;
        while i < n
            invariant
                n == self.nodes@.len(),
                i <= n,
                forall|k: int|
                    0 <= k < i ==> {
                        &&& (#[trigger] self.nodes@[k]).id == k
                        &&& forall|j: int|
                            0 <= j < self.nodes@[k].deps@.len() ==> (
                            #[trigger] self.nodes@[k].deps@[j]) < k
                    },
            decreases n - i,
        {
            if self.nodes[i].id != i {
                return false;
            }
            let dn = self.nodes[i].deps.len();
            let mut j: usize = 0;
            while j < dn
                invariant
                    n == self.nodes@.len(),
                    i < n,
                    dn == self.nodes@[i as int].deps@.len(),
                    j <= dn,
                    forall|k: int|
                        0 <= k < j ==> (#[trigger] self.nodes@[i as int].deps@[k]) < i,
                decreases dn - j,
            {
                if self.nodes[i].deps[j] >= i {
                    return false;
                }
                j = j + 1;
            }
            i = i + 1;
        }
        true
    }

    /// Nodes in an order in which every dependency comes strictly before its
    /// dependents. Since dependencies always point backwards, insertion
    /// order is such an order, and it is what incremental rekeying and
    /// manifest propagation rely on.
    pub fn topological_order(&self) -> (r: Vec<usize>)
        requires
            self.wf(),
        ensures
            r@.len() == self.nodes@.len(),
            forall|i: int| 0 <= i < r@.len() ==> #[trigger] r@[i] == i,
    {
        let n = self.nodes.len();
        let mut order: Vec<usize> = Vec::new();
        let mut i: usize = 0;
        while i < n
            invariant
                i <= n,
                order@.len() == i,
                forall|k: int| 0 <= k < i ==> #[trigger] order@[k] == k,
            decreases n - i,
        {
            order.push(i);
            i = i + 1;
        }
        order
    }

    /// Every dependency comes strictly before its dependent in the
    /// topological order.
    pub proof fn lemma_topological_order_sound(self, order: Seq<usize>)
        requires
            self.wf(),
            order.len() == self.nodes@.len(),
            forall|i: int| 0 <= i < order.len() ==> #[trigger] order[i] == i,
        ensures
            forall|i: int, j: int|
                0 <= i < order.len() && 0 <= j < self.nodes@[order[i] as int].deps@.len()
                    ==> (#[trigger] self.nodes@[order[i] as int].deps@[j]) < i,
    {
    }

    /// Group nodes into levels: level k holds exactly the nodes of height k,
    /// in ascending ordinal order. Nodes within one level never depend on
    /// one another, and the number of levels is one more than the longest
    /// dependency chain in the graph.
    pub fn levels(&self) -> (r: Vec<Vec<usize>>)
        requires
            self.wf(),
        ensures
            self.nodes@.len() == 0 ==> r@.len() == 0,
            self.nodes@.len() > 0 ==> r@.len() == 1 + max_of(
                Seq::new(self.nodes@.len(), |i: int| node_level(*self, i)),
            ),
            forall|k: int, m: int|
                0 <= k < r@.len() && 0 <= m < r@[k]@.len() ==> {
                    &&& (#[trigger] r@[k]@[m]) < self.nodes@.len()
                    &&& node_level(*self, r@[k]@[m] as int) == k
                },
            forall|i: int|
                0 <= i < self.nodes@.len() ==> #[trigger] r@[node_level(*self, i) as int]@.contains(
                    i as usize,
                ),
            forall|k: int, m1: int, m2: int|
                0 <= k < r@.len() && 0 <= m1 < m2 < r@[k]@.len() ==> (#[trigger] r@[k]@[m1]) < (
                #[trigger] r@[k]@[m2]),
    {
        let n = self.nodes.len();
        let mut lv: Vec<usize> = Vec::new();
        let mut i: usize = 0;
        while i < n
            invariant
                self.wf(),
                n == self.nodes@.len(),
                i <= n,
                lv@.len() == i,
                forall|k: int|
                    0 <= k < i ==> #[trigger] lv@[k] as nat == node_level(*self, k) && lv@[k]
                        <= k,
            decreases n - i,
        {
            let ds = &self.nodes[i].deps;
            let dn = ds.len();
            let mut best: usize = 0;
            let mut j: usize = 0;
            while j < dn
                invariant
                    self.wf(),
                    n == self.nodes@.len(),
                    i < n,
                    ds == self.nodes@[i as int].deps,
                    dn == ds@.len(),
                    j <= dn,
                    lv@.len() == i,
                    forall|k: int|
                        0 <= k < i ==> #[trigger] lv@[k] as nat == node_level(*self, k) && lv@[k]
                            <= k,
                    best as nat == deps_level_max(*self, ds@.take(j as int), i as int),
                    j == 0 ==> best == 0,
                    j > 0 ==> best < i,
                decreases dn - j,
            {
                let d = ds[j];
                proof {
                    assert(self.nodes@[i as int].deps@[j as int] < i);
                    assert(ds@.take(j as int + 1).drop_last() =~= ds@.take(j as int));
                    assert(ds@.take(j as int + 1).last() == ds@[j as int]);
                }
                let dl = lv[d];
                if dl >= best {
                    best = dl;
                }
                j = j + 1;
            }
            proof {
                assert(ds@.take(dn as int) =~= ds@);
            }
            let level_i: usize = if dn == 0 {
                0
            } else {
                best + 1
            };
            proof {
                assert(level_i as nat == node_level(*self, i as int));
                assert(level_i <= i);
            }
            lv.push(level_i);
            i = i + 1;
        }
        // the number of levels is one more than the highest level
        let mut max_lv: usize = 0;
        let mut i2: usize = 0;
        proof {
            assert(Seq::new(0int as nat, |k: int| node_level(*self, k)) =~= Seq::<nat>::empty());
        }
        while i2 < n
            invariant
                self.wf(),
                n == self.nodes@.len(),
                i2 <= n,
                lv@.len() == n,
                forall|k: int|
                    0 <= k < n ==> #[trigger] lv@[k] as nat == node_level(*self, k) && lv@[k] <= k,
                max_lv as nat == max_of(Seq::new(i2 as nat, |k: int| node_level(*self, k))),
                max_lv < n || (n == 0 && max_lv == 0),
            decreases n - i2,
        {
            proof {
                let pref = Seq::new(i2 as nat + 1, |k: int| node_level(*self, k));
                assert(pref.drop_last() =~= Seq::new(i2 as nat, |k: int| node_level(*self, k)));
                assert(pref.last() == node_level(*self, i2 as int));
            }
            let li = lv[i2];
            if li > max_lv {
                max_lv = li;
            }
            i2 = i2 + 1;
        }
        let mut result: Vec<Vec<usize>> = Vec::new();
        if n == 0 {
            return result;
        }
        let height = max_lv + 1;
        let mut k: usize = 0;
        while k < height
            invariant
                self.wf(),
                n == self.nodes@.len(),
                n > 0,
                lv@.len() == n,
                forall|t: int|
                    0 <= t < n ==> #[trigger] lv@[t] as nat == node_level(*self, t) && lv@[t] <= t,
                height == max_lv + 1,
                max_lv as nat == max_of(Seq::new(n as nat, |t: int| node_level(*self, t))),
                k <= height,
                result@.len() == k,
                forall|q: int, m: int|
                    0 <= q < k && 0 <= m < result@[q]@.len() ==> {
                        &&& (#[trigger] result@[q]@[m]) < n
                        &&& node_level(*self, result@[q]@[m] as int) == q
                    },
                forall|t: int|
                    0 <= t < n && node_level(*self, t) < k ==> #[trigger] result@[node_level(
                        *self,
                        t,
                    ) as int]@.contains(t as usize),
                forall|q: int, m1: int, m2: int|
                    0 <= q < k && 0 <= m1 < m2 < result@[q]@.len() ==> (#[trigger] result@[q]@[m1])
                        < (#[trigger] result@[q]@[m2]),
            decreases height - k,
        {
            let mut level_nodes: Vec<usize> = Vec::new();
            let mut t: usize = 0;
            while t < n
                invariant
                    self.wf(),
                    n == self.nodes@.len(),
                    lv@.len() == n,
                    forall|u: int|
                        0 <= u < n ==> #[trigger] lv@[u] as nat == node_level(*self, u) && lv@[u]
                            <= u,
                    t <= n,
                    forall|m: int|
                        0 <= m < level_nodes@.len() ==> {
                            &&& (#[trigger] level_nodes@[m]) < t
                            &&& node_level(*self, level_nodes@[m] as int) == k as int
                        },
                    forall|u: int|
                        0 <= u < t && node_level(*self, u) == k as int
                            ==> level_nodes@.contains(u as usize),
                    forall|m1: int, m2: int|
                        0 <= m1 < m2 < level_nodes@.len() ==> (#[trigger] level_nodes@[m1]) < (
                        #[trigger] level_nodes@[m2]),
                decreases n - t,
            {
                let ghost old_ln = level_nodes@;
                if lv[t] == k {
                    proof {
                        assert(forall|m1: int|
                            0 <= m1 < level_nodes@.len() ==> (#[trigger] level_nodes@[m1]) < t);
                    }
                    level_nodes.push(t);
                    proof {
                        assert forall|u: int|
                            0 <= u < t + 1 && node_level(*self, u) == k as int implies
                            level_nodes@.contains(u as usize) by {
                            if u < t {
                                let m = choose|m: int| 0 <= m < old_ln.len() && old_ln[m] == u as usize;
                                assert(level_nodes@[m] == u as usize);
                            } else {
                                assert(level_nodes@.last() == t);
                            }
                        }
                    }
                }
                t = t + 1;
            }
            result.push(level_nodes);
            k = k + 1;
        }
        proof {
            assert forall|i3: int| 0 <= i3 < n implies #[trigger] result@[node_level(
                *self,
                i3,
            ) as int]@.contains(i3 as usize) by {
                let pref = Seq::new(n as nat, |t: int| node_level(*self, t));
                lemma_max_of_bound(pref, i3);
                assert(node_level(*self, i3) <= max_lv as nat);
            }
        }
        result
    }
}

/// A node sits strictly above every one of its dependencies: the nodes of
/// one level never depend on one another, and every dependency of a
/// level-k node lies in the levels below k.
pub proof fn lemma_level_dominates_deps(g: BuildGraph, i: int, j: int)
    requires
        g.wf(),
        0 <= i < g.nodes@.len(),
        0 <= j < g.nodes@[i].deps@.len(),
    ensures
        node_level(g, g.nodes@[i].deps@[j] as int) < node_level(g, i),
{
    let ds = g.nodes@[i].deps@;
    lemma_deps_level_max_bound(g, ds, i, j);
}

/// The maximum over the dependency levels is at least each one of them.
proof fn lemma_deps_level_max_bound(g: BuildGraph, ds: Seq<usize>, i: int, j: int)
    requires
        0 <= j < ds.len(),
        0 <= (ds[j] as int) < i,
    ensures
        deps_level_max(g, ds, i) >= node_level(g, ds[j] as int),
    decreases ds.len(),
{
    if j == ds.len() - 1 {
    } else {
        assert(ds.drop_last()[j] == ds[j]);
        lemma_deps_level_max_bound(g, ds.drop_last(), i, j);
    }
}

/// A dependency chain: consecutive elements are linked by dependency
/// edges, each earlier element a dependency of the next.
pub open spec fn is_chain(g: BuildGraph, c: Seq<usize>) -> bool {
    &&& c.len() > 0
    &&& forall|k: int| 0 <= k < c.len() ==> (#[trigger] c[k]) < g.nodes@.len()
    &&& forall|k: int|
        0 <= k < c.len() - 1 ==> g.nodes@[c[k + 1] as int].deps@.contains(#[trigger] c[k])
}

/// No dependency chain ending at a node is longer than the node's level:
/// the level is an upper bound on chain length.
pub proof fn lemma_chain_le_level(g: BuildGraph, c: Seq<usize>)
    requires
        g.wf(),
        is_chain(g, c),
    ensures
        c.len() - 1 <= node_level(g, c.last() as int),
    decreases c.len(),
{
    if c.len() > 1 {
        let prev = c.drop_last();
        assert(is_chain(g, prev)) by {
            assert(forall|k: int| 0 <= k < prev.len() ==> prev[k] == #[trigger] c[k]);
        }
        lemma_chain_le_level(g, prev);
        let i = c.last() as int;
        let d = c[c.len() - 2];
        assert(g.nodes@[i].deps@.contains(d));
        let j = choose|j: int| 0 <= j < g.nodes@[i].deps@.len() && g.nodes@[i].deps@[j] == d;
        lemma_level_dominates_deps(g, i, j);
        assert(node_level(g, d as int) < node_level(g, i));
    }
}

/// Some dependency chain ending at a node reaches its level exactly: the
/// level is the length of the longest dependency chain ending there.
pub proof fn lemma_level_attained(g: BuildGraph, i: int) -> (c: Seq<usize>)
    requires
        g.wf(),
        0 <= i < g.nodes@.len(),
    ensures
        is_chain(g, c),
        c.last() == i as usize,
        c.len() - 1 == node_level(g, i),
    decreases i,
{
    let ds = g.nodes@[i].deps@;
    if ds.len() == 0 {
        let c = seq![i as usize];
        assert(is_chain(g, c));
        c
    } else {
        let j = lemma_deps_level_max_attained(g, ds, i);
        let d = ds[j] as int;
        assert(d < i);
        let prev = lemma_level_attained(g, d);
        let c = prev.push(i as usize);
        assert(is_chain(g, c)) by {
            assert(forall|k: int| 0 <= k < prev.len() ==> c[k] == #[trigger] prev[k]);
            assert(c[c.len() - 2] == prev.last());
            assert(g.nodes@[i].deps@.contains(prev.last())) by {
                assert(ds[j] == prev.last());
            }
            assert(forall|k: int|
                0 <= k < prev.len() - 1 ==> g.nodes@[prev[k + 1] as int].deps@.contains(
                    #[trigger] prev[k],
                ));
            assert forall|k: int|
                0 <= k < c.len() - 1 implies g.nodes@[c[k + 1] as int].deps@.contains(
                #[trigger] c[k],
            ) by {
                if k < prev.len() - 1 {
                    assert(c[k] == prev[k] && c[k + 1] == prev[k + 1]);
                } else {
                    assert(c[k] == prev.last() && c[k + 1] == i as usize);
                }
            }
        }
        c
    }
}

/// The maximum over a non-empty dependency list is attained by one of its
/// entries.
proof fn lemma_deps_level_max_attained(g: BuildGraph, ds: Seq<usize>, i: int) -> (j: int)
    requires
        ds.len() > 0,
        forall|k: int| 0 <= k < ds.len() ==> (#[trigger] ds[k]) < i,
        0 <= i,
    ensures
        0 <= j < ds.len(),
        node_level(g, ds[j] as int) == deps_level_max(g, ds, i),
    decreases ds.len(),
{
    let last_level = node_level(g, ds.last() as int);
    if ds.len() == 1 {
        assert(deps_level_max(g, ds.drop_last(), i) == 0);
        ds.len() - 1
    } else {
        let rest = deps_level_max(g, ds.drop_last(), i);
        if last_level >= rest {
            ds.len() - 1
        } else {
            assert(forall|k: int|
                0 <= k < ds.drop_last().len() ==> ds.drop_last()[k] == #[trigger] ds[k]);
            let j = lemma_deps_level_max_attained(g, ds.drop_last(), i);
            j
        }
    }
}

/// Every entry of a sequence is at most its maximum.
pub proof fn lemma_max_of_bound(s: Seq<nat>, i: int)
    requires
        0 <= i < s.len(),
    ensures
        s[i] <= max_of(s),
    decreases s.len(),
{
    if i == s.len() - 1 {
    } else {
        assert(s.drop_last()[i] == s[i]);
        lemma_max_of_bound(s.drop_last(), i);
    }
}

} // verus!
