//! OCI image export data: the config, manifest and index records an
//! exported image consists of. Writing the layout to disk and building the
//! layer tarballs happen outside the library.

use vstd::prelude::*;
use vstd::string::StringSliceAdditionalSpecFns;
use crate::graph::BuildGraph;

verus! {

/// An image config document.
pub struct OCIConfig {
    pub architecture: String,
    pub os: String,
    pub config: OCIImageConfig,
    pub rootfs: OCIRootFS,
    pub history: Vec<OCIHistory>,
}

/// The runtime part of an image config.
pub struct OCIImageConfig {
    pub env: Vec<String>,
    pub cmd: Option<Vec<String>>,
    pub working_dir: Option<String>,
}

/// The filesystem part of an image config.
pub struct OCIRootFS {
    pub fs_type: String,
    pub diff_ids: Vec<String>,
}

/// One build step's record in the config history.
pub struct OCIHistory {
    pub created: String,
    pub created_by: String,
    pub empty_layer: Option<bool>,
}

/// One produced layer: its compressed digest, size, and uncompressed
/// diff id.
pub struct LayerInfo {
    pub digest: String,
    pub size: u64,
    pub diff_id: String,
}

/// An image manifest.
pub struct OCIManifest {
    pub schema_version: u32,
    pub media_type: String,
    pub config: OCIDescriptor,
    pub layers: Vec<OCIDescriptor>,
}

/// A content descriptor.
pub struct OCIDescriptor {
    pub media_type: String,
    pub digest: String,
    pub size: u64,
}

/// The image index.
pub struct OCIIndex {
    pub schema_version: u32,
    pub manifests: Vec<OCIDescriptor>,
}

/// Relies on chrono::Utc::now: the current wall-clock time, rendered
/// RFC 3339. Nothing is assumed of the value; reproducible exports never
/// call it. The call aborts on a system clock reading before the Unix
/// epoch — an environment condition no input controls.
#[verifier::external_body]
fn now_rfc3339() -> (r: String) {
    chrono::Utc::now().to_rfc3339()
}

/// The `k=v` strings of every node's environment bindings, in node order.
pub open spec fn env_strings(nodes: Seq<crate::graph::Node>) -> Seq<Seq<char>>
    decreases nodes.len(),
{
    if nodes.len() == 0 {
        Seq::empty()
    } else {
        env_strings(nodes.drop_last()) + pair_strings(
            crate::strutil::pair_views(nodes.last().env@),
        )
    }
}

/// Each binding as `k=v`.
pub open spec fn pair_strings(pairs: Seq<(Seq<char>, Seq<char>)>) -> Seq<Seq<char>>
    decreases pairs.len(),
{
    if pairs.len() == 0 {
        Seq::empty()
    } else {
        pair_strings(pairs.drop_last()).push(pairs.last().0 + "="@ + pairs.last().1)
    }
}

/// Build the image config for a graph: fixed platform, the nodes' collected
/// environment, the layers' diff ids, and one history record per node. In
/// reproducible mode every timestamp is the Unix epoch, so two exports of
/// the same graph are identical; otherwise the current time is stamped on
/// every record alike.
pub fn create_config(graph: &BuildGraph, layers: &Vec<LayerInfo>, reproducible: bool) -> (r:
    OCIConfig)
    ensures
        r.architecture@ == "amd64"@,
        r.os@ == "linux"@,
        crate::strutil::seq_views(r.config.env@) == env_strings(graph.nodes@),
        (r.config.cmd matches Some(c) && crate::strutil::seq_views(c@) == seq!["/bin/sh"@]),
        (r.config.working_dir matches Some(w) && w@ == "/"@),
        r.rootfs.fs_type@ == "layers"@,
        crate::strutil::seq_views(r.rootfs.diff_ids@) == Seq::new(
            layers@.len(),
            |i: int| layers@[i].diff_id@,
        ),
        r.history@.len() == graph.nodes@.len(),
        forall|i: int|
            0 <= i < r.history@.len() ==> {
                &&& (#[trigger] r.history@[i]).created_by@ == "MemoBuild: "@
                    + graph.nodes@[i].name@
                &&& r.history@[i].empty_layer matches Some(b) && b == false
                &&& (reproducible ==> r.history@[i].created@ == "1970-01-01T00:00:00Z"@)
                &&& (i > 0 ==> r.history@[i].created@ == r.history@[i - 1].created@)
            },
{
    let timestamp: String = if reproducible {
        String::from_str("1970-01-01T00:00:00Z")
    } else {
        now_rfc3339()
    };
    let mut env: Vec<String> = Vec::new();
    let mut i: usize = 0;
    proof {
        assert(graph.nodes@.take(0) =~= Seq::<crate::graph::Node>::empty());
        assert(crate::strutil::seq_views(env@) =~= env_strings(graph.nodes@.take(0)));
    }
    while i < graph.nodes.len()
        invariant
            i <= graph.nodes@.len(),
            crate::strutil::seq_views(env@) == env_strings(graph.nodes@.take(i as int)),
        decreases graph.nodes@.len() - i,
    {
        let node_env = &graph.nodes[i].env;
        let mut q: usize = 0;
        proof {
            let pv = crate::strutil::pair_views(node_env@);
            assert(pair_strings(pv.take(0)) =~= Seq::<Seq<char>>::empty());
            assert(crate::strutil::seq_views(env@) =~= env_strings(graph.nodes@.take(i as int))
                + pair_strings(pv.take(0)));
        }
        while q < node_env.len()
            invariant
                i < graph.nodes@.len(),
                node_env == graph.nodes@[i as int].env,
                q <= node_env@.len(),
                crate::strutil::seq_views(env@) == env_strings(graph.nodes@.take(i as int))
                    + pair_strings(crate::strutil::pair_views(node_env@).take(q as int)),
            decreases node_env@.len() - q,
        {
            let mut kv = node_env[q].0.clone();
            kv.append("=");
            kv.append(node_env[q].1.as_str());
            let ghost old_env = env@;
            env.push(kv);
            proof {
                let pv = crate::strutil::pair_views(node_env@);
                assert(pv.take(q as int + 1).drop_last() =~= pv.take(q as int));
                assert(pv.take(q as int + 1).last() == pv[q as int]);
                assert(crate::strutil::seq_views(env@) =~= crate::strutil::seq_views(
                    old_env,
                ).push(pv[q as int].0 + "="@ + pv[q as int].1));
                assert(crate::strutil::seq_views(env@) =~= env_strings(
                    graph.nodes@.take(i as int),
                ) + pair_strings(pv.take(q as int + 1)));
            }
            q = q + 1;
        }
        proof {
            let pv = crate::strutil::pair_views(node_env@);
            assert(pv.take(pv.len() as int) =~= pv);
            assert(graph.nodes@.take(i as int + 1).drop_last() =~= graph.nodes@.take(i as int));
            assert(graph.nodes@.take(i as int + 1).last() == graph.nodes@[i as int]);
        }
        i = i + 1;
    }
    proof {
        assert(graph.nodes@.take(graph.nodes@.len() as int) =~= graph.nodes@);
    }
    let mut diff_ids: Vec<String> = Vec::new();
    let mut d: usize = 0;
    let ghost diff_target = Seq::new(layers@.len(), |k: int| layers@[k].diff_id@);
    proof {
        assert(crate::strutil::seq_views(diff_ids@) =~= diff_target.take(0));
    }
    while d < layers.len()
        invariant
            d <= layers@.len(),
            diff_target == Seq::new(layers@.len(), |k: int| layers@[k].diff_id@),
            crate::strutil::seq_views(diff_ids@) == diff_target.take(d as int),
        decreases layers@.len() - d,
    {
        let ghost old_ids = diff_ids@;
        diff_ids.push(layers[d].diff_id.clone());
        proof {
            assert(crate::strutil::seq_views(diff_ids@) =~= crate::strutil::seq_views(
                old_ids,
            ).push(diff_target[d as int]));
            assert(crate::strutil::seq_views(diff_ids@) =~= diff_target.take(d as int + 1));
        }
        d = d + 1;
    }
    proof {
        assert(diff_target.take(diff_target.len() as int) =~= diff_target);
    }
    let mut history: Vec<OCIHistory> = Vec::new();
    let mut h: usize = 0;
    while h < graph.nodes.len()
        invariant
            h <= graph.nodes@.len(),
            history@.len() == h,
            forall|k: int|
                0 <= k < h ==> {
                    &&& (#[trigger] history@[k]).created_by@ == "MemoBuild: "@
                        + graph.nodes@[k].name@
                    &&& history@[k].empty_layer matches Some(b) && b == false
                    &&& history@[k].created@ == timestamp@
                },
        decreases graph.nodes@.len() - h,
    {
        let mut created_by = String::from_str("MemoBuild: ");
        created_by.append(graph.nodes[h].name.as_str());
        history.push(
            OCIHistory { created: timestamp.clone(), created_by, empty_layer: Some(false) },
        );
        h = h + 1;
    }
    let mut cmd_vec: Vec<String> = Vec::new();
    cmd_vec.push(String::from_str("/bin/sh"));
    proof {
        assert(crate::strutil::seq_views(cmd_vec@) =~= seq!["/bin/sh"@]);
    }
    OCIConfig {
        architecture: String::from_str("amd64"),
        os: String::from_str("linux"),
        config: OCIImageConfig {
            env,
            cmd: Some(cmd_vec),
            working_dir: Some(String::from_str("/")),
        },
        rootfs: OCIRootFS { fs_type: String::from_str("layers"), diff_ids },
        history,
    }
}

/// The short display form of a `sha256:…` digest: the first eight hex
/// characters after the algorithm prefix, or the digest unchanged when it
/// is too short to carry one.
pub fn status_hash(digest: &str) -> (r: String)
    ensures
        digest@.len() > 15 ==> r@ == digest@.subrange(7, 15),
        digest@.len() <= 15 ==> r@ == digest@,
{
    let n = digest.unicode_len();
    if n > 15 {
        digest.substring_char(7, 15).to_owned()
    } else {
        digest.to_owned()
    }
}

/// An exporter accumulating the layers of one image under an output
/// directory.
pub struct OciExporter {
    pub output_dir: String,
    pub layers: Vec<LayerInfo>,
}

impl OciExporter {
    /// A fresh exporter for the given output directory, with no layers yet.
    pub fn new(output_dir: String) -> (r: OciExporter)
        ensures
            r.output_dir == output_dir,
            r.layers@.len() == 0,
    {
        OciExporter { output_dir, layers: Vec::new() }
    }

    /// Record one produced layer, in order.
    pub fn add_layer(&mut self, layer_info: LayerInfo) -> (r: Result<(), crate::error::MemoBuildError>)
        ensures
            r is Ok,
            final(self).output_dir == old(self).output_dir,
            final(self).layers@ == old(self).layers@.push(layer_info),
    {
        self.layers.push(layer_info);
        Ok(())
    }
}

} // verus!
