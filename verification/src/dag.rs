//! Building the dependency graph from a flat list of instructions.
//!
//! Each non-base instruction depends on its immediate predecessor; a `Run`
//! command additionally depends on every earlier `Copy` whose source path it
//! mentions. The result is acyclic by construction: all edges point
//! backwards.

use vstd::prelude::*;
use vstd::string::StringSliceAdditionalSpecFns;
use crate::graph::{BuildGraph, Node, NodeKind, NodeMetadata};
use crate::parser::{Instruction, starts_with};
use crate::strutil::contains_seq;

verus! {

/// The path a Copy-like instruction hashes from the filesystem: the project
/// root itself for `.`, an absolute source as it stands, and anything else
/// joined under the root.
pub open spec fn source_path_spec(root: Seq<char>, src: Seq<char>) -> Seq<char> {
    if src == "."@ {
        root
    } else if starts_with(src, "/"@) {
        src
    } else {
        root + "/"@ + src
    }
}

/// Replace the value under `k`, or append the binding if `k` is new.
pub open spec fn upsert(s: Seq<(Seq<char>, usize)>, k: Seq<char>, v: usize) -> Seq<
    (Seq<char>, usize),
>
    decreases s.len(),
{
    if s.len() == 0 {
        seq![(k, v)]
    } else if s[0].0 == k {
        seq![(k, v)] + s.drop_first()
    } else {
        seq![s[0]] + upsert(s.drop_first(), k, v)
    }
}

/// The Copy sources seen before instruction `i`, each with the ordinal of
/// the last Copy that introduced it.
pub open spec fn copy_sources_at(instrs: Seq<Instruction>, i: int) -> Seq<(Seq<char>, usize)>
    decreases i,
{
    if i <= 0 || i > instrs.len() {
        Seq::empty()
    } else {
        let prev = copy_sources_at(instrs, i - 1);
        match instrs[i - 1] {
            Instruction::Copy(src, _dst) => upsert(prev, src@, (i - 1) as usize),
            _ => prev,
        }
    }
}

/// Does the command text mention this source path, bare or `./`-prefixed?
pub open spec fn mentions(cmd: Seq<char>, src: Seq<char>) -> bool {
    contains_seq(cmd, src) || contains_seq(cmd, "./"@ + src)
}

/// The dependency list of a Run node: the base list, extended by each
/// mentioned Copy source's ordinal, in source order, without duplicates.
pub open spec fn run_deps(
    cmd: Seq<char>,
    sources: Seq<(Seq<char>, usize)>,
    base: Seq<usize>,
) -> Seq<usize>
    decreases sources.len(),
{
    if sources.len() == 0 {
        base
    } else {
        let base2 = if mentions(cmd, sources[0].0) && !base.contains(sources[0].1) {
            base.push(sources[0].1)
        } else {
            base
        };
        run_deps(cmd, sources.drop_first(), base2)
    }
}

/// The default dependency list: the immediately preceding node, if any.
pub open spec fn prev_dep(i: int) -> Seq<usize> {
    if i > 0 {
        seq![(i - 1) as usize]
    } else {
        Seq::empty()
    }
}

/// What the node built for instruction `i` looks like. Every node starts
/// with an empty key, clean and unserved; its kind, content, environment,
/// source path, tags, dependency list and parallelizable mark are fixed by
/// the instruction.
pub open spec fn node_built(instrs: Seq<Instruction>, root: Seq<char>, i: int, n: Node) -> bool {
    &&& n.id == i
    &&& n.hash@.len() == 0
    &&& !n.dirty
    &&& !n.cache_hit
    &&& n.name@ == n.content@
    &&& n.metadata.priority == 0
    &&& n.metadata.last_executed is None
    &&& n.metadata.execution_time_ms is None
    &&& n.metadata.source_content_hash is None
    &&& n.metadata.input_manifest_hash is None
    &&& n.metadata.output_manifest_hash is None
    &&& n.metadata.extra_source_paths@.len() == 0
    &&& match instrs[i] {
        Instruction::From(img) => {
            &&& n.content@ == "FROM "@ + img@
            &&& n.kind is From
            &&& n.deps@ == Seq::<usize>::empty()
            &&& n.source_path is None
            &&& n.env@.len() == 0
            &&& n.metadata.parallelizable == true
            &&& crate::strutil::seq_views(n.metadata.tags@) == Seq::<Seq<char>>::empty()
        },
        Instruction::Workdir(dir) => {
            &&& n.content@ == "WORKDIR "@ + dir@
            &&& n.kind is Workdir
            &&& n.deps@ == prev_dep(i)
            &&& n.source_path is None
            &&& n.env@.len() == 0
            &&& n.metadata.parallelizable == true
            &&& crate::strutil::seq_views(n.metadata.tags@) == Seq::<Seq<char>>::empty()
        },
        Instruction::Copy(src, dst) => {
            &&& n.content@ == "COPY "@ + src@ + " "@ + dst@
            &&& (n.kind matches NodeKind::Copy { src: ks, dst: kd } && ks@ == src@ && kd@ == dst@)
            &&& n.deps@ == prev_dep(i)
            &&& (n.source_path matches Some(p) && p@ == source_path_spec(root, src@))
            &&& n.env@.len() == 0
            &&& n.metadata.parallelizable == true
            &&& crate::strutil::seq_views(n.metadata.tags@) == seq!["copy"@]
        },
        Instruction::Run(cmd) => {
            &&& n.content@ == cmd@
            &&& n.kind is Run
            &&& n.deps@ == run_deps(cmd@, copy_sources_at(instrs, i), prev_dep(i))
            &&& n.source_path is None
            &&& n.env@.len() == 0
            &&& n.metadata.parallelizable == (!contains_seq(cmd@, "rm"@) && !contains_seq(
                cmd@,
                "mv"@,
            ) && !contains_seq(cmd@, "chmod"@))
            &&& crate::strutil::seq_views(n.metadata.tags@) == seq!["run"@]
        },
        Instruction::Env(k, v) => {
            &&& n.content@ == "ENV "@ + k@ + "="@ + v@
            &&& n.kind is Env
            &&& n.deps@ == prev_dep(i)
            &&& n.source_path is None
            &&& crate::strutil::pair_views(n.env@) == seq![(k@, v@)]
            &&& n.metadata.parallelizable == true
            &&& crate::strutil::seq_views(n.metadata.tags@) == seq!["env"@]
        },
        Instruction::Cmd(cmd) => {
            &&& n.content@ == "CMD "@ + cmd@
            &&& n.kind is Cmd
            &&& n.deps@ == prev_dep(i)
            &&& n.source_path is None
            &&& n.env@.len() == 0
            &&& n.metadata.parallelizable == true
            &&& crate::strutil::seq_views(n.metadata.tags@) == seq!["cmd"@]
        },
        Instruction::Git(url, target) => {
            &&& n.content@ == "GIT "@ + url@ + " "@ + target@
            &&& (n.kind matches NodeKind::Git { url: ku, target: kt } && ku@ == url@ && kt@
                == target@)
            &&& n.deps@ == prev_dep(i)
            &&& n.source_path is None
            &&& n.env@.len() == 0
            &&& n.metadata.parallelizable == true
            &&& crate::strutil::seq_views(n.metadata.tags@) == seq!["git"@]
        },
        Instruction::RunExtend(cmd, par) => {
            &&& n.content@ == cmd@
            &&& (n.kind matches NodeKind::RunExtend { command: kc, parallelizable: kp } && kc@
                == cmd@ && kp == par)
            &&& n.deps@ == prev_dep(i)
            &&& n.source_path is None
            &&& n.env@.len() == 0
            &&& n.metadata.parallelizable == par
            &&& crate::strutil::seq_views(n.metadata.tags@) == seq!["extension"@, "run-extend"@]
        },
        Instruction::CopyExtend(src, dst, tags) => {
            &&& n.content@ == "COPY_EXTEND "@ + src@ + " -> "@ + dst@
            &&& (n.kind matches NodeKind::CopyExtend { src: ks, dst: kd, tags: kt } && ks@ == src@
                && kd@ == dst@ && crate::strutil::seq_views(kt@) == crate::strutil::seq_views(
                tags@,
            ))
            &&& n.deps@ == prev_dep(i)
            &&& (n.source_path matches Some(p) && p@ == source_path_spec(root, src@))
            &&& n.env@.len() == 0
            &&& n.metadata.parallelizable == true
            &&& crate::strutil::seq_views(n.metadata.tags@) == crate::strutil::seq_views(tags@)
                + seq!["extension"@]
        },
        Instruction::Hook(name, params) => {
            &&& n.content@ == "HOOK "@ + name@ + joined_params(crate::strutil::seq_views(params@))
            &&& (n.kind matches NodeKind::CustomHook { hook_name: kn, params: kp } && kn@ == name@
                && crate::strutil::seq_views(kp@) == crate::strutil::seq_views(params@))
            &&& n.deps@ == prev_dep(i)
            &&& n.source_path is None
            &&& n.env@.len() == 0
            &&& n.metadata.parallelizable == false
            &&& crate::strutil::seq_views(n.metadata.tags@) == seq!["hook"@]
        },
        Instruction::Other(text) => {
            &&& n.content@ == text@
            &&& n.kind is Other
            &&& n.deps@ == prev_dep(i)
            &&& n.source_path is None
            &&& n.env@.len() == 0
            &&& n.metadata.parallelizable == false
            &&& crate::strutil::seq_views(n.metadata.tags@) == seq!["other"@]
        },
    }
}

/// Each parameter, preceded by one space.
pub open spec fn joined_params(params: Seq<Seq<char>>) -> Seq<char>
    decreases params.len(),
{
    if params.len() == 0 {
        Seq::empty()
    } else {
        joined_params(params.drop_last()) + " "@ + params.last()
    }
}

fn join_source_path(root: &str, src: &str) -> (r: String)
    ensures
        r@ == source_path_spec(root@, src@),
{
    proof {
        reveal_strlit(".");
        reveal_strlit("/");
    }
    if crate::strutil::str_eq(src, ".") {
        root.to_owned()
    } else if src.unicode_len() >= 1 && src.get_char(0) == '/' {
        proof {
            assert(src@.take(1) =~= "/"@);
        }
        src.to_owned()
    } else {
        proof {
            if starts_with(src@, "/"@) {
                assert(src@.take("/"@.len() as int)[0] == src@[0]);
                assert(src@[0] == '/');
            }
        }
        let mut p = root.to_owned();
        p.append("/");
        p.append(src);
        p
    }
}

fn push_tag(tags: &mut Vec<String>, tag: &str)
    ensures
        crate::strutil::seq_views(final(tags)@) == crate::strutil::seq_views(old(tags)@).push(
            tag@,
        ),
{
    tags.push(tag.to_owned());
    proof {
        assert(crate::strutil::seq_views(tags@) =~= crate::strutil::seq_views(old(tags)@).push(
            tag@,
        ));
    }
}

/// Convert a flat list of instructions into a build graph: one node per
/// instruction, a default dependency on the immediate predecessor, and
/// extra dependencies from Run commands onto the Copy nodes whose sources
/// they mention. The resulting graph is well-formed (acyclic).
#[verifier::rlimit(100)]
pub fn build_graph_from_instructions(instructions: Vec<Instruction>, project_root: String) -> (r:
    BuildGraph)
    ensures
        r.nodes@.len() == instructions@.len(),
        r.wf(),
        forall|i: int|
            0 <= i < instructions@.len() ==> node_built(
                instructions@,
                project_root@,
                i,
                #[trigger] r.nodes@[i],
            ),
{
    let n = instructions.len();
    let mut nodes: Vec<Node> = Vec::new();
    let mut copy_sources: Vec<(String, usize)> = Vec::new();
    let mut i: usize = 0;
    proof {
        assert(crate::strutil::pair_views_us(copy_sources@) =~= copy_sources_at(
            instructions@,
            0,
        ));
    }
    while i < n
        invariant
            n == instructions@.len(),
            i <= n,
            nodes@.len() == i,
            crate::strutil::pair_views_us(copy_sources@) == copy_sources_at(
                instructions@,
                i as int,
            ),
            forall|k: int|
                0 <= k < copy_sources@.len() ==> (#[trigger] copy_sources@[k]).1 < i,
            forall|k: int|
                0 <= k < i ==> node_built(instructions@, project_root@, k, #[trigger] nodes@[k]),
            forall|k: int|
                0 <= k < i ==> {
                    &&& (#[trigger] nodes@[k]).id == k
                    &&& forall|j: int|
                        0 <= j < nodes@[k].deps@.len() ==> (#[trigger] nodes@[k].deps@[j]) < k
                },
        decreases n - i,
    {
        let mut deps: Vec<usize> = Vec::new();
        if i > 0 {
            deps.push(i - 1);
        }
        proof {
            if i > 0 {
                assert(deps@ =~= prev_dep(i as int));
            } else {
                assert(deps@ =~= prev_dep(i as int));
            }
        }
        let mut metadata = NodeMetadata::default();
        let mut tags: Vec<String> = Vec::new();
        let mut env: Vec<(String, String)> = Vec::new();
        let mut source_path: Option<String> = None;
        let node: Node = match &instructions[i] {
            Instruction::From(img) => {
                let mut content = String::from_str("FROM ");
                content.append(img.as_str());
                metadata.parallelizable = true;
                proof {
                    assert(crate::strutil::seq_views(metadata.tags@) =~= Seq::<Seq<char>>::empty());
                }
                Node {
                    id: i,
                    name: content.clone(),
                    content,
                    kind: NodeKind::From,
                    hash: String::new(),
                    dirty: false,
                    deps: Vec::new(),
                    source_path: None,
                    env,
                    cache_hit: false,
                    metadata,
                }
            },
            Instruction::Workdir(dir) => {
                let mut content = String::from_str("WORKDIR ");
                content.append(dir.as_str());
                metadata.parallelizable = true;
                proof {
                    assert(crate::strutil::seq_views(metadata.tags@) =~= Seq::<Seq<char>>::empty());
                }
                Node {
                    id: i,
                    name: content.clone(),
                    content,
                    kind: NodeKind::Workdir,
                    hash: String::new(),
                    dirty: false,
                    deps,
                    source_path: None,
                    env,
                    cache_hit: false,
                    metadata,
                }
            },
            Instruction::Copy(src, dst) => {
                let mut content = String::from_str("COPY ");
                content.append(src.as_str());
                content.append(" ");
                content.append(dst.as_str());
                let path = join_source_path(project_root.as_str(), src.as_str());
                metadata.parallelizable = true;
                push_tag(&mut tags, "copy");
                proof {
                    assert(crate::strutil::seq_views(tags@) =~= seq!["copy"@]);
                }
                metadata.tags = tags;
                source_path = Some(path);
                let new_node = Node {
                    id: i,
                    name: content.clone(),
                    content,
                    kind: NodeKind::Copy { src: src.clone(), dst: dst.clone() },
                    hash: String::new(),
                    dirty: false,
                    deps,
                    source_path,
                    env,
                    cache_hit: false,
                    metadata,
                };
                let ghost old_sources = copy_sources@;
                upsert_source(&mut copy_sources, src, i);
                proof {
                    assert(crate::strutil::pair_views_us(copy_sources@) == upsert(
                        crate::strutil::pair_views_us(old_sources),
                        src@,
                        i as usize,
                    ));
                    assert(copy_sources_at(instructions@, i as int + 1) == upsert(
                        copy_sources_at(instructions@, i as int),
                        src@,
                        i as usize,
                    ));
                    lemma_upsert_bound(
                        crate::strutil::pair_views_us(old_sources),
                        src@,
                        i as usize,
                        i as int + 1,
                    );
                    assert forall|k: int| 0 <= k < copy_sources@.len() implies (
                    #[trigger] copy_sources@[k]).1 < i + 1 by {
                        assert(crate::strutil::pair_views_us(copy_sources@)[k].1
                            == copy_sources@[k].1);
                    }
                }
                new_node
            },
            Instruction::Run(cmd) => {
                let content = cmd.clone();
                let mut m: usize = 0;
                proof {
                    assert(crate::strutil::pair_views_us(copy_sources@).skip(0)
                        =~= crate::strutil::pair_views_us(copy_sources@));
                }
                while m < copy_sources.len()
                    invariant
                        m <= copy_sources@.len(),
                        i < n,
                        content@ == cmd@,
                        forall|k: int|
                            0 <= k < copy_sources@.len() ==> (#[trigger] copy_sources@[k]).1 < i,
                        run_deps(
                            cmd@,
                            crate::strutil::pair_views_us(copy_sources@),
                            prev_dep(i as int),
                        ) == run_deps(
                            cmd@,
                            crate::strutil::pair_views_us(copy_sources@).skip(m as int),
                            deps@,
                        ),
                        forall|k: int| 0 <= k < deps@.len() ==> (#[trigger] deps@[k]) < i,
                    decreases copy_sources@.len() - m,
                {
                    let ghost srcs = crate::strutil::pair_views_us(copy_sources@);
                    let src_str = copy_sources[m].0.as_str();
                    let mut dotted = String::from_str("./");
                    dotted.append(src_str);
                    let hit = crate::strutil::contains_sub(cmd.as_str(), src_str)
                        || crate::strutil::contains_sub(cmd.as_str(), dotted.as_str());
                    proof {
                        assert(srcs.skip(m as int)[0] == srcs[m as int]);
                        assert(srcs.skip(m as int).drop_first() =~= srcs.skip(m as int + 1));
                        assert(hit == mentions(cmd@, srcs[m as int].0));
                    }
                    if hit {
                        let idx = copy_sources[m].1;
                        let mut present = false;
                        let mut q: usize = 0;
                        while q < deps.len()
                            invariant
                                q <= deps@.len(),
                                idx == copy_sources@[m as int].1,
                                present == deps@.take(q as int).contains(idx),
                            decreases deps@.len() - q,
                        {
                            if deps[q] == idx {
                                present = true;
                            }
                            proof {
                                let t1 = deps@.take(q as int + 1);
                                assert(t1 =~= deps@.take(q as int).push(deps@[q as int]));
                                if deps@.take(q as int).contains(idx) {
                                    let w = choose|w: int|
                                        0 <= w < deps@.take(q as int).len() && deps@.take(
                                            q as int,
                                        )[w] == idx;
                                    assert(t1[w] == idx);
                                }
                                if deps@[q as int] == idx {
                                    assert(t1[q as int] == idx);
                                }
                                if t1.contains(idx) {
                                    let w = choose|w: int| 0 <= w < t1.len() && t1[w] == idx;
                                    if w < q {
                                        assert(deps@.take(q as int)[w] == idx);
                                    }
                                }
                            }
                            q = q + 1;
                        }
                        proof {
                            assert(deps@.take(deps@.len() as int) =~= deps@);
                        }
                        if !present {
                            deps.push(idx);
                        }
                    }
                    m = m + 1;
                }
                proof {
                    let srcs = crate::strutil::pair_views_us(copy_sources@);
                    assert(srcs.skip(srcs.len() as int).len() == 0);
                    assert(deps@ == run_deps(cmd@, srcs, prev_dep(i as int)));
                }
                let par = !crate::strutil::contains_sub(cmd.as_str(), "rm")
                    && !crate::strutil::contains_sub(cmd.as_str(), "mv")
                    && !crate::strutil::contains_sub(cmd.as_str(), "chmod");
                metadata.parallelizable = par;
                push_tag(&mut tags, "run");
                proof {
                    assert(crate::strutil::seq_views(tags@) =~= seq!["run"@]);
                }
                metadata.tags = tags;
                Node {
                    id: i,
                    name: content.clone(),
                    content,
                    kind: NodeKind::Run,
                    hash: String::new(),
                    dirty: false,
                    deps,
                    source_path: None,
                    env,
                    cache_hit: false,
                    metadata,
                }
            },
            Instruction::Env(k, v) => {
                let mut content = String::from_str("ENV ");
                content.append(k.as_str());
                content.append("=");
                content.append(v.as_str());
                env.push((k.clone(), v.clone()));
                proof {
                    assert(crate::strutil::pair_views(env@) =~= seq![(k@, v@)]);
                }
                metadata.parallelizable = true;
                push_tag(&mut tags, "env");
                proof {
                    assert(crate::strutil::seq_views(tags@) =~= seq!["env"@]);
                }
                metadata.tags = tags;
                Node {
                    id: i,
                    name: content.clone(),
                    content,
                    kind: NodeKind::Env,
                    hash: String::new(),
                    dirty: false,
                    deps,
                    source_path: None,
                    env,
                    cache_hit: false,
                    metadata,
                }
            },
            Instruction::Cmd(cmd) => {
                let mut content = String::from_str("CMD ");
                content.append(cmd.as_str());
                metadata.parallelizable = true;
                push_tag(&mut tags, "cmd");
                proof {
                    assert(crate::strutil::seq_views(tags@) =~= seq!["cmd"@]);
                }
                metadata.tags = tags;
                Node {
                    id: i,
                    name: content.clone(),
                    content,
                    kind: NodeKind::Cmd,
                    hash: String::new(),
                    dirty: false,
                    deps,
                    source_path: None,
                    env,
                    cache_hit: false,
                    metadata,
                }
            },
            Instruction::Git(url, target) => {
                let mut content = String::from_str("GIT ");
                content.append(url.as_str());
                content.append(" ");
                content.append(target.as_str());
                metadata.parallelizable = true;
                push_tag(&mut tags, "git");
                proof {
                    assert(crate::strutil::seq_views(tags@) =~= seq!["git"@]);
                }
                metadata.tags = tags;
                Node {
                    id: i,
                    name: content.clone(),
                    content,
                    kind: NodeKind::Git { url: url.clone(), target: target.clone() },
                    hash: String::new(),
                    dirty: false,
                    deps,
                    source_path: None,
                    env,
                    cache_hit: false,
                    metadata,
                }
            },
            Instruction::RunExtend(cmd, par) => {
                let content = cmd.clone();
                metadata.parallelizable = *par;
                push_tag(&mut tags, "extension");
                push_tag(&mut tags, "run-extend");
                proof {
                    assert(crate::strutil::seq_views(tags@) =~= seq!["extension"@, "run-extend"@]);
                }
                metadata.tags = tags;
                Node {
                    id: i,
                    name: content.clone(),
                    content,
                    kind: NodeKind::RunExtend { command: cmd.clone(), parallelizable: *par },
                    hash: String::new(),
                    dirty: false,
                    deps,
                    source_path: None,
                    env,
                    cache_hit: false,
                    metadata,
                }
            },
            Instruction::CopyExtend(src, dst, ext_tags) => {
                let mut content = String::from_str("COPY_EXTEND ");
                content.append(src.as_str());
                content.append(" -> ");
                content.append(dst.as_str());
                let path = join_source_path(project_root.as_str(), src.as_str());
                metadata.parallelizable = true;
                let mut q: usize = 0;
                proof {
                    assert(crate::strutil::seq_views(tags@) =~= crate::strutil::seq_views(
                        ext_tags@,
                    ).take(0));
                }
                while q < ext_tags.len()
                    invariant
                        q <= ext_tags@.len(),
                        crate::strutil::seq_views(tags@) == crate::strutil::seq_views(
                            ext_tags@,
                        ).take(q as int),
                    decreases ext_tags@.len() - q,
                {
                    let ghost old_tags = tags@;
                    tags.push(ext_tags[q].clone());
                    proof {
                        assert(crate::strutil::seq_views(tags@) =~= crate::strutil::seq_views(
                            old_tags,
                        ).push(crate::strutil::seq_views(ext_tags@)[q as int]));
                        assert(crate::strutil::seq_views(tags@) =~= crate::strutil::seq_views(
                            ext_tags@,
                        ).take(q as int + 1));
                    }
                    q = q + 1;
                }
                proof {
                    assert(crate::strutil::seq_views(ext_tags@).take(ext_tags@.len() as int)
                        =~= crate::strutil::seq_views(ext_tags@));
                }
                push_tag(&mut tags, "extension");
                proof {
                    assert(crate::strutil::seq_views(tags@) =~= crate::strutil::seq_views(
                        ext_tags@,
                    ) + seq!["extension"@]);
                }
                metadata.tags = tags;
                source_path = Some(path);
                let mut kind_tags: Vec<String> = Vec::new();
                let mut q2: usize = 0;
                proof {
                    assert(crate::strutil::seq_views(kind_tags@) =~= crate::strutil::seq_views(
                        ext_tags@,
                    ).take(0));
                }
                while q2 < ext_tags.len()
                    invariant
                        q2 <= ext_tags@.len(),
                        crate::strutil::seq_views(kind_tags@) == crate::strutil::seq_views(
                            ext_tags@,
                        ).take(q2 as int),
                    decreases ext_tags@.len() - q2,
                {
                    let ghost old_kt = kind_tags@;
                    kind_tags.push(ext_tags[q2].clone());
                    proof {
                        assert(crate::strutil::seq_views(kind_tags@) =~= crate::strutil::seq_views(
                            old_kt,
                        ).push(crate::strutil::seq_views(ext_tags@)[q2 as int]));
                        assert(crate::strutil::seq_views(kind_tags@) =~= crate::strutil::seq_views(
                            ext_tags@,
                        ).take(q2 as int + 1));
                    }
                    q2 = q2 + 1;
                }
                proof {
                    assert(crate::strutil::seq_views(ext_tags@).take(ext_tags@.len() as int)
                        =~= crate::strutil::seq_views(ext_tags@));
                }
                Node {
                    id: i,
                    name: content.clone(),
                    content,
                    kind: NodeKind::CopyExtend {
                        src: src.clone(),
                        dst: dst.clone(),
                        tags: kind_tags,
                    },
                    hash: String::new(),
                    dirty: false,
                    deps,
                    source_path,
                    env,
                    cache_hit: false,
                    metadata,
                }
            },
            Instruction::Hook(hook_name, params) => {
                let mut content = String::from_str("HOOK ");
                content.append(hook_name.as_str());
                let mut q: usize = 0;
                proof {
                    assert(content@ =~= "HOOK "@ + hook_name@ + joined_params(
                        crate::strutil::seq_views(params@).take(0),
                    ));
                }
                while q < params.len()
                    invariant
                        q <= params@.len(),
                        content@ == "HOOK "@ + hook_name@ + joined_params(
                            crate::strutil::seq_views(params@).take(q as int),
                        ),
                    decreases params@.len() - q,
                {
                    content.append(" ");
                    content.append(params[q].as_str());
                    proof {
                        let pv = crate::strutil::seq_views(params@);
                        assert(pv.take(q as int + 1).drop_last() =~= pv.take(q as int));
                        assert(pv.take(q as int + 1).last() == pv[q as int]);
                        assert(content@ =~= "HOOK "@ + hook_name@ + joined_params(
                            pv.take(q as int + 1),
                        ));
                    }
                    q = q + 1;
                }
                proof {
                    let pv = crate::strutil::seq_views(params@);
                    assert(pv.take(pv.len() as int) =~= pv);
                }
                let mut kind_params: Vec<String> = Vec::new();
                let mut q2: usize = 0;
                proof {
                    assert(crate::strutil::seq_views(kind_params@) =~= crate::strutil::seq_views(
                        params@,
                    ).take(0));
                }
                while q2 < params.len()
                    invariant
                        q2 <= params@.len(),
                        crate::strutil::seq_views(kind_params@) == crate::strutil::seq_views(
                            params@,
                        ).take(q2 as int),
                    decreases params@.len() - q2,
                {
                    let ghost old_kp = kind_params@;
                    kind_params.push(params[q2].clone());
                    proof {
                        assert(crate::strutil::seq_views(kind_params@)
                            =~= crate::strutil::seq_views(old_kp).push(
                            crate::strutil::seq_views(params@)[q2 as int],
                        ));
                        assert(crate::strutil::seq_views(kind_params@)
                            =~= crate::strutil::seq_views(params@).take(q2 as int + 1));
                    }
                    q2 = q2 + 1;
                }
                proof {
                    assert(crate::strutil::seq_views(params@).take(params@.len() as int)
                        =~= crate::strutil::seq_views(params@));
                }
                metadata.parallelizable = false;
                push_tag(&mut tags, "hook");
                proof {
                    assert(crate::strutil::seq_views(tags@) =~= seq!["hook"@]);
                }
                metadata.tags = tags;
                Node {
                    id: i,
                    name: content.clone(),
                    content,
                    kind: NodeKind::CustomHook { hook_name: hook_name.clone(), params: kind_params },
                    hash: String::new(),
                    dirty: false,
                    deps,
                    source_path: None,
                    env,
                    cache_hit: false,
                    metadata,
                }
            },
            Instruction::Other(text) => {
                let content = text.clone();
                metadata.parallelizable = false;
                push_tag(&mut tags, "other");
                proof {
                    assert(crate::strutil::seq_views(tags@) =~= seq!["other"@]);
                }
                metadata.tags = tags;
                Node {
                    id: i,
                    name: content.clone(),
                    content,
                    kind: NodeKind::Other,
                    hash: String::new(),
                    dirty: false,
                    deps,
                    source_path: None,
                    env,
                    cache_hit: false,
                    metadata,
                }
            },
        };
        proof {
            if !(instructions@[i as int] matches Instruction::Copy(_, _)) {
                assert(copy_sources_at(instructions@, i as int + 1) == copy_sources_at(
                    instructions@,
                    i as int,
                ));
            }
            assert(node_built(instructions@, project_root@, i as int, node));
        }
        nodes.push(node);
        i = i + 1;
    }
    let graph = BuildGraph { nodes };
    proof {
        assert(graph.wf());
    }
    graph
}

/// Record a Copy source: replace the ordinal stored under an existing
/// source path, or append the new binding.
fn upsert_source(sources: &mut Vec<(String, usize)>, key: &String, value: usize)
    ensures
        crate::strutil::pair_views_us(final(sources)@) == upsert(
            crate::strutil::pair_views_us(old(sources)@),
            key@,
            value,
        ),
{
    let mut q: usize = 0;
    while q < sources.len()
        invariant
            q <= sources@.len(),
            sources@ == old(sources)@,
            forall|k: int| 0 <= k < q ==> (#[trigger] sources@[k]).0@ != key@,
        decreases sources@.len() - q,
    {
        if crate::strutil::str_eq(sources[q].0.as_str(), key.as_str()) {
            let node = &mut sources[q];
            node.1 = value;
            proof {
                lemma_upsert_at(crate::strutil::pair_views_us(old(sources)@), key@, value, q as int);
                assert(crate::strutil::pair_views_us(sources@) =~= crate::strutil::pair_views_us(
                    old(sources)@,
                ).update(q as int, (key@, value)));
                assert(crate::strutil::pair_views_us(sources@) =~= upsert(
                    crate::strutil::pair_views_us(old(sources)@),
                    key@,
                    value,
                ));
            }
            return ;
        }
        q = q + 1;
    }
    sources.push((key.clone(), value));
    proof {
        lemma_upsert_missing(crate::strutil::pair_views_us(old(sources)@), key@, value);
        assert(crate::strutil::pair_views_us(sources@) =~= crate::strutil::pair_views_us(
            old(sources)@,
        ).push((key@, value)));
        assert(crate::strutil::pair_views_us(sources@) =~= upsert(
            crate::strutil::pair_views_us(old(sources)@),
            key@,
            value,
        ));
    }
}

proof fn lemma_upsert_at(s: Seq<(Seq<char>, usize)>, k: Seq<char>, v: usize, q: int)
    requires
        0 <= q < s.len(),
        forall|m: int| 0 <= m < q ==> (#[trigger] s[m]).0 != k,
        s[q].0 == k,
    ensures
        upsert(s, k, v) == s.update(q, (k, v)),
    decreases q,
{
    if q == 0 {
        assert(upsert(s, k, v) =~= s.update(0, (k, v)));
    } else {
        assert(s[0].0 != k);
        assert(forall|m: int| 0 <= m < q - 1 ==> s.drop_first()[m] == #[trigger] s[m + 1]);
        lemma_upsert_at(s.drop_first(), k, v, q - 1);
        assert(upsert(s, k, v) =~= s.update(q, (k, v)));
    }
}

proof fn lemma_upsert_missing(s: Seq<(Seq<char>, usize)>, k: Seq<char>, v: usize)
    requires
        forall|m: int| 0 <= m < s.len() ==> (#[trigger] s[m]).0 != k,
    ensures
        upsert(s, k, v) == s.push((k, v)),
    decreases s.len(),
{
    if s.len() == 0 {
        assert(upsert(s, k, v) =~= s.push((k, v)));
    } else {
        assert(s[0].0 != k);
        assert(forall|m: int| 0 <= m < s.drop_first().len() ==> s.drop_first()[m] == #[trigger] s[m
            + 1]);
        lemma_upsert_missing(s.drop_first(), k, v);
        assert(upsert(s, k, v) =~= s.push((k, v)));
    }
}

proof fn lemma_upsert_bound(s: Seq<(Seq<char>, usize)>, k: Seq<char>, v: usize, b: int)
    requires
        forall|m: int| 0 <= m < s.len() ==> (#[trigger] s[m]).1 < b,
        v < b,
    ensures
        forall|m: int| 0 <= m < upsert(s, k, v).len() ==> (#[trigger] upsert(s, k, v)[m]).1 < b,
    decreases s.len(),
{
    if s.len() == 0 {
    } else if s[0].0 == k {
        assert(forall|m: int|
            0 <= m < s.drop_first().len() ==> s.drop_first()[m] == #[trigger] s[m + 1]);
    } else {
        assert(forall|m: int|
            0 <= m < s.drop_first().len() ==> s.drop_first()[m] == #[trigger] s[m + 1]);
        lemma_upsert_bound(s.drop_first(), k, v, b);
        let u = upsert(s, k, v);
        assert(u =~= seq![s[0]] + upsert(s.drop_first(), k, v));
        assert forall|m: int| 0 <= m < u.len() implies (#[trigger] u[m]).1 < b by {
            if m == 0 {
                assert(u[0] == s[0]);
            } else {
                assert(u[m] == upsert(s.drop_first(), k, v)[m - 1]);
            }
        }
    }
}

} // verus!
