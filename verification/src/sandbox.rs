//! Sandbox data model and command planning: what a node executes, with
//! which environment, in which workspace. Process execution itself happens
//! outside the library; the plan computed here fixes it completely.

use vstd::prelude::*;
use crate::graph::{Node, NodeKind};
use crate::dag::joined_params;

verus! {

/// Which sandbox implementation runs commands.
pub enum SandboxKind {
    Local,
    Containerd,
}

/// Resource limits a sandbox may enforce.
pub struct ResourceLimits {
    pub cpu_shares: Option<u64>,
    pub memory_mb: Option<u64>,
}

impl Default for ResourceLimits {
    /// No limits.
    fn default() -> (r: ResourceLimits)
        ensures
            r.cpu_shares is None,
            r.memory_mb is None,
    {
        ResourceLimits { cpu_shares: None, memory_mb: None }
    }
}

/// A prepared workspace for one node's execution.
pub struct SandboxEnv {
    /// The working directory the command runs in.
    pub workspace_dir: String,
    /// The environment handed to the command.
    pub env_vars: Vec<(String, String)>,
}

/// The captured outcome of one command.
pub struct ExecResult {
    pub exit_code: i32,
    pub stdout: Vec<u8>,
    pub stderr: Vec<u8>,
}

/// What a node's execution amounts to.
pub enum CommandPlan {
    /// Run this text through the host shell in the workspace.
    Shell(String),
    /// Copy the source into the destination inside the workspace.
    CopyPath { src: String, dst: String },
    /// No command runs; the node's artifact is this synthetic output.
    Synthetic(String),
}

/// The shell text a runnable node executes: the Run content, the extended
/// command, or the hook name followed by its parameters.
pub open spec fn shell_text(n: Node) -> Seq<char> {
    match n.kind {
        NodeKind::Run => n.content@,
        NodeKind::RunExtend { command, .. } => command@,
        NodeKind::CustomHook { hook_name, params } => hook_name@ + joined_params(
            crate::strutil::seq_views(params@),
        ),
        _ => Seq::empty(),
    }
}

/// What `plan_command` decides for each node kind.
pub open spec fn plan_spec(n: Node, plan: CommandPlan) -> bool {
    match n.kind {
        NodeKind::Run => plan matches CommandPlan::Shell(c) && c@ == shell_text(n),
        NodeKind::RunExtend { .. } => plan matches CommandPlan::Shell(c) && c@ == shell_text(n),
        NodeKind::CustomHook { .. } => plan matches CommandPlan::Shell(c) && c@ == shell_text(n),
        NodeKind::CopyExtend { src, dst, .. } => plan matches CommandPlan::CopyPath {
            src: ps,
            dst: pd,
        } && ps@ == src@ && pd@ == dst@,
        _ => plan matches CommandPlan::Synthetic(out) && out@ == "Artifact for "@ + n.name@,
    }
}

/// The local sandbox: commands run through the host shell inside a fixed
/// workspace directory; cleanup is a no-op.
pub struct LocalSandbox {
    pub workspace_dir: String,
}

impl LocalSandbox {
    pub fn new(workspace_dir: String) -> (r: LocalSandbox)
        ensures
            r.workspace_dir == workspace_dir,
    {
        LocalSandbox { workspace_dir }
    }

    /// Prepare a workspace: the configured directory and the node's own
    /// environment bindings.
    pub fn prepare_env(&self, node: &Node) -> (r: SandboxEnv)
        ensures
            r.workspace_dir@ == self.workspace_dir@,
            crate::strutil::pair_views(r.env_vars@) == crate::strutil::pair_views(node.env@),
    {
        let mut env_vars: Vec<(String, String)> = Vec::new();
        let mut i: usize = 0;
        proof {
            assert(crate::strutil::pair_views(env_vars@) =~= crate::strutil::pair_views(
                node.env@,
            ).take(0));
        }
        while i < node.env.len()
            invariant
                i <= node.env@.len(),
                crate::strutil::pair_views(env_vars@) == crate::strutil::pair_views(
                    node.env@,
                ).take(i as int),
            decreases node.env@.len() - i,
        {
            let ghost old_env = env_vars@;
            env_vars.push((node.env[i].0.clone(), node.env[i].1.clone()));
            proof {
                assert(crate::strutil::pair_views(env_vars@) =~= crate::strutil::pair_views(
                    old_env,
                ).push(crate::strutil::pair_views(node.env@)[i as int]));
                assert(crate::strutil::pair_views(env_vars@) =~= crate::strutil::pair_views(
                    node.env@,
                ).take(i as int + 1));
            }
            i = i + 1;
        }
        proof {
            let pv = crate::strutil::pair_views(node.env@);
            assert(pv.take(pv.len() as int) =~= pv);
        }
        SandboxEnv { workspace_dir: self.workspace_dir.clone(), env_vars }
    }
}

/// Decide what a node executes: runnable kinds go through the shell,
/// extended copies become filesystem copies, and every other kind yields a
/// synthetic artifact without running anything.
pub fn plan_command(node: &Node) -> (r: CommandPlan)
    ensures
        plan_spec(*node, r),
{
    match &node.kind {
        NodeKind::Run => CommandPlan::Shell(node.content.clone()),
        NodeKind::RunExtend { command, .. } => CommandPlan::Shell(command.clone()),
        NodeKind::CustomHook { hook_name, params } => {
            let mut s = hook_name.clone();
            let mut q: usize = 0;
            proof {
                assert(s@ =~= hook_name@ + joined_params(
                    crate::strutil::seq_views(params@).take(0),
                ));
            }
            while q < params.len()
                invariant
                    q <= params@.len(),
                    s@ == hook_name@ + joined_params(
                        crate::strutil::seq_views(params@).take(q as int),
                    ),
                decreases params@.len() - q,
            {
                s.append(" ");
                s.append(params[q].as_str());
                proof {
                    let pv = crate::strutil::seq_views(params@);
                    assert(pv.take(q as int + 1).drop_last() =~= pv.take(q as int));
                    assert(pv.take(q as int + 1).last() == pv[q as int]);
                    assert(s@ =~= hook_name@ + joined_params(pv.take(q as int + 1)));
                }
                q = q + 1;
            }
            proof {
                let pv = crate::strutil::seq_views(params@);
                assert(pv.take(pv.len() as int) =~= pv);
            }
            CommandPlan::Shell(s)
        },
        NodeKind::CopyExtend { src, dst, .. } => CommandPlan::CopyPath {
            src: src.clone(),
            dst: dst.clone(),
        },
        _ => {
            let mut out = String::from_str("Artifact for ");
            out.append(node.name.as_str());
            CommandPlan::Synthetic(out)
        },
    }
}

/// The container runtime specification a node's command runs under: the
/// data the container sandbox variant hands its runtime. Process spawning
/// and snapshot management happen outside the library; this plan fixes
/// every field of the spec document.
pub struct RuntimeSpecPlan {
    /// Runtime spec version.
    pub version: String,
    /// The command, argv style: the shell invocation of the node's text.
    pub args: Vec<String>,
    /// The environment, rendered as `k=v` in binding order.
    pub env: Vec<String>,
    /// Working directory inside the container.
    pub cwd: String,
    /// The prepared root filesystem path.
    pub rootfs: String,
    /// Whether the root filesystem is mounted read-only.
    pub readonly: bool,
    /// Isolated namespaces, by name.
    pub namespaces: Vec<String>,
    /// Mounts as `(destination, type, source)`.
    pub mounts: Vec<(String, String, String)>,
}

/// Build the runtime spec for a command: `/bin/sh -c` on the command text,
/// the bindings as `k=v`, cwd `/workspace`, a writable rootfs, isolated
/// pid/mount/ipc/uts namespaces, and `/proc` plus a tmpfs `/dev`.
pub fn plan_runtime_spec(cmd: &str, env: &Vec<(String, String)>, rootfs: &str) -> (r:
    RuntimeSpecPlan)
    ensures
        r.version@ == "1.0.2-dev"@,
        crate::strutil::seq_views(r.args@) == seq!["/bin/sh"@, "-c"@, cmd@],
        crate::strutil::seq_views(r.env@) == crate::export::pair_strings(
            crate::strutil::pair_views(env@),
        ),
        r.cwd@ == "/workspace"@,
        r.rootfs@ == rootfs@,
        !r.readonly,
        crate::strutil::seq_views(r.namespaces@) == seq!["pid"@, "mount"@, "ipc"@, "uts"@],
        r.mounts@.len() == 2,
        r.mounts@[0].0@ == "/proc"@ && r.mounts@[0].1@ == "proc"@ && r.mounts@[0].2@ == "proc"@,
        r.mounts@[1].0@ == "/dev"@ && r.mounts@[1].1@ == "tmpfs"@ && r.mounts@[1].2@
            == "tmpfs"@,
{
    let mut args: Vec<String> = Vec::new();
    args.push(String::from_str("/bin/sh"));
    args.push(String::from_str("-c"));
    args.push(cmd.to_owned());
    proof {
        assert(crate::strutil::seq_views(args@) =~= seq!["/bin/sh"@, "-c"@, cmd@]);
    }
    let mut rendered: Vec<String> = Vec::new();
    let mut q: usize = 0;
    proof {
        let pv = crate::strutil::pair_views(env@);
        assert(crate::export::pair_strings(pv.take(0)) =~= Seq::<Seq<char>>::empty());
        assert(crate::strutil::seq_views(rendered@) =~= crate::export::pair_strings(pv.take(0)));
    }
    while q < env.len()
        invariant
            q <= env@.len(),
            crate::strutil::seq_views(rendered@) == crate::export::pair_strings(
                crate::strutil::pair_views(env@).take(q as int),
            ),
        decreases env@.len() - q,
    {
        let mut kv = env[q].0.clone();
        kv.append("=");
        kv.append(env[q].1.as_str());
        let ghost old_rendered = rendered@;
        rendered.push(kv);
        proof {
            let pv = crate::strutil::pair_views(env@);
            assert(pv.take(q as int + 1).drop_last() =~= pv.take(q as int));
            assert(pv.take(q as int + 1).last() == pv[q as int]);
            assert(crate::strutil::seq_views(rendered@) =~= crate::strutil::seq_views(
                old_rendered,
            ).push(pv[q as int].0 + "="@ + pv[q as int].1));
            assert(crate::strutil::seq_views(rendered@) =~= crate::export::pair_strings(
                pv.take(q as int + 1),
            ));
        }
        q = q + 1;
    }
    proof {
        let pv = crate::strutil::pair_views(env@);
        assert(pv.take(pv.len() as int) =~= pv);
    }
    let mut namespaces: Vec<String> = Vec::new();
    namespaces.push(String::from_str("pid"));
    namespaces.push(String::from_str("mount"));
    namespaces.push(String::from_str("ipc"));
    namespaces.push(String::from_str("uts"));
    proof {
        assert(crate::strutil::seq_views(namespaces@) =~= seq!["pid"@, "mount"@, "ipc"@, "uts"@]);
    }
    let mut mounts: Vec<(String, String, String)> = Vec::new();
    mounts.push(
        (String::from_str("/proc"), String::from_str("proc"), String::from_str("proc")),
    );
    mounts.push(
        (String::from_str("/dev"), String::from_str("tmpfs"), String::from_str("tmpfs")),
    );
    RuntimeSpecPlan {
        version: String::from_str("1.0.2-dev"),
        args,
        env: rendered,
        cwd: String::from_str("/workspace"),
        rootfs: rootfs.to_owned(),
        readonly: false,
        namespaces,
        mounts,
    }
}

} // verus!
