//! The remote-execution protocol: actions, results, and the scheduling
//! policy that assigns each action to a worker. The HTTP transport and the
//! workers' own processes live outside the library.

use vstd::prelude::*;
use vstd::string::StringSliceAdditionalSpecFns;
use crate::graph::{Node, NodeKind, NodeMetadata};
use crate::error::MemoBuildError;
use crate::digest::blake3_of;
use crate::encode::utf8;

verus! {

/// A content digest on the wire: hash plus size.
pub struct Digest {
    pub hash: String,
    pub size_bytes: i64,
}

/// One remote-executable unit.
pub struct ActionRequest {
    /// The command line, argv style.
    pub command: Vec<String>,
    /// The environment the command runs under.
    pub env: Vec<(String, String)>,
    /// Digest of the input tree the action runs against.
    pub input_root_digest: Digest,
    /// Per-action timeout, in milliseconds.
    pub timeout_ms: u64,
    /// Requirements on the worker platform.
    pub platform_properties: Vec<(String, String)>,
    /// Output files the action declares.
    pub output_files: Vec<String>,
    /// Output directories the action declares.
    pub output_directories: Vec<String>,
}

/// The outcome of one action.
pub struct ActionResult {
    /// Digest of each declared output the action actually produced.
    pub output_files: Vec<(String, Digest)>,
    pub exit_code: i32,
    pub stdout_raw: Vec<u8>,
    pub stderr_raw: Vec<u8>,
    pub execution_metadata: ExecutionMetadata,
}

/// Who ran the action, and when.
pub struct ExecutionMetadata {
    pub worker_id: String,
    pub queued_timestamp: Option<i64>,
    pub worker_start_timestamp: Option<i64>,
    pub worker_completed_timestamp: Option<i64>,
}

impl Default for ExecutionMetadata {
    /// No worker, no timestamps.
    fn default() -> (r: ExecutionMetadata)
        ensures
            r.worker_id@.len() == 0,
            r.queued_timestamp is None,
            r.worker_start_timestamp is None,
            r.worker_completed_timestamp is None,
    {
        ExecutionMetadata {
            worker_id: String::new(),
            queued_timestamp: None,
            worker_start_timestamp: None,
            worker_completed_timestamp: None,
        }
    }
}

/// How the scheduler picks a worker for an action.
pub enum SchedulingStrategy {
    LeastLoaded,
    Random,
    RoundRobin,
    DataLocality,
}

/// The argv of a command, joined with single spaces.
pub open spec fn joined_argv(argv: Seq<Seq<char>>) -> Seq<char>
    decreases argv.len(),
{
    if argv.len() == 0 {
        Seq::empty()
    } else if argv.len() == 1 {
        argv[0]
    } else {
        joined_argv(argv.drop_last()) + " "@ + argv.last()
    }
}

/// The worker index the data-locality policy picks: the action's input
/// digest is hashed, and the first two digest bytes select a worker, so
/// equal input digests land on equal workers while the worker set stands.
pub open spec fn locality_index(input_hash: Seq<char>, worker_count: int) -> int {
    let b = blake3_of(utf8(input_hash));
    (b[0] + b[1] * 256) % worker_count
}

/// Two actions with the same input-root digest route to the same worker
/// under the data-locality policy, as long as the worker set is unchanged.
pub proof fn lemma_data_locality_stable(h1: Seq<char>, h2: Seq<char>, worker_count: int)
    requires
        h1 == h2,
    ensures
        locality_index(h1, worker_count) == locality_index(h2, worker_count),
{
}

/// Pick the worker an action goes to. Round-robin (and, for now,
/// least-loaded) walk the counter; random takes the uniform draw handed in;
/// data locality hashes the input-root digest. An empty worker set is
/// refused.
pub fn select_worker_index(
    strategy: &SchedulingStrategy,
    worker_count: usize,
    next_worker: &mut usize,
    random_draw: usize,
    input_hash: &str,
) -> (r: Result<usize, MemoBuildError>)
    requires
        worker_count > 0 ==> random_draw < worker_count,
        *old(next_worker) < worker_count || worker_count == 0,
    ensures
        worker_count == 0 <==> r is Err,
        worker_count == 0 ==> *final(next_worker) == *old(next_worker),
        worker_count > 0 ==> (r matches Ok(idx) && idx < worker_count && (match strategy {
            SchedulingStrategy::RoundRobin => idx == *old(next_worker) && *final(next_worker)
                == (*old(next_worker) + 1) % (worker_count as int),
            SchedulingStrategy::LeastLoaded => idx == *old(next_worker) && *final(next_worker)
                == (*old(next_worker) + 1) % (worker_count as int),
            SchedulingStrategy::Random => idx == random_draw && *final(next_worker) == *old(
                next_worker,
            ),
            SchedulingStrategy::DataLocality => idx == locality_index(
                input_hash@,
                worker_count as int,
            ) && *final(next_worker) == *old(next_worker),
        })),
{
    if worker_count == 0 {
        return Err(
            MemoBuildError::ConstraintViolation {
                reason: String::from_str("No available workers in the build farm"),
            },
        );
    }
    match strategy {
        SchedulingStrategy::Random => Ok(random_draw),
        SchedulingStrategy::RoundRobin => {
            let idx = *next_worker;
            *next_worker = (idx + 1) % worker_count;
            Ok(idx)
        },
        SchedulingStrategy::LeastLoaded => {
            let idx = *next_worker;
            *next_worker = (idx + 1) % worker_count;
            Ok(idx)
        },
        SchedulingStrategy::DataLocality => {
            let digest = crate::digest::blake3_digest(input_hash.as_bytes());
            let b0 = digest[0] as usize;
            let b1 = digest[1] as usize;
            let idx = (b0 + b1 * 256) % worker_count;
            Ok(idx)
        },
    }
}

/// The transient node a worker synthesizes for an action: a Run step whose
/// content is the joined argv, keyed by the input-root digest, carrying the
/// action's environment.
pub open spec fn action_node_spec(action: ActionRequest, n: Node) -> bool {
    &&& n.id == 0
    &&& n.name@ == "remote-action-"@ + action.input_root_digest.hash@.take(8)
    &&& n.kind is Run
    &&& n.content@ == joined_argv(
        crate::strutil::seq_views(action.command@),
    )
    &&& crate::strutil::pair_views(n.env@) == crate::strutil::pair_views(action.env@)
    &&& n.hash@ == action.input_root_digest.hash@
    &&& n.dirty
    &&& n.deps@.len() == 0
    &&& n.source_path is None
    &&& !n.cache_hit
    &&& !n.metadata.parallelizable
    &&& n.metadata.priority == 0
    &&& n.metadata.tags@.len() == 0
    &&& n.metadata.last_executed is None
    &&& n.metadata.execution_time_ms is None
    &&& n.metadata.source_content_hash is None
    &&& n.metadata.input_manifest_hash is None
    &&& n.metadata.output_manifest_hash is None
    &&& n.metadata.extra_source_paths@.len() == 0
}

/// Synthesize the transient node a worker runs for an action.
pub fn action_to_node(action: &ActionRequest) -> (r: Node)
    requires
        action.input_root_digest.hash@.len() >= 8,
    ensures
        action_node_spec(*action, r),
{
    let mut name = String::from_str("remote-action-");
    let short = action.input_root_digest.hash.as_str().substring_char(0, 8);
    proof {
        assert(action.input_root_digest.hash@.subrange(0, 8)
            =~= action.input_root_digest.hash@.take(8));
    }
    name.append(short);
    let mut content = String::new();
    let m = action.command.len();
    let mut q: usize = 0;
    proof {
        assert(crate::strutil::seq_views(action.command@).take(0) =~= Seq::<Seq<char>>::empty());
        assert(content@ =~= joined_argv(crate::strutil::seq_views(action.command@).take(0)));
    }
    while q < m
        invariant
            q <= m,
            m == action.command@.len(),
            content@ == joined_argv(crate::strutil::seq_views(action.command@).take(q as int)),
        decreases m - q,
    {
        if q > 0 {
            content.append(" ");
        }
        content.append(action.command[q].as_str());
        proof {
            let av = crate::strutil::seq_views(action.command@);
            assert(av.take(q as int + 1).drop_last() =~= av.take(q as int));
            assert(av.take(q as int + 1).last() == av[q as int]);
            if q == 0 {
                assert(av.take(1)[0] == av[0]);
                assert(content@ =~= joined_argv(av.take(1)));
            } else {
                assert(content@ =~= joined_argv(av.take(q as int + 1)));
            }
        }
        q = q + 1;
    }
    proof {
        let av = crate::strutil::seq_views(action.command@);
        assert(av.take(av.len() as int) =~= av);
    }
    let mut env: Vec<(String, String)> = Vec::new();
    let mut e: usize = 0;
    proof {
        assert(crate::strutil::pair_views(env@) =~= crate::strutil::pair_views(
            action.env@,
        ).take(0));
    }
    while e < action.env.len()
        invariant
            e <= action.env@.len(),
            crate::strutil::pair_views(env@) == crate::strutil::pair_views(action.env@).take(
                e as int,
            ),
        decreases action.env@.len() - e,
    {
        let ghost old_env = env@;
        env.push((action.env[e].0.clone(), action.env[e].1.clone()));
        proof {
            assert(crate::strutil::pair_views(env@) =~= crate::strutil::pair_views(old_env).push(
                crate::strutil::pair_views(action.env@)[e as int],
            ));
            assert(crate::strutil::pair_views(env@) =~= crate::strutil::pair_views(
                action.env@,
            ).take(e as int + 1));
        }
        e = e + 1;
    }
    proof {
        let pv = crate::strutil::pair_views(action.env@);
        assert(pv.take(pv.len() as int) =~= pv);
    }
    Node {
        id: 0,
        name,
        content,
        kind: NodeKind::Run,
        hash: action.input_root_digest.hash.clone(),
        dirty: true,
        deps: Vec::new(),
        source_path: None,
        env,
        cache_hit: false,
        metadata: NodeMetadata::default(),
    }
}

} // verus!
