//! The structure of a computation graph, its well-formedness, and the schedule of
//! shards that proving and verification both follow.

use vstd::prelude::*;

use crate::shard::{is_pow2, is_power_of_two, lemma_shard_count_is_least_pow2, next_power_of_two, spec_shard_count};

verus! {

/// The largest parallel count a template may declare: its shard count must fit
/// in a `usize`.
pub const MAX_PARALLEL_COUNT: usize = usize::MAX / 2;

/// One use of a kernel in a computation graph: which kernel, which global input
/// buffers it reads (in argument order), over how many logical shards, and for
/// each buffer read whether every shard sees all of it (broadcast).
#[derive(Debug, Clone)]
pub struct ProofTemplate {
    pub kernel_id: usize,
    pub commitment_indices: Vec<usize>,
    pub parallel_count: usize,
    pub is_broadcast: Vec<bool>,
}

/// The structure of a computation graph that orchestration depends on: how many
/// kernels it holds, the length of each global input buffer, and its templates.
/// The compiled kernels themselves stay with the proof engine.
#[derive(Debug, Clone)]
pub struct ComputationGraph {
    pub kernel_count: usize,
    pub commitments_lens: Vec<usize>,
    pub proof_templates: Vec<ProofTemplate>,
}

/// The shard count of template `t`.
pub open spec fn template_shard_count(g: ComputationGraph, t: int) -> nat {
    spec_shard_count(g.proof_templates@[t].parallel_count as nat)
}

/// `j` is an argument position of template `t`.
pub open spec fn template_reads(g: ComputationGraph, t: int, j: int) -> bool {
    0 <= j < g.proof_templates@[t].commitment_indices@.len()
}

/// What makes template `t` of `g` well formed.
pub open spec fn template_wf(g: ComputationGraph, t: int) -> bool {
    let tp = g.proof_templates@[t];
    &&& tp.kernel_id < g.kernel_count
    &&& 1 <= tp.parallel_count <= MAX_PARALLEL_COUNT
    &&& tp.is_broadcast@.len() == tp.commitment_indices@.len()
    &&& forall|j: int|
        #![trigger tp.commitment_indices@[j]]
        0 <= j < tp.commitment_indices@.len() ==> {
            let c = tp.commitment_indices@[j];
            &&& c < g.commitments_lens@.len()
            &&& (!tp.is_broadcast@[j] ==> (g.commitments_lens@[c as int] as nat) % spec_shard_count(
                tp.parallel_count as nat,
            ) == 0)
        }
}

/// A well-formed graph: every buffer length is a power of two, and every template
/// names an existing kernel and existing buffers, has a parallel count of at least
/// one, one broadcast flag per buffer it reads, and partitioned buffers that its
/// shards divide evenly.
pub open spec fn graph_wf(g: ComputationGraph) -> bool {
    &&& forall|c: int| 0 <= c < g.commitments_lens@.len() ==> is_pow2(#[trigger] g.commitments_lens@[c] as nat)
    &&& forall|t: int| 0 <= t < g.proof_templates@.len() ==> #[trigger] template_wf(g, t)
}

/// A configuration error in a computation graph, naming the template and, where it
/// applies, the argument position or the buffer at fault.
#[derive(Debug, Clone, Copy, PartialEq, Eq, Structural)]
pub enum GraphError {
    BufferLenNotPow2 { commitment: usize, len: usize },
    KernelOutOfRange { template: usize, kernel_id: usize },
    ParallelCountOutOfRange { template: usize, parallel_count: usize },
    FlagCountMismatch { template: usize, commitments: usize, flags: usize },
    CommitmentOutOfRange { template: usize, position: usize, commitment: usize },
    NotDivisible { template: usize, position: usize, commitment: usize, len: usize, shard_count: usize },
}

/// The buffer at argument position `j` of template `t` exists, and the template's
/// shards divide it evenly when it is partitioned.
pub open spec fn position_ok(g: ComputationGraph, t: int, j: int) -> bool {
    let tp = g.proof_templates@[t];
    let c = tp.commitment_indices@[j];
    &&& c < g.commitments_lens@.len()
    &&& (!tp.is_broadcast@[j] ==> (g.commitments_lens@[c as int] as nat) % spec_shard_count(
        tp.parallel_count as nat,
    ) == 0)
}

/// `e` is the first fault of template `t`, in the order it is checked: its kernel,
/// its parallel count, its number of flags, then each argument position in order.
pub open spec fn template_error_holds(g: ComputationGraph, t: int, e: GraphError) -> bool {
    let lens = g.commitments_lens@;
    let tp = g.proof_templates@[t];
    let kernel_ok = tp.kernel_id < g.kernel_count;
    let parallel_ok = 1 <= tp.parallel_count <= MAX_PARALLEL_COUNT;
    let flags_ok = tp.is_broadcast@.len() == tp.commitment_indices@.len();
    match e {
        GraphError::BufferLenNotPow2 { .. } => false,
        GraphError::KernelOutOfRange { template, kernel_id } => template == t && kernel_id == tp.kernel_id
            && !kernel_ok,
        GraphError::ParallelCountOutOfRange { template, parallel_count } => template == t && kernel_ok
            && parallel_count == tp.parallel_count && !parallel_ok,
        GraphError::FlagCountMismatch { template, commitments, flags } => template == t && kernel_ok
            && parallel_ok && commitments == tp.commitment_indices@.len() && flags == tp.is_broadcast@.len()
            && !flags_ok,
        GraphError::CommitmentOutOfRange { template, position, commitment } => template == t && kernel_ok
            && parallel_ok && flags_ok && position < tp.commitment_indices@.len() && tp.commitment_indices@[position as int]
            == commitment && commitment >= lens.len() && forall|k: int|
            0 <= k < position ==> #[trigger] position_ok(g, t, k),
        GraphError::NotDivisible { template, position, commitment, len, shard_count } => template == t
            && kernel_ok && parallel_ok && flags_ok && position < tp.commitment_indices@.len()
            && tp.commitment_indices@[position as int] == commitment && commitment < lens.len() && !tp.is_broadcast@[position as int]
            && lens[commitment as int] == len && shard_count as nat == template_shard_count(g, t) && len
            % shard_count != 0 && forall|k: int| 0 <= k < position ==> #[trigger] position_ok(g, t, k),
    }
}

/// The template an error names, if any.
pub open spec fn error_template(e: GraphError) -> int {
    match e {
        GraphError::BufferLenNotPow2 { .. } => -1,
        GraphError::KernelOutOfRange { template, .. } => template as int,
        GraphError::ParallelCountOutOfRange { template, .. } => template as int,
        GraphError::FlagCountMismatch { template, .. } => template as int,
        GraphError::CommitmentOutOfRange { template, .. } => template as int,
        GraphError::NotDivisible { template, .. } => template as int,
    }
}

/// `e` is the first fault of `g`, in the order it is checked: each buffer length in
/// order, then each template in order.
pub open spec fn graph_error_holds(g: ComputationGraph, e: GraphError) -> bool {
    let lens = g.commitments_lens@;
    match e {
        GraphError::BufferLenNotPow2 { commitment, len } => commitment < lens.len() && lens[commitment as int]
            == len && !is_pow2(len as nat) && forall|k: int| 0 <= k < commitment ==> is_pow2(#[trigger] lens[k] as nat),
        _ => {
            let t = error_template(e);
            &&& 0 <= t < g.proof_templates@.len()
            &&& forall|k: int| 0 <= k < lens.len() ==> is_pow2(#[trigger] lens[k] as nat)
            &&& forall|k: int| 0 <= k < t ==> #[trigger] template_wf(g, k)
            &&& template_error_holds(g, t, e)
        },
    }
}

fn check_template(g: &ComputationGraph, t: usize) -> (r: Result<(), GraphError>)
    requires
        t < g.proof_templates.len(),
    ensures
        r is Ok <==> template_wf(*g, t as int),
        r matches Err(e) ==> template_error_holds(*g, t as int, e) && error_template(e) == t,
{
    let tp = &g.proof_templates[t];
    if tp.kernel_id >= g.kernel_count {
        return Err(GraphError::KernelOutOfRange { template: t, kernel_id: tp.kernel_id });
    }
    if tp.parallel_count == 0 || tp.parallel_count > MAX_PARALLEL_COUNT {
        return Err(GraphError::ParallelCountOutOfRange { template: t, parallel_count: tp.parallel_count });
    }
    if tp.is_broadcast.len() != tp.commitment_indices.len() {
        return Err(
            GraphError::FlagCountMismatch {
                template: t,
                commitments: tp.commitment_indices.len(),
                flags: tp.is_broadcast.len(),
            },
        );
    }
    let shard_count = next_power_of_two(tp.parallel_count);
    let mut j: usize = 0;
    while j < tp.commitment_indices.len()
        invariant
            t < g.proof_templates.len(),
            tp == g.proof_templates@[t as int],
            tp.kernel_id < g.kernel_count,
            1 <= tp.parallel_count <= MAX_PARALLEL_COUNT,
            tp.is_broadcast@.len() == tp.commitment_indices@.len(),
            shard_count == spec_shard_count(tp.parallel_count as nat),
            shard_count >= 1,
            j <= tp.commitment_indices.len(),
            forall|k: int|
                #![trigger tp.commitment_indices@[k]]
                0 <= k < j ==> {
                    let c = tp.commitment_indices@[k];
                    &&& c < g.commitments_lens@.len()
                    &&& (!tp.is_broadcast@[k] ==> (g.commitments_lens@[c as int] as nat) % spec_shard_count(
                        tp.parallel_count as nat,
                    ) == 0)
                },
            forall|k: int| 0 <= k < j ==> #[trigger] position_ok(*g, t as int, k),
        decreases tp.commitment_indices.len() - j,
    {
        let c = tp.commitment_indices[j];
        if c >= g.commitments_lens.len() {
            return Err(GraphError::CommitmentOutOfRange { template: t, position: j, commitment: c });
        }
        let len = g.commitments_lens[c];
        if !tp.is_broadcast[j] && len % shard_count != 0 {
            assert(template_reads(*g, t as int, j as int));
            assert(g.proof_templates@[t as int].commitment_indices@[j as int] == c);
            assert(shard_count as nat == template_shard_count(*g, t as int));
            return Err(GraphError::NotDivisible { template: t, position: j, commitment: c, len, shard_count });
        }
        j = j + 1;
    }
    Ok(())
}

/// Checks that `g` is well formed, and names a fault it has otherwise.
pub fn check_graph(g: &ComputationGraph) -> (r: Result<(), GraphError>)
    ensures
        r is Ok <==> graph_wf(*g),
        r matches Err(e) ==> graph_error_holds(*g, e),
{
    let mut c: usize = 0;
    while c < g.commitments_lens.len()
        invariant
            c <= g.commitments_lens.len(),
            forall|k: int| 0 <= k < c ==> is_pow2(#[trigger] g.commitments_lens@[k] as nat),
        decreases g.commitments_lens.len() - c,
    {
        if !is_power_of_two(g.commitments_lens[c]) {
            return Err(GraphError::BufferLenNotPow2 { commitment: c, len: g.commitments_lens[c] });
        }
        c = c + 1;
    }
    let mut t: usize = 0;
    while t < g.proof_templates.len()
        invariant
            t <= g.proof_templates.len(),
            forall|k: int| 0 <= k < g.commitments_lens@.len() ==> is_pow2(#[trigger] g.commitments_lens@[k] as nat),
            forall|k: int| 0 <= k < t ==> #[trigger] template_wf(*g, k),
        decreases g.proof_templates.len() - t,
    {
        check_template(g, t)?;
        t = t + 1;
    }
    Ok(())
}

/// One unit of proving or verification work: shard `shard_index` of the
/// `shard_count` shards of template `template`.
#[derive(Debug, Clone, Copy, PartialEq, Eq, Structural)]
pub struct ShardTask {
    pub template: usize,
    pub shard_index: usize,
    pub shard_count: usize,
}

/// The shards of template `t`, in order.
pub open spec fn template_tasks(t: int, count: nat) -> Seq<ShardTask> {
    Seq::new(count, |i: int| ShardTask { template: t as usize, shard_index: i as usize, shard_count: count as usize })
}

/// The shards of the first `k` templates, template by template.
pub open spec fn tasks_upto(g: ComputationGraph, k: nat) -> Seq<ShardTask>
    decreases k,
{
    if k == 0 {
        Seq::empty()
    } else {
        tasks_upto(g, (k - 1) as nat) + template_tasks(k - 1, template_shard_count(g, k - 1))
    }
}

/// Every shard of every template of `g`, in the order they are proved and verified.
pub open spec fn spec_shard_tasks(g: ComputationGraph) -> Seq<ShardTask> {
    tasks_upto(g, g.proof_templates@.len())
}

/// The shard count of each template of `g`, rounded up from its parallel count.
pub fn shard_count(g: &ComputationGraph, t: usize) -> (r: usize)
    requires
        graph_wf(*g),
        t < g.proof_templates.len(),
    ensures
        r == template_shard_count(*g, t as int),
        r >= 1,
{
    assert(template_wf(*g, t as int));
    next_power_of_two(g.proof_templates[t].parallel_count)
}

/// Lists every shard of every template of `g`, template by template, each shard
/// index from `0` up to the template's shard count.
pub fn shard_tasks(g: &ComputationGraph) -> (r: Vec<ShardTask>)
    requires
        graph_wf(*g),
    ensures
        r@ == spec_shard_tasks(*g),
{
    let mut out: Vec<ShardTask> = Vec::new();
    let mut t: usize = 0;
    while t < g.proof_templates.len()
        invariant
            graph_wf(*g),
            t <= g.proof_templates.len(),
            out@ == tasks_upto(*g, t as nat),
        decreases g.proof_templates.len() - t,
    {
        let count = shard_count(g, t);
        let ghost before = out@;
        let mut i: usize = 0;
        while i < count
            invariant
                i <= count,
                out@ == before + template_tasks(t as int, count as nat).take(i as int),
            decreases count - i,
        {
            out.push(ShardTask { template: t, shard_index: i, shard_count: count });
            i = i + 1;
            assert(template_tasks(t as int, count as nat).take(i as int) =~= template_tasks(
                t as int,
                count as nat,
            ).take(i - 1).push(ShardTask { template: t, shard_index: (i - 1) as usize, shard_count: count }));
        }
        assert(template_tasks(t as int, count as nat).take(count as int) =~= template_tasks(t as int, count as nat));
        t = t + 1;
    }
    out
}

/// The shards of templates `0..k` come first in the schedule, in the same order
/// whatever follows them.
pub proof fn lemma_tasks_prefix(g: ComputationGraph, a: nat, b: nat)
    requires
        a <= b,
    ensures
        tasks_upto(g, a).len() <= tasks_upto(g, b).len(),
        forall|k: int| 0 <= k < tasks_upto(g, a).len() ==> #[trigger] tasks_upto(g, b)[k] == tasks_upto(g, a)[k],
    decreases b,
{
    if a < b {
        lemma_tasks_prefix(g, a, (b - 1) as nat);
    }
}

/// Every scheduled task of the first `n` templates names one of them, carries that
/// template's shard count as recomputed from the graph, and a shard index below it.
pub proof fn lemma_task_fields(g: ComputationGraph, n: nat)
    requires
        graph_wf(g),
        n <= g.proof_templates@.len(),
    ensures
        forall|k: int|
            0 <= k < tasks_upto(g, n).len() ==> {
                let x = #[trigger] tasks_upto(g, n)[k];
                &&& x.template < n
                &&& x.shard_count as nat == template_shard_count(g, x.template as int)
                &&& x.shard_index < x.shard_count
            },
    decreases n,
{
    if n > 0 {
        let t = n - 1;
        let prev = tasks_upto(g, (n - 1) as nat);
        let sc = template_shard_count(g, t);
        lemma_task_fields(g, (n - 1) as nat);
        assert(template_wf(g, t));
        lemma_shard_count_is_least_pow2(g.proof_templates@[t].parallel_count as nat);
        assert(sc <= usize::MAX);
        assert forall|k: int| 0 <= k < tasks_upto(g, n).len() implies {
            let x = #[trigger] tasks_upto(g, n)[k];
            &&& x.template < n
            &&& x.shard_count as nat == template_shard_count(g, x.template as int)
            &&& x.shard_index < x.shard_count
        } by {
            if k >= prev.len() {
                assert(g.proof_templates@.len() == g.proof_templates.len());
                let i = k - prev.len();
                assert(0 <= i < sc);
                assert(tasks_upto(g, n)[k] == template_tasks(t, sc)[i]);
                assert(template_tasks(t, sc)[i].template as int == t);
                assert(template_tasks(t, sc)[i].shard_count as nat == sc);
                assert(template_tasks(t, sc)[i].shard_index as int == i);
            } else {
                assert(tasks_upto(g, n)[k] == prev[k]);
            }
        }
    }
}

} // verus!
