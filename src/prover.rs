//! The prover's side: checking a witness against the graph and the setup, the
//! setup's key lengths, and putting shard blobs together into a combined proof.

use vstd::prelude::*;

use crate::combined::{proof_shape_ok, spec_verify_plan, Commitment, CombinedProof, ExpanderProof};
use crate::graph::{
    graph_wf, lemma_task_fields, lemma_tasks_prefix, shard_count, shard_tasks, spec_shard_tasks, tasks_upto,
    template_shard_count, template_tasks, ComputationGraph, ShardTask,
};
use crate::partition::copy_range;

verus! {

/// Why a witness cannot be proved against a graph and a prover setup.
#[derive(Debug, Clone, Copy, PartialEq, Eq, Structural)]
pub enum ProvePlanError {
    /// Not one witness buffer per global input buffer of the graph.
    WitnessCountMismatch { expected: usize, found: usize },
    /// A witness buffer has another length than the graph declares.
    WitnessLenMismatch { buffer: usize, expected: usize, found: usize },
    /// The setup holds no commitment key for a buffer's exact length.
    MissingKey { buffer: usize, len: usize },
}

/// The witness buffer lengths `w` are those the graph declares.
pub open spec fn witness_fits(g: ComputationGraph, w: Seq<usize>) -> bool {
    &&& w.len() == g.commitments_lens@.len()
    &&& forall|i: int| 0 <= i < w.len() ==> #[trigger] w[i] == g.commitments_lens@[i]
}

/// A commitment key of each buffer's exact length is among `keys`.
pub open spec fn keys_cover(w: Seq<usize>, keys: Seq<usize>) -> bool {
    forall|i: int| 0 <= i < w.len() ==> keys.contains(#[trigger] w[i])
}

/// Witness buffer `i` has the length the graph declares and a key of that length.
pub open spec fn buffer_ok(g: ComputationGraph, w: Seq<usize>, keys: Seq<usize>, i: int) -> bool {
    w[i] == g.commitments_lens@[i] && keys.contains(w[i])
}

/// `e` is the first fault, in the order the prover checks: the number of buffers,
/// then each buffer in order, its length before its key.
pub open spec fn prove_error_holds(g: ComputationGraph, w: Seq<usize>, keys: Seq<usize>, e: ProvePlanError) -> bool {
    match e {
        ProvePlanError::WitnessCountMismatch { expected, found } => expected == g.commitments_lens@.len() && found
            == w.len() && expected != found,
        ProvePlanError::WitnessLenMismatch { buffer, expected, found } => w.len() == g.commitments_lens@.len()
            && buffer < w.len() && expected == g.commitments_lens@[buffer as int] && found == w[buffer as int]
            && expected != found && forall|k: int| 0 <= k < buffer ==> #[trigger] buffer_ok(g, w, keys, k),
        ProvePlanError::MissingKey { buffer, len } => w.len() == g.commitments_lens@.len() && buffer < w.len()
            && w[buffer as int] == len && len == g.commitments_lens@[buffer as int] && !keys.contains(len)
            && forall|k: int| 0 <= k < buffer ==> #[trigger] buffer_ok(g, w, keys, k),
    }
}

/// Whether `keys` holds `len`.
fn has_key(keys: &Vec<usize>, len: usize) -> (r: bool)
    ensures
        r == keys@.contains(len),
{
    let mut i: usize = 0;
    while i < keys.len()
        invariant
            i <= keys.len(),
            forall|j: int| 0 <= j < i ==> keys@[j] != len,
        decreases keys.len() - i,
    {
        if keys[i] == len {
            return true;
        }
        i = i + 1;
    }
    false
}

/// Checks a witness, given by its buffer lengths, against the graph and the lengths
/// the prover setup holds keys for, and lists the shards to prove. Keys are looked
/// up by a buffer's exact length.
pub fn plan_proving(g: &ComputationGraph, witness_lens: &Vec<usize>, key_lens: &Vec<usize>) -> (r: Result<
    Vec<ShardTask>,
    ProvePlanError,
>)
    requires
        graph_wf(*g),
    ensures
        r is Ok <==> witness_fits(*g, witness_lens@) && keys_cover(witness_lens@, key_lens@),
        r matches Ok(ts) ==> ts@ == spec_shard_tasks(*g),
        r matches Err(e) ==> prove_error_holds(*g, witness_lens@, key_lens@, e),
{
    if witness_lens.len() != g.commitments_lens.len() {
        return Err(
            ProvePlanError::WitnessCountMismatch { expected: g.commitments_lens.len(), found: witness_lens.len() },
        );
    }
    let mut i: usize = 0;
    while i < witness_lens.len()
        invariant
            witness_lens@.len() == g.commitments_lens@.len(),
            i <= witness_lens.len(),
            forall|j: int| 0 <= j < i ==> #[trigger] witness_lens@[j] == g.commitments_lens@[j],
            forall|j: int| 0 <= j < i ==> key_lens@.contains(#[trigger] witness_lens@[j]),
            forall|j: int| 0 <= j < i ==> #[trigger] buffer_ok(*g, witness_lens@, key_lens@, j),
        decreases witness_lens.len() - i,
    {
        if witness_lens[i] != g.commitments_lens[i] {
            return Err(
                ProvePlanError::WitnessLenMismatch {
                    buffer: i,
                    expected: g.commitments_lens[i],
                    found: witness_lens[i],
                },
            );
        }
        if !has_key(key_lens, witness_lens[i]) {
            return Err(ProvePlanError::MissingKey { buffer: i, len: witness_lens[i] });
        }
        i = i + 1;
    }
    Ok(shard_tasks(g))
}

/// Each distinct value of `s` once, in order of first appearance.
pub open spec fn distinct_in_order(s: Seq<usize>) -> Seq<usize>
    decreases s.len(),
{
    if s.len() == 0 {
        Seq::empty()
    } else {
        let d = distinct_in_order(s.drop_last());
        if d.contains(s.last()) {
            d
        } else {
            d.push(s.last())
        }
    }
}

/// The buffer lengths a setup makes commitment keys for: each distinct buffer
/// length of the graph once, in order of first appearance.
pub fn setup_key_lens(g: &ComputationGraph) -> (r: Vec<usize>)
    ensures
        r@ == distinct_in_order(g.commitments_lens@),
        r@.no_duplicates(),
        r@.to_set() == g.commitments_lens@.to_set(),
{
    let mut out: Vec<usize> = Vec::new();
    let mut i: usize = 0;
    while i < g.commitments_lens.len()
        invariant
            i <= g.commitments_lens.len(),
            out@.no_duplicates(),
            out@.to_set() == g.commitments_lens@.take(i as int).to_set(),
            out@ == distinct_in_order(g.commitments_lens@.take(i as int)),
        decreases g.commitments_lens.len() - i,
    {
        let len = g.commitments_lens[i];
        let ghost before = out@;
        proof {
            assert(g.commitments_lens@.take(i + 1) =~= g.commitments_lens@.take(i as int).push(len));
            assert(g.commitments_lens@.take(i + 1).drop_last() =~= g.commitments_lens@.take(i as int));
            g.commitments_lens@.take(i as int).lemma_push_to_set_commute(len);
        }
        if !has_key(&out, len) {
            out.push(len);
            proof {
                before.lemma_push_to_set_commute(len);
            }
        } else {
            proof {
                assert(before.to_set().contains(len));
                assert(before.to_set().insert(len) =~= before.to_set());
            }
        }
        i = i + 1;
    }
    assert(g.commitments_lens@.take(g.commitments_lens@.len() as int) =~= g.commitments_lens@);
    out
}

/// Why shard blobs cannot be put together into a combined proof.
#[derive(Debug, Clone, Copy, PartialEq, Eq, Structural)]
pub enum AssembleError {
    /// Not one commitment per global input buffer.
    CommitmentCountMismatch { expected: usize, found: usize },
    /// A commitment declares another length than the graph gives its buffer.
    CommitmentLenMismatch { commitment: usize, expected: usize, found: usize },
    /// Not one blob per scheduled shard.
    BlobCountMismatch { expected: usize, found: usize },
}

/// `p` holds `commitments`, and blob `k` of `blobs` as the proof of the `k`-th
/// scheduled shard of `g`.
pub open spec fn assembled_from(
    g: ComputationGraph,
    commitments: Seq<Commitment>,
    blobs: Seq<Vec<u8>>,
    p: CombinedProof,
) -> bool {
    let ts = spec_shard_tasks(g);
    &&& p.commitments@.len() == commitments.len()
    &&& forall|c: int|
        0 <= c < commitments.len() ==> (#[trigger] p.commitments@[c]).vals_len == commitments[c].vals_len
            && p.commitments@[c].bytes@ == commitments[c].bytes@
    &&& blobs.len() == ts.len()
    &&& forall|k: int|
        0 <= k < ts.len() ==> (#[trigger] p.proofs@[ts[k].template as int]).data@[ts[k].shard_index as int]@
            == blobs[k]@
}

fn copy_commitment(c: &Commitment) -> (r: Commitment)
    ensures
        r.vals_len == c.vals_len,
        r.bytes@ == c.bytes@,
{
    let bytes = copy_range(&c.bytes, 0, c.bytes.len());
    assert(c.bytes@.subrange(0, c.bytes@.len() as int) =~= c.bytes@);
    Commitment { vals_len: c.vals_len, bytes }
}

/// Puts the commitments and the shard blobs, given in schedule order, together
/// into the combined proof of `g`.
pub fn assemble_proof(g: &ComputationGraph, commitments: &Vec<Commitment>, blobs: &Vec<Vec<u8>>) -> (r: Result<
    CombinedProof,
    AssembleError,
>)
    requires
        graph_wf(*g),
    ensures
        r is Ok <==> (commitments@.len() == g.commitments_lens@.len() && (forall|c: int|
            0 <= c < commitments@.len() ==> (#[trigger] commitments@[c]).vals_len == g.commitments_lens@[c])
            && blobs@.len() == spec_shard_tasks(*g).len()),
        r matches Ok(p) ==> proof_shape_ok(*g, p) && assembled_from(*g, commitments@, blobs@, p),
        r matches Err(e) ==> match e {
            AssembleError::CommitmentCountMismatch { expected, found } => expected == g.commitments_lens@.len()
                && found == commitments@.len() && expected != found,
            AssembleError::BlobCountMismatch { expected, found } => commitments@.len()
                == g.commitments_lens@.len() && expected == spec_shard_tasks(*g).len() && found == blobs@.len()
                && expected != found,
            AssembleError::CommitmentLenMismatch { commitment, expected, found } => commitments@.len()
                == g.commitments_lens@.len() && blobs@.len() == spec_shard_tasks(*g).len() && commitment
                < commitments@.len() && expected == g.commitments_lens@[commitment as int] && found
                == commitments@[commitment as int].vals_len && expected != found && forall|k: int|
                0 <= k < commitment ==> (#[trigger] commitments@[k]).vals_len == g.commitments_lens@[k],
        },
{
    if commitments.len() != g.commitments_lens.len() {
        return Err(
            AssembleError::CommitmentCountMismatch { expected: g.commitments_lens.len(), found: commitments.len() },
        );
    }
    let total = shard_tasks(g).len();
    if blobs.len() != total {
        return Err(AssembleError::BlobCountMismatch { expected: total, found: blobs.len() });
    }
    let mut out_commitments: Vec<Commitment> = Vec::new();
    let mut c: usize = 0;
    while c < commitments.len()
        invariant
            commitments@.len() == g.commitments_lens@.len(),
            blobs@.len() == spec_shard_tasks(*g).len(),
            c <= commitments.len(),
            out_commitments@.len() == c,
            forall|k: int| 0 <= k < c ==> (#[trigger] commitments@[k]).vals_len == g.commitments_lens@[k],
            forall|k: int|
                0 <= k < c ==> (#[trigger] out_commitments@[k]).vals_len == commitments@[k].vals_len
                    && out_commitments@[k].bytes@ == commitments@[k].bytes@,
        decreases commitments.len() - c,
    {
        if commitments[c].vals_len != g.commitments_lens[c] {
            return Err(
                AssembleError::CommitmentLenMismatch {
                    commitment: c,
                    expected: g.commitments_lens[c],
                    found: commitments[c].vals_len,
                },
            );
        }
        out_commitments.push(copy_commitment(&commitments[c]));
        c = c + 1;
    }
    let ghost n = g.proof_templates@.len();
    proof {
        lemma_task_fields(*g, n as nat);
    }
    let mut proofs: Vec<ExpanderProof> = Vec::new();
    let mut k: usize = 0;
    let mut t: usize = 0;
    while t < g.proof_templates.len()
        invariant
            graph_wf(*g),
            n == g.proof_templates@.len(),
            blobs@.len() == tasks_upto(*g, n as nat).len(),
            t <= n,
            proofs@.len() == t,
            k == tasks_upto(*g, t as nat).len(),
            forall|j: int| 0 <= j < t ==> (#[trigger] proofs@[j]).data@.len() == template_shard_count(*g, j),
            forall|q: int|
                0 <= q < k ==> {
                    let x = #[trigger] tasks_upto(*g, t as nat)[q];
                    proofs@[x.template as int].data@[x.shard_index as int]@ == blobs@[q]@
                },
        decreases n - t,
    {
        let count = shard_count(g, t);
        proof {
            lemma_tasks_prefix(*g, (t + 1) as nat, n as nat);
            lemma_task_fields(*g, t as nat);
        }
        let mut data: Vec<Vec<u8>> = Vec::new();
        let mut i: usize = 0;
        while i < count
            invariant
                graph_wf(*g),
                n == g.proof_templates@.len(),
                t < n,
                count == template_shard_count(*g, t as int),
                blobs@.len() == tasks_upto(*g, n as nat).len(),
                tasks_upto(*g, (t + 1) as nat).len() <= tasks_upto(*g, n as nat).len(),
                tasks_upto(*g, (t + 1) as nat) == tasks_upto(*g, t as nat) + template_tasks(t as int, count as nat),
                i <= count,
                data@.len() == i,
                k == tasks_upto(*g, t as nat).len() + i,
                forall|j: int| 0 <= j < i ==> (#[trigger] data@[j])@ == blobs@[tasks_upto(*g, t as nat).len() + j]@,
            decreases count - i,
        {
            let blob = copy_range(&blobs[k], 0, blobs[k].len());
            assert(blobs@[k as int]@.subrange(0, blobs@[k as int]@.len() as int) =~= blobs@[k as int]@);
            data.push(blob);
            assert(k < blobs.len());
            i = i + 1;
            k = k + 1;
        }
        let ghost prev = tasks_upto(*g, t as nat);
        let ghost old_proofs = proofs@;
        proofs.push(ExpanderProof { data });
        proof {
            let next = tasks_upto(*g, (t + 1) as nat);
            assert forall|q: int| 0 <= q < k implies {
                let x = #[trigger] tasks_upto(*g, (t + 1) as nat)[q];
                proofs@[x.template as int].data@[x.shard_index as int]@ == blobs@[q]@
            } by {
                if q < prev.len() {
                    assert(next[q] == prev[q]);
                    assert(proofs@[prev[q].template as int] == old_proofs[prev[q].template as int]);
                } else {
                    assert(next[q] == template_tasks(t as int, count as nat)[q - prev.len()]);
                }
            }
        }
        t = t + 1;
    }
    let p = CombinedProof { commitments: out_commitments, proofs };
    assert(tasks_upto(*g, n as nat) == spec_shard_tasks(*g));
    Ok(p)
}

/// The verifier replays the prover's schedule: a combined proof assembled from the
/// shard blobs of a well-formed graph fits the graph, the verifier derives from it
/// the very shards that were proved, in the same order, and for the `k`-th of them
/// it reads the `k`-th blob the prover produced.
pub proof fn lemma_assembled_proof_replays_schedule(
    g: ComputationGraph,
    commitments: Seq<Commitment>,
    blobs: Seq<Vec<u8>>,
    p: CombinedProof,
)
    requires
        graph_wf(g),
        proof_shape_ok(g, p),
        assembled_from(g, commitments, blobs, p),
    ensures
        spec_verify_plan(g, p) == Some(spec_shard_tasks(g)),
        forall|k: int|
            0 <= k < spec_shard_tasks(g).len() ==> {
                let x = #[trigger] spec_shard_tasks(g)[k];
                &&& x.template < p.proofs@.len()
                &&& x.shard_index < p.proofs@[x.template as int].data@.len()
                &&& p.proofs@[x.template as int].data@[x.shard_index as int]@ == blobs[k]@
            },
{
    lemma_task_fields(g, g.proof_templates@.len());
}

/// The shard count the verifier uses for a template is recomputed from the graph
/// and equals the one the prover used, whatever proof it is given; a proof whose
/// blob count for some template differs from it is not accepted for verification.
pub proof fn lemma_shard_count_determinism(g: ComputationGraph, p: CombinedProof, t: int)
    requires
        graph_wf(g),
        0 <= t < g.proof_templates@.len(),
    ensures
        spec_verify_plan(g, p) matches Some(ts) ==> ts == spec_shard_tasks(g) && p.proofs@[t].data@.len()
            == template_shard_count(g, t),
        p.proofs@.len() == g.proof_templates@.len() && p.proofs@[t].data@.len() != template_shard_count(g, t)
            ==> spec_verify_plan(g, p) is None,
        forall|k: int|
            0 <= k < spec_shard_tasks(g).len() && (#[trigger] spec_shard_tasks(g)[k]).template == t
                ==> spec_shard_tasks(g)[k].shard_count as nat == template_shard_count(g, t),
{
    lemma_task_fields(g, g.proof_templates@.len());
}

} // verus!
