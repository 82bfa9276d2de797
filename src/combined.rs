//! The combined proof of a computation graph, the verifier's check of its shape,
//! and the fail-fast verification session that drives the proof engine's checks.

use vstd::prelude::*;

use crate::graph::{
    graph_wf, shard_count, shard_tasks, spec_shard_tasks, tasks_upto, template_shard_count, template_tasks,
    ComputationGraph, ShardTask,
};
use crate::partition::copy_range;

verus! {

/// A commitment to one global input buffer: the buffer's declared length and the
/// commitment scheme's opaque bytes.
#[derive(Debug, Clone)]
pub struct Commitment {
    pub vals_len: usize,
    pub bytes: Vec<u8>,
}

/// The proof of one template: one opaque blob per shard.
#[derive(Debug, Clone)]
pub struct ExpanderProof {
    pub data: Vec<Vec<u8>>,
}

/// Everything a verifier receives: a commitment per global input buffer and a
/// proof per template.
#[derive(Debug, Clone)]
pub struct CombinedProof {
    pub commitments: Vec<Commitment>,
    pub proofs: Vec<ExpanderProof>,
}

/// Why a combined proof does not fit its graph.
#[derive(Debug, Clone, Copy, PartialEq, Eq, Structural)]
pub enum ProofShapeError {
    /// Not one proof per template.
    ProofCountMismatch { expected: usize, found: usize },
    /// Not one commitment per global input buffer.
    CommitmentCountMismatch { expected: usize, found: usize },
    /// A commitment declares another length than the graph gives its buffer.
    CommitmentLenMismatch { commitment: usize, expected: usize, found: usize },
    /// A template's proof does not hold one blob per shard.
    ShardCountMismatch { template: usize, expected: usize, found: usize },
}

/// `p` fits `g`: one commitment per buffer with the buffer's length, one proof per
/// template, and as many blobs in each as the template's recomputed shard count.
pub open spec fn proof_shape_ok(g: ComputationGraph, p: CombinedProof) -> bool {
    &&& p.proofs@.len() == g.proof_templates@.len()
    &&& p.commitments@.len() == g.commitments_lens@.len()
    &&& forall|c: int|
        0 <= c < p.commitments@.len() ==> (#[trigger] p.commitments@[c]).vals_len == g.commitments_lens@[c]
    &&& forall|t: int|
        0 <= t < p.proofs@.len() ==> (#[trigger] p.proofs@[t]).data@.len() == template_shard_count(g, t)
}

/// Commitment `c` of `p` declares the length the graph gives its buffer.
pub open spec fn commitment_len_ok(g: ComputationGraph, p: CombinedProof, c: int) -> bool {
    p.commitments@[c].vals_len == g.commitments_lens@[c]
}

/// The proof of template `t` holds one blob per shard.
pub open spec fn blob_count_ok(g: ComputationGraph, p: CombinedProof, t: int) -> bool {
    p.proofs@[t].data@.len() == template_shard_count(g, t)
}

/// `e` is the first way, in the order the verifier checks, in which `p` does not
/// fit `g`: the number of proofs, the number of commitments, each commitment's
/// length in order, then each template's blob count in order.
pub open spec fn shape_error_holds(g: ComputationGraph, p: CombinedProof, e: ProofShapeError) -> bool {
    let counts_ok = p.proofs@.len() == g.proof_templates@.len() && p.commitments@.len()
        == g.commitments_lens@.len();
    match e {
        ProofShapeError::ProofCountMismatch { expected, found } => expected == g.proof_templates@.len() && found
            == p.proofs@.len() && expected != found,
        ProofShapeError::CommitmentCountMismatch { expected, found } => p.proofs@.len()
            == g.proof_templates@.len() && expected == g.commitments_lens@.len() && found == p.commitments@.len()
            && expected != found,
        ProofShapeError::CommitmentLenMismatch { commitment, expected, found } => counts_ok && commitment
            < p.commitments@.len() && expected == g.commitments_lens@[commitment as int] && found
            == p.commitments@[commitment as int].vals_len && expected != found && forall|k: int|
            0 <= k < commitment ==> #[trigger] commitment_len_ok(g, p, k),
        ProofShapeError::ShardCountMismatch { template, expected, found } => counts_ok && (forall|k: int|
            0 <= k < p.commitments@.len() ==> #[trigger] commitment_len_ok(g, p, k)) && template
            < p.proofs@.len() && expected as nat == template_shard_count(g, template as int) && found
            == p.proofs@[template as int].data@.len() && expected != found && forall|k: int|
            0 <= k < template ==> #[trigger] blob_count_ok(g, p, k),
    }
}

/// What the verifier derives from `g` and `p`: the shards to check, or nothing
/// when `p` does not fit `g`.
pub open spec fn spec_verify_plan(g: ComputationGraph, p: CombinedProof) -> Option<Seq<ShardTask>> {
    if proof_shape_ok(g, p) {
        Some(spec_shard_tasks(g))
    } else {
        None
    }
}

/// Checks that `p` fits `g` and lists the shards to verify. The shard counts come
/// from the graph's templates, never from `p`: a proof with a blob too few or too
/// many for a template is refused before any shard is checked.
pub fn plan_verification(g: &ComputationGraph, p: &CombinedProof) -> (r: Result<Vec<ShardTask>, ProofShapeError>)
    requires
        graph_wf(*g),
    ensures
        r is Ok <==> proof_shape_ok(*g, *p),
        r matches Ok(ts) ==> ts@ == spec_shard_tasks(*g),
        r matches Err(e) ==> shape_error_holds(*g, *p, e),
{
    if p.proofs.len() != g.proof_templates.len() {
        return Err(
            ProofShapeError::ProofCountMismatch { expected: g.proof_templates.len(), found: p.proofs.len() },
        );
    }
    if p.commitments.len() != g.commitments_lens.len() {
        return Err(
            ProofShapeError::CommitmentCountMismatch {
                expected: g.commitments_lens.len(),
                found: p.commitments.len(),
            },
        );
    }
    let mut c: usize = 0;
    while c < p.commitments.len()
        invariant
            p.proofs@.len() == g.proof_templates@.len(),
            p.commitments@.len() == g.commitments_lens@.len(),
            c <= p.commitments.len(),
            forall|k: int| 0 <= k < c ==> (#[trigger] p.commitments@[k]).vals_len == g.commitments_lens@[k],
            forall|k: int| 0 <= k < c ==> #[trigger] commitment_len_ok(*g, *p, k),
        decreases p.commitments.len() - c,
    {
        if p.commitments[c].vals_len != g.commitments_lens[c] {
            return Err(
                ProofShapeError::CommitmentLenMismatch {
                    commitment: c,
                    expected: g.commitments_lens[c],
                    found: p.commitments[c].vals_len,
                },
            );
        }
        c = c + 1;
    }
    let mut t: usize = 0;
    while t < p.proofs.len()
        invariant
            graph_wf(*g),
            p.proofs@.len() == g.proof_templates@.len(),
            t <= p.proofs.len(),
            p.commitments@.len() == g.commitments_lens@.len(),
            forall|k: int| 0 <= k < p.commitments@.len() ==> #[trigger] commitment_len_ok(*g, *p, k),
            forall|k: int| 0 <= k < t ==> (#[trigger] p.proofs@[k]).data@.len() == template_shard_count(*g, k),
            forall|k: int| 0 <= k < t ==> #[trigger] blob_count_ok(*g, *p, k),
        decreases p.proofs.len() - t,
    {
        let expected = shard_count(g, t);
        if p.proofs[t].data.len() != expected {
            return Err(
                ProofShapeError::ShardCountMismatch { template: t, expected, found: p.proofs[t].data.len() },
            );
        }
        t = t + 1;
    }
    Ok(shard_tasks(g))
}

/// Why a combined proof was not accepted.
#[derive(Debug, Clone, Copy, PartialEq, Eq, Structural)]
pub enum VerifyFailure {
    /// The proof does not fit the graph; no shard was checked.
    Shape(ProofShapeError),
    /// The check of this shard failed; no later shard was checked.
    ShardFailed(ShardTask),
    /// Every shard passed, but the aggregate opening of deferred mode did not.
    AggregateFailed,
}

/// What a verification session asks for next.
#[derive(Debug, Clone, Copy, PartialEq, Eq, Structural)]
pub enum VerifyStep {
    /// Check this shard: replay its transcript and run the proof engine's verifier on
    /// its blob, then check the openings of the commitments it reads (in deferred
    /// mode, set them aside for the aggregate opening instead), and report whether
    /// all of that passed.
    Check(ShardTask),
    /// Deferred mode only, after every shard passed: check the single aggregate
    /// opening of all commitments and report whether it passed.
    CheckAggregate,
    /// Every check passed: the proof is accepted.
    Accept,
    /// The proof is rejected.
    Reject(VerifyFailure),
}

/// The verification of one combined proof, shard by shard, failing at the first
/// check that does not pass. The checks themselves are the proof engine's; the
/// session decides what is checked, in which order, and what the outcome is.
pub struct VerifySession {
    plan: Result<Vec<ShardTask>, ProofShapeError>,
    deferred: bool,
    passed: usize,
    aggregate_passed: bool,
    failed: bool,
    reported: Ghost<Seq<bool>>,
}

impl VerifySession {
    /// The outcomes reported so far, in order.
    pub closed spec fn outcomes(&self) -> Seq<bool> {
        self.reported@
    }

    /// The shards this session checks, or why it checks none.
    pub closed spec fn plan_spec(&self) -> Result<Seq<ShardTask>, ProofShapeError> {
        match self.plan {
            Ok(ts) => Ok(ts@),
            Err(e) => Err(e),
        }
    }

    /// Whether openings are deferred to one aggregate opening.
    pub closed spec fn is_deferred(&self) -> bool {
        self.deferred
    }

    /// How many checks the proof must pass: one per shard, and the aggregate
    /// opening in deferred mode.
    pub open spec fn check_count(&self) -> nat {
        match self.plan_spec() {
            Ok(ts) => ts.len() + if self.is_deferred() {
                1nat
            } else {
                0nat
            },
            Err(_) => 0,
        }
    }

    /// The relation between the session's fields and the outcomes reported.
    pub closed spec fn wf(&self) -> bool {
        &&& self.passed as nat + (if self.aggregate_passed { 1nat } else { 0nat }) + (if self.failed {
            1nat
        } else {
            0nat
        }) == self.outcomes().len()
        &&& forall|i: int| 0 <= i < self.outcomes().len() - (if self.failed { 1int } else { 0int }) ==> self.outcomes()[i]
        &&& self.failed ==> !self.outcomes()[self.outcomes().len() - 1]
        &&& self.outcomes().len() <= self.check_count()
        &&& self.plan matches Ok(ts) ==> self.passed <= ts@.len()
        &&& self.aggregate_passed ==> self.deferred && self.plan is Ok && self.passed == self.plan->Ok_0@.len()
    }

    /// Starts verifying `p` against `g`; `deferred` selects the mode in which all
    /// openings are checked at once, after the shards.
    pub fn new(g: &ComputationGraph, p: &CombinedProof, deferred: bool) -> (s: VerifySession)
        requires
            graph_wf(*g),
        ensures
            s.wf(),
            s.outcomes() == Seq::<bool>::empty(),
            s.is_deferred() == deferred,
            spec_verify_plan(*g, *p) matches Some(ts) ==> s.plan_spec() == Ok::<Seq<ShardTask>, ProofShapeError>(ts),
            spec_verify_plan(*g, *p) is None ==> s.plan_spec() is Err,
            s.plan_spec() matches Err(e) ==> shape_error_holds(*g, *p, e),
    {
        let plan = plan_verification(g, p);
        VerifySession {
            plan,
            deferred,
            passed: 0,
            aggregate_passed: false,
            failed: false,
            reported: Ghost(Seq::empty()),
        }
    }

    /// What to do next: run the next check, or stop with the verdict. The proof is
    /// accepted exactly when it fits the graph and every check passed.
    pub fn next_step(&self) -> (r: VerifyStep)
        requires
            self.wf(),
        ensures
            match self.plan_spec() {
                Err(e) => r == VerifyStep::Reject(VerifyFailure::Shape(e)),
                Ok(ts) => {
                    let n = self.outcomes().len();
                    if n > 0 && !self.outcomes()[n - 1] {
                        if n - 1 < ts.len() {
                            r == VerifyStep::Reject(VerifyFailure::ShardFailed(ts[n - 1]))
                        } else {
                            r == VerifyStep::Reject(VerifyFailure::AggregateFailed)
                        }
                    } else if n == self.check_count() {
                        r == VerifyStep::Accept
                    } else if n < ts.len() {
                        r == VerifyStep::Check(ts[n as int])
                    } else {
                        r == VerifyStep::CheckAggregate
                    }
                },
            },
            r == VerifyStep::Accept <==> (self.plan_spec() is Ok && self.outcomes().len() == self.check_count()
                && forall|i: int| 0 <= i < self.outcomes().len() ==> self.outcomes()[i]),
    {
        match &self.plan {
            Err(e) => VerifyStep::Reject(VerifyFailure::Shape(*e)),
            Ok(ts) => {
                if self.failed {
                    if self.passed < ts.len() {
                        VerifyStep::Reject(VerifyFailure::ShardFailed(ts[self.passed]))
                    } else {
                        VerifyStep::Reject(VerifyFailure::AggregateFailed)
                    }
                } else if self.passed < ts.len() {
                    VerifyStep::Check(ts[self.passed])
                } else if self.deferred && !self.aggregate_passed {
                    VerifyStep::CheckAggregate
                } else {
                    VerifyStep::Accept
                }
            },
        }
    }

    /// Reports whether the check that `next_step` asked for passed.
    pub fn record(&mut self, passed: bool)
        requires
            old(self).wf(),
            old(self).next_step_is_check(),
        ensures
            final(self).wf(),
            final(self).plan_spec() == old(self).plan_spec(),
            final(self).is_deferred() == old(self).is_deferred(),
            final(self).outcomes() == old(self).outcomes().push(passed),
    {
        let shards = match &self.plan {
            Ok(ts) => ts.len(),
            Err(_) => 0,
        };
        if !passed {
            self.failed = true;
        } else if self.passed < shards {
            self.passed = self.passed + 1;
        } else {
            self.aggregate_passed = true;
        }
        self.reported = Ghost(self.reported@.push(passed));
    }

    /// `next_step` asks for a check.
    pub open spec fn next_step_is_check(&self) -> bool {
        &&& self.plan_spec() is Ok
        &&& self.outcomes().len() < self.check_count()
        &&& forall|i: int| 0 <= i < self.outcomes().len() ==> self.outcomes()[i]
    }
}

} // verus!
