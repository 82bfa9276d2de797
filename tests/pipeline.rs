use expander_orchestration::combined::{
    plan_verification, Commitment, CombinedProof, ExpanderProof, ProofShapeError, VerifyFailure,
    VerifySession, VerifyStep,
};
use expander_orchestration::graph::{
    check_graph, shard_count, shard_tasks, ComputationGraph, GraphError, ProofTemplate, ShardTask,
};
use expander_orchestration::partition::get_local_vals;
use expander_orchestration::prover::{
    assemble_proof, plan_proving, setup_key_lens, AssembleError, ProvePlanError,
};

/// One template reading a broadcast buffer of 4 elements and a buffer of 8
/// elements partitioned over 2 shards.
fn two_buffer_graph() -> ComputationGraph {
    ComputationGraph {
        kernel_count: 1,
        commitments_lens: vec![4, 8],
        proof_templates: vec![ProofTemplate {
            kernel_id: 0,
            commitment_indices: vec![0, 1],
            parallel_count: 2,
            is_broadcast: vec![true, false],
        }],
    }
}

fn commitments_for(g: &ComputationGraph) -> Vec<Commitment> {
    g.commitments_lens
        .iter()
        .enumerate()
        .map(|(i, &len)| Commitment { vals_len: len, bytes: vec![i as u8; 3] })
        .collect()
}

#[test]
fn two_shard_scenario_rejects_a_short_proof() {
    let g = two_buffer_graph();
    assert_eq!(check_graph(&g), Ok(()));
    assert_eq!(shard_count(&g, 0), 2);

    let tasks = plan_proving(&g, &vec![4, 8], &setup_key_lens(&g)).unwrap();
    assert_eq!(
        tasks,
        vec![
            ShardTask { template: 0, shard_index: 0, shard_count: 2 },
            ShardTask { template: 0, shard_index: 1, shard_count: 2 },
        ]
    );

    let witness = vec![vec![1u64, 2, 3, 4], vec![10u64, 11, 12, 13, 14, 15, 16, 17]];
    let shard0 = get_local_vals(&witness, &g.proof_templates[0].is_broadcast, 0, 2).unwrap();
    assert_eq!(shard0, vec![vec![1, 2, 3, 4], vec![10, 11, 12, 13]]);
    let shard1 = get_local_vals(&witness, &g.proof_templates[0].is_broadcast, 1, 2).unwrap();
    assert_eq!(shard1, vec![vec![1, 2, 3, 4], vec![14, 15, 16, 17]]);

    let blobs = vec![vec![0xa0], vec![0xa1]];
    let proof = assemble_proof(&g, &commitments_for(&g), &blobs).unwrap();
    assert_eq!(proof.proofs.len(), 1);
    assert_eq!(proof.proofs[0].data, blobs);
    assert_eq!(plan_verification(&g, &proof), Ok(tasks));

    let short = CombinedProof {
        commitments: commitments_for(&g),
        proofs: vec![ExpanderProof { data: vec![vec![0xa0]] }],
    };
    assert_eq!(
        plan_verification(&g, &short),
        Err(ProofShapeError::ShardCountMismatch { template: 0, expected: 2, found: 1 })
    );
    let session = VerifySession::new(&g, &short, false);
    assert_eq!(
        session.next_step(),
        VerifyStep::Reject(VerifyFailure::Shape(ProofShapeError::ShardCountMismatch {
            template: 0,
            expected: 2,
            found: 1
        }))
    );
}

#[test]
fn extended_proof_is_rejected_too() {
    let g = two_buffer_graph();
    let long = CombinedProof {
        commitments: commitments_for(&g),
        proofs: vec![ExpanderProof { data: vec![vec![1], vec![2], vec![3]] }],
    };
    assert_eq!(
        plan_verification(&g, &long),
        Err(ProofShapeError::ShardCountMismatch { template: 0, expected: 2, found: 3 })
    );
}

#[test]
fn verify_session_accepts_when_every_shard_passes() {
    let g = two_buffer_graph();
    let proof = assemble_proof(&g, &commitments_for(&g), &vec![vec![1], vec![2]]).unwrap();
    let mut session = VerifySession::new(&g, &proof, false);
    assert_eq!(
        session.next_step(),
        VerifyStep::Check(ShardTask { template: 0, shard_index: 0, shard_count: 2 })
    );
    session.record(true);
    assert_eq!(
        session.next_step(),
        VerifyStep::Check(ShardTask { template: 0, shard_index: 1, shard_count: 2 })
    );
    session.record(true);
    assert_eq!(session.next_step(), VerifyStep::Accept);
}

#[test]
fn verify_session_fails_fast() {
    let g = two_buffer_graph();
    let proof = assemble_proof(&g, &commitments_for(&g), &vec![vec![1], vec![2]]).unwrap();
    let mut session = VerifySession::new(&g, &proof, false);
    session.record(false);
    assert_eq!(
        session.next_step(),
        VerifyStep::Reject(VerifyFailure::ShardFailed(ShardTask {
            template: 0,
            shard_index: 0,
            shard_count: 2
        }))
    );
}

#[test]
fn proof_shape_errors() {
    let g = two_buffer_graph();
    let good = assemble_proof(&g, &commitments_for(&g), &vec![vec![1], vec![2]]).unwrap();
    let no_proofs = CombinedProof { commitments: commitments_for(&g), proofs: vec![] };
    assert_eq!(
        plan_verification(&g, &no_proofs),
        Err(ProofShapeError::ProofCountMismatch { expected: 1, found: 0 })
    );
    let one_commitment = CombinedProof {
        commitments: vec![Commitment { vals_len: 4, bytes: vec![] }],
        proofs: good.proofs.clone(),
    };
    assert_eq!(
        plan_verification(&g, &one_commitment),
        Err(ProofShapeError::CommitmentCountMismatch { expected: 2, found: 1 })
    );
    let wrong_len = CombinedProof {
        commitments: vec![
            Commitment { vals_len: 4, bytes: vec![] },
            Commitment { vals_len: 16, bytes: vec![] },
        ],
        proofs: good.proofs.clone(),
    };
    assert_eq!(
        plan_verification(&g, &wrong_len),
        Err(ProofShapeError::CommitmentLenMismatch { commitment: 1, expected: 8, found: 16 })
    );
}

#[test]
fn shard_schedule_over_several_templates() {
    let g = ComputationGraph {
        kernel_count: 2,
        commitments_lens: vec![8, 2],
        proof_templates: vec![
            ProofTemplate {
                kernel_id: 1,
                commitment_indices: vec![0],
                parallel_count: 3,
                is_broadcast: vec![false],
            },
            ProofTemplate {
                kernel_id: 0,
                commitment_indices: vec![1, 0],
                parallel_count: 1,
                is_broadcast: vec![true, false],
            },
        ],
    };
    assert_eq!(check_graph(&g), Ok(()));
    let tasks = shard_tasks(&g);
    assert_eq!(tasks.len(), 5);
    assert_eq!(tasks[3], ShardTask { template: 0, shard_index: 3, shard_count: 4 });
    assert_eq!(tasks[4], ShardTask { template: 1, shard_index: 0, shard_count: 1 });

    let blobs: Vec<Vec<u8>> = (0..5u8).map(|b| vec![b]).collect();
    let proof = assemble_proof(&g, &commitments_for(&g), &blobs).unwrap();
    assert_eq!(proof.proofs[0].data, vec![vec![0], vec![1], vec![2], vec![3]]);
    assert_eq!(proof.proofs[1].data, vec![vec![4]]);
    assert_eq!(proof.commitments[1].bytes, vec![1, 1, 1]);
}

#[test]
fn graph_errors() {
    let mut g = two_buffer_graph();
    g.commitments_lens = vec![4, 6];
    assert_eq!(check_graph(&g), Err(GraphError::BufferLenNotPow2 { commitment: 1, len: 6 }));

    let mut g = two_buffer_graph();
    g.proof_templates[0].kernel_id = 1;
    assert_eq!(check_graph(&g), Err(GraphError::KernelOutOfRange { template: 0, kernel_id: 1 }));

    let mut g = two_buffer_graph();
    g.proof_templates[0].parallel_count = 0;
    assert_eq!(
        check_graph(&g),
        Err(GraphError::ParallelCountOutOfRange { template: 0, parallel_count: 0 })
    );

    let mut g = two_buffer_graph();
    g.proof_templates[0].is_broadcast = vec![true];
    assert_eq!(
        check_graph(&g),
        Err(GraphError::FlagCountMismatch { template: 0, commitments: 2, flags: 1 })
    );

    let mut g = two_buffer_graph();
    g.proof_templates[0].commitment_indices = vec![0, 2];
    assert_eq!(
        check_graph(&g),
        Err(GraphError::CommitmentOutOfRange { template: 0, position: 1, commitment: 2 })
    );

    let mut g = two_buffer_graph();
    g.proof_templates[0].parallel_count = 16;
    assert_eq!(
        check_graph(&g),
        Err(GraphError::NotDivisible {
            template: 0,
            position: 1,
            commitment: 1,
            len: 8,
            shard_count: 16
        })
    );
}

#[test]
fn prove_plan_errors() {
    let g = two_buffer_graph();
    let keys = setup_key_lens(&g);
    assert_eq!(
        plan_proving(&g, &vec![4], &keys),
        Err(ProvePlanError::WitnessCountMismatch { expected: 2, found: 1 })
    );
    assert_eq!(
        plan_proving(&g, &vec![4, 16], &keys),
        Err(ProvePlanError::WitnessLenMismatch { buffer: 1, expected: 8, found: 16 })
    );
    assert_eq!(
        plan_proving(&g, &vec![4, 8], &vec![4]),
        Err(ProvePlanError::MissingKey { buffer: 1, len: 8 })
    );
}

#[test]
fn setup_keys_are_distinct_lengths() {
    let g = ComputationGraph {
        kernel_count: 0,
        commitments_lens: vec![8, 4, 8, 16, 4],
        proof_templates: vec![],
    };
    assert_eq!(setup_key_lens(&g), vec![8, 4, 16]);
}

#[test]
fn assemble_errors() {
    let g = two_buffer_graph();
    assert_eq!(
        assemble_proof(&g, &vec![], &vec![vec![1], vec![2]]).unwrap_err(),
        AssembleError::CommitmentCountMismatch { expected: 2, found: 0 }
    );
    assert_eq!(
        assemble_proof(&g, &commitments_for(&g), &vec![vec![1]]).unwrap_err(),
        AssembleError::BlobCountMismatch { expected: 2, found: 1 }
    );
    let bad = vec![
        Commitment { vals_len: 4, bytes: vec![] },
        Commitment { vals_len: 2, bytes: vec![] },
    ];
    assert_eq!(
        assemble_proof(&g, &bad, &vec![vec![1], vec![2]]).unwrap_err(),
        AssembleError::CommitmentLenMismatch { commitment: 1, expected: 8, found: 2 }
    );
}

#[test]
fn deferred_mode_checks_the_aggregate_opening_last() {
    let g = two_buffer_graph();
    let proof = assemble_proof(&g, &commitments_for(&g), &vec![vec![1], vec![2]]).unwrap();
    let mut session = VerifySession::new(&g, &proof, true);
    session.record(true);
    session.record(true);
    assert_eq!(session.next_step(), VerifyStep::CheckAggregate);
    session.record(true);
    assert_eq!(session.next_step(), VerifyStep::Accept);

    let mut failing = VerifySession::new(&g, &proof, true);
    failing.record(true);
    failing.record(true);
    failing.record(false);
    assert_eq!(failing.next_step(), VerifyStep::Reject(VerifyFailure::AggregateFailed));
}
