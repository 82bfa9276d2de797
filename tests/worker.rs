use expander_orchestration::binding::{split_field_elements, FormatError, FIELD_ELEMENT_BYTES};
use expander_orchestration::config::{
    BN254Config, BabyBearConfig, Config, GF2Config, GoldilocksConfig, M31Config,
};
use expander_orchestration::graph::{ComputationGraph, GraphError, ProofTemplate, ShardTask};
use expander_orchestration::prover::ProvePlanError;
use expander_orchestration::server::{
    parse_port, parse_port_number, ExpanderExecArgs, RequestType, Worker, WorkerAction,
    WorkerError,
};
use expander_orchestration::combined::{CombinedProof, Commitment, ExpanderProof};
use expander_orchestration::transport::{ProofDecodeError, SharedMemoryEngine, WitnessLayoutError};

fn graph() -> ComputationGraph {
    ComputationGraph {
        kernel_count: 1,
        commitments_lens: vec![4, 8],
        proof_templates: vec![ProofTemplate {
            kernel_id: 0,
            commitment_indices: vec![0, 1],
            parallel_count: 2,
            is_broadcast: vec![true, false],
        }],
    }
}

#[test]
fn witness_layout_exact_bytes() {
    let values = vec![vec![1u8, 2, 3, 4], vec![]];
    let bytes = SharedMemoryEngine::encode_witness(&values, 2).unwrap();
    assert_eq!(
        bytes,
        vec![
            2, 0, 0, 0, 0, 0, 0, 0, // two buffers
            2, 0, 0, 0, 0, 0, 0, 0, // two elements
            1, 2, 3, 4, //
            0, 0, 0, 0, 0, 0, 0, 0, // no elements
        ]
    );
}

#[test]
fn witness_round_trip_with_trailing_bytes() {
    let values = vec![vec![9u8; 64], vec![7u8; 32], vec![1u8; 96]];
    let mut bytes = SharedMemoryEngine::encode_witness(&values, 32).unwrap();
    assert_eq!(bytes.len(), 8 + 3 * 8 + 192);
    bytes.extend_from_slice(&[0xff; 40]);
    assert_eq!(SharedMemoryEngine::decode_witness(&bytes, 32).unwrap(), values);
}

#[test]
fn witness_layout_errors() {
    assert_eq!(
        SharedMemoryEngine::encode_witness(&vec![vec![0u8; 4], vec![0u8; 5]], 2),
        Err(WitnessLayoutError::PartialElement { buffer: 1, len: 5, elem_size: 2 })
    );
    assert_eq!(
        SharedMemoryEngine::decode_witness(&vec![1, 0, 0], 2),
        Err(WitnessLayoutError::Truncated)
    );
    let mut bytes = SharedMemoryEngine::encode_witness(&vec![vec![0u8; 8]], 4).unwrap();
    bytes.pop();
    assert_eq!(SharedMemoryEngine::decode_witness(&bytes, 4), Err(WitnessLayoutError::Truncated));
    let huge_count = vec![1, 0, 0, 0, 0, 0, 0, 0, 0xff, 0xff, 0xff, 0xff, 0xff, 0xff, 0xff, 0xff];
    assert_eq!(
        SharedMemoryEngine::decode_witness(&huge_count, 4),
        Err(WitnessLayoutError::Truncated)
    );
}

#[test]
fn regions_only_grow() {
    assert!(SharedMemoryEngine::allocation_needed(None, 0));
    assert!(SharedMemoryEngine::allocation_needed(Some(100), 101));
    assert!(!SharedMemoryEngine::allocation_needed(Some(100), 100));
    assert!(!SharedMemoryEngine::allocation_needed(Some(100), 10));
}

#[test]
fn setup_then_prove_without_witness_fails() {
    let mut worker = Worker::new();
    match worker.on_request(&RequestType::Setup("graph.bin".to_string())) {
        WorkerAction::LoadGraph(path) => assert_eq!(path, "graph.bin"),
        other => panic!("unexpected action {other:?}"),
    }
    assert_eq!(worker.install_graph(graph()), Ok(vec![4, 8]));
    assert!(matches!(worker.on_request(&RequestType::Prove), WorkerAction::ReadWitness));
    assert_eq!(worker.plan_prove_request(None, 32), Err(WorkerError::NoWitness));
    assert_eq!(
        worker.plan_prove_request(Some(&vec![]), 32),
        Err(WorkerError::Layout(WitnessLayoutError::Truncated))
    );
}

#[test]
fn prove_request_with_witness() {
    let mut worker = Worker::new();
    worker.install_graph(graph()).unwrap();
    let values = vec![vec![3u8; 4 * 32], vec![5u8; 8 * 32]];
    let bytes = SharedMemoryEngine::encode_witness(&values, 32).unwrap();
    let (bufs, tasks) = worker.plan_prove_request(Some(&bytes), 32).unwrap();
    assert_eq!(bufs, values);
    assert_eq!(
        tasks,
        vec![
            ShardTask { template: 0, shard_index: 0, shard_count: 2 },
            ShardTask { template: 0, shard_index: 1, shard_count: 2 },
        ]
    );
    let short = SharedMemoryEngine::encode_witness(&vec![vec![3u8; 4 * 32]], 32).unwrap();
    assert_eq!(
        worker.plan_prove_request(Some(&short), 32),
        Err(WorkerError::Witness(ProvePlanError::WitnessCountMismatch { expected: 2, found: 1 }))
    );
}

#[test]
fn prove_before_setup_is_refused() {
    let mut worker = Worker::new();
    assert!(matches!(
        worker.on_request(&RequestType::Prove),
        WorkerAction::Refuse(WorkerError::NoGraph)
    ));
    assert_eq!(worker.plan_prove_request(Some(&vec![0; 8]), 32), Err(WorkerError::NoGraph));
}

#[test]
fn malformed_graph_is_refused() {
    let mut worker = Worker::new();
    let mut g = graph();
    g.commitments_lens = vec![4, 12];
    assert_eq!(
        worker.install_graph(g),
        Err(WorkerError::Graph(GraphError::BufferLenNotPow2 { commitment: 1, len: 12 }))
    );
    assert!(matches!(
        worker.on_request(&RequestType::Prove),
        WorkerAction::Refuse(WorkerError::NoGraph)
    ));
}

#[test]
fn requests_after_exit_are_still_handled() {
    let mut worker = Worker::new();
    assert!(matches!(worker.on_request(&RequestType::Exit), WorkerAction::Shutdown));
    assert!(worker.is_exit_requested());
    assert!(matches!(worker.on_request(&RequestType::Exit), WorkerAction::Shutdown));
    match worker.on_request(&RequestType::Setup("x".to_string())) {
        WorkerAction::LoadGraph(path) => assert_eq!(path, "x"),
        other => panic!("unexpected action {other:?}"),
    }
    assert!(matches!(
        worker.on_request(&RequestType::Prove),
        WorkerAction::Refuse(WorkerError::NoGraph)
    ));
    worker.install_graph(graph()).unwrap();
    assert!(matches!(worker.on_request(&RequestType::Prove), WorkerAction::ReadWitness));
}

#[test]
fn port_parsing() {
    assert_eq!(parse_port("3000"), Some(3000));
    assert_eq!(parse_port("+80"), Some(80));
    assert_eq!(parse_port("0"), Some(0));
    assert_eq!(parse_port("65535"), Some(65535));
    assert_eq!(parse_port("65536"), None);
    assert_eq!(parse_port("99999999999999999999"), None);
    assert_eq!(parse_port(""), None);
    assert_eq!(parse_port("+"), None);
    assert_eq!(parse_port("-1"), None);
    assert_eq!(parse_port("30a0"), None);
    assert_eq!(parse_port_number(None, 3000), 3000);
    assert_eq!(parse_port_number(Some("4000"), 3000), 4000);
    assert_eq!(parse_port_number(Some("port"), 3000), 3000);
}

#[test]
fn exec_args_defaults() {
    let args = ExpanderExecArgs::default();
    assert_eq!(args.field_type, "M31");
    assert_eq!(args.fiat_shamir_hash, "SHA256");
    assert_eq!(args.poly_commit, "Raw");
    assert_eq!(args.port_number, "3000");
    assert!(!args.batch_pcs);
}

#[test]
fn field_element_chunks() {
    let bytes: Vec<u8> = (0..64).collect();
    let chunks = split_field_elements(&bytes, FIELD_ELEMENT_BYTES).unwrap();
    assert_eq!(chunks.len(), 2);
    assert_eq!(chunks[1], (32..64).collect::<Vec<u8>>());
    assert_eq!(
        split_field_elements(&vec![0u8; 33], FIELD_ELEMENT_BYTES),
        Err(FormatError::NotMultiple { len: 33, width: 32 })
    );
    assert_eq!(split_field_elements(&vec![], FIELD_ELEMENT_BYTES), Ok(vec![]));
}

#[test]
fn config_constants() {
    assert_eq!(M31Config::config_id(), 1);
    assert_eq!(BN254Config::config_id(), 2);
    assert_eq!(GF2Config::config_id(), 3);
    assert_eq!(GoldilocksConfig::config_id(), 4);
    assert_eq!(BabyBearConfig::config_id(), 5);
    assert_eq!(GF2Config::cost_mul(), 200);
    assert_eq!(BN254Config::cost_mul(), 10);
    assert!(!GF2Config::enable_random_combination());
    assert!(M31Config::enable_random_combination());
    assert_eq!(BabyBearConfig::cost_input(), 1000);
    assert_eq!(GoldilocksConfig::cost_variable(), 100);
    assert_eq!(BN254Config::cost_add(), 3);
    assert_eq!(M31Config::cost_const(), 3);
}

fn sample_proof() -> CombinedProof {
    CombinedProof {
        commitments: vec![
            Commitment { vals_len: 4, bytes: vec![1, 2, 3] },
            Commitment { vals_len: 8, bytes: vec![] },
        ],
        proofs: vec![
            ExpanderProof { data: vec![vec![10, 11], vec![12]] },
            ExpanderProof { data: vec![] },
        ],
    }
}

#[test]
fn combined_proof_round_trip() {
    let p = sample_proof();
    let bytes = SharedMemoryEngine::encode_combined_proof(&p);
    let back = SharedMemoryEngine::decode_combined_proof(&bytes).unwrap();
    assert_eq!(back.commitments.len(), 2);
    assert_eq!(back.commitments[0].vals_len, 4);
    assert_eq!(back.commitments[0].bytes, vec![1, 2, 3]);
    assert_eq!(back.commitments[1].vals_len, 8);
    assert!(back.commitments[1].bytes.is_empty());
    assert_eq!(back.proofs.len(), 2);
    assert_eq!(back.proofs[0].data, vec![vec![10, 11], vec![12]]);
    assert!(back.proofs[1].data.is_empty());
}

#[test]
fn combined_proof_exact_layout() {
    let p = CombinedProof {
        commitments: vec![Commitment { vals_len: 2, bytes: vec![7] }],
        proofs: vec![],
    };
    let bytes = SharedMemoryEngine::encode_combined_proof(&p);
    let le = |x: u64| x.to_le_bytes().to_vec();
    // commitment entry: length 2, then byte 7
    let entry = [le(2), vec![7]].concat();
    let commitments = [le(1), le(entry.len() as u64), entry].concat();
    let proofs = le(0);
    let expected = [
        le(2),
        le(commitments.len() as u64),
        commitments,
        le(proofs.len() as u64),
        proofs,
    ]
    .concat();
    assert_eq!(bytes, expected);
}

#[test]
fn flipped_proof_byte_is_never_read_back_as_the_original() {
    let p = sample_proof();
    let bytes = SharedMemoryEngine::encode_combined_proof(&p);
    for i in 0..bytes.len() {
        let mut tampered = bytes.clone();
        tampered[i] ^= 0x01;
        match SharedMemoryEngine::decode_combined_proof(&tampered) {
            Err(_) => {}
            Ok(q) => {
                let same = q.commitments.len() == p.commitments.len()
                    && q.proofs.len() == p.proofs.len()
                    && q.commitments.iter().zip(&p.commitments).all(|(a, b)| {
                        a.vals_len == b.vals_len && a.bytes == b.bytes
                    })
                    && q.proofs.iter().zip(&p.proofs).all(|(a, b)| a.data == b.data);
                // Only bytes past the end of a list (none here) could go unseen.
                assert!(!same, "flip at byte {i} went unnoticed");
            }
        }
    }
}

#[test]
fn combined_proof_decode_errors() {
    assert_eq!(
        SharedMemoryEngine::decode_combined_proof(&vec![]).unwrap_err(),
        ProofDecodeError::Truncated
    );
    let one_list = SharedMemoryEngine::encode_witness(&vec![vec![]], 1).unwrap();
    assert_eq!(
        SharedMemoryEngine::decode_combined_proof(&one_list).unwrap_err(),
        ProofDecodeError::WrongShape
    );
    let short_commitment = SharedMemoryEngine::encode_witness(&vec![vec![1, 2, 3]], 1).unwrap();
    let empty_list = SharedMemoryEngine::encode_witness(&vec![], 1).unwrap();
    let bytes = SharedMemoryEngine::encode_witness(&vec![short_commitment, empty_list.clone()], 1)
        .unwrap();
    assert_eq!(
        SharedMemoryEngine::decode_combined_proof(&bytes).unwrap_err(),
        ProofDecodeError::BadCommitment { commitment: 0 }
    );
    let bad_template = SharedMemoryEngine::encode_witness(&vec![vec![5, 0, 0]], 1).unwrap();
    let bytes =
        SharedMemoryEngine::encode_witness(&vec![empty_list, bad_template], 1).unwrap();
    assert_eq!(
        SharedMemoryEngine::decode_combined_proof(&bytes).unwrap_err(),
        ProofDecodeError::BadTemplate { template: 0 }
    );
}

#[test]
fn setup_payload_round_trip() {
    let setup = vec![1u8, 2, 3];
    let mut region = SharedMemoryEngine::encode_payload(&setup);
    assert_eq!(region, vec![3, 0, 0, 0, 0, 0, 0, 0, 1, 2, 3]);
    region.extend_from_slice(&[9; 20]);
    assert_eq!(SharedMemoryEngine::decode_payload(&region), Some(setup));
    assert_eq!(SharedMemoryEngine::decode_payload(&vec![5, 0, 0, 0, 0, 0, 0, 0, 1]), None);
    assert_eq!(SharedMemoryEngine::decode_payload(&vec![0, 0]), None);
}

#[test]
fn combined_proof_read_back_past_stale_bytes() {
    let p = sample_proof();
    let mut bytes = SharedMemoryEngine::encode_combined_proof(&p);
    bytes.extend_from_slice(&[0xee; 17]);
    let back = SharedMemoryEngine::decode_combined_proof(&bytes).unwrap();
    assert_eq!(back.proofs[0].data, p.proofs[0].data);
    assert_eq!(back.commitments[0].bytes, p.commitments[0].bytes);
}
