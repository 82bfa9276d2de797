use expander_orchestration::graph::{ComputationGraph, ProofTemplate};
use expander_orchestration::partition::{
    get_local_vals, partition_challenge_and_location_for_pcs_mpi,
    partition_single_gkr_claim_and_open_pcs_mpi, shard_opening_points, template_lens,
    template_values, OpeningError, PartitionError, SingleVarChallenge,
};
use expander_orchestration::shard::{ilog2, is_power_of_two, next_power_of_two};

#[test]
fn shard_count_rounds_up_to_power_of_two() {
    assert_eq!(next_power_of_two(1), 1);
    assert_eq!(next_power_of_two(2), 2);
    assert_eq!(next_power_of_two(3), 4);
    assert_eq!(next_power_of_two(4), 4);
    assert_eq!(next_power_of_two(5), 8);
    assert_eq!(next_power_of_two(1000), 1024);
    assert_eq!(next_power_of_two(1 << 40), 1 << 40);
    assert_eq!(next_power_of_two((1 << 40) + 1), 1 << 41);
}

#[test]
fn floor_log2_and_power_of_two_test() {
    assert_eq!(ilog2(1), 0);
    assert_eq!(ilog2(2), 1);
    assert_eq!(ilog2(7), 2);
    assert_eq!(ilog2(8), 3);
    assert_eq!(ilog2(usize::MAX), 63);
    assert!(is_power_of_two(1));
    assert!(is_power_of_two(64));
    assert!(!is_power_of_two(0));
    assert!(!is_power_of_two(6));
    assert!(!is_power_of_two(12));
}

#[test]
fn partitioned_slices_rebuild_the_buffer() {
    let buf: Vec<u64> = (0..12).collect();
    let buffers = vec![buf.clone()];
    let flags = vec![false];
    let mut joined = Vec::new();
    for i in 0..4 {
        let local = get_local_vals(&buffers, &flags, i, 4).unwrap();
        assert_eq!(local.len(), 1);
        assert_eq!(local[0].len(), 3);
        joined.extend_from_slice(&local[0]);
    }
    assert_eq!(joined, buf);
    let shard2 = get_local_vals(&buffers, &flags, 2, 4).unwrap();
    assert_eq!(shard2[0], vec![6, 7, 8]);
}

#[test]
fn broadcast_buffer_is_seen_whole_by_every_shard() {
    let buffers = vec![vec![5u64, 6, 7, 8], vec![1u64, 2, 3, 4, 5, 6, 7, 8]];
    let flags = vec![true, false];
    for i in 0..2 {
        let local = get_local_vals(&buffers, &flags, i, 2).unwrap();
        assert_eq!(local[0], buffers[0]);
    }
    assert_eq!(get_local_vals(&buffers, &flags, 0, 2).unwrap()[1], vec![1, 2, 3, 4]);
    assert_eq!(get_local_vals(&buffers, &flags, 1, 2).unwrap()[1], vec![5, 6, 7, 8]);
}

#[test]
fn local_vals_errors() {
    let buffers = vec![vec![1u64, 2, 3, 4], vec![1u64, 2, 3]];
    assert_eq!(
        get_local_vals(&buffers, &vec![true, true], 2, 2),
        Err(PartitionError::ShardOutOfRange { shard_index: 2, shard_count: 2 })
    );
    assert_eq!(
        get_local_vals(&buffers, &vec![true, true], 0, 0),
        Err(PartitionError::ShardOutOfRange { shard_index: 0, shard_count: 0 })
    );
    assert_eq!(
        get_local_vals(&buffers, &vec![true], 0, 2),
        Err(PartitionError::FlagCountMismatch { buffers: 2, flags: 1 })
    );
    assert_eq!(
        get_local_vals(&buffers, &vec![false, false], 1, 2),
        Err(PartitionError::NotDivisible { buffer: 1, len: 3, shard_count: 2 })
    );
    // A broadcast buffer need not divide.
    assert!(get_local_vals(&buffers, &vec![false, true], 1, 2).is_ok());
}

fn challenge(rz: Vec<u64>, r_simd: Vec<u64>, r_mpi: Vec<u64>) -> SingleVarChallenge<u64> {
    SingleVarChallenge { rz, r_simd, r_mpi }
}

#[test]
fn broadcast_challenge_split() {
    let c = challenge(vec![10, 11, 12, 13, 14], vec![7], vec![20, 21]);
    let (point, component) = partition_challenge_and_location_for_pcs_mpi(&c, 8, 4, true);
    assert_eq!(point.rz, vec![10, 11, 12]);
    assert_eq!(point.r_simd, vec![7]);
    assert!(point.r_mpi.is_empty());
    assert_eq!(component, vec![13, 14]);
    let mut rebuilt = point.rz.clone();
    rebuilt.extend_from_slice(&component);
    assert_eq!(rebuilt, c.rz);
}

#[test]
fn partitioned_challenge_split() {
    let c = challenge(vec![10, 11, 12, 13, 14], vec![7], vec![20, 21]);
    // 32 values over 4 shards: 8 per shard, 3 local variables.
    let (point, component) = partition_challenge_and_location_for_pcs_mpi(&c, 32, 4, false);
    assert_eq!(point.rz, vec![10, 11, 12, 20, 21]);
    assert!(point.r_mpi.is_empty());
    assert_eq!(component, vec![13, 14]);
    let mut rebuilt = point.rz[..3].to_vec();
    rebuilt.extend_from_slice(&component);
    assert_eq!(rebuilt, c.rz);
    assert_eq!(point.rz[3..].to_vec(), c.r_mpi);
}

#[test]
fn opening_points_per_commitment() {
    let c = challenge(vec![1, 2, 3, 4], vec![], vec![9]);
    let points =
        partition_single_gkr_claim_and_open_pcs_mpi(&vec![4, 8], &c, &vec![true, false]).unwrap();
    assert_eq!(points.len(), 2);
    assert_eq!(points[0].rz, vec![1, 2]);
    assert_eq!(points[1].rz, vec![1, 2, 9]);
    assert_eq!(
        partition_single_gkr_claim_and_open_pcs_mpi(&vec![4], &c, &vec![true, false]),
        Err(OpeningError::FlagCountMismatch { commitments: 1, flags: 2 })
    );
    assert_eq!(
        partition_single_gkr_claim_and_open_pcs_mpi(&vec![64], &c, &vec![true]),
        Err(OpeningError::Unsplittable { commitment: 0 })
    );
    assert_eq!(
        partition_single_gkr_claim_and_open_pcs_mpi(&vec![1], &c, &vec![false]),
        Err(OpeningError::Unsplittable { commitment: 0 })
    );
    let wide = challenge(vec![1], vec![], vec![0; 64]);
    assert_eq!(
        partition_single_gkr_claim_and_open_pcs_mpi(&vec![4], &wide, &vec![true]),
        Err(OpeningError::TooManyShardVars { vars: 64 })
    );
}

fn one_template_graph() -> ComputationGraph {
    ComputationGraph {
        kernel_count: 1,
        commitments_lens: vec![2, 8, 4],
        proof_templates: vec![ProofTemplate {
            kernel_id: 0,
            commitment_indices: vec![2, 1],
            parallel_count: 4,
            is_broadcast: vec![true, false],
        }],
    }
}

#[test]
fn template_buffers_follow_commitment_indices() {
    let g = one_template_graph();
    let values = vec![vec![1u64, 2], (10u64..18).collect(), vec![5u64, 6, 7, 8]];
    assert_eq!(template_lens(&g, 0), vec![4, 8]);
    assert_eq!(template_values(&g, 0, &values), vec![values[2].clone(), values[1].clone()]);
}

#[test]
fn shard_index_fills_r_mpi_of_partitioned_openings() {
    let g = one_template_graph();
    // Shard 2 of 4 reads 2 of the 8 values of the partitioned buffer: one local
    // variable, and the shard index 2 as the bits 0, 1.
    let c = challenge(vec![100, 101, 102], vec![7], vec![]);
    let points = shard_opening_points(&g, 0, 2, &c, 0u64, 1u64).unwrap();
    assert_eq!(points.len(), 2);
    assert_eq!(points[0].rz, vec![100, 101]);
    assert_eq!(points[1].rz, vec![100, 0, 1]);
    assert_eq!(points[1].r_simd, vec![7]);
    assert!(points[1].r_mpi.is_empty());
    let short = challenge(vec![100], vec![], vec![]);
    assert_eq!(
        shard_opening_points(&g, 0, 1, &short, 0u64, 1u64),
        Err(OpeningError::Unsplittable { commitment: 0 })
    );
}
