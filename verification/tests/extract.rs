use fil_proofs_bin::bundle::{partition_bounds, read_bundle, write_bundle};
use fil_proofs_bin::challenges::{self, derive_partitions, Scheme};
use fil_proofs_bin::errors::{ConfigurationError, PorepError};
use fil_proofs_bin::extract::{extract, extract_bundle, extract_records, rank, ranks};
use fil_proofs_bin::geometry::ReplicaCommitment;
use fil_proofs_bin::layout::{StoreLayout, TreeShape};
use fil_proofs_bin::record::ProofRecord;
use fil_proofs_bin::store;

fn scalar(n: u8) -> [u8; 32] {
    let mut bytes = [0u8; 32];
    bytes[0] = n;
    bytes
}

fn layout() -> StoreLayout {
    let shape = TreeShape { base_arity: 8, sub_arity: 8, top_arity: 2 };
    StoreLayout::new(shape, 1024, 2).unwrap()
}

fn record_for(layout: &StoreLayout, challenge: usize, salt: u8) -> ProofRecord {
    ProofRecord {
        challenge: challenge as u64,
        parents: (0..14).map(|i| ((challenge + i) % 1024) as u64).collect(),
        proof_d: vec![salt; layout.proof_d_bytes],
        column: vec![salt.wrapping_add(1); layout.column_bytes],
        parent_columns: vec![salt.wrapping_add(2); layout.parent_columns_bytes],
        proof_r: vec![salt.wrapping_add(3); layout.proof_r_bytes],
    }
}

fn store_for(layout: &StoreLayout, superset: &[usize]) -> Vec<u8> {
    let records: Vec<ProofRecord> = superset
        .iter()
        .enumerate()
        .map(|(i, c)| record_for(layout, *c, i as u8))
        .collect();
    store::write(&records)
}

#[test]
fn rank_is_the_first_place() {
    let superset = [5usize, 3, 9, 3];
    assert_eq!(rank(&superset, 5), Some(0));
    assert_eq!(rank(&superset, 3), Some(1));
    assert_eq!(rank(&superset, 9), Some(2));
    assert_eq!(rank(&superset, 7), None);
    assert_eq!(rank(&[], 7), None);
    assert_eq!(ranks(&superset, &[9, 3, 5, 9]), Ok(vec![2, 1, 0, 2]));
    assert_eq!(ranks(&superset, &[]), Ok(vec![]));
    assert_eq!(
        ranks(&superset, &[9, 4, 8]),
        Err(PorepError::ChallengeNotInSuperset { challenge: 4 })
    );
}

#[test]
fn extracted_records_follow_the_challenges() {
    let layout = layout();
    let superset = [500usize, 3, 77, 1000, 12];
    let bytes = store_for(&layout, &superset);
    let challenges = [1000usize, 3, 12, 3];
    let records = extract_records(&bytes, &layout, &superset, &challenges).unwrap();
    assert_eq!(records.len(), 4);
    for (record, challenge) in records.iter().zip(challenges) {
        assert_eq!(record.challenge, challenge as u64);
    }
    assert_eq!(records[0], record_for(&layout, 1000, 3));
    assert_eq!(records[1], records[3]);
}

#[test]
fn a_challenge_outside_the_set_is_fatal() {
    let layout = layout();
    let superset = [500usize, 3, 77, 1000, 12];
    let bytes = store_for(&layout, &superset);
    assert_eq!(
        extract_records(&bytes, &layout, &superset, &[3, 78, 9]),
        Err(PorepError::ChallengeNotInSuperset { challenge: 78 })
    );
    // The lookup comes before the store: a store too short is not looked at.
    assert_eq!(
        extract_records(&bytes[..10], &layout, &superset, &[3, 78]),
        Err(PorepError::ChallengeNotInSuperset { challenge: 78 })
    );
    assert_eq!(
        extract_records(&bytes[..10], &layout, &superset, &[3]),
        Err(PorepError::TruncatedStore {
            position: 1,
            record_size: layout.record_size,
            store_len: 10
        })
    );
}

#[test]
fn interactive_challenges_miss_a_small_synthetic_set() {
    let layout = layout();
    let replica_id = scalar(55);
    let comm_r = scalar(101);
    let seed = [4u8; 32];
    let superset =
        challenges::derive(Scheme::Synthetic, 1024, &replica_id, &comm_r, &seed, 0, 64).unwrap();
    assert_eq!(superset.len(), 64);
    let bytes = store_for(&layout, &superset);
    let asked =
        derive_partitions(Scheme::Interactive, 1024, &replica_id, &comm_r, &seed, 8, 1).unwrap();
    let missing = asked.iter().find(|c| !superset.contains(c)).copied();
    assert!(missing.is_some());
    assert_eq!(
        extract(&bytes, &layout, Scheme::Interactive, &replica_id, &comm_r, &seed, 64, 8, 1),
        Err(PorepError::ChallengeNotInSuperset { challenge: missing.unwrap() })
    );
}

#[test]
fn selected_challenges_are_extracted_from_the_full_set() {
    let layout = layout();
    let replica_id = scalar(55);
    let comm_r = scalar(101);
    let seed = [1u8; 32];
    let superset =
        challenges::derive(Scheme::Synthetic, 1024, &replica_id, &comm_r, &seed, 0, 1 << 18)
            .unwrap();
    assert_eq!(superset.len(), 1024);
    let bytes = store_for(&layout, &superset);
    let asked =
        derive_partitions(Scheme::LayerBased, 1024, &replica_id, &comm_r, &seed, 12, 2).unwrap();
    let records =
        extract(&bytes, &layout, Scheme::LayerBased, &replica_id, &comm_r, &seed, 1 << 18, 12, 2)
            .unwrap();
    assert_eq!(records.len(), 12);
    for (record, challenge) in records.iter().zip(&asked) {
        assert_eq!(record.challenge, *challenge as u64);
    }
    let bundle = extract_bundle(
        &bytes,
        &layout,
        Scheme::LayerBased,
        &replica_id,
        &comm_r,
        &seed,
        1 << 18,
        12,
        2,
    )
    .unwrap();
    assert_eq!(bundle, store::write(&records));
    assert_eq!(read_bundle(&bundle, &layout, 6, 2).unwrap(), records);
}

#[test]
fn extraction_reports_derivation_failures() {
    let layout = layout();
    let replica_id = scalar(55);
    let comm_r = scalar(101);
    let seed = [1u8; 32];
    assert_eq!(
        extract(&[], &layout, Scheme::Interactive, &replica_id, &comm_r, &seed, 64, 9, 2),
        Err(PorepError::Configuration(ConfigurationError::NotDivisible))
    );
    assert_eq!(
        extract(&[], &layout, Scheme::Interactive, &[0xff; 32], &comm_r, &seed, 64, 8, 2),
        Err(PorepError::Configuration(ConfigurationError::InvalidCommitment))
    );
    assert_eq!(
        extract(&[], &layout, Scheme::Interactive, &replica_id, &comm_r, &seed, 64, 2048, 1),
        Err(PorepError::InsufficientNodeSpace { sector_nodes: 1024, requested: 2048 })
    );
}

#[test]
fn a_bundle_is_its_partitions_end_to_end() {
    let layout = layout();
    let first = vec![record_for(&layout, 1, 1), record_for(&layout, 2, 2)];
    let second = vec![record_for(&layout, 3, 3), record_for(&layout, 4, 4)];
    let bundle = write_bundle(&[first.clone(), second.clone()]);
    let mut flat = first.clone();
    flat.extend(second.clone());
    assert_eq!(bundle, store::write(&flat));
    assert_eq!(bundle.len(), 4 * layout.record_size);
    let back = read_bundle(&bundle, &layout, 2, 2).unwrap();
    let (start, end) = partition_bounds(1, 2, 2);
    assert_eq!((start, end), (2, 4));
    assert_eq!(&back[start..end], &second[..]);
    assert_eq!(partition_bounds(0, 2, 2), (0, 2));
    assert_eq!(write_bundle(&[]), Vec::<u8>::new());
    assert_eq!(
        read_bundle(&bundle, &layout, usize::MAX, 2),
        Err(PorepError::Configuration(ConfigurationError::SizeOverflow))
    );
    assert_eq!(
        read_bundle(&bundle, &layout, 5, 1),
        Err(PorepError::TruncatedStore {
            position: 4,
            record_size: layout.record_size,
            store_len: bundle.len()
        })
    );
}

#[test]
fn canonical_commitments() {
    let good = ReplicaCommitment {
        replica_id: scalar(1),
        comm_r: scalar(2),
        comm_d: scalar(3),
        comm_c: scalar(4),
        comm_r_last: scalar(5),
    };
    assert!(good.is_canonical());
    let bad = ReplicaCommitment { comm_c: [0xff; 32], ..good };
    assert!(!bad.is_canonical());
    // The modulus itself is the first value that is no field element.
    let modulus: [u8; 32] = [
        0x01, 0x00, 0x00, 0x00, 0xff, 0xff, 0xff, 0xff, 0xfe, 0x5b, 0xfe, 0xff, 0x02, 0xa4, 0xbd,
        0x53, 0x05, 0xd8, 0xa1, 0x09, 0x08, 0xd8, 0x39, 0x33, 0x48, 0x7d, 0x9d, 0x29, 0x53, 0xa7,
        0xed, 0x73,
    ];
    assert!(!ReplicaCommitment { replica_id: modulus, ..good }.is_canonical());
    let mut below = modulus;
    below[0] = 0;
    assert!(ReplicaCommitment { replica_id: below, ..good }.is_canonical());
}
