use fil_proofs_bin::challenges::{self, derive_partitions, Scheme};
use fil_proofs_bin::errors::{ConfigurationError, PorepError};

fn scalar(n: u8) -> [u8; 32] {
    let mut bytes = [0u8; 32];
    bytes[0] = n;
    bytes
}

#[test]
fn interactive_partitions_are_reproducible() {
    let replica_id = [1u8; 32];
    let comm_r = scalar(2);
    let seed = [7u8; 32];
    let first = derive_partitions(Scheme::Interactive, 1024, &replica_id, &comm_r, &seed, 8, 2)
        .unwrap();
    let second = derive_partitions(Scheme::Interactive, 1024, &replica_id, &comm_r, &seed, 8, 2)
        .unwrap();
    assert_eq!(first.len(), 8);
    assert_eq!(first, second);
    assert!(first.iter().all(|c| *c > 0 && *c < 1024));
}

#[test]
fn interactive_partitions_are_the_partitions_in_order() {
    let replica_id = [1u8; 32];
    let comm_r = scalar(2);
    let seed = [7u8; 32];
    let all = derive_partitions(Scheme::Interactive, 1024, &replica_id, &comm_r, &seed, 8, 2)
        .unwrap();
    let first_part = challenges::derive(Scheme::Interactive, 1024, &replica_id, &comm_r, &seed, 0, 4).unwrap();
    let second_part = challenges::derive(Scheme::Interactive, 1024, &replica_id, &comm_r, &seed, 1, 4).unwrap();
    assert_eq!(&all[..4], &first_part[..]);
    assert_eq!(&all[4..], &second_part[..]);
}

#[test]
fn one_seed_byte_changes_the_challenges() {
    let replica_id = [1u8; 32];
    let comm_r = scalar(2);
    let seed = [7u8; 32];
    let mut other = seed;
    other[13] ^= 1;
    let a = derive_partitions(Scheme::Interactive, 1024, &replica_id, &comm_r, &seed, 8, 2).unwrap();
    let b = derive_partitions(Scheme::Interactive, 1024, &replica_id, &comm_r, &other, 8, 2)
        .unwrap();
    assert_ne!(a, b);
}

#[test]
fn uneven_partitions_are_refused() {
    let replica_id = [1u8; 32];
    let comm_r = scalar(2);
    let seed = [7u8; 32];
    for scheme in [Scheme::Interactive, Scheme::LayerBased, Scheme::NonInteractive] {
        assert_eq!(
            derive_partitions(scheme, 1024, &replica_id, &comm_r, &seed, 9, 2),
            Err(PorepError::Configuration(ConfigurationError::NotDivisible))
        );
        assert_eq!(
            derive_partitions(scheme, 1024, &replica_id, &comm_r, &seed, 8, 0),
            Err(PorepError::Configuration(ConfigurationError::NoPartitions))
        );
    }
}

#[test]
fn synthetic_set_matches_known_values() {
    let replica_id = scalar(55);
    let comm_r = scalar(101);
    let seed = [0u8; 32];
    let set = challenges::derive(Scheme::Synthetic, 1 << 10, &replica_id, &comm_r, &seed, 0, 21).unwrap();
    let expected: [usize; 21] = [
        178, 297, 869, 211, 875, 477, 94, 781, 124, 332, 856, 801, 176, 692, 429, 691, 290, 204,
        986, 210, 973,
    ];
    assert_eq!(set, expected);
}

#[test]
fn synthetic_set_is_capped_by_the_sector() {
    let replica_id = scalar(55);
    let comm_r = scalar(101);
    let seed = [0u8; 32];
    let set = challenges::derive(Scheme::Synthetic, 64, &replica_id, &comm_r, &seed, 0, 1 << 18).unwrap();
    assert_eq!(set.len(), 64);
    let other_seed = challenges::derive(Scheme::Synthetic, 64, &replica_id, &comm_r, &[9u8; 32], 3, 1 << 18)
        .unwrap();
    assert_eq!(set, other_seed);
}

#[test]
fn too_many_challenges_for_the_sector() {
    let replica_id = [1u8; 32];
    let comm_r = scalar(2);
    let seed = [7u8; 32];
    assert_eq!(
        challenges::derive(Scheme::Interactive, 8, &replica_id, &comm_r, &seed, 0, 8),
        Err(PorepError::InsufficientNodeSpace { sector_nodes: 8, requested: 8 })
    );
    assert_eq!(
        challenges::derive(Scheme::NonInteractive, 8, &replica_id, &comm_r, &seed, 0, 9),
        Err(PorepError::InsufficientNodeSpace { sector_nodes: 8, requested: 9 })
    );
    assert_eq!(
        challenges::derive(Scheme::Synthetic, 1, &scalar(1), &comm_r, &seed, 0, 1),
        Err(PorepError::InsufficientNodeSpace { sector_nodes: 1, requested: 1 })
    );
}

#[test]
fn commitments_must_be_field_elements() {
    let seed = [7u8; 32];
    let not_a_scalar = [0xffu8; 32];
    assert_eq!(
        challenges::derive(Scheme::LayerBased, 1024, &not_a_scalar, &scalar(2), &seed, 0, 4),
        Err(PorepError::Configuration(ConfigurationError::InvalidCommitment))
    );
    assert_eq!(
        challenges::derive(Scheme::Synthetic, 1024, &scalar(2), &not_a_scalar, &seed, 0, 4),
        Err(PorepError::Configuration(ConfigurationError::InvalidCommitment))
    );
    // The interactive scheme reads the replica id as bytes only.
    assert!(challenges::derive(Scheme::Interactive, 1024, &not_a_scalar, &scalar(2), &seed, 0, 4).is_ok());
}

#[test]
fn layer_based_challenges_come_from_the_synthetic_set() {
    let replica_id = scalar(55);
    let comm_r = scalar(101);
    let seed = [1u8; 32];
    let set = challenges::derive(Scheme::Synthetic, 1 << 10, &replica_id, &comm_r, &seed, 0, 1 << 18).unwrap();
    let picked = challenges::derive(Scheme::LayerBased, 1 << 10, &replica_id, &comm_r, &seed, 0, 10).unwrap();
    assert_eq!(picked.len(), 10);
    assert!(picked.iter().all(|c| set.contains(c)));
}

#[test]
fn non_interactive_challenges_ignore_the_seed() {
    let replica_id = [3u8; 32];
    let comm_r = scalar(9);
    let a = challenges::derive(Scheme::NonInteractive, 1 << 20, &replica_id, &comm_r, &[0u8; 32], 2, 18).unwrap();
    let b = challenges::derive(Scheme::NonInteractive, 1 << 20, &replica_id, &comm_r, &[5u8; 32], 2, 18).unwrap();
    assert_eq!(a.len(), 18);
    assert_eq!(a, b);
    assert!(a.iter().all(|c| *c > 0 && *c < (1 << 20)));
}

#[test]
fn sectors_beyond_32_bit_indices_are_refused() {
    let replica_id = [1u8; 32];
    let comm_r = scalar(2);
    let seed = [7u8; 32];
    for scheme in [Scheme::Interactive, Scheme::LayerBased, Scheme::NonInteractive, Scheme::Synthetic] {
        assert_eq!(
            challenges::derive(scheme, 1 << 32, &replica_id, &comm_r, &seed, 0, 4),
            Err(PorepError::Configuration(ConfigurationError::SectorTooLarge))
        );
    }
    assert!(challenges::derive(Scheme::Interactive, (1 << 32) - 1, &replica_id, &comm_r, &seed, 0, 4)
        .is_ok());
}

#[test]
fn no_challenges_asked_for() {
    let replica_id = [1u8; 32];
    let comm_r = scalar(2);
    let seed = [7u8; 32];
    assert_eq!(
        challenges::derive(Scheme::Interactive, 1, &replica_id, &comm_r, &seed, 0, 0),
        Ok(vec![])
    );
    assert_eq!(
        derive_partitions(Scheme::NonInteractive, 1024, &replica_id, &comm_r, &seed, 0, 5),
        Ok(vec![])
    );
    assert_eq!(
        challenges::derive(Scheme::Synthetic, 1024, &scalar(1), &comm_r, &seed, 0, 0),
        Ok(vec![])
    );
}

#[test]
fn the_interactive_scheme_does_not_read_the_commitment() {
    let replica_id = [1u8; 32];
    let seed = [7u8; 32];
    let a = challenges::derive(Scheme::Interactive, 1 << 20, &replica_id, &scalar(2), &seed, 3, 18);
    let b = challenges::derive(Scheme::Interactive, 1 << 20, &replica_id, &[0xee; 32], &seed, 3, 18);
    assert!(a.is_ok());
    assert_eq!(a, b);
}

#[test]
fn partitions_differ() {
    let replica_id = [1u8; 32];
    let comm_r = scalar(2);
    let seed = [7u8; 32];
    for scheme in [Scheme::Interactive, Scheme::LayerBased, Scheme::NonInteractive] {
        let a = challenges::derive(scheme, 1 << 20, &scalar(1), &comm_r, &seed, 0, 18).unwrap();
        let b = challenges::derive(scheme, 1 << 20, &scalar(1), &comm_r, &seed, 1, 18).unwrap();
        assert_ne!(a, b);
        let other_replica =
            challenges::derive(scheme, 1 << 20, &replica_id, &comm_r, &seed, 0, 18).unwrap();
        assert_ne!(a, other_replica);
    }
}
