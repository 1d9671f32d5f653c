use std::collections::HashSet;

use fil_proofs_bin::layout::{StoreLayout, TreeShape};
use fil_proofs_bin::nodes::{
    binary_arities, checked_unique_nodes, level_arities, path_refs, unique_nodes,
};
use fil_proofs_bin::record::ProofRecord;
use fil_proofs_bin::temporary_aux::{
    base_tree_count, base_tree_nodes, temporary_aux_layout, StoreSize, TemporaryAuxLayout,
};
use fil_proofs_bin::errors::ConfigurationError;

fn shape(base: usize, sub: usize, top: usize) -> TreeShape {
    TreeShape { base_arity: base, sub_arity: sub, top_arity: top }
}

fn record(layout: &StoreLayout, challenge: u64, parents: Vec<u64>) -> ProofRecord {
    ProofRecord {
        challenge,
        parents,
        proof_d: vec![0; layout.proof_d_bytes],
        column: vec![0; layout.column_bytes],
        parent_columns: vec![0; layout.parent_columns_bytes],
        proof_r: vec![0; layout.proof_r_bytes],
    }
}

fn path(places: &mut HashSet<(u8, usize, u64)>, tree: u8, arities: &[usize], leaf: u64) -> usize {
    let mut references = 1;
    places.insert((tree, 0, leaf));
    let mut node = leaf;
    for (level, arity) in arities.iter().enumerate() {
        let arity = *arity as u64;
        let parent = node / arity;
        for child in 0..arity {
            if parent * arity + child != node {
                places.insert((tree, level, parent * arity + child));
                references += 1;
            }
        }
        node = parent;
    }
    references
}

fn by_hand(layout: &StoreLayout, records: &[ProofRecord]) -> (usize, usize) {
    let binary = vec![2usize; layout.path_d_len];
    let mut arities = vec![layout.shape.base_arity; layout.base_path_len];
    if layout.shape.sub_arity > 0 {
        arities.push(layout.shape.sub_arity);
    }
    if layout.shape.top_arity > 0 {
        arities.push(layout.shape.top_arity);
    }
    let mut places = HashSet::new();
    let mut total = 0;
    for record in records {
        total += path(&mut places, 0, &binary, record.challenge);
        total += path(&mut places, 1, &arities, record.challenge);
        for parent in &record.parents {
            total += path(&mut places, 1, &arities, *parent);
        }
        total += path(&mut places, 2, &arities, record.challenge);
    }
    (total, places.len())
}

#[test]
fn arities_from_the_leaves_up() {
    let layout = StoreLayout::new(shape(8, 8, 2), 1024, 2).unwrap();
    assert_eq!(level_arities(&layout), vec![8, 8, 8, 2]);
    assert_eq!(binary_arities(&layout), vec![2; 10]);
    assert_eq!(path_refs(&level_arities(&layout)), 1 + 7 + 7 + 7 + 1);
    assert_eq!(path_refs(&binary_arities(&layout)), 11);
    let layout = StoreLayout::new(shape(8, 0, 0), 64, 2).unwrap();
    assert_eq!(level_arities(&layout), vec![8, 8]);
    assert_eq!(path_refs(&vec![]), 1);
}

#[test]
fn one_record_of_a_small_sector() {
    let layout = StoreLayout::new(shape(8, 0, 0), 64, 2).unwrap();
    let records = vec![record(&layout, 9, (20..34).collect())];
    let (total, unique) = unique_nodes(&layout, &records);
    // Seven nodes in the data tree, fifteen on each of the sixteen other paths.
    assert_eq!(total, 7 + 16 * 15);
    assert_eq!((total, unique), by_hand(&layout, &records));
    assert!(unique < total);
}

#[test]
fn the_same_record_twice_adds_no_node() {
    let layout = StoreLayout::new(shape(8, 0, 0), 64, 2).unwrap();
    let one = vec![record(&layout, 9, (20..34).collect())];
    let two = vec![one[0].clone(), one[0].clone()];
    let (total_one, unique_one) = unique_nodes(&layout, &one);
    let (total_two, unique_two) = unique_nodes(&layout, &two);
    assert_eq!(total_two, 2 * total_one);
    assert_eq!(unique_two, unique_one);
}

#[test]
fn many_records_share_nodes() {
    let layout = StoreLayout::new(shape(8, 8, 2), 1024, 2).unwrap();
    let records: Vec<ProofRecord> = (0..40u64)
        .map(|n| record(&layout, (n * 97 + 5) % 1024, (0..14).map(|i| (n * 31 + i * 71) % 1024).collect()))
        .collect();
    let (total, unique) = unique_nodes(&layout, &records);
    assert_eq!(total, 40 * (11 + 16 * 23));
    assert_eq!((total, unique), by_hand(&layout, &records));
    assert!(unique <= total);
    assert_eq!(checked_unique_nodes(&layout, &records), Some((total, unique)));
    assert_eq!(unique_nodes(&layout, &[]), (0, 0));
}

#[test]
fn indices_beyond_the_sector_are_not_counted() {
    let layout = StoreLayout::new(shape(8, 0, 0), 64, 2).unwrap();
    let mut records = vec![record(&layout, 9, (20..34).collect())];
    records.push(record(&layout, 64, (20..34).collect()));
    assert_eq!(checked_unique_nodes(&layout, &records), None);
    records[1].challenge = 63;
    assert!(checked_unique_nodes(&layout, &records).is_some());
    records[1].parents[13] = 64;
    assert_eq!(checked_unique_nodes(&layout, &records), None);
    // Only the indices matter: a record with fewer parents refers to fewer nodes.
    records[1].parents.pop();
    assert_eq!(
        checked_unique_nodes(&layout, &records).map(|counts| counts.0),
        Some(7 + 16 * 15 + 7 + 15 * 15)
    );
}

#[test]
fn paths_that_share_no_node() {
    // Two challenges at opposite ends of the sector, and no parents: the paths
    // meet nowhere, not even next to the root.
    let layout = StoreLayout::new(shape(8, 8, 2), 1024, 2).unwrap();
    let records = vec![record(&layout, 0, vec![]), record(&layout, 1023, vec![])];
    let (total, unique) = unique_nodes(&layout, &records);
    assert_eq!(total, 2 * (11 + 2 * 23));
    assert_eq!(unique, total);
    assert_eq!((total, unique), by_hand(&layout, &records));
    // One parent next to its challenge shares most of the challenge's path.
    let near = vec![record(&layout, 0, vec![1])];
    let (total, unique) = unique_nodes(&layout, &near);
    assert_eq!(total, 11 + 3 * 23);
    assert_eq!((total, unique), by_hand(&layout, &near));
    assert!(unique < total);
}

#[test]
fn stores_of_a_replica() {
    assert_eq!(
        temporary_aux_layout(shape(8, 8, 2), 1024, 2, 2),
        Ok(TemporaryAuxLayout {
            num_labels: 2,
            label_size: 1024,
            tree_d: StoreSize { size: 2047, rows_to_discard: 0 },
            tree_r_last: StoreSize { size: 73, rows_to_discard: 2 },
            tree_c: StoreSize { size: 73, rows_to_discard: 0 },
        })
    );
    assert_eq!(
        temporary_aux_layout(shape(8, 0, 0), 64, 11, 0),
        Ok(TemporaryAuxLayout {
            num_labels: 11,
            label_size: 64,
            tree_d: StoreSize { size: 127, rows_to_discard: 0 },
            tree_r_last: StoreSize { size: 73, rows_to_discard: 0 },
            tree_c: StoreSize { size: 73, rows_to_discard: 0 },
        })
    );
}

#[test]
fn base_trees_of_a_shape() {
    assert_eq!(base_tree_count(shape(8, 0, 0)), Ok(1));
    assert_eq!(base_tree_count(shape(8, 8, 0)), Ok(8));
    assert_eq!(base_tree_count(shape(8, 8, 2)), Ok(16));
    assert_eq!(base_tree_count(shape(8, 0, 2)), Err(ConfigurationError::InvalidTreeShape));
    assert_eq!(
        base_tree_count(shape(8, usize::MAX, 2)),
        Err(ConfigurationError::SizeOverflow)
    );
    assert_eq!(base_tree_nodes(shape(8, 8, 2), 1024), Ok(64));
    assert_eq!(base_tree_nodes(shape(8, 8, 0), 1 << 30), Ok(1 << 27));
}

#[test]
fn stores_that_cannot_be_sized() {
    assert_eq!(
        temporary_aux_layout(shape(8, 0, 2), 1024, 2, 0),
        Err(ConfigurationError::InvalidTreeShape)
    );
    // The data tree needs a power of two of leaves.
    assert_eq!(
        temporary_aux_layout(shape(8, 0, 0), 96, 2, 0),
        Err(ConfigurationError::InvalidTreeShape)
    );
    // A base tree has at least as many leaves as a node has children.
    assert_eq!(
        temporary_aux_layout(shape(8, 8, 2), 64, 2, 0),
        Err(ConfigurationError::InvalidTreeShape)
    );
    assert_eq!(
        temporary_aux_layout(shape(6, 0, 0), 64, 2, 0),
        Err(ConfigurationError::InvalidTreeShape)
    );
    assert_eq!(
        temporary_aux_layout(shape(8, 0, 0), (1 << 31) + 1, 2, 0),
        Err(ConfigurationError::SectorTooLarge)
    );
}
