use fil_proofs_bin::errors::{ConfigurationError, PorepError};
use fil_proofs_bin::layout::{proof_record_size, StoreLayout, TreeShape};
use fil_proofs_bin::record::ProofRecord;
use fil_proofs_bin::store::{self, check_store_length, read, read_one, read_range};

fn shape(base: usize, sub: usize, top: usize) -> TreeShape {
    TreeShape { base_arity: base, sub_arity: sub, top_arity: top }
}

fn small_layout() -> StoreLayout {
    StoreLayout::new(shape(8, 8, 2), 1024, 2).unwrap()
}

fn filler(len: usize, salt: u64) -> Vec<u8> {
    let mut state = salt.wrapping_mul(0x9e37_79b9_7f4a_7c15).wrapping_add(1);
    (0..len)
        .map(|_| {
            state = state.wrapping_mul(6364136223846793005).wrapping_add(1442695040888963407);
            (state >> 56) as u8
        })
        .collect()
}

fn record(layout: &StoreLayout, n: u64) -> ProofRecord {
    let nodes = layout.sector_nodes as u64;
    ProofRecord {
        challenge: (n * 37 + 1) % nodes,
        parents: (0..14).map(|i| (n * 101 + i * 13) % nodes).collect(),
        proof_d: filler(layout.proof_d_bytes, n * 4),
        column: filler(layout.column_bytes, n * 4 + 1),
        parent_columns: filler(layout.parent_columns_bytes, n * 4 + 2),
        proof_r: filler(layout.proof_r_bytes, n * 4 + 3),
    }
}

fn records(layout: &StoreLayout, count: u64) -> Vec<ProofRecord> {
    (0..count).map(|n| record(layout, n)).collect()
}

#[test]
fn record_size_of_the_smallest_sector() {
    // 64 nodes under an eight-ary tree: 6 levels in the data tree, 2 in the others.
    let layout = StoreLayout::new(shape(8, 0, 0), 64, 2).unwrap();
    assert_eq!(layout.path_d_len, 6);
    assert_eq!(layout.base_path_len, 2);
    assert_eq!(layout.proof_d_bytes, 224);
    assert_eq!(layout.proof_r_bytes, 480);
    assert_eq!(layout.column_bytes, 544);
    assert_eq!(layout.parent_columns_bytes, 14 * 544);
    assert_eq!(layout.record_size, 8984);
    assert_eq!(proof_record_size(shape(8, 0, 0), 64, 2), Ok(8984));
}

#[test]
fn record_size_of_a_large_sector() {
    // 2^30 nodes, eleven layers, nine eight-ary levels below one more eight-ary level.
    assert_eq!(proof_record_size(shape(8, 8, 0), 1 << 30, 11), Ok(42744));
    // 2^31 nodes add a binary level on top.
    assert_eq!(proof_record_size(shape(8, 8, 2), 1 << 31, 11), Ok(43288));
}

#[test]
fn layouts_that_do_not_exist() {
    assert_eq!(
        StoreLayout::new(shape(8, 0, 0), 64, 0),
        Err(ConfigurationError::NoLayers)
    );
    assert_eq!(
        StoreLayout::new(shape(8, 0, 0), 0, 2),
        Err(ConfigurationError::InvalidTreeShape)
    );
    assert_eq!(
        StoreLayout::new(shape(8, 0, 0), 96, 2),
        Err(ConfigurationError::InvalidTreeShape)
    );
    assert_eq!(
        StoreLayout::new(shape(6, 0, 0), 64, 2),
        Err(ConfigurationError::InvalidTreeShape)
    );
    assert_eq!(
        StoreLayout::new(shape(1, 0, 0), 64, 2),
        Err(ConfigurationError::InvalidTreeShape)
    );
    assert_eq!(
        StoreLayout::new(shape(8, 8, 8), 32, 2),
        Err(ConfigurationError::InvalidTreeShape)
    );
    // Seven index bits cannot be shared out among eight-ary levels.
    assert_eq!(
        StoreLayout::new(shape(8, 0, 0), 128, 2),
        Err(ConfigurationError::InvalidTreeShape)
    );
    assert_eq!(
        StoreLayout::new(shape(8, 0, 0), usize::MAX, 2),
        Err(ConfigurationError::SectorTooLarge)
    );
    assert_eq!(
        StoreLayout::new(shape(8, 0, 0), 64, usize::MAX / 16),
        Err(ConfigurationError::SizeOverflow)
    );
}

#[test]
fn record_bytes_are_laid_out_in_order() {
    let layout = small_layout();
    let r = record(&layout, 5);
    let bytes = r.encode();
    assert_eq!(bytes.len(), layout.record_size);
    assert_eq!(&bytes[..8], &r.challenge.to_le_bytes());
    assert_eq!(&bytes[8..16], &r.parents[0].to_le_bytes());
    assert_eq!(&bytes[112..120], &r.parents[13].to_le_bytes());
    assert_eq!(&bytes[120..120 + layout.proof_d_bytes], &r.proof_d[..]);
    assert_eq!(&bytes[layout.record_size - layout.proof_r_bytes..], &r.proof_r[..]);
    assert_eq!(ProofRecord::decode(&layout, &bytes), Some(r));
}

#[test]
fn decode_refuses_wrong_lengths_and_indices() {
    let layout = small_layout();
    let r = record(&layout, 5);
    let bytes = r.encode();
    assert_eq!(ProofRecord::decode(&layout, &bytes[1..]), None);
    let mut longer = bytes.clone();
    longer.push(0);
    assert_eq!(ProofRecord::decode(&layout, &longer), None);
    let mut bad_challenge = bytes.clone();
    bad_challenge[..8].copy_from_slice(&1024u64.to_le_bytes());
    assert_eq!(ProofRecord::decode(&layout, &bad_challenge), None);
    let mut bad_parent = bytes.clone();
    bad_parent[112..120].copy_from_slice(&u64::MAX.to_le_bytes());
    assert_eq!(ProofRecord::decode(&layout, &bad_parent), None);
}

#[test]
fn fits_tells_well_formed_records() {
    let layout = small_layout();
    let good = record(&layout, 1);
    assert!(good.fits(&layout));
    let mut short = good.clone();
    short.proof_r.pop();
    assert!(!short.fits(&layout));
    let mut far = good.clone();
    far.parents[3] = 1024;
    assert!(!far.fits(&layout));
    let mut few = good.clone();
    few.parents.pop();
    assert!(!few.fits(&layout));
}

#[test]
fn full_store_round_trip() {
    let layout = small_layout();
    let written = records(&layout, 64);
    let bytes = store::write(&written);
    assert_eq!(bytes.len(), 64 * layout.record_size);
    assert_eq!(check_store_length(bytes.len(), &layout, 64), Ok(()));
    let back = read_range(&bytes, &layout, 0, 64).unwrap();
    assert_eq!(back, written);
    assert_eq!(store::write(&back), bytes);
    let positions: Vec<usize> = (0..64).collect();
    assert_eq!(read(&bytes, &layout, &positions).unwrap(), written);
}

#[test]
fn an_empty_store() {
    let layout = small_layout();
    assert_eq!(store::write(&[]), Vec::<u8>::new());
    assert_eq!(read_range(&[], &layout, 0, 0), Ok(vec![]));
    assert_eq!(read(&[], &layout, &[]), Ok(vec![]));
    assert_eq!(check_store_length(0, &layout, 0), Ok(()));
}

#[test]
fn random_access_matches_the_full_read() {
    let layout = small_layout();
    let written = records(&layout, 16);
    let bytes = store::write(&written);
    let all = read_range(&bytes, &layout, 0, 16).unwrap();
    let positions = [15usize, 0, 7, 7, 3];
    let some = read(&bytes, &layout, &positions).unwrap();
    assert_eq!(some.len(), positions.len());
    for (got, position) in some.iter().zip(positions) {
        assert_eq!(got, &all[position]);
    }
    assert_eq!(read_one(&bytes, &layout, 9), Ok(written[9].clone()));
    assert_eq!(read_range(&bytes, &layout, 4, 6).unwrap(), written[4..6].to_vec());
}

#[test]
fn reading_past_the_end_is_truncation() {
    let layout = small_layout();
    let bytes = store::write(&records(&layout, 4));
    assert_eq!(
        read(&bytes, &layout, &[1, 4, 9]),
        Err(PorepError::TruncatedStore {
            position: 4,
            record_size: layout.record_size,
            store_len: bytes.len()
        })
    );
    let cut = &bytes[..bytes.len() - 1];
    assert_eq!(
        read_one(cut, &layout, 3),
        Err(PorepError::TruncatedStore {
            position: 3,
            record_size: layout.record_size,
            store_len: cut.len()
        })
    );
    assert!(read_one(cut, &layout, 2).is_ok());
}

#[test]
fn bytes_that_are_no_record_are_refused() {
    let layout = small_layout();
    let mut bytes = store::write(&records(&layout, 4));
    let offset = 2 * layout.record_size;
    bytes[offset..offset + 8].copy_from_slice(&5000u64.to_le_bytes());
    assert_eq!(
        read_range(&bytes, &layout, 0, 4),
        Err(PorepError::DecodeError { position: 2, offset })
    );
    assert!(read(&bytes, &layout, &[0, 1, 3]).is_ok());
    // The first failure in the order of the positions is reported.
    assert_eq!(
        read(&bytes, &layout, &[3, 2, 7]),
        Err(PorepError::DecodeError { position: 2, offset })
    );
}

#[test]
fn store_length_has_to_be_whole_records() {
    let layout = small_layout();
    let size = layout.record_size;
    assert_eq!(check_store_length(3 * size, &layout, 3), Ok(()));
    assert_eq!(
        check_store_length(3 * size + 1, &layout, 3),
        Err(PorepError::LengthMismatch { expected_records: 3, record_size: size, store_len: 3 * size + 1 })
    );
    assert_eq!(
        check_store_length(3 * size, &layout, 4),
        Err(PorepError::LengthMismatch { expected_records: 4, record_size: size, store_len: 3 * size })
    );
}

#[test]
fn a_layout_can_be_checked() {
    let layout = small_layout();
    assert!(layout.is_wf());
    let mut wrong = layout;
    wrong.record_size += 1;
    assert!(!wrong.is_wf());
    let mut wrong = layout;
    wrong.sector_nodes = 1000;
    assert!(!wrong.is_wf());
    let mut wrong = layout;
    wrong.num_layers = 3;
    assert!(!wrong.is_wf());
}
