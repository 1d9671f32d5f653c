use fil_proofs_bin::defaults::{
    checked_next_multiple_of, default_values, next_multiple_of, DefaultValues, SectorDefaults,
    DEFAULT_SYNTH_CHALLENGE_COUNT,
};
use fil_proofs_bin::errors::ConfigurationError;
use fil_proofs_bin::geometry::{sector_nodes, SectorGeometry, NODE_SIZE};
use fil_proofs_bin::tracker::{StdoutTracker, REPORT_INTERVAL, TRACKER_THRESHOLD};

#[test]
fn next_multiple_of_rounds_up() {
    assert_eq!(next_multiple_of(176, 10), 180);
    assert_eq!(next_multiple_of(180, 10), 180);
    assert_eq!(next_multiple_of(0, 7), 0);
    assert_eq!(next_multiple_of(1, 7), 7);
    assert_eq!(next_multiple_of(2, 1), 2);
    assert_eq!(checked_next_multiple_of(176, 10), Some(180));
    assert_eq!(checked_next_multiple_of(176, 0), None);
    assert_eq!(checked_next_multiple_of(usize::MAX, 2), None);
    assert_eq!(checked_next_multiple_of(usize::MAX, 1), Some(usize::MAX));
}

#[test]
fn default_values_of_a_large_sector() {
    let table = SectorDefaults {
        num_layers: 11,
        num_porep_partitions: 10,
        num_window_post_sectors: 2349,
        porep_minimum_challenges: 176,
    };
    assert_eq!(
        default_values(32 << 30, table),
        Ok(DefaultValues {
            num_layers: 11,
            num_porep_challenges: 180,
            num_porep_partitions: 10,
            num_synth_porep_challenges: 1 << 18,
            num_window_post_sectors: 2349,
        })
    );
}

#[test]
fn default_values_of_a_small_sector() {
    let table = SectorDefaults {
        num_layers: 2,
        num_porep_partitions: 1,
        num_window_post_sectors: 2,
        porep_minimum_challenges: 2,
    };
    let values = default_values(2048, table).unwrap();
    assert_eq!(values.num_porep_challenges, 2);
    assert_eq!(values.num_synth_porep_challenges, 64);
    assert_eq!(DEFAULT_SYNTH_CHALLENGE_COUNT, 1 << 18);
}

#[test]
fn default_values_need_consistent_parameters() {
    let table = SectorDefaults {
        num_layers: 2,
        num_porep_partitions: 0,
        num_window_post_sectors: 2,
        porep_minimum_challenges: 2,
    };
    assert_eq!(default_values(2048, table), Err(ConfigurationError::NoPartitions));
    let table = SectorDefaults { num_porep_partitions: 1, ..table };
    assert_eq!(default_values(2049, table), Err(ConfigurationError::SectorSizeNotMultiple));
    let table = SectorDefaults { num_porep_partitions: 2, porep_minimum_challenges: usize::MAX, ..table };
    assert_eq!(default_values(2048, table), Err(ConfigurationError::SizeOverflow));
}

#[test]
fn sector_geometry() {
    assert_eq!(NODE_SIZE, 32);
    assert_eq!(sector_nodes(2048), Ok(64));
    assert_eq!(sector_nodes(32 << 30), Ok(1 << 30));
    assert_eq!(sector_nodes(0), Ok(0));
    assert_eq!(sector_nodes(33), Err(ConfigurationError::SectorSizeNotMultiple));
    let geometry = SectorGeometry::new(2048, 32).unwrap();
    assert_eq!(geometry.sector_nodes(), 64);
    assert_eq!(SectorGeometry::new(2048, 0), Err(ConfigurationError::SectorSizeNotMultiple));
    assert_eq!(SectorGeometry::new(2048, 48), Err(ConfigurationError::SectorSizeNotMultiple));
    assert_eq!(SectorGeometry::new(96, 48).unwrap().sector_nodes(), 2);
}

#[test]
fn a_new_tracker_has_seen_nothing() {
    let tracker = StdoutTracker::new();
    assert_eq!(tracker.total, 0);
    assert_eq!(tracker.counter, 0);
    assert_eq!(tracker.prev_printed, 0);
}

#[test]
fn the_tracker_reports_large_changes_at_intervals() {
    let mut tracker = StdoutTracker::new();
    // Nothing is reported between the intervals, however much is allocated.
    assert_eq!(tracker.allocated(64 << 20), None);
    for _ in 1..REPORT_INTERVAL - 1 {
        assert_eq!(tracker.allocated(0), None);
    }
    assert_eq!(tracker.counter, REPORT_INTERVAL - 1);
    assert_eq!(tracker.allocated(1 << 20), Some(65));
    assert_eq!(tracker.prev_printed, 65 << 20);
    // A change within the threshold is not reported.
    for _ in 0..REPORT_INTERVAL - 1 {
        assert_eq!(tracker.allocated(0), None);
    }
    assert_eq!(tracker.allocated(TRACKER_THRESHOLD), None);
    assert_eq!(tracker.prev_printed, 65 << 20);
    // A drop by more than the threshold is.
    tracker.deallocated(2 * TRACKER_THRESHOLD + 1);
    for _ in 0..REPORT_INTERVAL - 1 {
        assert_eq!(tracker.allocated(0), None);
    }
    assert_eq!(tracker.allocated(0), Some(59));
    assert_eq!(tracker.total, (65 << 20) - TRACKER_THRESHOLD - 1);
    assert_eq!(tracker.prev_printed, tracker.total);
    assert_eq!(tracker.counter, 3 * REPORT_INTERVAL);
}

#[test]
fn deallocation_lowers_the_total() {
    let mut tracker = StdoutTracker::new();
    tracker.allocated(100);
    tracker.allocated(50);
    tracker.deallocated(120);
    assert_eq!(tracker.total, 30);
    assert_eq!(tracker.counter, 2);
}
