//! The failures the library reports. Every failure aborts the operation that
//! met it; nothing is retried or repaired.

use vstd::prelude::*;

verus! {

/// A parameter set that no derivation, layout or batch plan can be built from.
/// It is found before any work starts.
#[derive(Clone, Copy, Debug, PartialEq, Eq, Structural)]
pub enum ConfigurationError {
    /// The node size is zero or does not divide the sector size.
    SectorSizeNotMultiple,
    /// The sector holds more nodes than an index of 32 bits can address, or
    /// more bytes than the platform can address.
    SectorTooLarge,
    /// The challenges were to be split over zero partitions.
    NoPartitions,
    /// The number of challenges is no multiple of the number of partitions.
    NotDivisible,
    /// A commitment that has to be a field element is no canonical encoding of one.
    InvalidCommitment,
    /// The arities do not describe a tree over the sector's nodes.
    InvalidTreeShape,
    /// A replica has at least one layer.
    NoLayers,
    /// A batch holds at least one item.
    ZeroBatchSize,
    /// A size or count does not fit the platform's integers.
    SizeOverflow,
}

/// What can go wrong between deriving challenges and handing proofs on.
#[derive(Clone, Copy, Debug, PartialEq, Eq, Structural)]
pub enum PorepError {
    /// The parameters are inconsistent.
    Configuration(ConfigurationError),
    /// More challenges were asked for than the sector has nodes to spare.
    InsufficientNodeSpace { sector_nodes: usize, requested: usize },
    /// The record at `position` would end beyond the end of the store.
    TruncatedStore { position: usize, record_size: usize, store_len: usize },
    /// The bytes at `offset` are no record of the given layout.
    DecodeError { position: usize, offset: usize },
    /// The store's length is not the expected number of whole records.
    LengthMismatch { expected_records: usize, record_size: usize, store_len: usize },
    /// A challenge has no place in the synthetic set.
    ChallengeNotInSuperset { challenge: usize },
}

} // verus!
