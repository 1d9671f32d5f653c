//! The node-index space of a sector, and the commitments that name a replica.

use vstd::prelude::*;
use crate::errors::ConfigurationError;

verus! {

/// The size of one node (one tree leaf) in bytes.
pub const NODE_SIZE: usize = 32;

/// A sector's size and the size of the nodes it is cut into.
#[derive(Clone, Copy, Debug, PartialEq, Eq, Structural)]
pub struct SectorGeometry {
    pub sector_size_bytes: u64,
    pub node_size_bytes: u64,
}

/// The commitments that identify one sealed replica, each the 32-byte encoding
/// of a field element.
#[derive(Clone, Copy, Debug, PartialEq, Eq)]
pub struct ReplicaCommitment {
    pub replica_id: [u8; 32],
    pub comm_r: [u8; 32],
    pub comm_d: [u8; 32],
    pub comm_c: [u8; 32],
    pub comm_r_last: [u8; 32],
}

impl SectorGeometry {
    /// The node size is positive and divides the sector size.
    pub open spec fn wf(&self) -> bool {
        self.node_size_bytes > 0 && self.sector_size_bytes % self.node_size_bytes == 0
    }

    /// The number of addressable nodes.
    pub open spec fn spec_sector_nodes(&self) -> int {
        self.sector_size_bytes as int / self.node_size_bytes as int
    }

    /// A geometry, or `SectorSizeNotMultiple` where the nodes do not tile the sector.
    pub fn new(sector_size_bytes: u64, node_size_bytes: u64) -> (r: Result<
        SectorGeometry,
        ConfigurationError,
    >)
        ensures
            r.is_ok() <==> (node_size_bytes > 0 && sector_size_bytes % node_size_bytes == 0),
            r.is_ok() ==> r.unwrap() == (SectorGeometry { sector_size_bytes, node_size_bytes })
                && r.unwrap().wf(),
            r.is_err() ==> r == Err::<SectorGeometry, _>(ConfigurationError::SectorSizeNotMultiple),
    {
        if node_size_bytes == 0 || sector_size_bytes % node_size_bytes != 0 {
            Err(ConfigurationError::SectorSizeNotMultiple)
        } else {
            Ok(SectorGeometry { sector_size_bytes, node_size_bytes })
        }
    }

    /// The number of addressable nodes of a well-formed geometry.
    pub fn sector_nodes(&self) -> (n: u64)
        requires
            self.wf(),
        ensures
            n == self.spec_sector_nodes(),
            n * self.node_size_bytes == self.sector_size_bytes,
    {
        let n: u64 = self.sector_size_bytes / self.node_size_bytes;
        proof {
            vstd::arithmetic::div_mod::lemma_fundamental_div_mod(
                self.sector_size_bytes as int,
                self.node_size_bytes as int,
            );
            assert(n * self.node_size_bytes == self.node_size_bytes * n) by (nonlinear_arith);
        }
        n
    }
}

/// What `sector_nodes` answers for a sector of `sector_size` bytes.
pub open spec fn spec_nodes_of(sector_size: u64) -> Result<usize, ConfigurationError> {
    if sector_size % 32 != 0 {
        Err(ConfigurationError::SectorSizeNotMultiple)
    } else if sector_size / 32 > usize::MAX {
        Err(ConfigurationError::SectorTooLarge)
    } else {
        Ok((sector_size / 32) as usize)
    }
}

/// The number of 32-byte nodes in a sector of `sector_size` bytes.
pub fn sector_nodes(sector_size: u64) -> (r: Result<usize, ConfigurationError>)
    ensures
        r == spec_nodes_of(sector_size),
{
    if sector_size % 32 != 0 {
        return Err(ConfigurationError::SectorSizeNotMultiple);
    }
    let nodes: u64 = sector_size / 32;
    if nodes > usize::MAX as u64 {
        return Err(ConfigurationError::SectorTooLarge);
    }
    Ok(nodes as usize)
}

} // verus!
