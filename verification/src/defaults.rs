//! The challenge counts that go with a sector size.

use vstd::prelude::*;
use crate::errors::ConfigurationError;
use crate::geometry::{sector_nodes, spec_nodes_of};

verus! {

/// How many synthetic challenges a replica gets unless its sector is smaller.
pub const DEFAULT_SYNTH_CHALLENGE_COUNT: usize = 262144;

/// The per-sector-size parameters a deployment is configured with.
#[derive(Clone, Copy, Debug, PartialEq, Eq, Structural)]
pub struct SectorDefaults {
    pub num_layers: usize,
    pub num_porep_partitions: u8,
    pub num_window_post_sectors: usize,
    pub porep_minimum_challenges: usize,
}

/// The values a prover starts from for one sector size.
#[derive(Clone, Copy, Debug, PartialEq, Eq, Structural)]
pub struct DefaultValues {
    pub num_layers: usize,
    pub num_porep_challenges: usize,
    pub num_porep_partitions: u8,
    pub num_synth_porep_challenges: usize,
    pub num_window_post_sectors: usize,
}

/// The smallest multiple of `multiple` that is at least `base`.
pub open spec fn spec_next_multiple_of(base: int, multiple: int) -> int {
    if base % multiple == 0 {
        base
    } else {
        base + (multiple - base % multiple)
    }
}

/// `spec_next_multiple_of` is a multiple of `multiple`, is at least `base`, and
/// is less than `base + multiple`: it is the least such multiple.
pub proof fn lemma_next_multiple_of(base: int, multiple: int)
    requires
        base >= 0,
        multiple > 0,
    ensures
        spec_next_multiple_of(base, multiple) % multiple == 0,
        base <= spec_next_multiple_of(base, multiple) < base + multiple,
{
    let r = base % multiple;
    let q = base / multiple;
    vstd::arithmetic::div_mod::lemma_fundamental_div_mod(base, multiple);
    if r != 0 {
        assert(base + (multiple - r) == multiple * (q + 1)) by (nonlinear_arith)
            requires
                base == multiple * q + r,
        ;
        vstd::arithmetic::div_mod::lemma_mod_multiples_basic(q + 1, multiple);
        assert((q + 1) * multiple == multiple * (q + 1)) by (nonlinear_arith);
    }
}

/// Rounds `base` up to the next multiple of `multiple`.
pub fn next_multiple_of(base: usize, multiple: usize) -> (r: usize)
    requires
        multiple > 0,
        spec_next_multiple_of(base as int, multiple as int) <= usize::MAX,
    ensures
        r == spec_next_multiple_of(base as int, multiple as int),
{
    let rest: usize = base % multiple;
    if rest == 0 {
        base
    } else {
        base + (multiple - rest)
    }
}

/// Rounds `base` up to the next multiple of `multiple`, or `None` where there
/// is no such multiple: `multiple` is zero or the result does not fit.
pub fn checked_next_multiple_of(base: usize, multiple: usize) -> (r: Option<usize>)
    ensures
        r.is_some() <==> (multiple > 0 && spec_next_multiple_of(base as int, multiple as int)
            <= usize::MAX),
        r.is_some() ==> r.unwrap() == spec_next_multiple_of(base as int, multiple as int),
{
    if multiple == 0 {
        return None;
    }
    let rest: usize = base % multiple;
    if rest == 0 {
        Some(base)
    } else {
        let gap: usize = multiple - rest;
        if gap > usize::MAX - base {
            None
        } else {
            Some(next_multiple_of(base, multiple))
        }
    }
}

/// The smaller of two counts.
pub open spec fn spec_min(a: int, b: int) -> int {
    if a <= b {
        a
    } else {
        b
    }
}

/// What `default_values` answers.
pub open spec fn spec_default_values(sector_size: u64, table: SectorDefaults) -> Result<
    DefaultValues,
    ConfigurationError,
> {
    let partitions = table.num_porep_partitions as int;
    let rounded = spec_next_multiple_of(table.porep_minimum_challenges as int, partitions);
    if partitions == 0 {
        Err(ConfigurationError::NoPartitions)
    } else if spec_nodes_of(sector_size) is Err {
        Err(spec_nodes_of(sector_size)->Err_0)
    } else if rounded > usize::MAX {
        Err(ConfigurationError::SizeOverflow)
    } else {
        Ok(
            DefaultValues {
                num_layers: table.num_layers,
                num_porep_challenges: rounded as usize,
                num_porep_partitions: table.num_porep_partitions,
                num_synth_porep_challenges: spec_min(
                    spec_nodes_of(sector_size)->Ok_0 as int,
                    DEFAULT_SYNTH_CHALLENGE_COUNT as int,
                ) as usize,
                num_window_post_sectors: table.num_window_post_sectors,
            },
        )
    }
}

/// The default values for a sector size: the configured layer, partition and
/// sector counts, the minimum number of challenges rounded up to a multiple of
/// the partitions, and the size of the synthetic challenge set.
pub fn default_values(sector_size: u64, table: SectorDefaults) -> (r: Result<
    DefaultValues,
    ConfigurationError,
>)
    ensures
        r == spec_default_values(sector_size, table),
{
    if table.num_porep_partitions == 0 {
        return Err(ConfigurationError::NoPartitions);
    }
    let nodes: usize = match sector_nodes(sector_size) {
        Ok(n) => n,
        Err(e) => {
            return Err(e);
        },
    };
    let rounded: usize = match checked_next_multiple_of(
        table.porep_minimum_challenges,
        table.num_porep_partitions as usize,
    ) {
        Some(n) => n,
        None => {
            return Err(ConfigurationError::SizeOverflow);
        },
    };
    let synth: usize = if nodes <= DEFAULT_SYNTH_CHALLENGE_COUNT {
        nodes
    } else {
        DEFAULT_SYNTH_CHALLENGE_COUNT
    };
    Ok(
        DefaultValues {
            num_layers: table.num_layers,
            num_porep_challenges: rounded,
            num_porep_partitions: table.num_porep_partitions,
            num_synth_porep_challenges: synth,
            num_window_post_sectors: table.num_window_post_sectors,
        },
    )
}

} // verus!
