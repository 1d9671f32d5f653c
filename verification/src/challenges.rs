//! Challenge derivation: from a replica's commitments and a little public
//! randomness to the node indices that have to be proven.

use vstd::prelude::*;
use blstrs::Scalar;
use ff::PrimeField;
use filecoin_hashers::sha256::Sha256Domain;
use storage_proofs_porep::stacked::{Challenges, PublicInputs, Tau};
use crate::defaults::{spec_min, DEFAULT_SYNTH_CHALLENGE_COUNT};
use crate::errors::{ConfigurationError, PorepError};
use crate::geometry::ReplicaCommitment;

verus! {

/// The sampling regimes. The set is closed: every derivation names one of them.
#[derive(Clone, Copy, Debug, PartialEq, Eq, Structural)]
pub enum Scheme {
    /// Per-partition challenges from the replica id and a seed.
    Interactive,
    /// Per-partition challenges that a seed selects from the replica's
    /// synthetic set; the auxiliary commitment keeps the sets of different
    /// replicas apart.
    LayerBased,
    /// Per-partition challenges from the replica id and its commitment alone.
    NonInteractive,
    /// The replica's whole synthetic challenge set; no seed, no partitions.
    Synthetic,
}

/// Node indices are kept below this bound: an index has to fit 32 bits.
pub open spec fn max_sector_nodes() -> int {
    0x1_0000_0000
}

/// The number a byte string stands for, least significant byte first.
pub open spec fn le_value(bytes: Seq<u8>) -> nat
    decreases bytes.len(),
{
    if bytes.len() == 0 {
        0
    } else {
        bytes[0] as nat + 256 * le_value(bytes.drop_first())
    }
}

/// The order of the scalar field the commitments live in.
pub open spec fn scalar_modulus() -> nat {
    0x73eda753299d7d483339d80809a1d80553bda402fffe5bfeffffffff00000001nat
}

/// The bytes are the canonical encoding of a field element.
pub open spec fn is_scalar_repr(bytes: Seq<u8>) -> bool {
    le_value(bytes) < scalar_modulus()
}

/// The indices that `PublicInputs::challenges` of the proofs crate returns for
/// a scheme, a number of challenges per partition, a sector, a replica id, a
/// commitment, a seed (absent for the synthetic set) and a partition.
pub uninterp spec fn challenge_indices(
    scheme: Scheme,
    count: usize,
    sector_nodes: usize,
    replica_id: Seq<u8>,
    comm_r: Seq<u8>,
    seed: Option<Seq<u8>>,
    k: u8,
) -> Seq<usize>;

/// A seed as the sequence of its bytes.
pub open spec fn seed_view(seed: Option<[u8; 32]>) -> Option<Seq<u8>> {
    match seed {
        Some(s) => Some(s@),
        None => None,
    }
}

/// How many indices `PublicInputs::challenges` returns.
pub open spec fn spec_challenges_len(scheme: Scheme, count: usize, sector_nodes: usize) -> int {
    if scheme is Synthetic {
        spec_min(sector_nodes as int, DEFAULT_SYNTH_CHALLENGE_COUNT as int)
    } else {
        count as int
    }
}

/// The inputs on which `PublicInputs::challenges` neither panics nor overflows.
pub open spec fn spec_challenges_defined(
    scheme: Scheme,
    count: usize,
    sector_nodes: usize,
    replica_id: Seq<u8>,
    comm_r: Seq<u8>,
    seed: Option<Seq<u8>>,
    k: u8,
) -> bool {
    &&& 2 <= sector_nodes < max_sector_nodes()
    &&& count < max_sector_nodes()
    &&& 4 * count * (k + 1) <= usize::MAX
    &&& (scheme is Synthetic <==> seed is None)
    &&& (scheme is Synthetic ==> k == 0)
    &&& (scheme is Synthetic || scheme is LayerBased) ==> is_scalar_repr(replica_id)
        && is_scalar_repr(comm_r)
}

/// Calls `Scalar::from_repr_vartime` of `blstrs`, which accepts 32 bytes exactly
/// when, read least significant byte first, they are below the field's modulus.
#[verifier::external_body]
fn is_scalar(bytes: &[u8; 32]) -> (b: bool)
    ensures
        b == is_scalar_repr(bytes@),
{
    Scalar::from_repr_vartime(*bytes).is_some()
}

/// Calls `PublicInputs::challenges` of `storage-proofs-porep` with the scheme's
/// `Challenges` value. The result is a function of the arguments, so it gets
/// the name `challenge_indices`. The source shows two more things, which are
/// stated: the synthetic set has `min(sector_nodes, 2^18)` indices and every
/// other scheme `count`; and every index is `x % (sector_nodes - 1) + 1` for
/// some `x`, so it is positive and below `sector_nodes`.
#[verifier::external_body]
fn porep_challenges(
    scheme: Scheme,
    count: usize,
    sector_nodes: usize,
    replica_id: &[u8; 32],
    comm_r: &[u8; 32],
    seed: Option<[u8; 32]>,
    k: u8,
) -> (r: Vec<usize>)
    requires
        spec_challenges_defined(scheme, count, sector_nodes, replica_id@, comm_r@, seed_view(seed), k),
    ensures
        r@ == challenge_indices(scheme, count, sector_nodes, replica_id@, comm_r@, seed_view(seed), k),
        r@.len() == spec_challenges_len(scheme, count, sector_nodes),
        forall|i: int| 0 <= i < r@.len() ==> 0 < #[trigger] r@[i] < sector_nodes,
{
    let challenges = match scheme {
        Scheme::Interactive => Challenges::new_interactive(count),
        Scheme::NonInteractive => Challenges::new_non_interactive(count),
        Scheme::LayerBased | Scheme::Synthetic => Challenges::new_synthetic(count),
    };
    let tau = Tau { comm_d: Sha256Domain::default(), comm_r: Sha256Domain::from(*comm_r) };
    let inputs = PublicInputs { replica_id: Sha256Domain::from(*replica_id), seed, tau: Some(tau), k: None };
    inputs.challenges(&challenges, sector_nodes, Some(k as usize))
}

/// A result with its indices as a sequence.
pub open spec fn result_view(r: Result<Vec<usize>, PorepError>) -> Result<Seq<usize>, PorepError> {
    match r {
        Ok(v) => Ok(v@),
        Err(e) => Err(e),
    }
}

/// Both commitments are canonical encodings of field elements.
pub open spec fn commitments_valid(replica_id: Seq<u8>, comm_r: Seq<u8>) -> bool {
    is_scalar_repr(replica_id) && is_scalar_repr(comm_r)
}

/// The whole synthetic challenge set of a replica. It depends on the sector
/// and the replica's two commitments, and on nothing else.
pub open spec fn spec_synthetic_set(sector_nodes: usize, replica_id: Seq<u8>, comm_r: Seq<u8>) -> Seq<
    usize,
> {
    challenge_indices(Scheme::Synthetic, 0, sector_nodes, replica_id, comm_r, None, 0)
}

/// Thirty-two zero bytes: what stands in for an input that a scheme does not read.
pub open spec fn unread() -> Seq<u8> {
    Seq::new(32, |i: int| 0u8)
}

/// The commitment as far as the scheme reads it: the interactive scheme does not.
pub open spec fn commitment_read(scheme: Scheme, aux_commitment: Seq<u8>) -> Seq<u8> {
    if scheme is Interactive {
        unread()
    } else {
        aux_commitment
    }
}

/// The seed as far as the scheme reads it: the non-interactive scheme does not.
pub open spec fn seed_read(scheme: Scheme, seed: Seq<u8>) -> Seq<u8> {
    if scheme is NonInteractive {
        unread()
    } else {
        seed
    }
}

/// What `derive` answers. For the synthetic scheme `count` caps the set; the
/// seed and the partition play no part in it.
pub open spec fn spec_derive(
    scheme: Scheme,
    sector_nodes: usize,
    replica_id: Seq<u8>,
    aux_commitment: Seq<u8>,
    seed: Seq<u8>,
    k: u8,
    count: usize,
) -> Result<Seq<usize>, PorepError> {
    if sector_nodes >= max_sector_nodes() {
        Err(PorepError::Configuration(ConfigurationError::SectorTooLarge))
    } else if scheme is Synthetic {
        if sector_nodes < 2 {
            Err(PorepError::InsufficientNodeSpace { sector_nodes, requested: count })
        } else if !commitments_valid(replica_id, aux_commitment) {
            Err(PorepError::Configuration(ConfigurationError::InvalidCommitment))
        } else {
            Ok(
                spec_synthetic_set(sector_nodes, replica_id, aux_commitment).take(
                    spec_min(count as int, spec_challenges_len(Scheme::Synthetic, 0, sector_nodes)),
                ),
            )
        }
    } else if sector_nodes <= count {
        Err(PorepError::InsufficientNodeSpace { sector_nodes, requested: count })
    } else if scheme is LayerBased && !commitments_valid(replica_id, aux_commitment) {
        Err(PorepError::Configuration(ConfigurationError::InvalidCommitment))
    } else if count * 1024 > usize::MAX {
        Err(PorepError::Configuration(ConfigurationError::SizeOverflow))
    } else if count == 0 {
        Ok(Seq::empty())
    } else {
        Ok(
            challenge_indices(
                scheme,
                count,
                sector_nodes,
                replica_id,
                commitment_read(scheme, aux_commitment),
                Some(seed_read(scheme, seed)),
                k,
            ),
        )
    }
}

/// Every index of the sequence is a node of the sector.
pub open spec fn all_below(indices: Seq<usize>, sector_nodes: usize) -> bool {
    forall|i: int| 0 <= i < indices.len() ==> #[trigger] indices[i] < sector_nodes
}

/// Derives the challenges of one partition, or for the synthetic scheme the
/// first `num_challenges_for_partition` indices of the replica's synthetic set.
///
/// The answer is a function of the arguments. A sector of `2^32` nodes or more
/// is refused, then a sector that does not exceed the number of challenges
/// (for the synthetic scheme: a sector of fewer than two nodes), then
/// commitments that are no field elements where the scheme reads them as
/// such, then a number of challenges whose selection bytes, four for each
/// challenge of each of 256 partitions, the platform cannot index.
pub fn derive(
    scheme: Scheme,
    sector_nodes: usize,
    replica_id: &[u8; 32],
    aux_commitment: &[u8; 32],
    seed: &[u8; 32],
    partition_index: u8,
    num_challenges_for_partition: usize,
) -> (r: Result<Vec<usize>, PorepError>)
    ensures
        result_view(r) == spec_derive(
            scheme,
            sector_nodes,
            replica_id@,
            aux_commitment@,
            seed@,
            partition_index,
            num_challenges_for_partition,
        ),
        r is Ok ==> all_below(r->Ok_0@, sector_nodes),
        r is Ok && !(scheme is Synthetic) ==> r->Ok_0@.len() == num_challenges_for_partition,
        r is Ok && scheme is Synthetic ==> r->Ok_0@.len() == spec_min(
            num_challenges_for_partition as int,
            spec_min(sector_nodes as int, DEFAULT_SYNTH_CHALLENGE_COUNT as int),
        ),
{
    let count: usize = num_challenges_for_partition;
    if sector_nodes as u64 >= 0x1_0000_0000u64 {
        return Err(PorepError::Configuration(ConfigurationError::SectorTooLarge));
    }
    match scheme {
        Scheme::Synthetic => {
            if sector_nodes < 2 {
                return Err(PorepError::InsufficientNodeSpace { sector_nodes, requested: count });
            }
            if !(is_scalar(replica_id) && is_scalar(aux_commitment)) {
                return Err(PorepError::Configuration(ConfigurationError::InvalidCommitment));
            }
            let mut set = porep_challenges(
                Scheme::Synthetic,
                0,
                sector_nodes,
                replica_id,
                aux_commitment,
                None,
                0,
            );
            if count < set.len() {
                set.truncate(count);
            } else {
                assert(set@.take(set@.len() as int) =~= set@);
            }
            Ok(set)
        },
        _ => {
            if sector_nodes <= count {
                return Err(PorepError::InsufficientNodeSpace { sector_nodes, requested: count });
            }
            let reads_scalars = match scheme {
                Scheme::LayerBased => true,
                _ => false,
            };
            if reads_scalars && !(is_scalar(replica_id) && is_scalar(aux_commitment)) {
                return Err(PorepError::Configuration(ConfigurationError::InvalidCommitment));
            }
            if count as u64 * 1024 > usize::MAX as u64 {
                return Err(PorepError::Configuration(ConfigurationError::SizeOverflow));
            }
            assert(4 * count * (partition_index + 1) <= count * 1024) by (nonlinear_arith)
                requires
                    0 <= count,
                    0 <= partition_index < 256,
            ;
            if count == 0 {
                return Ok(Vec::new());
            }
            let zeros: [u8; 32] = [0u8; 32];
            assert(zeros@ =~= unread());
            let commitment: &[u8; 32] = match scheme {
                Scheme::Interactive => &zeros,
                _ => aux_commitment,
            };
            let seed_bytes: [u8; 32] = match scheme {
                Scheme::NonInteractive => zeros,
                _ => *seed,
            };
            Ok(
                porep_challenges(
                    scheme,
                    count,
                    sector_nodes,
                    replica_id,
                    commitment,
                    Some(seed_bytes),
                    partition_index,
                ),
            )
        },
    }
}

/// Two derivations on the same arguments give the same result.
pub proof fn lemma_derive_deterministic(
    scheme: Scheme,
    sector_nodes: usize,
    replica_id: Seq<u8>,
    aux_commitment: Seq<u8>,
    seed: Seq<u8>,
    k: u8,
    count: usize,
    first: Result<Vec<usize>, PorepError>,
    second: Result<Vec<usize>, PorepError>,
)
    requires
        result_view(first) == spec_derive(scheme, sector_nodes, replica_id, aux_commitment, seed, k, count),
        result_view(second) == spec_derive(
            scheme,
            sector_nodes,
            replica_id,
            aux_commitment,
            seed,
            k,
            count,
        ),
    ensures
        result_view(first) == result_view(second),
{
}

/// The interactive scheme reads the replica id and the seed, not the
/// commitment; the non-interactive scheme reads the replica id and the
/// commitment, not the seed.
pub proof fn lemma_unread_inputs(
    sector_nodes: usize,
    replica_id: Seq<u8>,
    aux_commitment: Seq<u8>,
    seed: Seq<u8>,
    k: u8,
    count: usize,
    other: Seq<u8>,
)
    ensures
        spec_derive(Scheme::Interactive, sector_nodes, replica_id, aux_commitment, seed, k, count)
            == spec_derive(Scheme::Interactive, sector_nodes, replica_id, other, seed, k, count),
        spec_derive(
            Scheme::NonInteractive,
            sector_nodes,
            replica_id,
            aux_commitment,
            seed,
            k,
            count,
        ) == spec_derive(
            Scheme::NonInteractive,
            sector_nodes,
            replica_id,
            aux_commitment,
            other,
            k,
            count,
        ),
{
}

/// The synthetic set does not depend on a seed or a partition: whatever is
/// passed for them, the same sector and commitments give the same set.
pub proof fn lemma_synthetic_ignores_seed(
    sector_nodes: usize,
    replica_id: Seq<u8>,
    aux_commitment: Seq<u8>,
    count: usize,
    seed1: Seq<u8>,
    k1: u8,
    seed2: Seq<u8>,
    k2: u8,
)
    ensures
        spec_derive(Scheme::Synthetic, sector_nodes, replica_id, aux_commitment, seed1, k1, count)
            == spec_derive(
            Scheme::Synthetic,
            sector_nodes,
            replica_id,
            aux_commitment,
            seed2,
            k2,
            count,
        ),
{
}

/// The challenges of partition `k` among partitions of `per` challenges each.
/// The partition index is carried in one byte, so partitions 256 apart share
/// their challenges.
pub open spec fn spec_partition(
    scheme: Scheme,
    sector_nodes: usize,
    replica_id: Seq<u8>,
    aux_commitment: Seq<u8>,
    seed: Seq<u8>,
    per: usize,
    k: int,
) -> Seq<usize> {
    match spec_derive(scheme, sector_nodes, replica_id, aux_commitment, seed, (k % 256) as u8, per) {
        Ok(indices) => indices,
        Err(_) => Seq::empty(),
    }
}

/// The challenges of the partitions `0 .. upto`, in partition order.
pub open spec fn spec_partitions_concat(
    scheme: Scheme,
    sector_nodes: usize,
    replica_id: Seq<u8>,
    aux_commitment: Seq<u8>,
    seed: Seq<u8>,
    per: usize,
    upto: nat,
) -> Seq<usize>
    decreases upto,
{
    if upto == 0 {
        Seq::empty()
    } else {
        spec_partitions_concat(
            scheme,
            sector_nodes,
            replica_id,
            aux_commitment,
            seed,
            per,
            (upto - 1) as nat,
        ) + spec_partition(scheme, sector_nodes, replica_id, aux_commitment, seed, per, upto - 1)
    }
}

/// What `derive_partitions` answers.
pub open spec fn spec_derive_partitions(
    scheme: Scheme,
    sector_nodes: usize,
    replica_id: Seq<u8>,
    aux_commitment: Seq<u8>,
    seed: Seq<u8>,
    num_challenges: usize,
    num_partitions: usize,
) -> Result<Seq<usize>, PorepError> {
    if scheme is Synthetic {
        spec_derive(scheme, sector_nodes, replica_id, aux_commitment, seed, 0, num_challenges)
    } else if num_partitions == 0 {
        Err(PorepError::Configuration(ConfigurationError::NoPartitions))
    } else if num_challenges % num_partitions != 0 {
        Err(PorepError::Configuration(ConfigurationError::NotDivisible))
    } else {
        let per = (num_challenges / num_partitions) as usize;
        match spec_derive(scheme, sector_nodes, replica_id, aux_commitment, seed, 0, per) {
            Err(e) => Err(e),
            Ok(_) => Ok(
                spec_partitions_concat(
                    scheme,
                    sector_nodes,
                    replica_id,
                    aux_commitment,
                    seed,
                    per,
                    num_partitions as nat,
                ),
            ),
        }
    }
}

/// Partitions of no challenges add up to no challenges.
proof fn lemma_empty_partitions(
    scheme: Scheme,
    sector_nodes: usize,
    replica_id: Seq<u8>,
    aux_commitment: Seq<u8>,
    seed: Seq<u8>,
    upto: nat,
)
    requires
        !(scheme is Synthetic),
    ensures
        spec_partitions_concat(scheme, sector_nodes, replica_id, aux_commitment, seed, 0, upto)
            =~= Seq::<usize>::empty(),
    decreases upto,
{
    if upto > 0 {
        lemma_empty_partitions(
            scheme,
            sector_nodes,
            replica_id,
            aux_commitment,
            seed,
            (upto - 1) as nat,
        );
    }
}

/// Derives the challenges of all partitions and lays them end to end, partition
/// `0` first. The synthetic scheme knows no partitions: it gives the first
/// `num_challenges` indices of the synthetic set.
///
/// For every other scheme the challenges are split evenly: zero partitions, or
/// a number of challenges that the partitions do not divide, is a
/// configuration error, found before anything is derived.
pub fn derive_partitions(
    scheme: Scheme,
    sector_nodes: usize,
    replica_id: &[u8; 32],
    aux_commitment: &[u8; 32],
    seed: &[u8; 32],
    num_challenges: usize,
    num_partitions: usize,
) -> (r: Result<Vec<usize>, PorepError>)
    ensures
        result_view(r) == spec_derive_partitions(
            scheme,
            sector_nodes,
            replica_id@,
            aux_commitment@,
            seed@,
            num_challenges,
            num_partitions,
        ),
        r is Ok ==> all_below(r->Ok_0@, sector_nodes),
        r is Ok && !(scheme is Synthetic) ==> r->Ok_0@.len() == num_challenges,
        !(scheme is Synthetic) && num_partitions > 0 && num_challenges % num_partitions != 0 ==> r
            == Err::<Vec<usize>, _>(PorepError::Configuration(ConfigurationError::NotDivisible)),
{
    match scheme {
        Scheme::Synthetic => {
            return derive(scheme, sector_nodes, replica_id, aux_commitment, seed, 0, num_challenges);
        },
        _ => {},
    }
    if num_partitions == 0 {
        return Err(PorepError::Configuration(ConfigurationError::NoPartitions));
    }
    if num_challenges % num_partitions != 0 {
        return Err(PorepError::Configuration(ConfigurationError::NotDivisible));
    }
    let per: usize = num_challenges / num_partitions;
    proof {
        vstd::arithmetic::div_mod::lemma_fundamental_div_mod(
            num_challenges as int,
            num_partitions as int,
        );
    }
    let mut out: Vec<usize> = match derive(
        scheme,
        sector_nodes,
        replica_id,
        aux_commitment,
        seed,
        0,
        per,
    ) {
        Ok(first) => first,
        Err(e) => {
            return Err(e);
        },
    };
    if per == 0 {
        proof {
            assert(num_partitions * 0 == 0) by (nonlinear_arith);
            lemma_empty_partitions(
                scheme,
                sector_nodes,
                replica_id@,
                aux_commitment@,
                seed@,
                num_partitions as nat,
            );
        }
        return Ok(out);
    }
    assert(spec_partitions_concat(
        scheme,
        sector_nodes,
        replica_id@,
        aux_commitment@,
        seed@,
        per,
        0,
    ) =~= Seq::<usize>::empty());
    assert(out@ =~= spec_partitions_concat(
        scheme,
        sector_nodes,
        replica_id@,
        aux_commitment@,
        seed@,
        per,
        1,
    ));
    let mut k: usize = 1;
    while k < num_partitions
        invariant
            1 <= k <= num_partitions,
            !(scheme is Synthetic),
            per > 0,
            num_challenges == num_partitions * per,
            spec_derive(scheme, sector_nodes, replica_id@, aux_commitment@, seed@, 0, per) is Ok,
            out@ == spec_partitions_concat(
                scheme,
                sector_nodes,
                replica_id@,
                aux_commitment@,
                seed@,
                per,
                k as nat,
            ),
            out@.len() == k * per,
            all_below(out@, sector_nodes),
        decreases num_partitions - k,
    {
        let index: u8 = (k % 256) as u8;
        match derive(scheme, sector_nodes, replica_id, aux_commitment, seed, index, per) {
            Ok(part) => {
                let mut part = part;
                assert((k + 1) * per == k * per + per) by (nonlinear_arith);
                out.append(&mut part);
            },
            Err(e) => {
                assert(false);
                return Err(e);
            },
        }
        k = k + 1;
    }
    Ok(out)
}

impl ReplicaCommitment {
    /// The replica id and the four commitments are canonical encodings of
    /// field elements.
    pub open spec fn spec_is_canonical(&self) -> bool {
        &&& is_scalar_repr(self.replica_id@)
        &&& is_scalar_repr(self.comm_r@)
        &&& is_scalar_repr(self.comm_d@)
        &&& is_scalar_repr(self.comm_c@)
        &&& is_scalar_repr(self.comm_r_last@)
    }

    /// Whether the replica id and the four commitments are canonical
    /// encodings of field elements.
    pub fn is_canonical(&self) -> (b: bool)
        ensures
            b == self.spec_is_canonical(),
    {
        is_scalar(&self.replica_id) && is_scalar(&self.comm_r) && is_scalar(&self.comm_d)
            && is_scalar(&self.comm_c) && is_scalar(&self.comm_r_last)
    }
}

} // verus!
