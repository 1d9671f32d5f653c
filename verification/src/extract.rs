//! Extraction: from the challenges a seed asks for to the records that answer
//! them, picked out of the synthetic proof store.

use vstd::prelude::*;
use crate::challenges::{
    derive_partitions, result_view, spec_derive, spec_derive_partitions, Scheme,
};
use crate::errors::PorepError;
use crate::layout::StoreLayout;
use crate::record::{ProofRecord, RecordModel};
use crate::store::{
    all_wf, lemma_random_access, lemma_read_elementwise, lemma_read_write_round_trip, read,
    read_view, spec_range, spec_read, spec_read_one, spec_write,
};

verus! {

/// The first place at or after `from` where `challenge` stands in the
/// synthetic set.
pub open spec fn spec_rank_from(superset: Seq<usize>, challenge: usize, from: int) -> Option<
    usize,
>
    decreases superset.len() - from,
{
    if from < 0 || from >= superset.len() {
        None
    } else if superset[from] == challenge {
        Some(from as usize)
    } else {
        spec_rank_from(superset, challenge, from + 1)
    }
}

/// The rank of a challenge: the first place where it stands in the synthetic set.
pub open spec fn spec_rank(superset: Seq<usize>, challenge: usize) -> Option<usize> {
    spec_rank_from(superset, challenge, 0)
}

/// The ranks of the challenges, in the order of the challenges, or the first
/// challenge that has none.
pub open spec fn spec_ranks(superset: Seq<usize>, challenges: Seq<usize>) -> Result<
    Seq<usize>,
    PorepError,
>
    decreases challenges.len(),
{
    if challenges.len() == 0 {
        Ok(Seq::empty())
    } else {
        match spec_ranks(superset, challenges.drop_last()) {
            Err(e) => Err(e),
            Ok(ranks) => match spec_rank(superset, challenges.last()) {
                None => Err(PorepError::ChallengeNotInSuperset { challenge: challenges.last() }),
                Some(rank) => Ok(ranks.push(rank)),
            },
        }
    }
}

/// The records that answer `challenges`, in the order of the challenges.
pub open spec fn spec_extract_records(
    store: Seq<u8>,
    layout: StoreLayout,
    superset: Seq<usize>,
    challenges: Seq<usize>,
) -> Result<Seq<RecordModel>, PorepError> {
    match spec_ranks(superset, challenges) {
        Err(e) => Err(e),
        Ok(ranks) => spec_read(store, layout, ranks),
    }
}

/// A rank points at the challenge, and the challenge stands nowhere before it.
/// A challenge without a rank stands nowhere in the set.
pub proof fn lemma_rank_is_first(superset: Seq<usize>, challenge: usize, from: int)
    requires
        0 <= from,
        superset.len() <= usize::MAX,
    ensures
        match spec_rank_from(superset, challenge, from) {
            Some(rank) => {
                &&& from <= rank < superset.len()
                &&& superset[rank as int] == challenge
                &&& forall|j: int| from <= j < rank ==> superset[j] != challenge
            },
            None => forall|j: int| from <= j < superset.len() ==> superset[j] != challenge,
        },
    decreases superset.len() - from,
{
    if from < superset.len() && superset[from] != challenge {
        lemma_rank_is_first(superset, challenge, from + 1);
    }
}

/// The ranks exist exactly if every challenge has one, and then the `i`-th
/// rank is that of the `i`-th challenge.
pub proof fn lemma_ranks_elementwise(superset: Seq<usize>, challenges: Seq<usize>)
    ensures
        spec_ranks(superset, challenges) is Ok <==> forall|i: int|
            0 <= i < challenges.len() ==> #[trigger] spec_rank(superset, challenges[i]) is Some,
        spec_ranks(superset, challenges) is Ok ==> {
            let ranks = spec_ranks(superset, challenges)->Ok_0;
            &&& ranks.len() == challenges.len()
            &&& forall|i: int|
                0 <= i < challenges.len() ==> #[trigger] ranks[i] == spec_rank(
                    superset,
                    challenges[i],
                )->Some_0
        },
    decreases challenges.len(),
{
    if challenges.len() > 0 {
        let front = challenges.drop_last();
        lemma_ranks_elementwise(superset, front);
        if spec_ranks(superset, challenges) is Ok {
            assert forall|i: int| 0 <= i < challenges.len() implies #[trigger] spec_rank(
                superset,
                challenges[i],
            ) is Some by {
                if i < front.len() {
                    assert(front[i] == challenges[i]);
                }
            }
        }
        if forall|i: int|
            0 <= i < challenges.len() ==> #[trigger] spec_rank(superset, challenges[i]) is Some {
            assert forall|i: int| 0 <= i < front.len() implies #[trigger] spec_rank(
                superset,
                front[i],
            ) is Some by {
                assert(front[i] == challenges[i]);
            }
            assert(spec_rank(superset, challenges[challenges.len() - 1]) is Some);
        }
        if spec_ranks(superset, challenges) is Ok {
            let ranks = spec_ranks(superset, challenges)->Ok_0;
            assert forall|i: int| 0 <= i < challenges.len() implies #[trigger] ranks[i]
                == spec_rank(superset, challenges[i])->Some_0 by {
                if i < front.len() {
                    assert(front[i] == challenges[i]);
                }
            }
        }
    }
}

/// A failure in a prefix of the challenges is the failure of the whole lookup.
proof fn lemma_ranks_failure_stays(superset: Seq<usize>, challenges: Seq<usize>, upto: int)
    requires
        0 <= upto <= challenges.len(),
        spec_ranks(superset, challenges.take(upto)) is Err,
    ensures
        spec_ranks(superset, challenges) == spec_ranks(superset, challenges.take(upto)),
    decreases challenges.len() - upto,
{
    if upto < challenges.len() {
        assert(challenges.take(upto + 1).drop_last() =~= challenges.take(upto));
        lemma_ranks_failure_stays(superset, challenges, upto + 1);
    } else {
        assert(challenges.take(upto) =~= challenges);
    }
}

/// The extracted records follow the order of the challenges, not that of the
/// store: where extraction succeeds, the `i`-th record is the one stored at
/// the rank of the `i`-th challenge, and the synthetic set has that challenge
/// at that rank.
pub proof fn lemma_extract_order(
    store: Seq<u8>,
    layout: StoreLayout,
    superset: Seq<usize>,
    challenges: Seq<usize>,
)
    requires
        superset.len() <= usize::MAX,
        spec_extract_records(store, layout, superset, challenges) is Ok,
    ensures
        spec_extract_records(store, layout, superset, challenges)->Ok_0.len() == challenges.len(),
        forall|i: int|
            0 <= i < challenges.len() ==> {
                let rank = spec_rank(superset, #[trigger] challenges[i]);
                &&& rank is Some
                &&& superset[rank->Some_0 as int] == challenges[i]
                &&& spec_extract_records(store, layout, superset, challenges)->Ok_0[i]
                    == spec_read_one(store, layout, rank->Some_0)->Ok_0
            },
{
    lemma_ranks_elementwise(superset, challenges);
    let ranks = spec_ranks(superset, challenges)->Ok_0;
    lemma_read_elementwise(store, layout, ranks);
    assert forall|i: int| 0 <= i < challenges.len() implies {
        let rank = spec_rank(superset, #[trigger] challenges[i]);
        &&& rank is Some
        &&& superset[rank->Some_0 as int] == challenges[i]
        &&& spec_extract_records(store, layout, superset, challenges)->Ok_0[i] == spec_read_one(
            store,
            layout,
            rank->Some_0,
        )->Ok_0
    } by {
        lemma_rank_is_first(superset, challenges[i], 0);
        assert(ranks[i] == spec_rank(superset, challenges[i])->Some_0);
    }
}

/// Extraction undoes the write: from a store that was written from one
/// well-formed record for each index of the synthetic set, extraction gives
/// for every challenge of the set the record that was written at its rank.
pub proof fn lemma_extract_from_written(
    layout: StoreLayout,
    records: Seq<RecordModel>,
    superset: Seq<usize>,
    challenges: Seq<usize>,
)
    requires
        layout.wf(),
        all_wf(layout, records),
        records.len() == superset.len(),
        superset.len() <= usize::MAX,
        forall|i: int|
            0 <= i < challenges.len() ==> #[trigger] spec_rank(superset, challenges[i]) is Some,
    ensures
        spec_extract_records(spec_write(records), layout, superset, challenges) is Ok,
        spec_extract_records(spec_write(records), layout, superset, challenges)->Ok_0.len()
            == challenges.len(),
        forall|i: int|
            0 <= i < challenges.len() ==> #[trigger] spec_extract_records(
                spec_write(records),
                layout,
                superset,
                challenges,
            )->Ok_0[i] == records[spec_rank(superset, challenges[i])->Some_0 as int],
{
    let store = spec_write(records);
    let n = records.len() as usize;
    lemma_ranks_elementwise(superset, challenges);
    let ranks = spec_ranks(superset, challenges)->Ok_0;
    assert forall|i: int| 0 <= i < ranks.len() implies #[trigger] ranks[i] < n by {
        lemma_rank_is_first(superset, challenges[i], 0);
    }
    lemma_read_write_round_trip(layout, records);
    lemma_random_access(store, layout, n, ranks);
    assert forall|i: int| 0 <= i < challenges.len() implies #[trigger] spec_extract_records(
        store,
        layout,
        superset,
        challenges,
    )->Ok_0[i] == records[spec_rank(superset, challenges[i])->Some_0 as int] by {
        assert(spec_read(store, layout, ranks)->Ok_0[i] == spec_read(
            store,
            layout,
            spec_range(0, n),
        )->Ok_0[ranks[i] as int]);
    }
}

/// The first place where `challenge` stands in the synthetic set, if it
/// stands in it.
pub fn rank(superset: &[usize], challenge: usize) -> (r: Option<usize>)
    ensures
        r == spec_rank(superset@, challenge),
{
    let mut i: usize = 0;
    while i < superset.len()
        invariant
            i <= superset.len(),
            spec_rank(superset@, challenge) == spec_rank_from(superset@, challenge, i as int),
        decreases superset.len() - i,
    {
        if superset[i] == challenge {
            return Some(i);
        }
        i = i + 1;
    }
    None
}

/// The rank of every challenge, or `ChallengeNotInSuperset` with the first
/// challenge that the synthetic set does not hold.
pub fn ranks(superset: &[usize], challenges: &[usize]) -> (r: Result<Vec<usize>, PorepError>)
    ensures
        result_view(r) == spec_ranks(superset@, challenges@),
{
    let mut out: Vec<usize> = Vec::new();
    let mut i: usize = 0;
    assert(challenges@.take(0).len() == 0);
    while i < challenges.len()
        invariant
            i <= challenges.len(),
            spec_ranks(superset@, challenges@.take(i as int)) == Ok::<Seq<usize>, PorepError>(out@),
        decreases challenges.len() - i,
    {
        assert(challenges@.take(i + 1).drop_last() =~= challenges@.take(i as int));
        match rank(superset, challenges[i]) {
            Some(found) => {
                out.push(found);
            },
            None => {
                proof {
                    lemma_ranks_failure_stays(superset@, challenges@, i + 1);
                }
                return Err(PorepError::ChallengeNotInSuperset { challenge: challenges[i] });
            },
        }
        i = i + 1;
    }
    assert(challenges@.take(i as int) =~= challenges@);
    Ok(out)
}

/// Picks the records that answer `challenges` out of the store, in the order
/// of the challenges. Record `i` of the store answers `superset[i]`.
///
/// It fails with `ChallengeNotInSuperset` where a challenge is not in the
/// synthetic set, before anything is read; the store's failures come after.
pub fn extract_records(
    store: &[u8],
    layout: &StoreLayout,
    superset: &[usize],
    challenges: &[usize],
) -> (r: Result<Vec<ProofRecord>, PorepError>)
    requires
        layout.wf(),
    ensures
        read_view(r) == spec_extract_records(store@, *layout, superset@, challenges@),
        r is Ok ==> r->Ok_0@.len() == challenges@.len(),
{
    let positions = match ranks(superset, challenges) {
        Ok(positions) => positions,
        Err(e) => {
            return Err(e);
        },
    };
    proof {
        lemma_ranks_elementwise(superset@, challenges@);
    }
    read(store, layout, positions.as_slice())
}

/// What `extract` answers: the synthetic set is derived first, capped at
/// `synth_count`, then the challenges of all partitions, then the records are
/// looked up and read; the first failure on this way is the answer.
pub open spec fn spec_extract(
    store: Seq<u8>,
    layout: StoreLayout,
    scheme: Scheme,
    replica_id: Seq<u8>,
    comm_r: Seq<u8>,
    seed: Seq<u8>,
    synth_count: usize,
    num_challenges: usize,
    num_partitions: usize,
) -> Result<Seq<RecordModel>, PorepError> {
    match spec_derive(
        Scheme::Synthetic,
        layout.sector_nodes,
        replica_id,
        comm_r,
        seed,
        0,
        synth_count,
    ) {
        Err(e) => Err(e),
        Ok(superset) => match spec_derive_partitions(
            scheme,
            layout.sector_nodes,
            replica_id,
            comm_r,
            seed,
            num_challenges,
            num_partitions,
        ) {
            Err(e) => Err(e),
            Ok(challenges) => spec_extract_records(store, layout, superset, challenges),
        },
    }
}

/// Extracts from a synthetic proof store the records that answer the
/// challenges of `scheme` under `seed`.
///
/// The store holds one record for each of the first `synth_count` indices of
/// the replica's synthetic set, in that order. The result holds the records
/// of partition `0` first, each partition in the order of its challenges.
pub fn extract(
    store: &[u8],
    layout: &StoreLayout,
    scheme: Scheme,
    replica_id: &[u8; 32],
    comm_r: &[u8; 32],
    seed: &[u8; 32],
    synth_count: usize,
    num_challenges: usize,
    num_partitions: usize,
) -> (r: Result<Vec<ProofRecord>, PorepError>)
    requires
        layout.wf(),
    ensures
        read_view(r) == spec_extract(
            store@,
            *layout,
            scheme,
            replica_id@,
            comm_r@,
            seed@,
            synth_count,
            num_challenges,
            num_partitions,
        ),
{
    let superset = match crate::challenges::derive(
        Scheme::Synthetic,
        layout.sector_nodes,
        replica_id,
        comm_r,
        seed,
        0,
        synth_count,
    ) {
        Ok(superset) => superset,
        Err(e) => {
            return Err(e);
        },
    };
    let challenges = match derive_partitions(
        scheme,
        layout.sector_nodes,
        replica_id,
        comm_r,
        seed,
        num_challenges,
        num_partitions,
    ) {
        Ok(challenges) => challenges,
        Err(e) => {
            return Err(e);
        },
    };
    extract_records(store, layout, superset.as_slice(), challenges.as_slice())
}

/// A result that carries bytes, with the bytes as a sequence.
pub open spec fn bytes_view(r: Result<Vec<u8>, PorepError>) -> Result<Seq<u8>, PorepError> {
    match r {
        Ok(bytes) => Ok(bytes@),
        Err(e) => Err(e),
    }
}

/// What `extract_bundle` answers: the extracted records, written one after
/// the other.
pub open spec fn spec_bundle(extracted: Result<Seq<RecordModel>, PorepError>) -> Result<
    Seq<u8>,
    PorepError,
> {
    match extracted {
        Ok(records) => Ok(spec_write(records)),
        Err(e) => Err(e),
    }
}

/// Extracts the records as `extract` does and writes them as a proof bundle:
/// partition after partition, with nothing between the partitions.
pub fn extract_bundle(
    store: &[u8],
    layout: &StoreLayout,
    scheme: Scheme,
    replica_id: &[u8; 32],
    comm_r: &[u8; 32],
    seed: &[u8; 32],
    synth_count: usize,
    num_challenges: usize,
    num_partitions: usize,
) -> (r: Result<Vec<u8>, PorepError>)
    requires
        layout.wf(),
    ensures
        bytes_view(r) == spec_bundle(
            spec_extract(
                store@,
                *layout,
                scheme,
                replica_id@,
                comm_r@,
                seed@,
                synth_count,
                num_challenges,
                num_partitions,
            ),
        ),
{
    match extract(
        store,
        layout,
        scheme,
        replica_id,
        comm_r,
        seed,
        synth_count,
        num_challenges,
        num_partitions,
    ) {
        Ok(records) => Ok(crate::store::write(records.as_slice())),
        Err(e) => Err(e),
    }
}

} // verus!
