//! Proof bundles: the records that answer the challenges of a real proof,
//! partition after partition, with nothing between the partitions. Where a
//! partition starts follows from the number of challenges per partition and
//! the record size.

use vstd::prelude::*;
use crate::errors::{ConfigurationError, PorepError};
use crate::layout::StoreLayout;
use crate::record::{models, ProofRecord, RecordModel};
use crate::store::{
    all_wf, lemma_read_write_round_trip, read_range, read_view, spec_range, spec_read, spec_write,
};

verus! {

/// The records of the partitions as mathematical values.
pub open spec fn partition_models(partitions: Seq<Vec<ProofRecord>>) -> Seq<Seq<RecordModel>> {
    partitions.map_values(|p: Vec<ProofRecord>| models(p@))
}

/// The records of all partitions in one sequence, partition `0` first.
pub open spec fn spec_flatten(partitions: Seq<Seq<RecordModel>>) -> Seq<RecordModel>
    decreases partitions.len(),
{
    if partitions.len() == 0 {
        Seq::empty()
    } else {
        spec_flatten(partitions.drop_last()) + partitions.last()
    }
}

/// The bytes of a bundle: each partition written as a store, one after the other.
pub open spec fn spec_write_bundle(partitions: Seq<Seq<RecordModel>>) -> Seq<u8>
    decreases partitions.len(),
{
    if partitions.len() == 0 {
        Seq::empty()
    } else {
        spec_write_bundle(partitions.drop_last()) + spec_write(partitions.last())
    }
}

/// Writing one run of records after another is writing the two runs as one.
pub proof fn lemma_write_append(first: Seq<RecordModel>, second: Seq<RecordModel>)
    ensures
        spec_write(first + second) == spec_write(first) + spec_write(second),
    decreases second.len(),
{
    if second.len() == 0 {
        assert(first + second =~= first);
        assert(spec_write(first) + spec_write(second) =~= spec_write(first));
    } else {
        let both = first + second;
        assert(both.drop_last() =~= first + second.drop_last());
        assert(both.last() == second.last());
        lemma_write_append(first, second.drop_last());
        assert(spec_write(both) =~= spec_write(first) + spec_write(second));
    }
}

/// A bundle has no mark between its partitions: its bytes are those of one
/// store that holds the records of all partitions in order.
pub proof fn lemma_bundle_is_flat(partitions: Seq<Seq<RecordModel>>)
    ensures
        spec_write_bundle(partitions) == spec_write(spec_flatten(partitions)),
    decreases partitions.len(),
{
    if partitions.len() > 0 {
        lemma_bundle_is_flat(partitions.drop_last());
        lemma_write_append(spec_flatten(partitions.drop_last()), partitions.last());
    }
}

/// Every partition holds `per_partition` well-formed records.
pub open spec fn partitions_wf(
    layout: StoreLayout,
    partitions: Seq<Seq<RecordModel>>,
    per_partition: usize,
) -> bool {
    forall|k: int|
        0 <= k < partitions.len() ==> (#[trigger] partitions[k]).len() == per_partition && all_wf(
            layout,
            partitions[k],
        )
}

/// The records of partitions of `per_partition` well-formed records each are
/// well-formed, and there are `per_partition` times the partitions of them.
pub proof fn lemma_flatten_wf(
    layout: StoreLayout,
    partitions: Seq<Seq<RecordModel>>,
    per_partition: usize,
)
    requires
        partitions_wf(layout, partitions, per_partition),
    ensures
        spec_flatten(partitions).len() == per_partition * partitions.len(),
        all_wf(layout, spec_flatten(partitions)),
    decreases partitions.len(),
{
    if partitions.len() > 0 {
        let front = partitions.drop_last();
        assert forall|k: int| 0 <= k < front.len() implies (#[trigger] front[k]).len()
            == per_partition && all_wf(layout, front[k]) by {
            assert(front[k] == partitions[k]);
        }
        lemma_flatten_wf(layout, front, per_partition);
        let flat = spec_flatten(partitions);
        let last = partitions.last();
        assert(all_wf(layout, last));
        assert forall|i: int| 0 <= i < flat.len() implies #[trigger] crate::record::model_wf(
            layout,
            flat[i],
        ) by {
            if i < spec_flatten(front).len() {
                assert(flat[i] == spec_flatten(front)[i]);
            } else {
                assert(flat[i] == last[i - spec_flatten(front).len()]);
            }
        }
        assert(per_partition * partitions.len() == per_partition * (partitions.len() - 1)
            + per_partition) by (nonlinear_arith);
    } else {
        assert(per_partition * 0 == 0) by (nonlinear_arith);
    }
}

/// Round trip of a bundle: reading a bundle that was written from partitions
/// of `per_partition` well-formed records each gives the records of all
/// partitions back, partition `0` first.
pub proof fn lemma_bundle_round_trip(
    layout: StoreLayout,
    partitions: Seq<Seq<RecordModel>>,
    per_partition: usize,
)
    requires
        layout.wf(),
        partitions_wf(layout, partitions, per_partition),
        per_partition * partitions.len() <= usize::MAX,
        partitions.len() <= usize::MAX,
    ensures
        spec_read_bundle(
            spec_write_bundle(partitions),
            layout,
            per_partition,
            partitions.len() as usize,
        ) == Ok::<Seq<RecordModel>, PorepError>(spec_flatten(partitions)),
{
    lemma_bundle_is_flat(partitions);
    lemma_flatten_wf(layout, partitions, per_partition);
    lemma_read_write_round_trip(layout, spec_flatten(partitions));
}

/// Writes the partitions one after the other, with nothing between them.
pub fn write_bundle(partitions: &[Vec<ProofRecord>]) -> (bytes: Vec<u8>)
    ensures
        bytes@ == spec_write_bundle(partition_models(partitions@)),
{
    let mut out: Vec<u8> = Vec::new();
    let mut k: usize = 0;
    assert(partition_models(partitions@.take(0)) =~= Seq::<Seq<RecordModel>>::empty());
    while k < partitions.len()
        invariant
            k <= partitions.len(),
            out@ == spec_write_bundle(partition_models(partitions@.take(k as int))),
        decreases partitions.len() - k,
    {
        proof {
            let next = partition_models(partitions@.take(k + 1));
            assert(next.drop_last() =~= partition_models(partitions@.take(k as int)));
            assert(next.last() == models(partitions@[k as int]@));
        }
        let partition: &Vec<ProofRecord> = &partitions[k];
        let ghost before = out@;
        let mut i: usize = 0;
        assert(models(partition@.take(0)) =~= Seq::<RecordModel>::empty());
        assert(out@ =~= before + spec_write(models(partition@.take(0))));
        while i < partition.len()
            invariant
                i <= partition.len(),
                out@ == before + spec_write(models(partition@.take(i as int))),
            decreases partition.len() - i,
        {
            proof {
                let next = models(partition@.take(i + 1));
                assert(next.drop_last() =~= models(partition@.take(i as int)));
                assert(next.last() == partition@[i as int]@);
            }
            partition[i].encode_into(&mut out);
            assert(out@ =~= before + spec_write(models(partition@.take(i + 1))));
            i = i + 1;
        }
        assert(partition@.take(i as int) =~= partition@);
        k = k + 1;
    }
    assert(partitions@.take(k as int) =~= partitions@);
    out
}

/// What `read_bundle` answers.
pub open spec fn spec_read_bundle(
    bytes: Seq<u8>,
    layout: StoreLayout,
    per_partition: usize,
    num_partitions: usize,
) -> Result<Seq<RecordModel>, PorepError> {
    if per_partition * num_partitions > usize::MAX {
        Err(PorepError::Configuration(ConfigurationError::SizeOverflow))
    } else {
        spec_read(bytes, layout, spec_range(0, (per_partition * num_partitions) as usize))
    }
}

/// Reads the records of a bundle of `num_partitions` partitions with
/// `per_partition` challenges each: the first `per_partition *
/// num_partitions` records, in their order.
pub fn read_bundle(
    bytes: &[u8],
    layout: &StoreLayout,
    per_partition: usize,
    num_partitions: usize,
) -> (r: Result<Vec<ProofRecord>, PorepError>)
    requires
        layout.wf(),
    ensures
        read_view(r) == spec_read_bundle(bytes@, *layout, per_partition, num_partitions),
        r is Ok ==> r->Ok_0@.len() == per_partition * num_partitions,
{
    assert(per_partition * num_partitions <= 0xffff_ffff_ffff_ffff * 0xffff_ffff_ffff_ffff)
        by (nonlinear_arith)
        requires
            0 <= per_partition <= 0xffff_ffff_ffff_ffff,
            0 <= num_partitions <= 0xffff_ffff_ffff_ffff,
    ;
    let count: u128 = per_partition as u128 * num_partitions as u128;
    if count > usize::MAX as u128 {
        return Err(PorepError::Configuration(ConfigurationError::SizeOverflow));
    }
    read_range(bytes, layout, 0, count as usize)
}

/// The records of partition `k` within the records of a bundle: from the
/// first of the pair up to the second, which is not included.
pub fn partition_bounds(k: usize, per_partition: usize, num_partitions: usize) -> (bounds: (
    usize,
    usize,
))
    requires
        k < num_partitions,
        per_partition * num_partitions <= usize::MAX,
    ensures
        bounds.0 == k * per_partition,
        bounds.1 == (k + 1) * per_partition,
        bounds.1 <= per_partition * num_partitions,
{
    assert((k + 1) * per_partition == k * per_partition + per_partition) by (nonlinear_arith);
    assert((k + 1) * per_partition <= per_partition * num_partitions) by (nonlinear_arith)
        requires
            k + 1 <= num_partitions,
            per_partition >= 0,
    ;
    let start: usize = k * per_partition;
    (start, start + per_partition)
}

} // verus!
