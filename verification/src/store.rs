//! The synthetic proof store: records of one fixed length, one after the
//! other, in the order of the synthetic challenge set. Record `i` answers the
//! `i`-th synthetic challenge and starts at byte `i * record_size`.

use vstd::prelude::*;
use vstd::slice::slice_subrange;
use crate::errors::PorepError;
use crate::layout::StoreLayout;
use crate::record::{
    lemma_decode_encode, lemma_encode_len, model_wf, models, spec_decode, spec_encode, ProofRecord,
    RecordModel,
};

verus! {

/// The bytes of a store that holds `records`, in their order.
pub open spec fn spec_write(records: Seq<RecordModel>) -> Seq<u8>
    decreases records.len(),
{
    if records.len() == 0 {
        Seq::empty()
    } else {
        spec_write(records.drop_last()) + spec_encode(records.last())
    }
}

/// The record at `position` of a store: the store has to reach to the
/// record's end, and the bytes there have to decode.
pub open spec fn spec_read_one(store: Seq<u8>, layout: StoreLayout, position: usize) -> Result<
    RecordModel,
    PorepError,
> {
    let size = layout.record_size as int;
    if (position + 1) * size > store.len() {
        Err(
            PorepError::TruncatedStore {
                position,
                record_size: layout.record_size,
                store_len: store.len() as usize,
            },
        )
    } else {
        match spec_decode(layout, store.subrange(position * size, (position + 1) * size)) {
            Some(m) => Ok(m),
            None => Err(PorepError::DecodeError { position, offset: (position * size) as usize }),
        }
    }
}

/// The records at `positions`, in the order of `positions`, or the failure at
/// the first position that fails.
pub open spec fn spec_read(store: Seq<u8>, layout: StoreLayout, positions: Seq<usize>) -> Result<
    Seq<RecordModel>,
    PorepError,
>
    decreases positions.len(),
{
    if positions.len() == 0 {
        Ok(Seq::empty())
    } else {
        match spec_read(store, layout, positions.drop_last()) {
            Err(e) => Err(e),
            Ok(records) => match spec_read_one(store, layout, positions.last()) {
                Err(e) => Err(e),
                Ok(m) => Ok(records.push(m)),
            },
        }
    }
}

/// The positions `start, start + 1, ..` below `end`.
pub open spec fn spec_range(start: usize, end: usize) -> Seq<usize> {
    Seq::new((end - start) as nat, |i: int| (start + i) as usize)
}

/// Every record of the sequence is well-formed for the layout.
pub open spec fn all_wf(layout: StoreLayout, records: Seq<RecordModel>) -> bool {
    forall|i: int| 0 <= i < records.len() ==> #[trigger] model_wf(layout, records[i])
}

/// A result of reading, with the records as mathematical values.
pub open spec fn read_view(r: Result<Vec<ProofRecord>, PorepError>) -> Result<
    Seq<RecordModel>,
    PorepError,
> {
    match r {
        Ok(records) => Ok(models(records@)),
        Err(e) => Err(e),
    }
}

/// Reading succeeds exactly if it succeeds at every position, and then gives
/// for each position the record there.
pub proof fn lemma_read_elementwise(store: Seq<u8>, layout: StoreLayout, positions: Seq<usize>)
    ensures
        spec_read(store, layout, positions) is Ok <==> forall|i: int|
            0 <= i < positions.len() ==> #[trigger] spec_read_one(store, layout, positions[i]) is Ok,
        spec_read(store, layout, positions) is Ok ==> {
            let out = spec_read(store, layout, positions)->Ok_0;
            &&& out.len() == positions.len()
            &&& forall|i: int|
                0 <= i < positions.len() ==> #[trigger] out[i] == spec_read_one(
                    store,
                    layout,
                    positions[i],
                )->Ok_0
        },
    decreases positions.len(),
{
    if positions.len() > 0 {
        let front = positions.drop_last();
        lemma_read_elementwise(store, layout, front);
        assert forall|i: int| 0 <= i < front.len() implies front[i] == positions[i] by {}
        if spec_read(store, layout, positions) is Ok {
            assert forall|i: int| 0 <= i < positions.len() implies #[trigger] spec_read_one(
                store,
                layout,
                positions[i],
            ) is Ok by {
                if i < front.len() {
                    assert(front[i] == positions[i]);
                }
            }
        }
        if forall|i: int|
            0 <= i < positions.len() ==> #[trigger] spec_read_one(store, layout, positions[i]) is Ok {
            assert forall|i: int| 0 <= i < front.len() implies #[trigger] spec_read_one(
                store,
                layout,
                front[i],
            ) is Ok by {
                assert(front[i] == positions[i]);
            }
            assert(spec_read_one(store, layout, positions[positions.len() - 1]) is Ok);
        }
    }
}

/// A failure in a prefix of the positions is the failure of the whole read.
pub proof fn lemma_read_failure_stays(
    store: Seq<u8>,
    layout: StoreLayout,
    positions: Seq<usize>,
    upto: int,
)
    requires
        0 <= upto <= positions.len(),
        spec_read(store, layout, positions.take(upto)) is Err,
    ensures
        spec_read(store, layout, positions) == spec_read(store, layout, positions.take(upto)),
    decreases positions.len() - upto,
{
    if upto < positions.len() {
        assert(positions.take(upto + 1).drop_last() =~= positions.take(upto));
        lemma_read_failure_stays(store, layout, positions, upto + 1);
    } else {
        assert(positions.take(upto) =~= positions);
    }
}

/// A store written from well-formed records holds as many whole records as
/// were written: its length is their number times the record size.
pub proof fn lemma_write_len(layout: StoreLayout, records: Seq<RecordModel>)
    requires
        layout.wf(),
        all_wf(layout, records),
    ensures
        spec_write(records).len() == records.len() * layout.record_size,
    decreases records.len(),
{
    if records.len() > 0 {
        let front = records.drop_last();
        assert forall|i: int| 0 <= i < front.len() implies #[trigger] model_wf(layout, front[i]) by {
            assert(front[i] == records[i]);
        }
        lemma_write_len(layout, front);
        lemma_encode_len(layout, records.last());
        assert(records.len() * layout.record_size == (records.len() - 1) * layout.record_size
            + layout.record_size) by (nonlinear_arith);
    } else {
        assert(0 * layout.record_size == 0) by (nonlinear_arith);
    }
}

/// In a store written from well-formed records, the bytes of record `i` are
/// those from `i * record_size` to `(i + 1) * record_size`.
pub proof fn lemma_write_slice(layout: StoreLayout, records: Seq<RecordModel>, i: int)
    requires
        layout.wf(),
        all_wf(layout, records),
        0 <= i < records.len(),
    ensures
        (i + 1) * layout.record_size <= spec_write(records).len(),
        spec_write(records).subrange(i * layout.record_size, (i + 1) * layout.record_size)
            == spec_encode(records[i]),
    decreases records.len(),
{
    let size = layout.record_size as int;
    let front = records.drop_last();
    assert forall|j: int| 0 <= j < front.len() implies #[trigger] model_wf(layout, front[j]) by {
        assert(front[j] == records[j]);
    }
    lemma_write_len(layout, front);
    lemma_write_len(layout, records);
    lemma_encode_len(layout, records.last());
    assert((i + 1) * size == i * size + size) by (nonlinear_arith);
    assert((i + 1) * size <= records.len() * size) by (nonlinear_arith)
        requires
            i + 1 <= records.len(),
            size >= 0,
    ;
    if i == records.len() - 1 {
        assert(spec_write(records).subrange(i * size, (i + 1) * size) =~= spec_encode(
            records.last(),
        ));
    } else {
        lemma_write_slice(layout, front, i);
        assert(front[i] == records[i]);
        assert(spec_write(records).subrange(i * size, (i + 1) * size) =~= spec_write(
            front,
        ).subrange(i * size, (i + 1) * size));
    }
}

/// Round trip: reading every position of a store written from well-formed
/// records gives the records back, in their order.
pub proof fn lemma_read_write_round_trip(layout: StoreLayout, records: Seq<RecordModel>)
    requires
        layout.wf(),
        all_wf(layout, records),
        records.len() <= usize::MAX,
    ensures
        spec_read(spec_write(records), layout, spec_range(0, records.len() as usize)) == Ok::<
            Seq<RecordModel>,
            PorepError,
        >(records),
{
    let store = spec_write(records);
    let positions = spec_range(0, records.len() as usize);
    assert forall|i: int| 0 <= i < positions.len() implies #[trigger] spec_read_one(
        store,
        layout,
        positions[i],
    ) == Ok::<RecordModel, PorepError>(records[i]) by {
        lemma_write_slice(layout, records, i);
        lemma_decode_encode(layout, records[i]);
    }
    lemma_read_elementwise(store, layout, positions);
    assert(spec_read(store, layout, positions)->Ok_0 =~= records);
}

/// Random access: where the whole store of `n` records can be read, reading
/// any positions below `n` gives the records that the whole read has at
/// those positions.
pub proof fn lemma_random_access(
    store: Seq<u8>,
    layout: StoreLayout,
    n: usize,
    positions: Seq<usize>,
)
    requires
        spec_read(store, layout, spec_range(0, n)) is Ok,
        forall|i: int| 0 <= i < positions.len() ==> #[trigger] positions[i] < n,
    ensures
        spec_read(store, layout, positions) is Ok,
        spec_read(store, layout, positions)->Ok_0.len() == positions.len(),
        forall|i: int|
            0 <= i < positions.len() ==> #[trigger] spec_read(store, layout, positions)->Ok_0[i]
                == spec_read(store, layout, spec_range(0, n))->Ok_0[positions[i] as int],
{
    let all = spec_range(0, n);
    lemma_read_elementwise(store, layout, all);
    assert forall|i: int| 0 <= i < positions.len() implies #[trigger] spec_read_one(
        store,
        layout,
        positions[i],
    ) is Ok by {
        assert(all[positions[i] as int] == positions[i]);
    }
    lemma_read_elementwise(store, layout, positions);
    assert forall|i: int| 0 <= i < positions.len() implies #[trigger] spec_read(
        store,
        layout,
        positions,
    )->Ok_0[i] == spec_read(store, layout, all)->Ok_0[positions[i] as int] by {
        assert(all[positions[i] as int] == positions[i]);
    }
}

/// Writes the records one after the other, with nothing between them.
pub fn write(records: &[ProofRecord]) -> (bytes: Vec<u8>)
    ensures
        bytes@ == spec_write(models(records@)),
{
    let mut out: Vec<u8> = Vec::new();
    let mut i: usize = 0;
    while i < records.len()
        invariant
            i <= records.len(),
            out@ == spec_write(models(records@.take(i as int))),
        decreases records.len() - i,
    {
        proof {
            let next = models(records@.take(i + 1));
            assert(next.drop_last() =~= models(records@.take(i as int)));
            assert(next.last() == records@[i as int]@);
        }
        records[i].encode_into(&mut out);
        i = i + 1;
    }
    assert(records@.take(i as int) =~= records@);
    out
}

/// Reads the record at `position`. It fails with `TruncatedStore` where the
/// store ends before the record does, and with `DecodeError` where the bytes
/// are no record of this layout.
pub fn read_one(store: &[u8], layout: &StoreLayout, position: usize) -> (r: Result<
    ProofRecord,
    PorepError,
>)
    requires
        layout.wf(),
    ensures
        match r {
            Ok(record) => spec_read_one(store@, *layout, position) == Ok::<RecordModel, PorepError>(
                record@,
            ),
            Err(e) => spec_read_one(store@, *layout, position) == Err::<RecordModel, PorepError>(e),
        },
{
    let size: usize = layout.record_size;
    let whole: usize = store.len() / size;
    proof {
        let len = store@.len() as int;
        vstd::arithmetic::div_mod::lemma_fundamental_div_mod(len, size as int);
        if position < whole {
            assert((position + 1) * size <= whole * size) by (nonlinear_arith)
                requires
                    position + 1 <= whole,
                    size >= 0,
            ;
            assert(whole * size == size * whole) by (nonlinear_arith);
        } else {
            assert((position + 1) * size >= (whole + 1) * size) by (nonlinear_arith)
                requires
                    position >= whole,
                    size >= 0,
            ;
            assert((whole + 1) * size == size * whole + size) by (nonlinear_arith);
        }
        assert((position + 1) * size == position * size + size) by (nonlinear_arith);
    }
    if position >= whole {
        return Err(
            PorepError::TruncatedStore { position, record_size: size, store_len: store.len() },
        );
    }
    let offset: usize = position * size;
    match ProofRecord::decode(layout, slice_subrange(store, offset, offset + size)) {
        Some(record) => Ok(record),
        None => Err(PorepError::DecodeError { position, offset }),
    }
}

/// Reads the records at `positions`, in the order of `positions`. Only the
/// requested records are looked at. The first position that cannot be read
/// fails the whole read.
pub fn read(store: &[u8], layout: &StoreLayout, positions: &[usize]) -> (r: Result<
    Vec<ProofRecord>,
    PorepError,
>)
    requires
        layout.wf(),
    ensures
        read_view(r) == spec_read(store@, *layout, positions@),
        r is Ok ==> r->Ok_0@.len() == positions@.len(),
{
    let mut out: Vec<ProofRecord> = Vec::new();
    let mut i: usize = 0;
    assert(models(out@) =~= Seq::<RecordModel>::empty());
    assert(positions@.take(0).len() == 0);
    while i < positions.len()
        invariant
            i <= positions.len(),
            layout.wf(),
            out@.len() == i,
            spec_read(store@, *layout, positions@.take(i as int)) == Ok::<
                Seq<RecordModel>,
                PorepError,
            >(models(out@)),
        decreases positions.len() - i,
    {
        assert(positions@.take(i + 1).drop_last() =~= positions@.take(i as int));
        match read_one(store, layout, positions[i]) {
            Ok(record) => {
                assert(models(out@.push(record)) =~= models(out@).push(record@));
                out.push(record);
            },
            Err(e) => {
                proof {
                    lemma_read_failure_stays(store@, *layout, positions@, i + 1);
                }
                return Err(e);
            },
        }
        i = i + 1;
    }
    assert(positions@.take(i as int) =~= positions@);
    Ok(out)
}

/// Reads the records at the positions from `start` up to `end`, `end` not included.
pub fn read_range(store: &[u8], layout: &StoreLayout, start: usize, end: usize) -> (r: Result<
    Vec<ProofRecord>,
    PorepError,
>)
    requires
        layout.wf(),
        start <= end,
    ensures
        read_view(r) == spec_read(store@, *layout, spec_range(start, end)),
        r is Ok ==> r->Ok_0@.len() == end - start,
{
    let ghost positions = spec_range(start, end);
    let mut out: Vec<ProofRecord> = Vec::new();
    let mut i: usize = start;
    assert(models(out@) =~= Seq::<RecordModel>::empty());
    assert(positions.take(0).len() == 0);
    while i < end
        invariant
            start <= i <= end,
            layout.wf(),
            positions == spec_range(start, end),
            out@.len() == i - start,
            spec_read(store@, *layout, positions.take(i - start)) == Ok::<
                Seq<RecordModel>,
                PorepError,
            >(models(out@)),
        decreases end - i,
    {
        assert(positions.take(i - start + 1).drop_last() =~= positions.take(i - start));
        assert(positions.take(i - start + 1).last() == i);
        match read_one(store, layout, i) {
            Ok(record) => {
                assert(models(out@.push(record)) =~= models(out@).push(record@));
                out.push(record);
            },
            Err(e) => {
                proof {
                    lemma_read_failure_stays(store@, *layout, positions, i - start + 1);
                }
                return Err(e);
            },
        }
        i = i + 1;
    }
    assert(positions.take(i - start) =~= positions);
    Ok(out)
}

/// Checks that a store of `store_len` bytes holds exactly `num_records`
/// records: any other length means the store is corrupt or was written for
/// another sector or number of layers.
pub fn check_store_length(store_len: usize, layout: &StoreLayout, num_records: usize) -> (r: Result<
    (),
    PorepError,
>)
    ensures
        r is Ok <==> store_len == num_records * layout.record_size,
        r is Err ==> r == Err::<(), PorepError>(
            PorepError::LengthMismatch {
                expected_records: num_records,
                record_size: layout.record_size,
                store_len,
            },
        ),
{
    assert(num_records * layout.record_size <= 0xffff_ffff_ffff_ffff * 0xffff_ffff_ffff_ffff)
        by (nonlinear_arith)
        requires
            0 <= num_records <= 0xffff_ffff_ffff_ffff,
            0 <= layout.record_size <= 0xffff_ffff_ffff_ffff,
    ;
    let expected: u128 = num_records as u128 * layout.record_size as u128;
    if store_len as u128 == expected {
        Ok(())
    } else {
        Err(
            PorepError::LengthMismatch {
                expected_records: num_records,
                record_size: layout.record_size,
                store_len,
            },
        )
    }
}

} // verus!
