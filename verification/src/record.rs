//! One proof record and its bytes.

use vstd::prelude::*;
use vstd::bytes::{
    lemma_auto_spec_u64_to_from_le_bytes, spec_u64_from_le_bytes, spec_u64_to_le_bytes,
    u64_from_le_bytes, u64_to_le_bytes,
};
use vstd::slice::{slice_subrange, slice_to_vec};
use crate::layout::{StoreLayout, INDEX_BYTES, NUM_PARENTS};

verus! {

/// The inclusion data that answers one challenge. Tree nodes are kept as the
/// bytes they are stored as, 32 for each node.
#[derive(Clone, Debug, PartialEq, Eq)]
pub struct ProofRecord {
    /// The challenged node.
    pub challenge: u64,
    /// The parents of the challenged node, base graph first.
    pub parents: Vec<u64>,
    /// The path in the data tree: the leaf, then one sibling per level.
    pub proof_d: Vec<u8>,
    /// The challenge's column, one label per layer, then its path in the
    /// column tree: the leaf, then the siblings level by level.
    pub column: Vec<u8>,
    /// The same for each parent, in the order of `parents`.
    pub parent_columns: Vec<u8>,
    /// The path in the replica tree: the leaf, then the siblings level by level.
    pub proof_r: Vec<u8>,
}

/// A record as a mathematical value.
pub struct RecordModel {
    pub challenge: u64,
    pub parents: Seq<u64>,
    pub proof_d: Seq<u8>,
    pub column: Seq<u8>,
    pub parent_columns: Seq<u8>,
    pub proof_r: Seq<u8>,
}

impl View for ProofRecord {
    type V = RecordModel;

    open spec fn view(&self) -> RecordModel {
        RecordModel {
            challenge: self.challenge,
            parents: self.parents@,
            proof_d: self.proof_d@,
            column: self.column@,
            parent_columns: self.parent_columns@,
            proof_r: self.proof_r@,
        }
    }
}

/// The records of a vector as mathematical values.
pub open spec fn models(records: Seq<ProofRecord>) -> Seq<RecordModel> {
    records.map_values(|r: ProofRecord| r@)
}

/// Node indices one after the other, eight bytes each, least significant
/// byte first.
pub open spec fn spec_encode_indices(indices: Seq<u64>) -> Seq<u8> {
    Seq::new(8 * indices.len(), |j: int| spec_u64_to_le_bytes(indices[j / 8])[j % 8])
}

/// The bytes of a record: its parts one after the other, nothing between them.
pub open spec fn spec_encode(m: RecordModel) -> Seq<u8> {
    spec_u64_to_le_bytes(m.challenge) + spec_encode_indices(m.parents) + m.proof_d + m.column
        + m.parent_columns + m.proof_r
}

/// The challenge and the parents are nodes of the sector.
pub open spec fn indices_in_range(layout: StoreLayout, m: RecordModel) -> bool {
    &&& m.challenge < layout.sector_nodes
    &&& forall|i: int| 0 <= i < m.parents.len() ==> #[trigger] m.parents[i] < layout.sector_nodes
}

/// The record has the parts that the layout gives a record, each of its
/// length, and its indices are nodes of the sector.
pub open spec fn model_wf(layout: StoreLayout, m: RecordModel) -> bool {
    &&& m.parents.len() == NUM_PARENTS
    &&& m.proof_d.len() == layout.proof_d_bytes
    &&& m.column.len() == layout.column_bytes
    &&& m.parent_columns.len() == layout.parent_columns_bytes
    &&& m.proof_r.len() == layout.proof_r_bytes
    &&& indices_in_range(layout, m)
}

/// The parts of a record cut out of `bytes` at the places the layout gives them.
pub open spec fn spec_parse(layout: StoreLayout, bytes: Seq<u8>) -> RecordModel {
    let d = INDEX_BYTES as int;
    let c = d + layout.proof_d_bytes;
    let p = c + layout.column_bytes;
    let r = p + layout.parent_columns_bytes;
    RecordModel {
        challenge: spec_u64_from_le_bytes(bytes.subrange(0, 8)),
        parents: Seq::new(
            NUM_PARENTS as nat,
            |i: int| spec_u64_from_le_bytes(bytes.subrange(8 + 8 * i, 16 + 8 * i)),
        ),
        proof_d: bytes.subrange(d, c),
        column: bytes.subrange(c, p),
        parent_columns: bytes.subrange(p, r),
        proof_r: bytes.subrange(r, layout.record_size as int),
    }
}

/// The record that `bytes` hold: there is one exactly if `bytes` have the
/// length of a record and the indices in them are nodes of the sector.
pub open spec fn spec_decode(layout: StoreLayout, bytes: Seq<u8>) -> Option<RecordModel> {
    if bytes.len() == layout.record_size && indices_in_range(layout, spec_parse(layout, bytes)) {
        Some(spec_parse(layout, bytes))
    } else {
        None
    }
}

/// The bytes of `n` indices are `8 * n` bytes, and the eight that start at
/// `8 * i` are those of index `i`.
pub proof fn lemma_encode_indices(indices: Seq<u64>, i: int)
    requires
        0 <= i < indices.len(),
    ensures
        spec_encode_indices(indices).len() == 8 * indices.len(),
        spec_encode_indices(indices).subrange(8 * i, 8 * i + 8) == spec_u64_to_le_bytes(indices[i]),
{
    lemma_auto_spec_u64_to_from_le_bytes();
    let all = spec_encode_indices(indices);
    let part = all.subrange(8 * i, 8 * i + 8);
    let want = spec_u64_to_le_bytes(indices[i]);
    assert forall|t: int| 0 <= t < 8 implies part[t] == want[t] by {
        assert((8 * i + t) / 8 == i);
        assert((8 * i + t) % 8 == t);
    }
    assert(part =~= want);
}

/// A well-formed record takes exactly the bytes the layout gives a record.
pub proof fn lemma_encode_len(layout: StoreLayout, m: RecordModel)
    requires
        layout.wf(),
        model_wf(layout, m),
    ensures
        spec_encode(m).len() == layout.record_size,
{
    lemma_auto_spec_u64_to_from_le_bytes();
}

/// Decoding the bytes of a well-formed record gives the record back.
pub proof fn lemma_decode_encode(layout: StoreLayout, m: RecordModel)
    requires
        layout.wf(),
        model_wf(layout, m),
    ensures
        spec_decode(layout, spec_encode(m)) == Some(m),
{
    lemma_auto_spec_u64_to_from_le_bytes();
    let bytes = spec_encode(m);
    let head = spec_u64_to_le_bytes(m.challenge);
    let idx = spec_encode_indices(m.parents);
    let parsed = spec_parse(layout, bytes);
    assert(bytes.subrange(0, 8) =~= head);
    assert(parsed.parents =~= m.parents) by {
        assert forall|i: int| 0 <= i < NUM_PARENTS implies parsed.parents[i] == m.parents[i] by {
            lemma_encode_indices(m.parents, i);
            assert(bytes.subrange(8 + 8 * i, 16 + 8 * i) =~= idx.subrange(8 * i, 8 * i + 8));
        }
    }
    assert(parsed.proof_d =~= m.proof_d);
    assert(parsed.column =~= m.column);
    assert(parsed.parent_columns =~= m.parent_columns);
    assert(parsed.proof_r =~= m.proof_r);
}

/// Bytes that decode are the bytes of the record they decode to, and that
/// record is well-formed.
pub proof fn lemma_encode_decode(layout: StoreLayout, bytes: Seq<u8>)
    requires
        layout.wf(),
        spec_decode(layout, bytes) is Some,
    ensures
        model_wf(layout, spec_decode(layout, bytes)->Some_0),
        spec_encode(spec_decode(layout, bytes)->Some_0) == bytes,
{
    lemma_auto_spec_u64_to_from_le_bytes();
    let m = spec_parse(layout, bytes);
    let idx = spec_encode_indices(m.parents);
    assert(idx =~= bytes.subrange(8, INDEX_BYTES as int)) by {
        assert forall|j: int| 0 <= j < 8 * NUM_PARENTS implies idx[j] == bytes[8 + j] by {
            let i = j / 8;
            let part = bytes.subrange(8 + 8 * i, 16 + 8 * i);
            assert(spec_u64_to_le_bytes(spec_u64_from_le_bytes(part)) == part);
            assert(part[j % 8] == bytes[8 + 8 * i + j % 8]);
        }
    }
    assert(spec_u64_to_le_bytes(m.challenge) == bytes.subrange(0, 8));
    assert(spec_encode(m) =~= bytes);
}

/// Appends `src` to `out`.
fn append_bytes(out: &mut Vec<u8>, src: &[u8])
    ensures
        final(out)@ == old(out)@ + src@,
{
    out.extend_from_slice(src);
    assert(out@ =~= old(out)@ + src@);
}

impl ProofRecord {
    /// The record is well-formed for the layout.
    pub open spec fn wf(&self, layout: StoreLayout) -> bool {
        model_wf(layout, self@)
    }

    /// Whether the challenge and the parents are nodes of the sector.
    pub fn indices_fit(&self, layout: &StoreLayout) -> (b: bool)
        ensures
            b == indices_in_range(*layout, self@),
    {
        if self.challenge >= layout.sector_nodes as u64 {
            return false;
        }
        let mut i: usize = 0;
        while i < self.parents.len()
            invariant
                i <= self.parents.len(),
                forall|j: int| 0 <= j < i ==> #[trigger] self.parents@[j] < layout.sector_nodes,
            decreases self.parents.len() - i,
        {
            if self.parents[i] >= layout.sector_nodes as u64 {
                assert(!(self@.parents[i as int] < layout.sector_nodes));
                return false;
            }
            i = i + 1;
        }
        true
    }

    /// Whether the record is well-formed for the layout.
    pub fn fits(&self, layout: &StoreLayout) -> (b: bool)
        ensures
            b == self.wf(*layout),
    {
        if self.parents.len() != NUM_PARENTS || self.proof_d.len() != layout.proof_d_bytes
            || self.column.len() != layout.column_bytes || self.parent_columns.len()
            != layout.parent_columns_bytes || self.proof_r.len() != layout.proof_r_bytes {
            return false;
        }
        self.indices_fit(layout)
    }

    /// Appends the bytes of the record to `out`.
    pub fn encode_into(&self, out: &mut Vec<u8>)
        ensures
            final(out)@ == old(out)@ + spec_encode(self@),
    {
        proof {
            lemma_auto_spec_u64_to_from_le_bytes();
        }
        let mut head = u64_to_le_bytes(self.challenge);
        out.append(&mut head);
        let ghost start = out@;
        let mut i: usize = 0;
        while i < self.parents.len()
            invariant
                i <= self.parents.len(),
                out@ == start + spec_encode_indices(self.parents@.take(i as int)),
            decreases self.parents.len() - i,
        {
            let mut bytes = u64_to_le_bytes(self.parents[i]);
            proof {
                lemma_auto_spec_u64_to_from_le_bytes();
                let before = spec_encode_indices(self.parents@.take(i as int));
                let after = spec_encode_indices(self.parents@.take(i + 1));
                assert(after =~= before + bytes@) by {
                    assert forall|j: int| 0 <= j < 8 * (i + 1) implies after[j] == (before
                        + bytes@)[j] by {
                        if j >= 8 * i {
                            assert(j / 8 == i);
                            assert(j % 8 == j - 8 * i);
                        }
                    }
                }
                assert(start + before + bytes@ =~= start + (before + bytes@));
            }
            out.append(&mut bytes);
            i = i + 1;
        }
        assert(self.parents@.take(i as int) =~= self.parents@);
        append_bytes(out, self.proof_d.as_slice());
        append_bytes(out, self.column.as_slice());
        append_bytes(out, self.parent_columns.as_slice());
        append_bytes(out, self.proof_r.as_slice());
        assert(out@ =~= old(out)@ + spec_encode(self@));
    }

    /// The bytes of the record.
    pub fn encode(&self) -> (bytes: Vec<u8>)
        ensures
            bytes@ == spec_encode(self@),
    {
        let mut out: Vec<u8> = Vec::new();
        self.encode_into(&mut out);
        assert(out@ =~= spec_encode(self@));
        out
    }

    /// The record that `bytes` hold, if they hold one: they have to have the
    /// length of a record, and the indices in them have to be nodes of the sector.
    pub fn decode(layout: &StoreLayout, bytes: &[u8]) -> (r: Option<ProofRecord>)
        requires
            layout.wf(),
        ensures
            match r {
                Some(record) => spec_decode(*layout, bytes@) == Some(record@),
                None => spec_decode(*layout, bytes@) is None,
            },
    {
        if bytes.len() != layout.record_size {
            return None;
        }
        let ghost parsed = spec_parse(*layout, bytes@);
        let challenge: u64 = u64_from_le_bytes(slice_subrange(bytes, 0, 8));
        let mut parents: Vec<u64> = Vec::new();
        let mut in_range: bool = challenge < layout.sector_nodes as u64;
        let mut i: usize = 0;
        while i < NUM_PARENTS
            invariant
                i <= NUM_PARENTS,
                bytes@.len() >= INDEX_BYTES,
                parsed == spec_parse(*layout, bytes@),
                parents@ == parsed.parents.take(i as int),
                in_range == (challenge < layout.sector_nodes && forall|j: int|
                    0 <= j < i ==> #[trigger] parsed.parents[j] < layout.sector_nodes),
            decreases NUM_PARENTS - i,
        {
            let parent: u64 = u64_from_le_bytes(slice_subrange(bytes, 8 + 8 * i, 16 + 8 * i));
            assert(parent == parsed.parents[i as int]);
            if parent >= layout.sector_nodes as u64 {
                in_range = false;
            }
            parents.push(parent);
            assert(parents@ =~= parsed.parents.take(i + 1));
            i = i + 1;
        }
        assert(parents@ =~= parsed.parents);
        if !in_range {
            return None;
        }
        let d: usize = INDEX_BYTES;
        let c: usize = d + layout.proof_d_bytes;
        let p: usize = c + layout.column_bytes;
        let r: usize = p + layout.parent_columns_bytes;
        let record = ProofRecord {
            challenge,
            parents,
            proof_d: slice_to_vec(slice_subrange(bytes, d, c)),
            column: slice_to_vec(slice_subrange(bytes, c, p)),
            parent_columns: slice_to_vec(slice_subrange(bytes, p, r)),
            proof_r: slice_to_vec(slice_subrange(bytes, r, layout.record_size)),
        };
        assert(record@ == parsed);
        Some(record)
    }
}

} // verus!
