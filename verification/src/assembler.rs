//! Batched proof assembly: which proofs go to the prover together, in which
//! order, and how the prover's answers become one result.
//!
//! The prover is not part of this library. The assembler says which batch is
//! due; whoever drives it has the batch proven and reports the outcome.
//! Batches are cut in input order and proven in that order; the first batch
//! that fails ends the run and nothing of what was proven before is handed out.

use vstd::prelude::*;
use crate::errors::ConfigurationError;

verus! {

/// How many circuits are synthesized together unless the caller says otherwise.
pub const GROTH16_BATCH_SIZE: usize = 10;

/// The prover's account of a batch it could not prove.
#[derive(Clone, Debug, PartialEq, Eq)]
pub struct ProvingFailure {
    /// The batch that failed, counted from zero.
    pub batch: usize,
    /// What the prover said, unchanged.
    pub message: String,
}

/// Why an assembly has no result.
#[derive(Clone, Debug, PartialEq, Eq)]
pub enum AssemblyError {
    /// A batch could not be proven.
    Proving(ProvingFailure),
    /// Not every batch has been proven yet.
    Incomplete { proved_items: usize, total_items: usize },
    /// The batches cannot be cut.
    Configuration(ConfigurationError),
}

/// The number of chunks of `size` items that `total` items are cut into, the
/// last one possibly shorter.
pub open spec fn spec_chunk_count(total: int, size: int) -> int {
    if total % size == 0 {
        total / size
    } else {
        total / size + 1
    }
}

/// The first item of chunk `index`.
pub open spec fn spec_chunk_start(index: int, size: int) -> int {
    index * size
}

/// The item after the last of chunk `index`.
pub open spec fn spec_chunk_end(index: int, size: int, total: int) -> int {
    if (index + 1) * size <= total {
        (index + 1) * size
    } else {
        total
    }
}

/// The parts one after the other.
pub open spec fn spec_concat(parts: Seq<Seq<u8>>) -> Seq<u8>
    decreases parts.len(),
{
    if parts.len() == 0 {
        Seq::empty()
    } else {
        spec_concat(parts.drop_last()) + parts.last()
    }
}

/// The byte vectors of a vector as sequences.
pub open spec fn parts_view(parts: Seq<Vec<u8>>) -> Seq<Seq<u8>> {
    parts.map_values(|v: Vec<u8>| v@)
}

/// The chunks cover the items in order and without gaps: the first starts at
/// item `0`, each starts where the one before ended, every chunk but the last
/// holds `size` items, the last holds between one and `size`, and it ends at
/// `total`.
pub proof fn lemma_chunks_cover(total: int, size: int, index: int)
    requires
        total >= 0,
        size > 0,
        0 <= index < spec_chunk_count(total, size),
    ensures
        spec_chunk_start(0, size) == 0,
        spec_chunk_start(index, size) < spec_chunk_end(index, size, total) <= total,
        spec_chunk_end(index, size, total) - spec_chunk_start(index, size) <= size,
        index + 1 < spec_chunk_count(total, size) ==> spec_chunk_end(index, size, total)
            - spec_chunk_start(index, size) == size,
        index + 1 < spec_chunk_count(total, size) ==> spec_chunk_end(index, size, total)
            == spec_chunk_start(index + 1, size),
        index + 1 == spec_chunk_count(total, size) ==> spec_chunk_end(index, size, total) == total,
{
    let q = total / size;
    let r = total % size;
    vstd::arithmetic::div_mod::lemma_fundamental_div_mod(total, size);
    assert(0 * size == 0) by (nonlinear_arith);
    assert((index + 1) * size == index * size + size) by (nonlinear_arith);
    assert(index * size < total) by (nonlinear_arith)
        requires
            total == size * q + r,
            0 <= r < size,
            0 <= index,
            index < q || (index == q && r > 0),
    ;
    if index + 1 < spec_chunk_count(total, size) {
        assert((index + 1) * size <= total) by (nonlinear_arith)
            requires
                total == size * q + r,
                0 <= r < size,
                index + 1 <= q,
        ;
    } else {
        assert((index + 1) * size >= total) by (nonlinear_arith)
            requires
                total == size * q + r,
                0 <= r < size,
                index + 1 >= q,
                r > 0 ==> index + 1 >= q + 1,
        ;
    }
}

/// There are no chunks exactly where there are no items, and never more
/// chunks than items.
pub proof fn lemma_chunk_count_zero(total: int, size: int)
    requires
        total >= 0,
        size > 0,
    ensures
        spec_chunk_count(total, size) >= 0,
        spec_chunk_count(total, size) == 0 <==> total == 0,
        spec_chunk_count(total, size) <= total,
{
    let q = total / size;
    let r = total % size;
    vstd::arithmetic::div_mod::lemma_fundamental_div_mod(total, size);
    vstd::arithmetic::div_mod::lemma_div_pos_is_pos(total, size);
    assert(q <= size * q) by (nonlinear_arith)
        requires
            q >= 0,
            size >= 1,
    ;
    assert(total == 0 ==> q == 0) by (nonlinear_arith)
        requires
            total == size * q + r,
            0 <= r < size,
            q >= 0,
    ;
    assert(q == 0 ==> size * q == 0) by (nonlinear_arith);
}

/// The number of chunks of `size` items that `total` items are cut into.
pub fn chunk_count(total: usize, size: usize) -> (count: usize)
    requires
        size > 0,
    ensures
        count == spec_chunk_count(total as int, size as int),
{
    proof {
        lemma_chunk_count_zero(total as int, size as int);
    }
    if total % size == 0 {
        total / size
    } else {
        total / size + 1
    }
}

/// The items of chunk `index`: from the first of the pair up to the second,
/// which is not included.
pub fn chunk_bounds(index: usize, size: usize, total: usize) -> (bounds: (usize, usize))
    requires
        size > 0,
        index < spec_chunk_count(total as int, size as int),
    ensures
        bounds.0 == spec_chunk_start(index as int, size as int),
        bounds.1 == spec_chunk_end(index as int, size as int, total as int),
        bounds.0 < bounds.1 <= total,
{
    proof {
        lemma_chunks_cover(total as int, size as int, index as int);
        assert((index + 1) * size == index * size + size) by (nonlinear_arith);
    }
    let start: usize = index * size;
    let end: usize = if total - start <= size {
        total
    } else {
        start + size
    };
    (start, end)
}

/// The state of one assembly: what has been proven, and what is due.
#[derive(Debug)]
pub struct BatchAssembler {
    /// The items to prove.
    pub total: usize,
    /// The items that go to the prover together.
    pub batch_size: usize,
    /// The batches proven so far.
    pub proved_batches: usize,
    /// The first item that has not been proven.
    pub next: usize,
    /// The prover's answers, one for each batch proven.
    pub outputs: Vec<Vec<u8>>,
    /// The failure that ended the run, if one did.
    pub failure: Option<ProvingFailure>,
}

impl BatchAssembler {
    /// The state is one that `new`, `proved` and `failed` lead to.
    pub open spec fn wf(&self) -> bool {
        &&& self.batch_size > 0
        &&& self.proved_batches <= spec_chunk_count(self.total as int, self.batch_size as int)
        &&& self.next == (if self.proved_batches * self.batch_size <= self.total {
            self.proved_batches * self.batch_size
        } else {
            self.total as int
        })
        &&& (self.failure is None ==> self.outputs@.len() == self.proved_batches)
        &&& (self.failure is Some ==> self.outputs@.len() == 0)
    }

    /// The batch that is due: its first item and the item after its last.
    /// Nothing is due once every item is proven or a batch has failed.
    pub open spec fn spec_pending(&self) -> Option<(usize, usize)> {
        if self.failure is Some || self.next >= self.total {
            None
        } else {
            Some(
                (
                    self.next,
                    spec_chunk_end(
                        self.proved_batches as int,
                        self.batch_size as int,
                        self.total as int,
                    ) as usize,
                ),
            )
        }
    }

    /// An assembly of `total` items in batches of `batch_size`. A batch size
    /// of zero is a configuration error.
    pub fn new(total: usize, batch_size: usize) -> (r: Result<BatchAssembler, ConfigurationError>)
        ensures
            batch_size == 0 <==> r is Err,
            r is Err ==> r->Err_0 == ConfigurationError::ZeroBatchSize,
            r is Ok ==> {
                let a = r->Ok_0;
                &&& a.wf()
                &&& a.total == total
                &&& a.batch_size == batch_size
                &&& a.proved_batches == 0
                &&& a.next == 0
                &&& a.outputs@.len() == 0
                &&& a.failure is None
            },
    {
        if batch_size == 0 {
            return Err(ConfigurationError::ZeroBatchSize);
        }
        proof {
            lemma_chunk_count_zero(total as int, batch_size as int);
            assert(0 * batch_size == 0) by (nonlinear_arith);
        }
        Ok(
            BatchAssembler {
                total,
                batch_size,
                proved_batches: 0,
                next: 0,
                outputs: Vec::new(),
                failure: None,
            },
        )
    }

    /// While a batch is due, fewer batches are proven than there are, and the
    /// batch that is due is the chunk with the number of the batches proven.
    pub proof fn lemma_pending_is_chunk(&self)
        requires
            self.wf(),
        ensures
            self.spec_pending() is Some ==> {
                &&& self.proved_batches < spec_chunk_count(
                    self.total as int,
                    self.batch_size as int,
                )
                &&& self.spec_pending()->Some_0.0 == spec_chunk_start(
                    self.proved_batches as int,
                    self.batch_size as int,
                )
                &&& self.spec_pending()->Some_0.1 == spec_chunk_end(
                    self.proved_batches as int,
                    self.batch_size as int,
                    self.total as int,
                )
            },
            self.failure is None && self.spec_pending() is None ==> self.proved_batches
                == spec_chunk_count(self.total as int, self.batch_size as int),
    {
        let total = self.total as int;
        let size = self.batch_size as int;
        let done = self.proved_batches as int;
        let count = spec_chunk_count(total, size);
        let q = total / size;
        let r = total % size;
        vstd::arithmetic::div_mod::lemma_fundamental_div_mod(total, size);
        if self.failure is None {
            if self.next < self.total {
                assert(done * size < total);
                assert(done < count) by (nonlinear_arith)
                    requires
                        done * size < total,
                        total == size * q + r,
                        0 <= r < size,
                        count == (if r == 0 {
                            q
                        } else {
                            q + 1
                        }),
                        done >= 0,
                ;
                lemma_chunks_cover(total, size, done);
            } else {
                assert(done * size >= total);
                assert(done >= count) by (nonlinear_arith)
                    requires
                        done * size >= total,
                        total == size * q + r,
                        0 <= r < size,
                        count == (if r == 0 {
                            q
                        } else {
                            q + 1
                        }),
                        done >= 0,
                ;
            }
        }
    }

    /// The batch that is due, if one is.
    pub fn pending(&self) -> (r: Option<(usize, usize)>)
        requires
            self.wf(),
        ensures
            r == self.spec_pending(),
            r is Some ==> r->Some_0.0 < r->Some_0.1 <= self.total,
    {
        if self.failure.is_some() || self.next >= self.total {
            return None;
        }
        proof {
            self.lemma_pending_is_chunk();
            lemma_chunks_cover(
                self.total as int,
                self.batch_size as int,
                self.proved_batches as int,
            );
            assert((self.proved_batches + 1) * self.batch_size == self.proved_batches
                * self.batch_size + self.batch_size) by (nonlinear_arith);
        }
        let end: usize = if self.total - self.next <= self.batch_size {
            self.total
        } else {
            self.next + self.batch_size
        };
        Some((self.next, end))
    }

    /// Takes the prover's answer for the batch that is due. The answers are
    /// kept in the order of the batches.
    pub fn proved(&mut self, proof_bytes: Vec<u8>)
        requires
            old(self).wf(),
            old(self).spec_pending() is Some,
        ensures
            final(self).wf(),
            final(self).total == old(self).total,
            final(self).batch_size == old(self).batch_size,
            final(self).proved_batches == old(self).proved_batches + 1,
            final(self).next == old(self).spec_pending()->Some_0.1,
            final(self).outputs@ == old(self).outputs@.push(proof_bytes),
            final(self).failure is None,
    {
        proof {
            self.lemma_pending_is_chunk();
            lemma_chunk_count_zero(self.total as int, self.batch_size as int);
            lemma_chunks_cover(
                self.total as int,
                self.batch_size as int,
                self.proved_batches as int,
            );
        }
        let end: usize = if self.total - self.next <= self.batch_size {
            self.total
        } else {
            self.next + self.batch_size
        };
        self.outputs.push(proof_bytes);
        self.proved_batches = self.proved_batches + 1;
        self.next = end;
    }

    /// Takes the prover's failure for the batch that is due. The run is over:
    /// no batch is due any more, and what was proven before is dropped.
    pub fn failed(&mut self, message: String)
        requires
            old(self).wf(),
            old(self).spec_pending() is Some,
        ensures
            final(self).wf(),
            final(self).total == old(self).total,
            final(self).batch_size == old(self).batch_size,
            final(self).proved_batches == old(self).proved_batches,
            final(self).next == old(self).next,
            final(self).outputs@.len() == 0,
            final(self).failure == Some(
                ProvingFailure { batch: old(self).proved_batches, message },
            ),
            final(self).spec_pending() is None,
    {
        self.outputs = Vec::new();
        self.failure = Some(ProvingFailure { batch: self.proved_batches, message });
    }

    /// The result of the run: the answers of all batches, one after the other
    /// in batch order, once every batch is proven; the prover's failure if a
    /// batch failed; `Incomplete` while a batch is still due.
    pub fn finish(self) -> (r: Result<Vec<u8>, AssemblyError>)
        requires
            self.wf(),
        ensures
            self.failure is Some ==> r == Err::<Vec<u8>, AssemblyError>(
                AssemblyError::Proving(self.failure->Some_0),
            ),
            self.failure is None && self.next < self.total ==> r == Err::<Vec<u8>, AssemblyError>(
                AssemblyError::Incomplete { proved_items: self.next, total_items: self.total },
            ),
            self.failure is None && self.next >= self.total ==> r is Ok && r->Ok_0@ == spec_concat(
                parts_view(self.outputs@),
            ) && self.outputs@.len() == spec_chunk_count(self.total as int, self.batch_size as int),
    {
        proof {
            self.lemma_pending_is_chunk();
        }
        let BatchAssembler { total, batch_size: _, proved_batches: _, next, outputs, failure } =
            self;
        match failure {
            Some(f) => {
                return Err(AssemblyError::Proving(f));
            },
            None => {},
        }
        if next < total {
            return Err(AssemblyError::Incomplete { proved_items: next, total_items: total });
        }
        Ok(join_parts(&outputs))
    }
}

/// The parts one after the other.
pub fn join_parts(parts: &Vec<Vec<u8>>) -> (bytes: Vec<u8>)
    ensures
        bytes@ == spec_concat(parts_view(parts@)),
{
    let mut out: Vec<u8> = Vec::new();
    let mut i: usize = 0;
    assert(parts_view(parts@.take(0)) =~= Seq::<Seq<u8>>::empty());
    while i < parts.len()
        invariant
            i <= parts.len(),
            out@ == spec_concat(parts_view(parts@.take(i as int))),
        decreases parts.len() - i,
    {
        proof {
            let next = parts_view(parts@.take(i + 1));
            assert(next.drop_last() =~= parts_view(parts@.take(i as int)));
            assert(next.last() == parts@[i as int]@);
        }
        let part: &Vec<u8> = &parts[i];
        let mut j: usize = 0;
        let ghost before = out@;
        while j < part.len()
            invariant
                j <= part.len(),
                out@ == before + part@.take(j as int),
            decreases part.len() - j,
        {
            out.push(part[j]);
            assert(out@ =~= before + part@.take(j + 1));
            j = j + 1;
        }
        assert(part@.take(j as int) =~= part@);
        i = i + 1;
    }
    assert(parts@.take(i as int) =~= parts@);
    out
}

/// The prover gave the answers, in order, for the first batches of the run:
/// answer `i` is what it returned for chunk `i`.
pub open spec fn is_run<F: Fn(usize, usize) -> Result<Vec<u8>, String>>(
    prover: F,
    total: usize,
    batch_size: usize,
    answers: Seq<Vec<u8>>,
) -> bool {
    forall|i: int|
        0 <= i < answers.len() ==> call_ensures(
            prover,
            (
                spec_chunk_start(i, batch_size as int) as usize,
                spec_chunk_end(i, batch_size as int, total as int) as usize,
            ),
            Ok::<Vec<u8>, String>(#[trigger] answers[i]),
        )
}

/// Proves `total` items in batches of `batch_size` and joins the answers.
///
/// The prover is called once for each batch, with the batch's first item and
/// the item after its last, in batch order. If every call succeeds, the
/// result is the answers one after the other in batch order. The first call
/// that fails ends the run: its message is handed on unchanged, no further
/// batch is proven and no answer is handed out.
pub fn assemble_and_prove<F: Fn(usize, usize) -> Result<Vec<u8>, String>>(
    total: usize,
    batch_size: usize,
    prover: F,
) -> (r: Result<Vec<u8>, AssemblyError>)
    requires
        forall|start: usize, end: usize| start < end <= total ==> call_requires(prover, (start, end)),
    ensures
        batch_size == 0 ==> r == Err::<Vec<u8>, AssemblyError>(
            AssemblyError::Configuration(ConfigurationError::ZeroBatchSize),
        ),
        batch_size > 0 && r is Ok ==> exists|answers: Seq<Vec<u8>>|
            {
                &&& answers.len() == spec_chunk_count(total as int, batch_size as int)
                &&& is_run(prover, total, batch_size, answers)
                &&& r->Ok_0@ == spec_concat(parts_view(answers))
            },
        batch_size > 0 && r is Err ==> exists|answers: Seq<Vec<u8>>, message: String|
            {
                &&& answers.len() < spec_chunk_count(total as int, batch_size as int)
                &&& is_run(prover, total, batch_size, answers)
                &&& call_ensures(
                    prover,
                    (
                        spec_chunk_start(answers.len() as int, batch_size as int) as usize,
                        spec_chunk_end(answers.len() as int, batch_size as int, total as int) as usize,
                    ),
                    Err::<Vec<u8>, String>(message),
                )
                &&& r->Err_0 == AssemblyError::Proving(
                    ProvingFailure { batch: answers.len() as usize, message },
                )
            },
{
    let mut assembler = match BatchAssembler::new(total, batch_size) {
        Ok(assembler) => assembler,
        Err(e) => {
            return Err(AssemblyError::Configuration(e));
        },
    };
    loop
        invariant
            assembler.wf(),
            assembler.total == total,
            assembler.batch_size == batch_size,
            assembler.failure is None,
            is_run(prover, total, batch_size, assembler.outputs@),
            forall|start: usize, end: usize|
                start < end <= total ==> call_requires(prover, (start, end)),
        ensures
            assembler.wf(),
            assembler.total == total,
            assembler.batch_size == batch_size,
            assembler.failure is None,
            assembler.spec_pending() is None,
            is_run(prover, total, batch_size, assembler.outputs@),
        decreases total - assembler.next,
    {
        let (start, end) = match assembler.pending() {
            Some(bounds) => bounds,
            None => {
                break ;
            },
        };
        proof {
            assembler.lemma_pending_is_chunk();
        }
        let ghost before = assembler.outputs@;
        match prover(start, end) {
            Ok(answer) => {
                assembler.proved(answer);
                assert(is_run(prover, total, batch_size, assembler.outputs@)) by {
                    assert forall|i: int| 0 <= i < assembler.outputs@.len() implies call_ensures(
                        prover,
                        (
                            spec_chunk_start(i, batch_size as int) as usize,
                            spec_chunk_end(i, batch_size as int, total as int) as usize,
                        ),
                        Ok::<Vec<u8>, String>(#[trigger] assembler.outputs@[i]),
                    ) by {
                        if i < before.len() {
                            assert(assembler.outputs@[i] == before[i]);
                        }
                    }
                }
            },
            Err(message) => {
                assembler.failed(message);
                return assembler.finish();
            },
        }
    }
    let ghost answers = assembler.outputs@;
    let r = assembler.finish();
    assert(answers.len() == spec_chunk_count(total as int, batch_size as int));
    r
}

} // verus!
