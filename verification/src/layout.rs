//! The shape of the trees a replica is committed to, and the byte layout of
//! one proof record that follows from it.
//!
//! A record answers one challenge. It holds the challenge's node index and the
//! indices of its parents, an inclusion path in the binary data tree, the
//! challenge's column with its path in the column tree, the same for every
//! parent, and a path in the replica tree. All of it has a fixed length for a
//! given sector, number of layers and tree shape, so the place of a record in
//! a store follows from its position alone.

use vstd::prelude::*;
use crate::errors::ConfigurationError;

verus! {

/// Parents a node has in the base graph.
pub const DRG_PARENTS: usize = 6;

/// Parents a node has in the expander graph.
pub const EXP_PARENTS: usize = 8;

/// Parents whose columns a record carries.
pub const NUM_PARENTS: usize = 14;

/// Bytes of a tree node.
pub const NODE_BYTES: usize = 32;

/// Bytes the node indices take at the start of a record.
pub const INDEX_BYTES: usize = 120;

/// The arities of the column tree and the replica tree: `base_arity` at the
/// lower levels, then one level of `sub_arity` and one of `top_arity`, where
/// these are not zero.
#[derive(Clone, Copy, Debug, PartialEq, Eq, Structural)]
pub struct TreeShape {
    pub base_arity: usize,
    pub sub_arity: usize,
    pub top_arity: usize,
}

/// How often two divides `n`; zero for zero.
pub open spec fn spec_trailing_zeros(n: nat) -> nat
    decreases n,
{
    if n == 0 || n % 2 == 1 {
        0
    } else {
        1 + spec_trailing_zeros(n / 2)
    }
}

/// The trailing zero bits of a machine number.
pub open spec fn spec_bits(n: usize) -> int {
    spec_trailing_zeros(n as nat) as int
}

/// What is left of `n` once every factor two is taken out; zero for zero.
pub open spec fn spec_odd_part(n: nat) -> nat
    decreases n,
{
    if n == 0 || n % 2 == 1 {
        n
    } else {
        spec_odd_part(n / 2)
    }
}

/// `n` is a power of two.
pub open spec fn spec_is_pow2(n: usize) -> bool {
    spec_odd_part(n as nat) == 1
}

/// `n` is zero, or a power of two: what the arity of an optional level may be.
pub open spec fn spec_is_optional_arity(n: usize) -> bool {
    n == 0 || spec_is_pow2(n)
}

/// The arities describe trees over the sector's nodes: the sector and the
/// base arity are powers of two, the base arity is at least two, the other
/// two arities are powers of two or zero, and the index bits that the upper
/// levels leave are shared out evenly among levels of the base arity.
pub open spec fn spec_shape_fits(shape: TreeShape, sector_nodes: usize) -> bool {
    &&& spec_is_pow2(sector_nodes)
    &&& spec_is_pow2(shape.base_arity)
    &&& spec_bits(shape.base_arity) > 0
    &&& spec_is_optional_arity(shape.sub_arity)
    &&& spec_is_optional_arity(shape.top_arity)
    &&& spec_bits(shape.sub_arity) + spec_bits(shape.top_arity) <= spec_bits(sector_nodes)
    &&& (spec_bits(sector_nodes) - spec_bits(shape.sub_arity) - spec_bits(shape.top_arity))
        % spec_bits(shape.base_arity) == 0
}

/// The levels of the column tree that have the base arity.
pub open spec fn spec_base_path_len(shape: TreeShape, sector_nodes: usize) -> int {
    (spec_bits(sector_nodes) - spec_bits(shape.sub_arity) - spec_bits(shape.top_arity)) / spec_bits(
        shape.base_arity,
    )
}

/// One less, but not below zero.
pub open spec fn spec_pred(n: int) -> int {
    if n > 0 {
        n - 1
    } else {
        0
    }
}

/// The siblings along a path in the column tree or the replica tree.
pub open spec fn spec_path_siblings(shape: TreeShape, sector_nodes: usize) -> int {
    spec_base_path_len(shape, sector_nodes) * (shape.base_arity - 1) + spec_pred(
        shape.sub_arity as int,
    ) + spec_pred(shape.top_arity as int)
}

/// Bytes of a path in the data tree: the leaf and one sibling per level.
pub open spec fn spec_proof_d_bytes(sector_nodes: usize) -> int {
    32 * (1 + spec_bits(sector_nodes))
}

/// Bytes of a path in the column tree or the replica tree: the leaf and the siblings.
pub open spec fn spec_proof_r_bytes(shape: TreeShape, sector_nodes: usize) -> int {
    32 * (1 + spec_path_siblings(shape, sector_nodes))
}

/// Bytes of a column with its path: one label per layer, then the path.
pub open spec fn spec_column_bytes(shape: TreeShape, sector_nodes: usize, num_layers: usize) -> int {
    32 * num_layers + spec_proof_r_bytes(shape, sector_nodes)
}

/// Bytes of one record.
pub open spec fn spec_record_size(shape: TreeShape, sector_nodes: usize, num_layers: usize) -> int {
    INDEX_BYTES + spec_proof_d_bytes(sector_nodes) + (1 + NUM_PARENTS) * spec_column_bytes(
        shape,
        sector_nodes,
        num_layers,
    ) + spec_proof_r_bytes(shape, sector_nodes)
}

/// The sizes of the parts of a record, for one sector, number of layers and
/// tree shape.
#[derive(Clone, Copy, Debug, PartialEq, Eq, Structural)]
pub struct StoreLayout {
    pub shape: TreeShape,
    pub sector_nodes: usize,
    pub num_layers: usize,
    /// Levels of the data tree.
    pub path_d_len: usize,
    /// Levels of base arity in the column tree.
    pub base_path_len: usize,
    pub proof_d_bytes: usize,
    pub column_bytes: usize,
    pub parent_columns_bytes: usize,
    pub proof_r_bytes: usize,
    pub record_size: usize,
}

/// Why no layout exists for the parameters, if none does.
pub open spec fn spec_layout_error(shape: TreeShape, sector_nodes: usize, num_layers: usize) -> Option<
    ConfigurationError,
> {
    if sector_nodes >= 0x1_0000_0000 {
        Some(ConfigurationError::SectorTooLarge)
    } else if num_layers == 0 {
        Some(ConfigurationError::NoLayers)
    } else if !spec_shape_fits(shape, sector_nodes) {
        Some(ConfigurationError::InvalidTreeShape)
    } else if spec_record_size(shape, sector_nodes, num_layers) > usize::MAX {
        Some(ConfigurationError::SizeOverflow)
    } else {
        None
    }
}

impl StoreLayout {
    /// The layout is the one that belongs to its sector, layers and shape.
    pub open spec fn wf(&self) -> bool {
        &&& spec_layout_error(self.shape, self.sector_nodes, self.num_layers) is None
        &&& self.path_d_len == spec_bits(self.sector_nodes)
        &&& self.base_path_len == spec_base_path_len(self.shape, self.sector_nodes)
        &&& self.proof_d_bytes == spec_proof_d_bytes(self.sector_nodes)
        &&& self.column_bytes == spec_column_bytes(self.shape, self.sector_nodes, self.num_layers)
        &&& self.parent_columns_bytes == NUM_PARENTS * self.column_bytes
        &&& self.proof_r_bytes == spec_proof_r_bytes(self.shape, self.sector_nodes)
        &&& self.record_size == spec_record_size(self.shape, self.sector_nodes, self.num_layers)
        &&& self.record_size == INDEX_BYTES + self.proof_d_bytes + self.column_bytes
            + self.parent_columns_bytes + self.proof_r_bytes
    }
}

/// A number has no more trailing zeros than its value, and fewer than 32 if
/// it is below `2^32`.
proof fn lemma_trailing_zeros_bound(n: nat)
    ensures
        spec_trailing_zeros(n) <= n,
        n < 0x1_0000_0000 ==> spec_trailing_zeros(n) < 32,
    decreases n,
{
    if n != 0 && n % 2 == 0 {
        lemma_trailing_zeros_bound(n / 2);
    }
    if 0 < n < 0x1_0000_0000 {
        vstd::arithmetic::power2::lemma2_to64();
        lemma_trailing_zeros_below(n, 32);
    }
}

/// A positive number below `2^bits` has fewer than `bits` trailing zeros.
proof fn lemma_trailing_zeros_below(n: nat, bits: nat)
    requires
        0 < n < vstd::arithmetic::power2::pow2(bits),
    ensures
        spec_trailing_zeros(n) < bits,
    decreases n,
{
    vstd::arithmetic::power2::lemma2_to64();
    if bits == 0 {
        assert(vstd::arithmetic::power2::pow2(0) == 1);
    } else if n % 2 == 0 {
        vstd::arithmetic::power2::lemma_pow2_unfold(bits);
        lemma_trailing_zeros_below(n / 2, (bits - 1) as nat);
    }
}

/// How often two divides `n`, and what is left of `n` after that.
pub fn split_power_of_two(n: usize) -> (r: (usize, usize))
    ensures
        r.0 == spec_trailing_zeros(n as nat),
        r.1 == spec_odd_part(n as nat),
        r.0 <= n,
{
    let mut m: usize = n;
    let mut bits: usize = 0;
    while m != 0 && m % 2 == 0
        invariant
            bits + spec_trailing_zeros(m as nat) == spec_trailing_zeros(n as nat),
            spec_odd_part(m as nat) == spec_odd_part(n as nat),
            bits + m <= n,
        decreases m,
    {
        m = m / 2;
        bits = bits + 1;
    }
    (bits, m)
}

/// A power of two is two to the number of its trailing zeros.
pub proof fn lemma_pow2_value(n: nat)
    requires
        spec_odd_part(n) == 1,
    ensures
        n == vstd::arithmetic::power2::pow2(spec_trailing_zeros(n)),
    decreases n,
{
    vstd::arithmetic::power2::lemma2_to64();
    if n != 0 && n % 2 == 0 {
        lemma_pow2_value(n / 2);
        vstd::arithmetic::power2::lemma_pow2_unfold(spec_trailing_zeros(n));
    }
}

/// A power of two with at most 31 trailing zeros is at most `2^31`.
pub proof fn lemma_pow2_bound(n: usize)
    requires
        spec_is_pow2(n),
        spec_bits(n) <= 31,
    ensures
        1 <= n <= 0x8000_0000,
{
    lemma_pow2_value(n as nat);
    vstd::arithmetic::power2::lemma2_to64();
    if spec_bits(n) < 31 {
        vstd::arithmetic::power2::lemma_pow2_strictly_increases(
            spec_trailing_zeros(n as nat),
            31,
        );
    }
}

/// An even number that is not zero is at least two.
proof fn lemma_bits_positive(n: usize)
    requires
        spec_bits(n) > 0,
    ensures
        n >= 2,
{
}

impl StoreLayout {
    /// The layout for a sector of `sector_nodes` nodes sealed in `num_layers`
    /// layers under trees of the given shape.
    ///
    /// There is none for a sector of `2^32` nodes or more, for zero layers, for
    /// arities that describe no tree over the sector's nodes, nor where a
    /// record would be larger than the platform can address: the error says
    /// which, in this order.
    pub fn new(shape: TreeShape, sector_nodes: usize, num_layers: usize) -> (r: Result<
        StoreLayout,
        ConfigurationError,
    >)
        ensures
            match r {
                Ok(layout) => {
                    &&& spec_layout_error(shape, sector_nodes, num_layers) is None
                    &&& layout.wf()
                    &&& layout.shape == shape
                    &&& layout.sector_nodes == sector_nodes
                    &&& layout.num_layers == num_layers
                },
                Err(e) => spec_layout_error(shape, sector_nodes, num_layers) == Some(e),
            },
    {
        if sector_nodes as u64 >= 0x1_0000_0000u64 {
            return Err(ConfigurationError::SectorTooLarge);
        }
        if num_layers == 0 {
            return Err(ConfigurationError::NoLayers);
        }
        let (bits, sector_rest) = split_power_of_two(sector_nodes);
        let (base_bits, base_rest) = split_power_of_two(shape.base_arity);
        let (sub_bits, sub_rest) = split_power_of_two(shape.sub_arity);
        let (top_bits, top_rest) = split_power_of_two(shape.top_arity);
        if sector_rest != 1 || base_rest != 1 || base_bits == 0 || !(shape.sub_arity == 0
            || sub_rest == 1) || !(shape.top_arity == 0 || top_rest == 1) {
            return Err(ConfigurationError::InvalidTreeShape);
        }
        if sub_bits > bits || top_bits > bits - sub_bits || (bits - sub_bits - top_bits)
            % base_bits != 0 {
            return Err(ConfigurationError::InvalidTreeShape);
        }
        proof {
            lemma_trailing_zeros_bound(sector_nodes as nat);
            lemma_bits_positive(shape.base_arity);
        }
        let base_len: usize = (bits - sub_bits - top_bits) / base_bits;
        let base_sibs: u128 = (shape.base_arity - 1) as u128;
        let sub_sibs: u128 = if shape.sub_arity > 0 {
            (shape.sub_arity - 1) as u128
        } else {
            0
        };
        let top_sibs: u128 = if shape.top_arity > 0 {
            (shape.top_arity - 1) as u128
        } else {
            0
        };
        assert(base_len <= 31) by (nonlinear_arith)
            requires
                base_len == (bits - sub_bits - top_bits) / (base_bits as int),
                0 <= bits - sub_bits - top_bits <= 31,
                base_bits >= 1,
        ;
        assert(base_len * base_sibs <= 31 * 0xffff_ffff_ffff_ffff) by (nonlinear_arith)
            requires
                0 <= base_len <= 31,
                0 <= base_sibs <= 0xffff_ffff_ffff_ffff,
        ;
        let siblings: u128 = base_len as u128 * base_sibs + sub_sibs + top_sibs;
        let proof_r: u128 = 32 * (1 + siblings);
        let proof_d: u128 = 32 * (1 + bits as u128);
        let column: u128 = 32 * (num_layers as u128) + proof_r;
        let parent_columns: u128 = 14 * column;
        let size: u128 = 120 + proof_d + column + parent_columns + proof_r;
        assert(size == spec_record_size(shape, sector_nodes, num_layers));
        if size > usize::MAX as u128 {
            return Err(ConfigurationError::SizeOverflow);
        }
        Ok(
            StoreLayout {
                shape,
                sector_nodes,
                num_layers,
                path_d_len: bits,
                base_path_len: base_len,
                proof_d_bytes: proof_d as usize,
                column_bytes: column as usize,
                parent_columns_bytes: parent_columns as usize,
                proof_r_bytes: proof_r as usize,
                record_size: size as usize,
            },
        )
    }
}

impl StoreLayout {
    /// Whether the layout is the one that belongs to its sector, layers and
    /// shape: a layout that did not come from `new` can be checked with this.
    pub fn is_wf(&self) -> (b: bool)
        ensures
            b == self.wf(),
    {
        match StoreLayout::new(self.shape, self.sector_nodes, self.num_layers) {
            Ok(layout) => layout.path_d_len == self.path_d_len && layout.base_path_len
                == self.base_path_len && layout.proof_d_bytes == self.proof_d_bytes
                && layout.column_bytes == self.column_bytes && layout.parent_columns_bytes
                == self.parent_columns_bytes && layout.proof_r_bytes == self.proof_r_bytes
                && layout.record_size == self.record_size,
            Err(_) => false,
        }
    }
}

/// What `proof_record_size` answers.
pub open spec fn spec_proof_record_size(
    shape: TreeShape,
    sector_nodes: usize,
    num_layers: usize,
) -> Result<usize, ConfigurationError> {
    match spec_layout_error(shape, sector_nodes, num_layers) {
        Some(e) => Err(e),
        None => Ok(spec_record_size(shape, sector_nodes, num_layers) as usize),
    }
}

/// The length in bytes of a record, known without looking at any record.
pub fn proof_record_size(shape: TreeShape, sector_nodes: usize, num_layers: usize) -> (r: Result<
    usize,
    ConfigurationError,
>)
    ensures
        r == spec_proof_record_size(shape, sector_nodes, num_layers),
{
    match StoreLayout::new(shape, sector_nodes, num_layers) {
        Ok(layout) => Ok(layout.record_size),
        Err(e) => Err(e),
    }
}

/// In a layout every tree has at most 31 levels, and a level that exists has
/// an arity of at least one and at most `2^31`.
pub proof fn lemma_layout_bounds(layout: StoreLayout)
    requires
        layout.wf(),
    ensures
        layout.path_d_len <= 31,
        layout.base_path_len <= 31,
        2 <= layout.shape.base_arity,
        layout.base_path_len > 0 ==> layout.shape.base_arity <= 0x8000_0000,
        layout.shape.sub_arity <= 0x8000_0000,
        layout.shape.top_arity <= 0x8000_0000,
{
    let shape = layout.shape;
    let bits = spec_bits(layout.sector_nodes);
    let base_bits = spec_bits(shape.base_arity);
    let rest = bits - spec_bits(shape.sub_arity) - spec_bits(shape.top_arity);
    lemma_trailing_zeros_bound(layout.sector_nodes as nat);
    lemma_bits_positive(shape.base_arity);
    assert(layout.base_path_len <= 31) by (nonlinear_arith)
        requires
            layout.base_path_len == rest / base_bits,
            0 <= rest <= 31,
            base_bits >= 1,
    ;
    if layout.base_path_len > 0 {
        assert(base_bits <= rest) by (nonlinear_arith)
            requires
                rest / base_bits > 0,
                0 <= rest,
                base_bits >= 1,
        ;
        lemma_pow2_bound(shape.base_arity);
    }
    if shape.sub_arity != 0 {
        lemma_pow2_bound(shape.sub_arity);
    }
    if shape.top_arity != 0 {
        lemma_pow2_bound(shape.top_arity);
    }
}

} // verus!
