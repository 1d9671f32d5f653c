//! The sizes of the stores that hold a replica's labels and trees while it is
//! being proven.

use vstd::prelude::*;
use merkletree::merkle::get_merkle_tree_len;
use crate::errors::ConfigurationError;
use crate::layout::TreeShape;

verus! {

/// The arity of the data tree.
pub const BINARY_ARITY: usize = 2;

/// No tree that is sized here has more leaves or a larger arity than this.
pub const MAX_TREE_LEAVES: usize = 0x8000_0000;

/// What a store is set up with: the number of nodes it holds, and how many
/// rows above the leaves are left out of it.
#[derive(Clone, Copy, Debug, PartialEq, Eq, Structural)]
pub struct StoreSize {
    pub size: usize,
    pub rows_to_discard: usize,
}

/// The stores of one replica: one label store per layer, each of `label_size`
/// nodes, and the three trees.
#[derive(Clone, Copy, Debug, PartialEq, Eq, Structural)]
pub struct TemporaryAuxLayout {
    pub num_labels: usize,
    pub label_size: usize,
    pub tree_d: StoreSize,
    pub tree_r_last: StoreSize,
    pub tree_c: StoreSize,
}

/// The number of nodes of a tree with `leafs` leaves and `branches` children
/// per node, as `get_merkle_tree_len` of the `merkletree` crate computes it;
/// `None` where it refuses the pair.
pub uninterp spec fn merkle_tree_len(leafs: usize, branches: usize) -> Option<usize>;

/// Calls `merkletree::merkle::get_merkle_tree_len`, which is a function of its
/// two arguments, and keeps the length where it gives one. Its largest
/// intermediate value is twice the number of leaves, which the bounds
/// required here keep within the platform's integers.
#[verifier::external_body]
fn tree_len(leafs: usize, branches: usize) -> (r: Option<usize>)
    requires
        leafs <= MAX_TREE_LEAVES,
        2 * leafs <= usize::MAX,
        branches <= MAX_TREE_LEAVES,
    ensures
        r == merkle_tree_len(leafs, branches),
{
    get_merkle_tree_len(leafs, branches).ok()
}

/// The number of base trees that the column tree is made of.
pub open spec fn spec_base_tree_count(shape: TreeShape) -> Result<int, ConfigurationError> {
    if shape.top_arity == 0 && shape.sub_arity == 0 {
        Ok(1)
    } else if shape.top_arity > 0 {
        if shape.sub_arity == 0 {
            Err(ConfigurationError::InvalidTreeShape)
        } else if shape.top_arity * shape.sub_arity > usize::MAX {
            Err(ConfigurationError::SizeOverflow)
        } else {
            Ok(shape.top_arity * shape.sub_arity)
        }
    } else {
        Ok(shape.sub_arity as int)
    }
}

/// The number of base trees: one where the tree has no upper levels, else
/// the product of the arities of the upper levels. A top level without a
/// level below it is no tree shape.
pub fn base_tree_count(shape: TreeShape) -> (r: Result<usize, ConfigurationError>)
    ensures
        match r {
            Ok(count) => spec_base_tree_count(shape) == Ok::<int, ConfigurationError>(count as int)
                && count > 0,
            Err(e) => spec_base_tree_count(shape) == Err::<int, ConfigurationError>(e),
        },
{
    if shape.top_arity == 0 && shape.sub_arity == 0 {
        return Ok(1);
    }
    if shape.top_arity > 0 {
        if shape.sub_arity == 0 {
            return Err(ConfigurationError::InvalidTreeShape);
        }
        assert(shape.top_arity * shape.sub_arity <= 0xffff_ffff_ffff_ffff * 0xffff_ffff_ffff_ffff)
            by (nonlinear_arith)
            requires
                0 <= shape.top_arity <= 0xffff_ffff_ffff_ffff,
                0 <= shape.sub_arity <= 0xffff_ffff_ffff_ffff,
        ;
        assert(shape.top_arity * shape.sub_arity > 0) by (nonlinear_arith)
            requires
                shape.top_arity > 0,
                shape.sub_arity > 0,
        ;
        let product: u128 = shape.top_arity as u128 * shape.sub_arity as u128;
        if product > usize::MAX as u128 {
            return Err(ConfigurationError::SizeOverflow);
        }
        Ok(product as usize)
    } else {
        Ok(shape.sub_arity)
    }
}

/// The leaves of one base tree.
pub open spec fn spec_base_tree_nodes(shape: TreeShape, sector_nodes: usize) -> Result<
    usize,
    ConfigurationError,
> {
    match spec_base_tree_count(shape) {
        Err(e) => Err(e),
        Ok(count) => Ok((sector_nodes as int / count) as usize),
    }
}

/// The leaves of one base tree: the sector's nodes shared out among the base trees.
pub fn base_tree_nodes(shape: TreeShape, sector_nodes: usize) -> (r: Result<
    usize,
    ConfigurationError,
>)
    ensures
        r == spec_base_tree_nodes(shape, sector_nodes),
        r is Ok ==> r->Ok_0 <= sector_nodes,
{
    match base_tree_count(shape) {
        Ok(count) => {
            proof {
                vstd::arithmetic::div_mod::lemma_div_is_ordered_by_denominator(
                    sector_nodes as int,
                    1,
                    count as int,
                );
                vstd::arithmetic::div_mod::lemma_div_basics(sector_nodes as int);
            }
            Ok(sector_nodes / count)
        },
        Err(e) => Err(e),
    }
}

/// What `temporary_aux_layout` answers.
pub open spec fn spec_temporary_aux_layout(
    shape: TreeShape,
    sector_nodes: usize,
    num_layers: usize,
    rows_to_discard: usize,
) -> Result<TemporaryAuxLayout, ConfigurationError> {
    let tree_nodes = spec_base_tree_nodes(shape, sector_nodes);
    if tree_nodes is Err {
        Err(tree_nodes->Err_0)
    } else if sector_nodes > MAX_TREE_LEAVES || 2 * sector_nodes > usize::MAX {
        Err(ConfigurationError::SectorTooLarge)
    } else if shape.base_arity > MAX_TREE_LEAVES || merkle_tree_len(sector_nodes, BINARY_ARITY)
        is None || merkle_tree_len(tree_nodes->Ok_0, shape.base_arity) is None {
        Err(ConfigurationError::InvalidTreeShape)
    } else {
        let tree_size = merkle_tree_len(tree_nodes->Ok_0, shape.base_arity)->Some_0;
        Ok(
            TemporaryAuxLayout {
                num_labels: num_layers,
                label_size: sector_nodes,
                tree_d: StoreSize {
                    size: merkle_tree_len(sector_nodes, BINARY_ARITY)->Some_0,
                    rows_to_discard: 0,
                },
                tree_r_last: StoreSize { size: tree_size, rows_to_discard },
                tree_c: StoreSize { size: tree_size, rows_to_discard: 0 },
            },
        )
    }
}

/// Sizes the stores of a replica: a label store of `sector_nodes` nodes for
/// each layer, the binary data tree over all nodes, and the column tree and
/// the replica tree, both over the leaves of one base tree. Only the replica
/// tree leaves rows out: `rows_to_discard` of them.
pub fn temporary_aux_layout(
    shape: TreeShape,
    sector_nodes: usize,
    num_layers: usize,
    rows_to_discard: usize,
) -> (r: Result<TemporaryAuxLayout, ConfigurationError>)
    ensures
        r == spec_temporary_aux_layout(shape, sector_nodes, num_layers, rows_to_discard),
{
    let tree_nodes: usize = match base_tree_nodes(shape, sector_nodes) {
        Ok(n) => n,
        Err(e) => {
            return Err(e);
        },
    };
    if sector_nodes > MAX_TREE_LEAVES || sector_nodes > usize::MAX / 2 {
        return Err(ConfigurationError::SectorTooLarge);
    }
    if shape.base_arity > MAX_TREE_LEAVES {
        return Err(ConfigurationError::InvalidTreeShape);
    }
    let tree_d_size: usize = match tree_len(sector_nodes, BINARY_ARITY) {
        Some(n) => n,
        None => {
            return Err(ConfigurationError::InvalidTreeShape);
        },
    };
    let tree_size: usize = match tree_len(tree_nodes, shape.base_arity) {
        Some(n) => n,
        None => {
            return Err(ConfigurationError::InvalidTreeShape);
        },
    };
    Ok(
        TemporaryAuxLayout {
            num_labels: num_layers,
            label_size: sector_nodes,
            tree_d: StoreSize { size: tree_d_size, rows_to_discard: 0 },
            tree_r_last: StoreSize { size: tree_size, rows_to_discard },
            tree_c: StoreSize { size: tree_size, rows_to_discard: 0 },
        },
    )
}

} // verus!
