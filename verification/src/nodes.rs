//! Counting the tree nodes that a set of records refers to.
//!
//! A path refers to its leaf and to the siblings along it. Paths that answer
//! different challenges share nodes, the more the closer they get to the
//! root, and a shared node is stored once. Nodes are told apart by their
//! place: the tree, the level, and the index within the level.

use vstd::prelude::*;
use std::collections::HashSet;
use crate::layout::{lemma_layout_bounds, spec_pred, StoreLayout};
use crate::record::{indices_in_range, model_wf, models, ProofRecord, RecordModel};

verus! {

/// The data tree.
pub const TREE_D: u64 = 0;

/// The column tree.
pub const TREE_C: u64 = 1;

/// The replica tree.
pub const TREE_R: u64 = 2;

/// One number for a place in a tree.
pub open spec fn spec_node_key(tree: int, level: int, index: int) -> int {
    (tree * 64 + level) * 0x2_0000_0000 + index
}

/// Different places have different keys, as long as the level is below 64
/// and the index below `2^33`.
pub proof fn lemma_node_key_injective(
    tree1: int,
    level1: int,
    index1: int,
    tree2: int,
    level2: int,
    index2: int,
)
    requires
        0 <= level1 < 64,
        0 <= level2 < 64,
        0 <= index1 < 0x2_0000_0000,
        0 <= index2 < 0x2_0000_0000,
        spec_node_key(tree1, level1, index1) == spec_node_key(tree2, level2, index2),
    ensures
        tree1 == tree2,
        level1 == level2,
        index1 == index2,
{
    let a = tree1 * 64 + level1;
    let b = tree2 * 64 + level2;
    assert(a == b) by (nonlinear_arith)
        requires
            a * 0x2_0000_0000 + index1 == b * 0x2_0000_0000 + index2,
            0 <= index1 < 0x2_0000_0000,
            0 <= index2 < 0x2_0000_0000,
    ;
}

/// The keys of the siblings of `node` at `level`: the other children of its
/// parent, by rising index.
pub open spec fn spec_level_keys(tree: int, level: int, node: int, arity: int) -> Seq<u64> {
    Seq::new(
        spec_pred(arity) as nat,
        |j: int|
            spec_node_key(
                tree,
                level,
                (node / arity) * arity + (if j < node % arity {
                    j
                } else {
                    j + 1
                }),
            ) as u64,
    )
}

/// The node of the path from `leaf` that lies above levels of the given arities.
pub open spec fn spec_node_at(arities: Seq<usize>, leaf: int) -> int
    decreases arities.len(),
{
    if arities.len() == 0 {
        leaf
    } else {
        spec_node_at(arities.drop_last(), leaf) / (arities.last() as int)
    }
}

/// The keys of the nodes that a path from `leaf` refers to: the leaf, then
/// the siblings level by level.
pub open spec fn spec_path_keys(tree: int, arities: Seq<usize>, leaf: int) -> Seq<u64>
    decreases arities.len(),
{
    if arities.len() == 0 {
        seq![spec_node_key(tree, 0, leaf) as u64]
    } else {
        spec_path_keys(tree, arities.drop_last(), leaf) + spec_level_keys(
            tree,
            arities.len() - 1,
            spec_node_at(arities.drop_last(), leaf),
            arities.last() as int,
        )
    }
}

/// A level of the given arity, if the arity is not zero.
pub open spec fn spec_optional_level(arity: usize) -> Seq<usize> {
    if arity > 0 {
        seq![arity]
    } else {
        Seq::empty()
    }
}

/// The arities of the column tree and the replica tree, from the leaves up.
pub open spec fn spec_arities(layout: StoreLayout) -> Seq<usize> {
    Seq::new(layout.base_path_len as nat, |i: int| layout.shape.base_arity) + spec_optional_level(
        layout.shape.sub_arity,
    ) + spec_optional_level(layout.shape.top_arity)
}

/// The arities of the data tree: two at every level.
pub open spec fn spec_binary(layout: StoreLayout) -> Seq<usize> {
    Seq::new(layout.path_d_len as nat, |i: int| 2usize)
}

/// The keys of the column-tree paths of the parents, in the order of the parents.
pub open spec fn spec_parent_keys(arities: Seq<usize>, parents: Seq<u64>) -> Seq<u64>
    decreases parents.len(),
{
    if parents.len() == 0 {
        Seq::empty()
    } else {
        spec_parent_keys(arities, parents.drop_last()) + spec_path_keys(
            TREE_C as int,
            arities,
            parents.last() as int,
        )
    }
}

/// The keys of the nodes that a record refers to: the path in the data tree,
/// the paths in the column tree for the challenge and for each parent, and
/// the path in the replica tree.
pub open spec fn spec_record_keys(layout: StoreLayout, m: RecordModel) -> Seq<u64> {
    spec_path_keys(TREE_D as int, spec_binary(layout), m.challenge as int) + spec_path_keys(
        TREE_C as int,
        spec_arities(layout),
        m.challenge as int,
    ) + spec_parent_keys(spec_arities(layout), m.parents) + spec_path_keys(
        TREE_R as int,
        spec_arities(layout),
        m.challenge as int,
    )
}

/// The keys of the nodes that the records refer to, every reference counted.
pub open spec fn spec_all_keys(layout: StoreLayout, records: Seq<RecordModel>) -> Seq<u64>
    decreases records.len(),
{
    if records.len() == 0 {
        Seq::empty()
    } else {
        spec_all_keys(layout, records.drop_last()) + spec_record_keys(layout, records.last())
    }
}

/// Every arity is at least one and at most `2^31`, and there are fewer than
/// 64 levels.
pub open spec fn arities_ok(arities: Seq<usize>) -> bool {
    &&& arities.len() < 64
    &&& forall|i: int| 0 <= i < arities.len() ==> 1 <= #[trigger] arities[i] <= 0x8000_0000
}

/// The references seen so far, and the set of the nodes among them.
struct Tally {
    set: HashSet<u64>,
    total: usize,
    seen: Ghost<Seq<u64>>,
}

impl Tally {
    spec fn wf(&self) -> bool {
        &&& self.set@ == self.seen@.to_set()
        &&& self.total == self.seen@.len()
    }

    fn new() -> (t: Tally)
        ensures
            t.wf(),
            t.seen@ == Seq::<u64>::empty(),
    {
        let t = Tally { set: HashSet::new(), total: 0, seen: Ghost(Seq::empty()) };
        assert(t.seen@.to_set() =~= Set::<u64>::empty());
        t
    }

    fn note(&mut self, key: u64)
        requires
            old(self).wf(),
            old(self).seen@.len() < usize::MAX,
        ensures
            final(self).wf(),
            final(self).seen@ == old(self).seen@.push(key),
    {
        broadcast use vstd::std_specs::hash::group_hash_axioms;

        proof {
            self.seen@.lemma_push_to_set_commute(key);
        }
        self.set.insert(key);
        self.total = self.total + 1;
        self.seen = Ghost(self.seen@.push(key));
    }

    fn note_level(&mut self, tree: u64, level: u64, node: u64, arity: u64)
        requires
            old(self).wf(),
            tree <= 2,
            level < 64,
            node < 0x1_0000_0000,
            1 <= arity <= 0x8000_0000,
            old(self).seen@.len() + arity - 1 <= usize::MAX,
        ensures
            final(self).wf(),
            final(self).seen@ == old(self).seen@ + spec_level_keys(
                tree as int,
                level as int,
                node as int,
                arity as int,
            ),
    {
        let ghost keys = spec_level_keys(tree as int, level as int, node as int, arity as int);
        let parent: u64 = node / arity;
        let own: u64 = node % arity;
        proof {
            vstd::arithmetic::div_mod::lemma_fundamental_div_mod(node as int, arity as int);
            assert(parent * arity == arity * parent) by (nonlinear_arith);
        }
        let first: u64 = parent * arity;
        let base: u64 = (tree * 64 + level) * 0x2_0000_0000;
        let mut j: u64 = 0;
        assert(self.seen@ =~= old(self).seen@ + keys.take(0));
        while j < arity - 1
            invariant
                j <= arity - 1,
                self.wf(),
                keys == spec_level_keys(tree as int, level as int, node as int, arity as int),
                self.seen@ == old(self).seen@ + keys.take(j as int),
                old(self).seen@.len() + arity - 1 <= usize::MAX,
                first == (node / arity) * arity,
                own == node % arity,
                first + own == node,
                node < 0x1_0000_0000,
                1 <= arity <= 0x8000_0000,
                base == (tree * 64 + level) * 0x2_0000_0000,
                tree <= 2,
                level < 64,
            decreases arity - 1 - j,
        {
            let child: u64 = if j < own {
                j
            } else {
                j + 1
            };
            let key: u64 = base + first + child;
            assert(key == keys[j as int]);
            self.note(key);
            assert(self.seen@ =~= old(self).seen@ + keys.take(j + 1));
            j = j + 1;
        }
        assert(keys.take(j as int) =~= keys);
    }
}

/// The nodes a path over levels of the given arities refers to: the leaf, and
/// at each level every child of the parent but one.
pub open spec fn spec_path_refs(arities: Seq<usize>) -> int
    decreases arities.len(),
{
    if arities.len() == 0 {
        1
    } else {
        spec_path_refs(arities.drop_last()) + spec_pred(arities.last() as int)
    }
}

/// The nodes a record with `parents` parents refers to: one path in the data
/// tree, and in the column tree and the replica tree together one path for
/// each parent and two for the challenge.
pub open spec fn spec_record_refs(layout: StoreLayout, parents: int) -> int {
    spec_path_refs(spec_binary(layout)) + (parents + 2) * spec_path_refs(spec_arities(layout))
}

/// The nodes a well-formed record refers to.
pub open spec fn spec_refs_per_record(layout: StoreLayout) -> int {
    spec_record_refs(layout, crate::layout::NUM_PARENTS as int)
}

/// The references of all records together.
pub open spec fn spec_total_refs(layout: StoreLayout, records: Seq<RecordModel>) -> int
    decreases records.len(),
{
    if records.len() == 0 {
        0
    } else {
        spec_total_refs(layout, records.drop_last()) + spec_record_refs(
            layout,
            records.last().parents.len() as int,
        )
    }
}

/// A path has as many keys as it refers to nodes, whatever its leaf, and a
/// path over fewer levels has no more.
pub proof fn lemma_path_keys_len(tree: int, arities: Seq<usize>, leaf: int, upto: int)
    requires
        0 <= upto <= arities.len(),
    ensures
        spec_path_keys(tree, arities, leaf).len() == spec_path_refs(arities),
        1 <= spec_path_refs(arities.take(upto)) <= spec_path_refs(arities),
    decreases arities.len(),
{
    if arities.len() > 0 {
        let below = arities.drop_last();
        if upto < arities.len() {
            lemma_path_keys_len(tree, below, leaf, upto);
            assert(below.take(upto) =~= arities.take(upto));
        } else {
            lemma_path_keys_len(tree, below, leaf, upto - 1);
            assert(arities.take(upto) =~= arities);
        }
    } else {
        assert(arities.take(upto) =~= arities);
    }
}

/// The parents' paths have as many keys as there are parents times the nodes
/// of one path.
pub proof fn lemma_parent_keys_len(arities: Seq<usize>, parents: Seq<u64>, upto: int)
    requires
        0 <= upto <= parents.len(),
    ensures
        spec_parent_keys(arities, parents).len() == parents.len() * spec_path_refs(arities),
        spec_parent_keys(arities, parents.take(upto)).len() == upto * spec_path_refs(arities),
        upto * spec_path_refs(arities) <= parents.len() * spec_path_refs(arities),
    decreases parents.len(),
{
    let refs = spec_path_refs(arities);
    lemma_path_keys_len(TREE_C as int, arities, 0, 0);
    if parents.len() > 0 {
        let front = parents.drop_last();
        lemma_path_keys_len(TREE_C as int, arities, parents.last() as int, 0);
        if upto < parents.len() {
            lemma_parent_keys_len(arities, front, upto);
            assert(front.take(upto) =~= parents.take(upto));
        } else {
            lemma_parent_keys_len(arities, front, upto - 1);
            assert(parents.take(upto) =~= parents);
        }
        assert(parents.len() * refs == (parents.len() - 1) * refs + refs) by (nonlinear_arith);
    } else {
        assert(parents.take(upto) =~= parents);
        assert(0 * refs == 0) by (nonlinear_arith);
    }
    assert(upto * refs <= parents.len() * refs) by (nonlinear_arith)
        requires
            0 <= upto <= parents.len(),
            refs >= 0,
    ;
}

/// A record has as many keys as it refers to nodes.
pub proof fn lemma_record_keys_len(layout: StoreLayout, m: RecordModel)
    ensures
        spec_record_keys(layout, m).len() == spec_record_refs(layout, m.parents.len() as int),
        spec_record_refs(layout, m.parents.len() as int) >= 3,
{
    let arities = spec_arities(layout);
    let refs = spec_path_refs(arities);
    let parents = m.parents.len() as int;
    lemma_path_keys_len(TREE_D as int, spec_binary(layout), m.challenge as int, 0);
    lemma_path_keys_len(TREE_C as int, arities, m.challenge as int, 0);
    lemma_path_keys_len(TREE_R as int, arities, m.challenge as int, 0);
    lemma_parent_keys_len(arities, m.parents, 0);
    assert((parents + 2) * refs == refs + parents * refs + refs) by (nonlinear_arith);
    assert(parents * refs >= 0) by (nonlinear_arith)
        requires
            parents >= 0,
            refs >= 1,
    ;
}

/// The records have as many keys as they refer to nodes, and the first
/// records of them have no more.
pub proof fn lemma_all_keys_len(layout: StoreLayout, records: Seq<RecordModel>, upto: int)
    requires
        0 <= upto <= records.len(),
    ensures
        spec_all_keys(layout, records).len() == spec_total_refs(layout, records),
        0 <= spec_total_refs(layout, records.take(upto)) <= spec_total_refs(layout, records),
    decreases records.len(),
{
    if records.len() > 0 {
        let front = records.drop_last();
        lemma_record_keys_len(layout, records.last());
        if upto < records.len() {
            lemma_all_keys_len(layout, front, upto);
            assert(front.take(upto) =~= records.take(upto));
        } else {
            lemma_all_keys_len(layout, front, upto - 1);
            assert(records.take(upto) =~= records);
        }
    } else {
        assert(records.take(upto) =~= records);
    }
}

/// Well-formed records all refer to the same number of nodes, so together
/// they refer to that number times the number of records.
pub proof fn lemma_total_refs_wf(layout: StoreLayout, records: Seq<RecordModel>)
    requires
        forall|i: int| 0 <= i < records.len() ==> #[trigger] model_wf(layout, records[i]),
    ensures
        spec_total_refs(layout, records) == records.len() * spec_refs_per_record(layout),
    decreases records.len(),
{
    let refs = spec_refs_per_record(layout);
    if records.len() > 0 {
        let front = records.drop_last();
        assert forall|i: int| 0 <= i < front.len() implies #[trigger] model_wf(layout, front[i]) by {
            assert(front[i] == records[i]);
        }
        lemma_total_refs_wf(layout, front);
        assert(model_wf(layout, records[records.len() - 1]));
        assert(records.len() * refs == (records.len() - 1) * refs + refs) by (nonlinear_arith);
    } else {
        assert(0 * refs == 0) by (nonlinear_arith);
    }
}

impl Tally {
    fn note_path(&mut self, tree: u64, arities: &Vec<usize>, leaf: u64)
        requires
            old(self).wf(),
            tree <= 2,
            arities_ok(arities@),
            leaf < 0x1_0000_0000,
            old(self).seen@.len() + spec_path_refs(arities@) <= usize::MAX,
        ensures
            final(self).wf(),
            final(self).seen@ == old(self).seen@ + spec_path_keys(tree as int, arities@, leaf as int),
    {
        proof {
            lemma_path_keys_len(tree as int, arities@, leaf as int, 0);
        }
        let key: u64 = (tree * 64) * 0x2_0000_0000 + leaf;
        self.note(key);
        let mut node: u64 = leaf;
        let mut level: usize = 0;
        assert(arities@.take(0) =~= Seq::<usize>::empty());
        assert(self.seen@ =~= old(self).seen@ + spec_path_keys(
            tree as int,
            arities@.take(0),
            leaf as int,
        ));
        while level < arities.len()
            invariant
                level <= arities.len(),
                self.wf(),
                tree <= 2,
                arities_ok(arities@),
                leaf < 0x1_0000_0000,
                node <= leaf,
                node == spec_node_at(arities@.take(level as int), leaf as int),
                self.seen@ == old(self).seen@ + spec_path_keys(
                    tree as int,
                    arities@.take(level as int),
                    leaf as int,
                ),
                old(self).seen@.len() + spec_path_refs(arities@) <= usize::MAX,
            decreases arities.len() - level,
        {
            let arity: u64 = arities[level] as u64;
            proof {
                let below = arities@.take(level as int);
                let here = arities@.take(level + 1);
                assert(here.drop_last() =~= below);
                assert(here.last() == arities@[level as int]);
                lemma_path_keys_len(tree as int, arities@, leaf as int, level + 1);
                lemma_path_keys_len(tree as int, below, leaf as int, 0);
                lemma_path_keys_len(tree as int, here, leaf as int, 0);
                vstd::arithmetic::div_mod::lemma_div_is_ordered_by_denominator(
                    node as int,
                    1,
                    arity as int,
                );
                vstd::arithmetic::div_mod::lemma_div_basics(node as int);
            }
            self.note_level(tree, level as u64, node, arity);
            assert(self.seen@ =~= old(self).seen@ + spec_path_keys(
                tree as int,
                arities@.take(level + 1),
                leaf as int,
            ));
            node = node / arity;
            level = level + 1;
        }
        assert(arities@.take(level as int) =~= arities@);
    }
}

/// The arities of the column tree and the replica tree, from the leaves up.
pub fn level_arities(layout: &StoreLayout) -> (arities: Vec<usize>)
    requires
        layout.wf(),
    ensures
        arities@ == spec_arities(*layout),
        arities_ok(arities@),
{
    proof {
        lemma_layout_bounds(*layout);
    }
    let mut arities: Vec<usize> = Vec::new();
    let mut i: usize = 0;
    while i < layout.base_path_len
        invariant
            i <= layout.base_path_len,
            arities@ == Seq::new(i as nat, |k: int| layout.shape.base_arity),
        decreases layout.base_path_len - i,
    {
        arities.push(layout.shape.base_arity);
        assert(arities@ =~= Seq::new((i + 1) as nat, |k: int| layout.shape.base_arity));
        i = i + 1;
    }
    if layout.shape.sub_arity > 0 {
        arities.push(layout.shape.sub_arity);
    }
    if layout.shape.top_arity > 0 {
        arities.push(layout.shape.top_arity);
    }
    assert(arities@ =~= spec_arities(*layout));
    arities
}

/// The arities of the data tree: two at every level.
pub fn binary_arities(layout: &StoreLayout) -> (arities: Vec<usize>)
    requires
        layout.wf(),
    ensures
        arities@ == spec_binary(*layout),
        arities_ok(arities@),
{
    proof {
        lemma_layout_bounds(*layout);
    }
    let mut arities: Vec<usize> = Vec::new();
    let mut i: usize = 0;
    while i < layout.path_d_len
        invariant
            i <= layout.path_d_len,
            arities@ == Seq::new(i as nat, |k: int| 2usize),
        decreases layout.path_d_len - i,
    {
        arities.push(2);
        assert(arities@ =~= Seq::new((i + 1) as nat, |k: int| 2usize));
        i = i + 1;
    }
    arities
}

impl Tally {
    fn note_record(
        &mut self,
        layout: &StoreLayout,
        binary: &Vec<usize>,
        arities: &Vec<usize>,
        record: &ProofRecord,
    )
        requires
            old(self).wf(),
            layout.wf(),
            indices_in_range(*layout, record@),
            binary@ == spec_binary(*layout),
            arities@ == spec_arities(*layout),
            arities_ok(binary@),
            arities_ok(arities@),
            old(self).seen@.len() + spec_record_refs(*layout, record.parents@.len() as int)
                <= usize::MAX,
        ensures
            final(self).wf(),
            final(self).seen@ == old(self).seen@ + spec_record_keys(*layout, record@),
    {
        let ghost refs = spec_path_refs(arities@);
        let ghost start = self.seen@;
        let ghost parents = record.parents@.len() as int;
        proof {
            lemma_path_keys_len(TREE_D as int, binary@, record.challenge as int, 0);
            lemma_path_keys_len(TREE_C as int, arities@, record.challenge as int, 0);
            lemma_path_keys_len(TREE_R as int, arities@, record.challenge as int, 0);
            lemma_parent_keys_len(arities@, record.parents@, 0);
            assert((parents + 2) * refs == refs + parents * refs + refs) by (nonlinear_arith);
        }
        self.note_path(TREE_D, binary, record.challenge);
        self.note_path(TREE_C, arities, record.challenge);
        let ghost before = self.seen@;
        let mut i: usize = 0;
        assert(record.parents@.take(0) =~= Seq::<u64>::empty());
        assert(self.seen@ =~= before + spec_parent_keys(arities@, record.parents@.take(0)));
        while i < record.parents.len()
            invariant
                i <= record.parents.len(),
                self.wf(),
                layout.wf(),
                indices_in_range(*layout, record@),
                arities_ok(arities@),
                refs == spec_path_refs(arities@),
                refs >= 1,
                parents == record.parents@.len(),
                before.len() + parents * refs + refs <= usize::MAX,
                self.seen@ == before + spec_parent_keys(arities@, record.parents@.take(i as int)),
            decreases record.parents.len() - i,
        {
            proof {
                let done = record.parents@.take(i as int);
                let next = record.parents@.take(i + 1);
                assert(next.drop_last() =~= done);
                assert(next.last() == record.parents@[i as int]);
                lemma_parent_keys_len(arities@, record.parents@, i as int);
                assert(i * refs + refs <= parents * refs) by (nonlinear_arith)
                    requires
                        i + 1 <= parents,
                        refs >= 0,
                ;
                lemma_path_keys_len(TREE_C as int, arities@, 0, 0);
                assert(record@.parents[i as int] < layout.sector_nodes);
            }
            self.note_path(TREE_C, arities, record.parents[i]);
            assert(self.seen@ =~= before + spec_parent_keys(
                arities@,
                record.parents@.take(i + 1),
            ));
            i = i + 1;
        }
        assert(record.parents@.take(i as int) =~= record.parents@);
        self.note_path(TREE_R, arities, record.challenge);
        assert(self.seen@ =~= start + spec_record_keys(*layout, record@));
    }
}

/// There are never more distinct nodes than references, and exactly as many
/// where no two references point at the same node.
pub proof fn lemma_unique_at_most_total(layout: StoreLayout, records: Seq<RecordModel>)
    ensures
        spec_all_keys(layout, records).to_set().len() <= spec_all_keys(layout, records).len(),
        spec_all_keys(layout, records).no_duplicates() ==> spec_all_keys(
            layout,
            records,
        ).to_set().len() == spec_all_keys(layout, records).len(),
{
    let keys = spec_all_keys(layout, records);
    keys.lemma_cardinality_of_set();
    if keys.no_duplicates() {
        keys.unique_seq_to_set();
    }
}

/// The challenge and the parents of every record are nodes of the sector.
pub open spec fn records_in_range(layout: StoreLayout, records: Seq<ProofRecord>) -> bool {
    forall|i: int| 0 <= i < records.len() ==> indices_in_range(layout, (#[trigger] records[i])@)
}

/// Counts the nodes that the records refer to: first every reference, then
/// the distinct nodes among them, told apart by tree, level and index. Only
/// the challenge and the parents of a record matter for this.
///
/// There are never more distinct nodes than references, and exactly as many
/// where no node is referred to twice.
pub fn unique_nodes(layout: &StoreLayout, records: &[ProofRecord]) -> (counts: (usize, usize))
    requires
        layout.wf(),
        records_in_range(*layout, records@),
        spec_total_refs(*layout, models(records@)) <= usize::MAX,
    ensures
        counts.0 == spec_all_keys(*layout, models(records@)).len(),
        counts.0 == spec_total_refs(*layout, models(records@)),
        counts.1 == spec_all_keys(*layout, models(records@)).to_set().len(),
        counts.1 <= counts.0,
        spec_all_keys(*layout, models(records@)).no_duplicates() ==> counts.1 == counts.0,
{
    broadcast use vstd::std_specs::hash::group_hash_axioms;

    let ghost all = models(records@);
    proof {
        lemma_all_keys_len(*layout, all, 0);
    }
    let binary = binary_arities(layout);
    let arities = level_arities(layout);
    let mut tally = Tally::new();
    let mut i: usize = 0;
    assert(all.take(0) =~= Seq::<RecordModel>::empty());
    while i < records.len()
        invariant
            i <= records.len(),
            tally.wf(),
            layout.wf(),
            records_in_range(*layout, records@),
            all == models(records@),
            binary@ == spec_binary(*layout),
            arities@ == spec_arities(*layout),
            arities_ok(binary@),
            arities_ok(arities@),
            spec_total_refs(*layout, all) <= usize::MAX,
            tally.seen@ == spec_all_keys(*layout, all.take(i as int)),
        decreases records.len() - i,
    {
        proof {
            let next = all.take(i + 1);
            assert(next.drop_last() =~= all.take(i as int));
            assert(next.last() == records@[i as int]@);
            lemma_all_keys_len(*layout, all, i as int);
            lemma_all_keys_len(*layout, all, i + 1);
            lemma_all_keys_len(*layout, all.take(i as int), 0);
            lemma_all_keys_len(*layout, next, 0);
        }
        tally.note_record(layout, &binary, &arities, &records[i]);
        i = i + 1;
    }
    proof {
        assert(all.take(i as int) =~= all);
        lemma_unique_at_most_total(*layout, all);
    }
    (tally.total, tally.set.len())
}

/// The nodes a path over levels of the given arities refers to.
pub fn path_refs(arities: &Vec<usize>) -> (refs: u64)
    requires
        arities_ok(arities@),
    ensures
        refs == spec_path_refs(arities@),
        1 <= refs <= 1 + 64 * 0x8000_0000,
{
    let mut refs: u64 = 1;
    let mut i: usize = 0;
    assert(arities@.take(0) =~= Seq::<usize>::empty());
    while i < arities.len()
        invariant
            i <= arities.len(),
            arities_ok(arities@),
            refs == spec_path_refs(arities@.take(i as int)),
            1 <= refs <= 1 + i * 0x8000_0000,
        decreases arities.len() - i,
    {
        proof {
            let next = arities@.take(i + 1);
            assert(next.drop_last() =~= arities@.take(i as int));
            assert(next.last() == arities@[i as int]);
        }
        refs = refs + (arities[i] as u64 - 1);
        i = i + 1;
    }
    assert(arities@.take(i as int) =~= arities@);
    refs
}

/// What `checked_unique_nodes` answers: the counts, unless an index of a
/// record is no node of the sector or the references are too many to count.
pub open spec fn spec_unique_nodes(layout: StoreLayout, records: Seq<ProofRecord>) -> Option<
    (usize, usize),
> {
    if records_in_range(layout, records) && spec_total_refs(layout, models(records))
        <= usize::MAX {
        Some(
            (
                spec_all_keys(layout, models(records)).len() as usize,
                spec_all_keys(layout, models(records)).to_set().len() as usize,
            ),
        )
    } else {
        None
    }
}

/// Counts references and distinct nodes as `unique_nodes` does, after making
/// sure that the indices of every record are nodes of the sector and that the
/// references can be counted.
pub fn checked_unique_nodes(layout: &StoreLayout, records: &[ProofRecord]) -> (r: Option<
    (usize, usize),
>)
    requires
        layout.wf(),
    ensures
        r == spec_unique_nodes(*layout, records@),
{
    let ghost all = models(records@);
    let binary = binary_arities(layout);
    let arities = level_arities(layout);
    let refs_d: u64 = path_refs(&binary);
    let refs_c: u64 = path_refs(&arities);
    let mut total: u128 = 0;
    let mut i: usize = 0;
    assert(all.take(0) =~= Seq::<RecordModel>::empty());
    while i < records.len()
        invariant
            i <= records.len(),
            all == models(records@),
            refs_d == spec_path_refs(spec_binary(*layout)),
            refs_c == spec_path_refs(spec_arities(*layout)),
            1 <= refs_d <= 1 + 64 * 0x8000_0000,
            1 <= refs_c <= 1 + 64 * 0x8000_0000,
            total == spec_total_refs(*layout, all.take(i as int)),
            total <= usize::MAX,
            forall|k: int| 0 <= k < i ==> indices_in_range(*layout, (#[trigger] records@[k])@),
        decreases records.len() - i,
    {
        proof {
            let next = all.take(i + 1);
            assert(next.drop_last() =~= all.take(i as int));
            assert(next.last() == records@[i as int]@);
            lemma_all_keys_len(*layout, all, i + 1);
        }
        if !records[i].indices_fit(layout) {
            return None;
        }
        let parents: u128 = records[i].parents.len() as u128;
        assert((parents + 2) * refs_c <= 0x1_0000_0000_0000_0001 * 0x21_0000_0000)
            by (nonlinear_arith)
            requires
                0 <= parents <= 0xffff_ffff_ffff_ffff,
                1 <= refs_c <= 0x21_0000_0000,
        ;
        total = total + refs_d as u128 + (parents + 2) * refs_c as u128;
        if total > usize::MAX as u128 {
            return None;
        }
        i = i + 1;
    }
    assert(all.take(i as int) =~= all);
    let counts = unique_nodes(layout, records);
    proof {
        lemma_unique_at_most_total(*layout, all);
    }
    Some(counts)
}

} // verus!
