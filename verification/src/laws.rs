//! What holds of the tree's root and paths for all leaves, indices and values.
use crate::tree::{
    ancestor, blank_leaves, blank_value, lemma_blank_node, lemma_in_range, node_value, path_root,
    path_step, sibling, Direction,
};
use vstd::arithmetic::power2::pow2;
use vstd::prelude::*;

verus! {

/// The value of a node depends only on the leaves below it: two leaf maps
/// that agree on those leaves give the node the same value.
pub proof fn lemma_node_depends_on_leaves_below(
    first: Map<nat, Seq<u64>>,
    second: Map<nat, Seq<u64>>,
    height: nat,
    position: nat,
)
    requires
        forall|i: nat| ancestor(i, height) == position ==> #[trigger] first[i] == second[i],
    ensures
        node_value(first, height, position) == node_value(second, height, position),
    decreases height,
{
    if height == 0 {
        assert(ancestor(position, 0) == position);
    } else {
        let below = (height - 1) as nat;
        assert forall|i: nat| ancestor(i, below) == 2 * position implies #[trigger] first[i]
            == second[i] by {
            assert(ancestor(i, height) == position);
        }
        assert forall|i: nat| ancestor(i, below) == 2 * position + 1 implies #[trigger] first[i]
            == second[i] by {
            assert(ancestor(i, height) == position);
        }
        lemma_node_depends_on_leaves_below(first, second, below, 2 * position);
        lemma_node_depends_on_leaves_below(first, second, below, 2 * position + 1);
    }
}

/// Two trees of one depth whose leaves below two to the power of the depth
/// are the same have the same root, however each came to hold them.
pub proof fn lemma_root_depends_on_leaves(
    first: Map<nat, Seq<u64>>,
    second: Map<nat, Seq<u64>>,
    depth: nat,
)
    requires
        forall|i: nat| i < pow2(depth) ==> #[trigger] first[i] == second[i],
    ensures
        node_value(first, depth, 0) == node_value(second, depth, 0),
{
    assert forall|i: nat| ancestor(i, depth) == 0 implies #[trigger] first[i] == second[i] by {
        lemma_in_range(i, depth);
    }
    lemma_node_depends_on_leaves_below(first, second, depth, 0);
}

/// Setting two different leaves gives the same leaves, and so the same root,
/// whichever of the two is set first.
pub proof fn lemma_update_order(
    leaves: Map<nat, Seq<u64>>,
    depth: nat,
    i: nat,
    a: Seq<u64>,
    j: nat,
    b: Seq<u64>,
)
    requires
        i != j,
    ensures
        leaves.insert(i, a).insert(j, b) == leaves.insert(j, b).insert(i, a),
        node_value(leaves.insert(i, a).insert(j, b), depth, 0) == node_value(
            leaves.insert(j, b).insert(i, a),
            depth,
            0,
        ),
{
    assert(leaves.insert(i, a).insert(j, b) =~= leaves.insert(j, b).insert(i, a));
}

/// The leaves after a run of updates, each an index and the value set there.
pub open spec fn apply_updates(
    leaves: Map<nat, Seq<u64>>,
    updates: Seq<(nat, Seq<u64>)>,
) -> Map<nat, Seq<u64>>
    decreases updates.len(),
{
    if updates.len() == 0 {
        leaves
    } else {
        apply_updates(leaves, updates.drop_last()).insert(updates.last().0, updates.last().1)
    }
}

/// The value that the last update of `index` in a run sets, if there is one.
pub open spec fn last_write(updates: Seq<(nat, Seq<u64>)>, index: nat) -> Option<Seq<u64>>
    decreases updates.len(),
{
    if updates.len() == 0 {
        None
    } else if updates.last().0 == index {
        Some(updates.last().1)
    } else {
        last_write(updates.drop_last(), index)
    }
}

/// After a run of updates a leaf holds what the last update of it set, or,
/// where none set it, what it held before.
pub proof fn lemma_apply_reads_last_write(
    leaves: Map<nat, Seq<u64>>,
    updates: Seq<(nat, Seq<u64>)>,
    index: nat,
)
    ensures
        apply_updates(leaves, updates).contains_key(index) <==> (leaves.contains_key(index)
            || last_write(updates, index) is Some),
        apply_updates(leaves, updates)[index] == (match last_write(updates, index) {
            Some(value) => value,
            None => leaves[index],
        }),
    decreases updates.len(),
{
    if updates.len() > 0 {
        lemma_apply_reads_last_write(leaves, updates.drop_last(), index);
    }
}

/// Two runs of updates that leave every leaf with the same last value give
/// the same leaves and the same root, in whatever order each run went.
pub proof fn lemma_updates_in_any_order(
    leaves: Map<nat, Seq<u64>>,
    first: Seq<(nat, Seq<u64>)>,
    second: Seq<(nat, Seq<u64>)>,
    depth: nat,
)
    requires
        forall|i: nat| last_write(first, i) == last_write(second, i),
    ensures
        apply_updates(leaves, first) == apply_updates(leaves, second),
        node_value(apply_updates(leaves, first), depth, 0) == node_value(
            apply_updates(leaves, second),
            depth,
            0,
        ),
{
    let a = apply_updates(leaves, first);
    let b = apply_updates(leaves, second);
    assert forall|i: nat| #[trigger] a.dom().contains(i) == b.dom().contains(i) by {
        lemma_apply_reads_last_write(leaves, first, i);
        lemma_apply_reads_last_write(leaves, second, i);
    }
    assert forall|i: nat| a.dom().contains(i) implies #[trigger] a[i] == b[i] by {
        lemma_apply_reads_last_write(leaves, first, i);
        lemma_apply_reads_last_write(leaves, second, i);
    }
    assert(a =~= b);
}

/// Hashing a leaf's value with the siblings of its path, level by level and
/// each on its side, gives the value of the leaf's ancestor at the path's top.
pub proof fn lemma_path_climbs(
    leaves: Map<nat, Seq<u64>>,
    index: nat,
    path: Seq<(Seq<u64>, Direction)>,
)
    requires
        forall|l: int| 0 <= l < path.len() ==> #[trigger] path[l] == path_step(leaves, index, l as nat),
    ensures
        path_root(leaves[index], path) == node_value(
            leaves,
            path.len(),
            ancestor(index, path.len()),
        ),
    decreases path.len(),
{
    if path.len() > 0 {
        let below = (path.len() - 1) as nat;
        let shorter = path.drop_last();
        assert forall|l: int| 0 <= l < shorter.len() implies #[trigger] shorter[l] == path_step(
            leaves,
            index,
            l as nat,
        ) by {
            assert(shorter[l] == path[l]);
        }
        lemma_path_climbs(leaves, index, shorter);
        let position = ancestor(index, below);
        assert(path.last() == path_step(leaves, index, below));
        assert(ancestor(index, path.len()) == position / 2);
        if position % 2 == 0 {
            assert(2 * (position / 2) == position);
            assert(sibling(position) == 2 * (position / 2) + 1);
        } else {
            assert(2 * (position / 2) + 1 == position);
            assert(sibling(position) == 2 * (position / 2));
        }
    }
}

/// The path of a leaf leads from the leaf's value to the root.
pub proof fn lemma_path_leads_to_root(
    leaves: Map<nat, Seq<u64>>,
    depth: nat,
    index: nat,
    path: Seq<(Seq<u64>, Direction)>,
)
    requires
        index < pow2(depth),
        path.len() == depth,
        forall|l: int| 0 <= l < depth ==> #[trigger] path[l] == path_step(leaves, index, l as nat),
    ensures
        path_root(leaves[index], path) == node_value(leaves, depth, 0),
{
    lemma_path_climbs(leaves, index, path);
    lemma_in_range(index, depth);
}

/// After leaf `index` is set to `value`, its path leads from `value` to the new root.
pub proof fn lemma_updated_path_leads_to_root(
    leaves: Map<nat, Seq<u64>>,
    depth: nat,
    index: nat,
    value: Seq<u64>,
    path: Seq<(Seq<u64>, Direction)>,
)
    requires
        index < pow2(depth),
        path.len() == depth,
        forall|l: int|
            0 <= l < depth ==> #[trigger] path[l] == path_step(
                leaves.insert(index, value),
                index,
                l as nat,
            ),
    ensures
        path_root(value, path) == node_value(leaves.insert(index, value), depth, 0),
{
    lemma_path_leads_to_root(leaves.insert(index, value), depth, index, path);
}

/// Setting a leaf leaves every node that does not lie above it as it was.
pub proof fn lemma_node_off_path_unchanged(
    leaves: Map<nat, Seq<u64>>,
    index: nat,
    value: Seq<u64>,
    height: nat,
    position: nat,
)
    requires
        ancestor(index, height) != position,
    ensures
        node_value(leaves.insert(index, value), height, position) == node_value(
            leaves,
            height,
            position,
        ),
{
    assert forall|i: nat| ancestor(i, height) == position implies #[trigger] leaves.insert(
        index,
        value,
    )[i] == leaves[i] by {
        assert(i != index);
    }
    lemma_node_depends_on_leaves_below(leaves.insert(index, value), leaves, height, position);
}

/// Setting leaf `index` leaves a step of another leaf's path as it was,
/// unless the step's sibling lies above `index`.
pub proof fn lemma_step_unchanged(
    leaves: Map<nat, Seq<u64>>,
    index: nat,
    value: Seq<u64>,
    other: nat,
    level: nat,
)
    requires
        ancestor(index, level) != sibling(ancestor(other, level)),
    ensures
        path_step(leaves.insert(index, value), other, level) == path_step(leaves, other, level),
{
    lemma_node_off_path_unchanged(leaves, index, value, level, sibling(ancestor(other, level)));
}

/// The root of a tree in which every leaf holds the empty value, hashed up
/// from all its leaves, is the value that the closed form gives: the empty
/// value hashed with itself once for each level.
pub proof fn lemma_blank_root(empty: Seq<u64>, depth: nat)
    ensures
        node_value(blank_leaves(empty, depth), depth, 0) == blank_value(empty, depth),
{
    let leaves = blank_leaves(empty, depth);
    assert forall|i: nat| ancestor(i, depth) == 0 implies #[trigger] leaves[i] == empty by {
        lemma_in_range(i, depth);
    }
    lemma_blank_node(leaves, empty, depth, 0);
}

} // verus!
