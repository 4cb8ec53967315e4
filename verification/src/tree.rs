//! A sparse Merkle tree of fixed depth over field elements.
//!
//! The tree is modelled as a map from leaf index to leaf value whose domain is
//! every index below two to the power of the depth. The value of a node is
//! defined over that map alone, so the root depends on nothing but the leaves.
use crate::error::SemaphoreError;
use crate::field::{hash_pair, poseidon_pair, FieldElement};
use vstd::arithmetic::div_mod::{lemma_basic_div, lemma_div_denominator, lemma_small_div_converse};
use vstd::arithmetic::power2::{lemma2_to64, lemma_pow2_pos, lemma_pow2_unfold, pow2};
use vstd::prelude::*;

verus! {

/// The position, `height` levels above the leaves, of the node that leaf `index` lies under.
pub open spec fn ancestor(index: nat, height: nat) -> nat
    decreases height,
{
    if height == 0 {
        index
    } else {
        ancestor(index, (height - 1) as nat) / 2
    }
}

/// The position of the other child of a node's parent.
pub open spec fn sibling(position: nat) -> nat {
    if position % 2 == 0 {
        position + 1
    } else {
        (position - 1) as nat
    }
}

/// The value of the node at `position` among the nodes `height` levels above
/// the leaves: a leaf's own value, or the hash of the two children's values.
pub open spec fn node_value(leaves: Map<nat, Seq<u64>>, height: nat, position: nat) -> Seq<u64>
    decreases height,
{
    if height == 0 {
        leaves[position]
    } else {
        poseidon_pair(
            node_value(leaves, (height - 1) as nat, 2 * position),
            node_value(leaves, (height - 1) as nat, 2 * position + 1),
        )
    }
}

/// The value of a node `height` levels above leaves that all hold `empty`.
pub open spec fn blank_value(empty: Seq<u64>, height: nat) -> Seq<u64>
    decreases height,
{
    if height == 0 {
        empty
    } else {
        let below = blank_value(empty, (height - 1) as nat);
        poseidon_pair(below, below)
    }
}

/// The leaves of a tree of the given depth in which every leaf holds `empty`.
pub open spec fn blank_leaves(empty: Seq<u64>, depth: nat) -> Map<nat, Seq<u64>> {
    Map::new(|i: nat| i < pow2(depth), |i: nat| empty)
}

/// On which side of the path a sibling stands.
#[derive(Clone, Copy, Debug, PartialEq, Eq, Structural)]
pub enum Direction {
    /// The sibling is the left child; the path goes through the right one.
    Left,
    /// The sibling is the right child; the path goes through the left one.
    Right,
}

/// One level of a membership path: the sibling's value and its side.
#[derive(Clone, Copy, Debug, PartialEq, Eq)]
pub struct PathStep {
    pub sibling: FieldElement,
    pub direction: Direction,
}

/// A step as a pair of plain values.
pub open spec fn step_view(step: PathStep) -> (Seq<u64>, Direction) {
    (step.sibling@, step.direction)
}

/// The step of leaf `index`'s path at `level` levels above the leaves.
pub open spec fn path_step(leaves: Map<nat, Seq<u64>>, index: nat, level: nat) -> (
    Seq<u64>,
    Direction,
) {
    let position = ancestor(index, level);
    (
        node_value(leaves, level, sibling(position)),
        if position % 2 == 0 {
            Direction::Right
        } else {
            Direction::Left
        },
    )
}

/// The value reached by hashing `leaf` with each sibling of `path` in turn,
/// from the leaf level upwards, each sibling on its own side.
pub open spec fn path_root(leaf: Seq<u64>, path: Seq<(Seq<u64>, Direction)>) -> Seq<u64>
    decreases path.len(),
{
    if path.len() == 0 {
        leaf
    } else {
        let below = path_root(leaf, path.drop_last());
        match path.last().1 {
            Direction::Right => poseidon_pair(below, path.last().0),
            Direction::Left => poseidon_pair(path.last().0, below),
        }
    }
}

/// The authentication path of one leaf, from the leaf level to the root.
#[derive(Clone, Debug)]
pub struct MembershipPath {
    pub steps: Vec<PathStep>,
}

impl View for MembershipPath {
    type V = Seq<(Seq<u64>, Direction)>;

    open spec fn view(&self) -> Seq<(Seq<u64>, Direction)> {
        Seq::new(self.steps@.len(), |l: int| step_view(self.steps@[l]))
    }
}

impl MembershipPath {
    /// The number of levels that the path climbs.
    pub fn len(&self) -> (r: usize)
        ensures
            r == self@.len(),
    {
        self.steps.len()
    }

    /// The root that the path leads to from `leaf`.
    pub fn compute_root(&self, leaf: FieldElement) -> (r: FieldElement)
        ensures
            r@ == path_root(leaf@, self@),
    {
        let mut current = leaf;
        let mut level: usize = 0;
        while level < self.steps.len()
            invariant
                level <= self.steps@.len(),
                current@ == path_root(leaf@, self@.take(level as int)),
            decreases self.steps@.len() - level,
        {
            let step = self.steps[level];
            proof {
                let upto = self@.take(level + 1);
                assert(upto.drop_last() =~= self@.take(level as int));
                assert(upto.last() == self@[level as int]);
            }
            current = match step.direction {
                Direction::Right => hash_pair(&current, &step.sibling),
                Direction::Left => hash_pair(&step.sibling, &current),
            };
            level = level + 1;
        }
        proof {
            assert(self@.take(level as int) =~= self@);
        }
        current
    }
}

/// An ancestor's position is the index divided by two to the power of the height.
pub proof fn lemma_ancestor_is_quotient(index: nat, height: nat)
    ensures
        ancestor(index, height) == index / pow2(height),
    decreases height,
{
    if height == 0 {
        lemma2_to64();
    } else {
        let below = (height - 1) as nat;
        lemma_ancestor_is_quotient(index, below);
        lemma_pow2_pos(below);
        lemma_pow2_unfold(height);
        lemma_div_denominator(index as int, pow2(below) as int, 2);
        assert(pow2(below) * 2 == pow2(height));
    }
}

/// A leaf index is below two to the power of the depth exactly when its
/// ancestor at the root's level is the root.
pub proof fn lemma_in_range(index: nat, depth: nat)
    ensures
        ancestor(index, depth) == 0 <==> index < pow2(depth),
{
    lemma_ancestor_is_quotient(index, depth);
    lemma_pow2_pos(depth);
    if index < pow2(depth) {
        lemma_basic_div(index as int, pow2(depth) as int);
    }
    if index / pow2(depth) == 0 {
        lemma_small_div_converse(index as int, pow2(depth) as int);
    }
}

/// A node under which every leaf holds `empty` has the blank value of its height.
pub proof fn lemma_blank_node(leaves: Map<nat, Seq<u64>>, empty: Seq<u64>, height: nat, position: nat)
    requires
        forall|i: nat| ancestor(i, height) == position ==> #[trigger] leaves[i] == empty,
    ensures
        node_value(leaves, height, position) == blank_value(empty, height),
    decreases height,
{
    if height == 0 {
        assert(ancestor(position, 0) == position);
    } else {
        let below = (height - 1) as nat;
        assert forall|i: nat| ancestor(i, below) == 2 * position implies #[trigger] leaves[i]
            == empty by {
            assert(ancestor(i, height) == position);
        }
        assert forall|i: nat| ancestor(i, below) == 2 * position + 1 implies #[trigger] leaves[i]
            == empty by {
            assert(ancestor(i, height) == position);
        }
        lemma_blank_node(leaves, empty, below, 2 * position);
        lemma_blank_node(leaves, empty, below, 2 * position + 1);
    }
}

/// A part of the tree: nothing set below it, one leaf, or two parts under a cached hash.
enum Subtree {
    Blank,
    Leaf(FieldElement),
    Fork { hash: FieldElement, left: Box<Subtree>, right: Box<Subtree> },
}

impl Subtree {
    /// The part has the shape of a node `height` levels above the leaves, and
    /// every cached hash is the hash of the two values below it.
    spec fn wf(self, empty: Seq<u64>, height: nat) -> bool
        decreases height,
    {
        match self {
            Subtree::Blank => true,
            Subtree::Leaf(_) => height == 0,
            Subtree::Fork { hash, left, right } => {
                &&& height > 0
                &&& left.wf(empty, (height - 1) as nat)
                &&& right.wf(empty, (height - 1) as nat)
                &&& hash@ == poseidon_pair(
                    left.value(empty, (height - 1) as nat),
                    right.value(empty, (height - 1) as nat),
                )
            },
        }
    }

    /// The value that the part stands for.
    spec fn value(self, empty: Seq<u64>, height: nat) -> Seq<u64> {
        match self {
            Subtree::Blank => blank_value(empty, height),
            Subtree::Leaf(v) => v@,
            Subtree::Fork { hash, .. } => hash@,
        }
    }

    /// The value of leaf `index`, found by going down along its ancestors.
    spec fn lookup(self, empty: Seq<u64>, height: nat, index: nat) -> Seq<u64>
        decreases height,
    {
        match self {
            Subtree::Blank => empty,
            Subtree::Leaf(v) => v@,
            Subtree::Fork { left, right, .. } => {
                if height == 0 {
                    empty
                } else if ancestor(index, (height - 1) as nat) % 2 == 0 {
                    left.lookup(empty, (height - 1) as nat, index)
                } else {
                    right.lookup(empty, (height - 1) as nat, index)
                }
            },
        }
    }

    /// The part's value is the value of the node it stands at, over any
    /// leaves that agree with it below that node.
    proof fn lemma_value(
        self,
        empty: Seq<u64>,
        leaves: Map<nat, Seq<u64>>,
        height: nat,
        position: nat,
    )
        requires
            self.wf(empty, height),
            forall|i: nat|
                ancestor(i, height) == position ==> #[trigger] leaves[i] == self.lookup(
                    empty,
                    height,
                    i,
                ),
        ensures
            self.value(empty, height) == node_value(leaves, height, position),
        decreases height,
    {
        if height == 0 {
            assert(ancestor(position, 0) == position);
        } else {
            let below = (height - 1) as nat;
            match self {
                Subtree::Blank => {
                    lemma_blank_node(leaves, empty, height, position);
                },
                Subtree::Leaf(_) => {},
                Subtree::Fork { hash, left, right } => {
                    assert forall|i: nat| ancestor(i, below) == 2 * position implies #[trigger] leaves[i]
                        == left.lookup(empty, below, i) by {
                        assert(ancestor(i, height) == position);
                    }
                    assert forall|i: nat| ancestor(i, below) == 2 * position + 1 implies #[trigger] leaves[i]
                        == right.lookup(empty, below, i) by {
                        assert(ancestor(i, height) == position);
                    }
                    left.lemma_value(empty, leaves, below, 2 * position);
                    right.lemma_value(empty, leaves, below, 2 * position + 1);
                },
            }
        }
    }

    /// The value that the part stands for, from the cache.
    fn cached(&self, blanks: &Vec<FieldElement>, height: usize) -> (r: FieldElement)
        requires
            height < blanks@.len(),
            blanks@[height as int]@ == blank_value(blanks@[0]@, height as nat),
        ensures
            r@ == self.value(blanks@[0]@, height as nat),
    {
        match self {
            Subtree::Blank => blanks[height],
            Subtree::Leaf(v) => *v,
            Subtree::Fork { hash, .. } => *hash,
        }
    }
}

/// Whether `blanks` holds, for each height up to `height`, the blank value of that height.
spec fn blanks_ok(blanks: Seq<FieldElement>, height: nat) -> bool {
    &&& blanks.len() > height
    &&& forall|h: int| 0 <= h <= height ==> (#[trigger] blanks[h])@ == blank_value(blanks[0]@, h as nat)
}

/// The positions of the ancestors of leaf `index`, from the leaf itself up to `depth` levels above.
fn ancestors(index: usize, depth: usize) -> (r: Vec<usize>)
    requires
        depth < usize::MAX,
    ensures
        r@.len() == depth + 1,
        forall|l: int| 0 <= l <= depth ==> (#[trigger] r@[l]) == ancestor(index as nat, l as nat),
{
    let mut r: Vec<usize> = Vec::new();
    r.push(index);
    let mut current: usize = index;
    let mut level: usize = 0;
    while level < depth
        invariant
            level <= depth < usize::MAX,
            r@.len() == level + 1,
            current == ancestor(index as nat, level as nat),
            forall|l: int| 0 <= l <= level ==> (#[trigger] r@[l]) == ancestor(index as nat, l as nat),
        decreases depth - level,
    {
        current = current / 2;
        level = level + 1;
        r.push(current);
    }
    r
}

/// The part with leaf `positions[0]` set to `value` and all else as in `node`.
fn set_leaf(
    node: Subtree,
    height: usize,
    positions: &Vec<usize>,
    value: FieldElement,
    blanks: &Vec<FieldElement>,
) -> (r: Subtree)
    requires
        blanks_ok(blanks@, height as nat),
        node.wf(blanks@[0]@, height as nat),
        positions@.len() > height,
        forall|l: int|
            0 <= l <= height ==> (#[trigger] positions@[l]) == ancestor(
                positions@[0] as nat,
                l as nat,
            ),
    ensures
        r.wf(blanks@[0]@, height as nat),
        forall|j: nat|
            ancestor(j, height as nat) == ancestor(positions@[0] as nat, height as nat) ==> (
            #[trigger] r.lookup(blanks@[0]@, height as nat, j)) == (if j == positions@[0] {
                value@
            } else {
                node.lookup(blanks@[0]@, height as nat, j)
            }),
    decreases height,
{
    let ghost empty = blanks@[0]@;
    let ghost index = positions@[0] as nat;
    if height == 0 {
        return Subtree::Leaf(value);
    }
    let below: usize = height - 1;
    let (left, right) = match node {
        Subtree::Fork { hash: _, left, right } => (*left, *right),
        _ => (Subtree::Blank, Subtree::Blank),
    };
    assert(left.wf(empty, below as nat) && right.wf(empty, below as nat));
    assert(forall|j: nat|
        (#[trigger] node.lookup(empty, height as nat, j)) == (if ancestor(j, below as nat) % 2 == 0 {
            left.lookup(empty, below as nat, j)
        } else {
            right.lookup(empty, below as nat, j)
        }));
    assert(positions@[below as int] == ancestor(index, below as nat));
    assert(blanks@[below as int]@ == blank_value(empty, below as nat));
    if positions[below] % 2 == 0 {
        let new_left = set_leaf(left, below, positions, value, blanks);
        let hash = hash_pair(&new_left.cached(blanks, below), &right.cached(blanks, below));
        let r = Subtree::Fork { hash, left: Box::new(new_left), right: Box::new(right) };
        assert forall|j: nat|
            ancestor(j, height as nat) == ancestor(index, height as nat) implies (
        #[trigger] r.lookup(empty, height as nat, j)) == (if j == index {
            value@
        } else {
            node.lookup(empty, height as nat, j)
        }) by {
            let a = ancestor(j, below as nat);
            let b = ancestor(index, below as nat);
            assert(a / 2 == b / 2);
            assert(r.lookup(empty, height as nat, j) == (if a % 2 == 0 {
                new_left.lookup(empty, below as nat, j)
            } else {
                right.lookup(empty, below as nat, j)
            }));
            if a % 2 == 0 {
                assert(a == b);
            } else {
                assert(j != index);
            }
        }
        r
    } else {
        let new_right = set_leaf(right, below, positions, value, blanks);
        let hash = hash_pair(&left.cached(blanks, below), &new_right.cached(blanks, below));
        let r = Subtree::Fork { hash, left: Box::new(left), right: Box::new(new_right) };
        assert forall|j: nat|
            ancestor(j, height as nat) == ancestor(index, height as nat) implies (
        #[trigger] r.lookup(empty, height as nat, j)) == (if j == index {
            value@
        } else {
            node.lookup(empty, height as nat, j)
        }) by {
            let a = ancestor(j, below as nat);
            let b = ancestor(index, below as nat);
            assert(a / 2 == b / 2);
            assert(r.lookup(empty, height as nat, j) == (if a % 2 == 0 {
                left.lookup(empty, below as nat, j)
            } else {
                new_right.lookup(empty, below as nat, j)
            }));
            if a % 2 == 0 {
                assert(j != index);
            } else {
                assert(a == b);
            }
        }
        r
    }
}


/// The value of leaf `positions[0]`, found below `node`.
fn find_leaf(
    node: &Subtree,
    height: usize,
    positions: &Vec<usize>,
    blanks: &Vec<FieldElement>,
) -> (r: FieldElement)
    requires
        blanks_ok(blanks@, height as nat),
        node.wf(blanks@[0]@, height as nat),
        positions@.len() > height,
        forall|l: int|
            0 <= l <= height ==> (#[trigger] positions@[l]) == ancestor(
                positions@[0] as nat,
                l as nat,
            ),
    ensures
        r@ == node.lookup(blanks@[0]@, height as nat, positions@[0] as nat),
    decreases height,
{
    match node {
        Subtree::Blank => blanks[0],
        Subtree::Leaf(v) => *v,
        Subtree::Fork { hash: _, left, right } => {
            let below: usize = height - 1;
            assert(positions@[below as int] == ancestor(positions@[0] as nat, below as nat));
            if positions[below] % 2 == 0 {
                find_leaf(&**left, below, positions, blanks)
            } else {
                find_leaf(&**right, below, positions, blanks)
            }
        },
    }
}

/// Appends to `out` the steps of leaf `positions[0]`'s path below `node`, lowest level first.
fn collect_steps(
    node: &Subtree,
    height: usize,
    positions: &Vec<usize>,
    blanks: &Vec<FieldElement>,
    out: &mut Vec<PathStep>,
    Ghost(leaves): Ghost<Map<nat, Seq<u64>>>,
)
    requires
        blanks_ok(blanks@, height as nat),
        node.wf(blanks@[0]@, height as nat),
        positions@.len() > height,
        forall|l: int|
            0 <= l <= height ==> (#[trigger] positions@[l]) == ancestor(
                positions@[0] as nat,
                l as nat,
            ),
        forall|i: nat|
            ancestor(i, height as nat) == positions@[height as int] ==> #[trigger] leaves[i]
                == node.lookup(blanks@[0]@, height as nat, i),
    ensures
        final(out)@.len() == old(out)@.len() + height,
        forall|l: int| 0 <= l < old(out)@.len() ==> final(out)@[l] == old(out)@[l],
        forall|l: int|
            0 <= l < height ==> step_view(#[trigger] final(out)@[old(out)@.len() + l])
                == path_step(leaves, positions@[0] as nat, l as nat),
    decreases height,
{
    if height == 0 {
        return ;
    }
    let ghost empty = blanks@[0]@;
    let ghost index = positions@[0] as nat;
    let ghost start = out@.len();
    let below: usize = height - 1;
    let blank = Subtree::Blank;
    let (left, right) = match node {
        Subtree::Fork { hash: _, left, right } => (&**left, &**right),
        _ => (&blank, &blank),
    };
    assert(left.wf(empty, below as nat) && right.wf(empty, below as nat));
    assert(forall|j: nat|
        (#[trigger] node.lookup(empty, height as nat, j)) == (if ancestor(j, below as nat) % 2 == 0 {
            left.lookup(empty, below as nat, j)
        } else {
            right.lookup(empty, below as nat, j)
        }));
    let position: usize = positions[below];
    let ghost above = positions@[height as int] as nat;
    assert(position == ancestor(index, below as nat));
    assert(above == ancestor(index, height as nat));
    assert(above == position as nat / 2);
    assert(blanks@[below as int]@ == blank_value(empty, below as nat));
    let on_left = position % 2 == 0;
    let (child, other) = if on_left {
        (left, right)
    } else {
        (right, left)
    };
    proof {
        assert forall|i: nat| ancestor(i, below as nat) == position implies #[trigger] leaves[i]
            == child.lookup(empty, below as nat, i) by {
            assert(ancestor(i, height as nat) == above);
            let x = node.lookup(empty, height as nat, i);
        }
        assert forall|i: nat|
            ancestor(i, below as nat) == sibling(position as nat) implies #[trigger] leaves[i]
            == other.lookup(empty, below as nat, i) by {
            assert(ancestor(i, height as nat) == above);
            let x = node.lookup(empty, height as nat, i);
        }
        other.lemma_value(empty, leaves, below as nat, sibling(position as nat));
    }
    collect_steps(child, below, positions, blanks, out, Ghost(leaves));
    let step = PathStep {
        sibling: other.cached(blanks, below),
        direction: if on_left {
            Direction::Right
        } else {
            Direction::Left
        },
    };
    out.push(step);
    assert(step_view(step) == path_step(leaves, index, below as nat));
}

/// A Merkle tree of fixed depth whose unset leaves all hold one empty value.
/// Only the parts that hold a set leaf are kept; the rest is shared.
pub struct CommitmentTree {
    depth: usize,
    blanks: Vec<FieldElement>,
    top: Subtree,
}

impl View for CommitmentTree {
    type V = Map<nat, Seq<u64>>;

    /// The value of every leaf, by index.
    closed spec fn view(&self) -> Map<nat, Seq<u64>> {
        Map::new(
            |i: nat| i < pow2(self.depth as nat),
            |i: nat| self.top.lookup(self.blanks@[0]@, self.depth as nat, i),
        )
    }
}

impl CommitmentTree {
    /// The invariant of the tree: the cache agrees with the leaves.
    pub closed spec fn wf(&self) -> bool {
        &&& self.depth < usize::MAX
        &&& self.blanks@.len() == self.depth + 1
        &&& blanks_ok(self.blanks@, self.depth as nat)
        &&& self.top.wf(self.blanks@[0]@, self.depth as nat)
    }

    /// The number of levels between the leaves and the root.
    pub closed spec fn spec_depth(&self) -> nat {
        self.depth as nat
    }

    /// The value that unset leaves hold.
    pub closed spec fn spec_empty_leaf(&self) -> Seq<u64> {
        self.blanks@[0]@
    }

    /// The tree has one leaf for each index below two to the power of its depth.
    pub proof fn lemma_domain(&self)
        ensures
            forall|i: nat| self@.contains_key(i) <==> i < pow2(self.spec_depth()),
    {
    }

    /// A tree of the given depth in which every leaf holds `empty_leaf`.
    /// Takes a number of hashes equal to the depth.
    pub fn new(depth: usize, empty_leaf: FieldElement) -> (r: CommitmentTree)
        requires
            depth < usize::MAX,
        ensures
            r.wf(),
            r.spec_depth() == depth,
            r.spec_empty_leaf() == empty_leaf@,
            r@ == blank_leaves(empty_leaf@, depth as nat),
    {
        let mut blanks: Vec<FieldElement> = Vec::new();
        blanks.push(empty_leaf);
        let mut height: usize = 0;
        while height < depth
            invariant
                height <= depth < usize::MAX,
                blanks@.len() == height + 1,
                blanks@[0] == empty_leaf,
                blanks_ok(blanks@, height as nat),
            decreases depth - height,
        {
            let next = hash_pair(&blanks[height], &blanks[height]);
            blanks.push(next);
            height = height + 1;
        }
        let r = CommitmentTree { depth, blanks, top: Subtree::Blank };
        assert(r@ =~= blank_leaves(empty_leaf@, depth as nat));
        r
    }

    /// The number of levels between the leaves and the root.
    pub fn depth(&self) -> (r: usize)
        requires
            self.wf(),
        ensures
            r == self.spec_depth(),
    {
        self.depth
    }

    /// The value that unset leaves hold.
    pub fn empty_leaf(&self) -> (r: FieldElement)
        requires
            self.wf(),
        ensures
            r@ == self.spec_empty_leaf(),
    {
        self.blanks[0]
    }

    /// The root, read from the cache.
    pub fn root(&self) -> (r: FieldElement)
        requires
            self.wf(),
        ensures
            r@ == node_value(self@, self.spec_depth(), 0),
    {
        proof {
            assert forall|i: nat| ancestor(i, self.depth as nat) == 0 implies #[trigger] self@[i]
                == self.top.lookup(self.blanks@[0]@, self.depth as nat, i) by {
                lemma_in_range(i, self.depth as nat);
            }
            self.top.lemma_value(self.blanks@[0]@, self@, self.depth as nat, 0);
        }
        self.top.cached(&self.blanks, self.depth)
    }

    /// The value of leaf `index`. An index that the tree does not have is refused.
    pub fn leaf(&self, index: usize) -> (r: Result<FieldElement, SemaphoreError>)
        requires
            self.wf(),
        ensures
            r is Err <==> index >= pow2(self.spec_depth()),
            r is Err ==> r == Err::<FieldElement, SemaphoreError>(SemaphoreError::IndexOutOfRange),
            r matches Ok(value) ==> value@ == self@[index as nat],
    {
        let positions = ancestors(index, self.depth);
        proof {
            lemma_in_range(index as nat, self.depth as nat);
        }
        if positions[self.depth] != 0 {
            return Err(SemaphoreError::IndexOutOfRange);
        }
        Ok(find_leaf(&self.top, self.depth, &positions, &self.blanks))
    }

    /// Sets leaf `index` to `value` and renews the hashes between it and the
    /// root. An index that the tree does not have is refused, and the tree
    /// stays as it was.
    pub fn update(&mut self, index: usize, value: FieldElement) -> (r: Result<(), SemaphoreError>)
        requires
            old(self).wf(),
        ensures
            final(self).wf(),
            final(self).spec_depth() == old(self).spec_depth(),
            final(self).spec_empty_leaf() == old(self).spec_empty_leaf(),
            r is Err <==> index >= pow2(old(self).spec_depth()),
            r is Err ==> r == Err::<(), SemaphoreError>(SemaphoreError::IndexOutOfRange)
                && final(self)@ == old(self)@,
            r is Ok ==> final(self)@ == old(self)@.insert(index as nat, value@),
    {
        let positions = ancestors(index, self.depth);
        proof {
            lemma_in_range(index as nat, self.depth as nat);
        }
        if positions[self.depth] != 0 {
            return Err(SemaphoreError::IndexOutOfRange);
        }
        let mut top = Subtree::Blank;
        core::mem::swap(&mut self.top, &mut top);
        let ghost before = top;
        let renewed = set_leaf(top, self.depth, &positions, value, &self.blanks);
        self.top = renewed;
        proof {
            assert forall|j: nat| j < pow2(self.depth as nat) implies renewed.lookup(
                self.blanks@[0]@,
                self.depth as nat,
                j,
            ) == (if j == index as nat {
                value@
            } else {
                before.lookup(self.blanks@[0]@, self.depth as nat, j)
            }) by {
                lemma_in_range(j, self.depth as nat);
            }
            assert(self@ =~= old(self)@.insert(index as nat, value@));
        }
        Ok(())
    }

    /// The authentication path of leaf `index`: for each level from the
    /// leaves upwards, the sibling's value and the side it stands on. An
    /// index that the tree does not have is refused.
    pub fn path(&self, index: usize) -> (r: Result<MembershipPath, SemaphoreError>)
        requires
            self.wf(),
        ensures
            r is Err <==> index >= pow2(self.spec_depth()),
            r is Err ==> r == Err::<MembershipPath, SemaphoreError>(
                SemaphoreError::IndexOutOfRange,
            ),
            r matches Ok(path) ==> path@.len() == self.spec_depth() && forall|l: int|
                0 <= l < self.spec_depth() ==> #[trigger] path@[l] == path_step(
                    self@,
                    index as nat,
                    l as nat,
                ),
    {
        let positions = ancestors(index, self.depth);
        proof {
            lemma_in_range(index as nat, self.depth as nat);
        }
        if positions[self.depth] != 0 {
            return Err(SemaphoreError::IndexOutOfRange);
        }
        let mut steps: Vec<PathStep> = Vec::new();
        proof {
            assert forall|i: nat| ancestor(i, self.depth as nat) == 0 implies #[trigger] self@[i]
                == self.top.lookup(self.blanks@[0]@, self.depth as nat, i) by {
                lemma_in_range(i, self.depth as nat);
            }
        }
        collect_steps(&self.top, self.depth, &positions, &self.blanks, &mut steps, Ghost(self@));
        let path = MembershipPath { steps };
        assert forall|l: int| 0 <= l < self.depth implies #[trigger] path@[l] == path_step(
            self@,
            index as nat,
            l as nat,
        ) by {
            let x = steps@[0 + l];
        }
        Ok(path)
    }
}

} // verus!
