//! The shape of a bounding volume hierarchy: which primitives stand under
//! which node.
//!
//! A hierarchy is built top down. The primitives of a node are sorted along
//! one axis by the lower corners of their boxes and cut in two at the
//! cheapest place; each part with more than one primitive becomes a node in
//! turn. Which axis is best, and what a cut costs, depends on the boxes'
//! extents, which this module does not see: the caller hands in two
//! functions that tell them. Primitives are known here by their numbers and
//! by one sort key for each axis, and costs by keys that are ordered as the
//! costs are.

use vstd::prelude::*;
use vstd::seq_lib::lemma_multiset_commutative;

verus! {

/// One of the three axes of space.
#[derive(Clone, Copy, Debug, PartialEq, Eq, Structural)]
pub enum Axis {
    X,
    Y,
    Z,
}

impl Axis {
    /// Place of the axis in a triple of coordinates.
    pub open spec fn place(self) -> int {
        match self {
            Axis::X => 0,
            Axis::Y => 1,
            Axis::Z => 2,
        }
    }

    /// Place of the axis in a triple of coordinates.
    pub fn index(&self) -> (i: usize)
        ensures
            i == self.place(),
    {
        match self {
            Axis::X => 0,
            Axis::Y => 1,
            Axis::Z => 2,
        }
    }
}

/// The sort keys of the primitives: for each primitive, by its number, one
/// key for each axis. A primitive with a smaller key lies further towards
/// the low end of that axis.
pub type Keys = Seq<[i64; 3]>;

/// The key of the primitive `item` along `axis`.
pub open spec fn key_of(keys: Keys, item: usize, axis: Axis) -> i64 {
    keys[item as int]@[axis.place()]
}

/// Whether every primitive of `items` has its keys in `keys`.
pub open spec fn all_known(items: Seq<usize>, keys: Keys) -> bool {
    forall|i: int| 0 <= i < items.len() ==> #[trigger] items[i] < keys.len()
}

/// Whether `items` stands in ascending order of the keys along `axis`.
pub open spec fn sorted_along(items: Seq<usize>, keys: Keys, axis: Axis) -> bool {
    forall|a: int, b: int|
        0 <= a <= b < items.len() ==> key_of(keys, #[trigger] items[a], axis) <= key_of(
            keys,
            #[trigger] items[b],
            axis,
        )
}

/// Whether `sorted` is `items` sorted by the keys along `axis`: it holds
/// what `items` holds, in ascending order of the keys, and, where no
/// primitive stands in `items` twice, primitives with equal keys in the
/// order that they have in `items`.
pub open spec fn is_sorted_from(sorted: Seq<usize>, items: Seq<usize>, keys: Keys, axis: Axis) -> bool {
    &&& sorted.to_multiset() == items.to_multiset()
    &&& sorted_along(sorted, keys, axis)
    &&& items.no_duplicates() ==> forall|a: int, b: int|
        0 <= a < b < sorted.len() && key_of(keys, #[trigger] sorted[a], axis) == key_of(
            keys,
            #[trigger] sorted[b],
            axis,
        ) ==> items.index_of(sorted[a]) < items.index_of(sorted[b])
}

/// Whether, along `axis`, no primitive of `left` has a larger key than one
/// of `right`.
pub open spec fn separates(left: Seq<usize>, right: Seq<usize>, keys: Keys, axis: Axis) -> bool {
    forall|a: int, b: int|
        0 <= a < left.len() && 0 <= b < right.len() ==> key_of(keys, #[trigger] left[a], axis)
            <= key_of(keys, #[trigger] right[b], axis)
}

/// The place after which a sorted list of `len` primitives is cut when
/// `choice` was chosen: `choice` itself, or the last place that leaves a
/// primitive on the right if `choice` lies beyond it.
pub open spec fn cut_place(len: int, choice: int) -> int {
    if choice > len - 2 {
        len - 2
    } else {
        choice
    }
}

/// A hierarchy over primitives that are known by their numbers.
#[derive(Debug)]
pub enum BvhTree {
    /// A primitive.
    Leaf(usize),
    /// Nothing: the second child of a node over a single primitive.
    Dummy,
    /// A node with its left and right child.
    Node(Box<BvhTree>, Box<BvhTree>),
}

impl BvhTree {
    /// The primitives of the hierarchy, from left to right.
    pub open spec fn leaves(self) -> Seq<usize>
        decreases self,
    {
        match self {
            BvhTree::Leaf(item) => seq![item],
            BvhTree::Dummy => Seq::empty(),
            BvhTree::Node(left, right) => left.leaves() + right.leaves(),
        }
    }

    /// Whether the hierarchy holds no `Dummy`, so that every node has
    /// primitives under both children.
    pub open spec fn full(self) -> bool
        decreases self,
    {
        match self {
            BvhTree::Leaf(_) => true,
            BvhTree::Dummy => false,
            BvhTree::Node(left, right) => left.full() && right.full(),
        }
    }

    /// Whether at every node there is an axis along which no primitive
    /// under the left child has a larger key than one under the right
    /// child.
    pub open spec fn split_in_order(self, keys: Keys) -> bool
        decreases self,
    {
        match self {
            BvhTree::Node(left, right) => {
                &&& left.split_in_order(keys)
                &&& right.split_in_order(keys)
                &&& exists|axis: Axis| #[trigger]
                    separates(left.leaves(), right.leaves(), keys, axis)
            },
            _ => true,
        }
    }

    /// Whether the hierarchy is the one over the two or more primitives
    /// `items` that the answers of `choose_axis` and `cut_costs` lead to:
    /// `items` sorted along an axis that `choose_axis` answered for them,
    /// and cut behind the cheapest place by costs that `cut_costs`
    /// answered for the sorted list, with each part under one child.
    pub open spec fn built<A, C>(
        self,
        items: Seq<usize>,
        keys: Keys,
        choose_axis: &A,
        cut_costs: &C,
    ) -> bool where A: Fn(&Vec<usize>) -> Axis, C: Fn(&Vec<usize>) -> Vec<i64>
        decreases self, 0int,
    {
        match self {
            BvhTree::Node(left, right) => exists|
                given: Vec<usize>,
                axis: Axis,
                sorted: Vec<usize>,
                costs: Vec<i64>,
                place: int,
            |
                #![trigger
                    call_ensures(choose_axis, (&given,), axis),
                    call_ensures(cut_costs, (&sorted,), costs),
                    is_cheapest(costs@, place),
                ]
                {
                    let at = cut_place(items.len() as int, place) + 1;
                    &&& items.len() >= 2
                    &&& given@ == items
                    &&& call_ensures(choose_axis, (&given,), axis)
                    &&& is_sorted_from(sorted@, items, keys, axis)
                    &&& call_ensures(cut_costs, (&sorted,), costs)
                    &&& is_cheapest(costs@, place)
                    &&& left.built_over(sorted@.subrange(0, at), keys, choose_axis, cut_costs)
                    &&& right.built_over(
                        sorted@.subrange(at, items.len() as int),
                        keys,
                        choose_axis,
                        cut_costs,
                    )
                },
            _ => false,
        }
    }

    /// Whether the hierarchy is the child over the primitives `part`: a
    /// leaf for a single one, else the hierarchy built over them.
    pub open spec fn built_over<A, C>(
        self,
        part: Seq<usize>,
        keys: Keys,
        choose_axis: &A,
        cut_costs: &C,
    ) -> bool where A: Fn(&Vec<usize>) -> Axis, C: Fn(&Vec<usize>) -> Vec<i64>
        decreases self, 1int,
    {
        if part.len() == 1 {
            self == BvhTree::Leaf(part[0])
        } else {
            self.built(part, keys, choose_axis, cut_costs)
        }
    }

    /// Appends the primitives of the hierarchy, from left to right.
    pub fn collect_leaves(&self, out: &mut Vec<usize>)
        ensures
            final(out)@ == old(out)@ + self.leaves(),
        decreases self,
    {
        match self {
            BvhTree::Leaf(item) => {
                out.push(*item);
                assert(out@ =~= old(out)@ + self.leaves());
            },
            BvhTree::Dummy => {
                assert(out@ =~= old(out)@ + self.leaves());
            },
            BvhTree::Node(left, right) => {
                left.collect_leaves(out);
                right.collect_leaves(out);
                assert(out@ =~= old(out)@ + self.leaves());
            },
        }
    }
}

/// Sorts `items` by their keys along `axis`, by `<[T]>::sort_by_key`.
///
/// Believed of that function, not proved: it rearranges the slice into
/// ascending order of the keys, and is stable, that is, items with equal
/// keys keep their order.
#[verifier::external_body]
fn sort_by_key(items: &mut Vec<usize>, keys: &Vec<[i64; 3]>, axis: Axis)
    requires
        all_known(old(items)@, keys@),
    ensures
        is_sorted_from(final(items)@, old(items)@, keys@, axis),
{
    let column = axis.index();
    items.sort_by_key(|item| keys[*item][column]);
}

/// A rearranged list of known primitives holds known primitives only.
proof fn lemma_rearranged_all_known(before: Seq<usize>, after: Seq<usize>, keys: Keys)
    requires
        all_known(before, keys),
        after.to_multiset() == before.to_multiset(),
    ensures
        all_known(after, keys),
        after.len() == before.len(),
{
    before.to_multiset_ensures();
    after.to_multiset_ensures();
    assert forall|i: int| 0 <= i < after.len() implies #[trigger] after[i] < keys.len() by {
        assert(after.contains(after[i]));
        assert(before.to_multiset().count(after[i]) > 0);
        assert(before.contains(after[i]));
    }
}

/// Where a sorted list is cut in two, and each part is rearranged, the
/// left part still holds no larger key than the right part.
proof fn lemma_cut_separates(
    sorted: Seq<usize>,
    at: int,
    left: Seq<usize>,
    right: Seq<usize>,
    keys: Keys,
    axis: Axis,
)
    requires
        0 <= at <= sorted.len(),
        sorted_along(sorted, keys, axis),
        left.to_multiset() == sorted.subrange(0, at).to_multiset(),
        right.to_multiset() == sorted.subrange(at, sorted.len() as int).to_multiset(),
    ensures
        separates(left, right, keys, axis),
{
    let low = sorted.subrange(0, at);
    let high = sorted.subrange(at, sorted.len() as int);
    low.to_multiset_ensures();
    high.to_multiset_ensures();
    left.to_multiset_ensures();
    right.to_multiset_ensures();
    assert forall|a: int, b: int| 0 <= a < left.len() && 0 <= b < right.len() implies key_of(
        keys,
        #[trigger] left[a],
        axis,
    ) <= key_of(keys, #[trigger] right[b], axis) by {
        assert(left.contains(left[a]));
        assert(low.to_multiset().count(left[a]) > 0);
        assert(low.contains(left[a]));
        let i = choose|i: int| 0 <= i < low.len() && low[i] == left[a];
        assert(right.contains(right[b]));
        assert(high.to_multiset().count(right[b]) > 0);
        assert(high.contains(right[b]));
        let j = choose|j: int| 0 <= j < high.len() && high[j] == right[b];
        assert(sorted[i] == left[a]);
        assert(sorted[at + j] == right[b]);
    }
}

/// Whether `place` is where the smallest of `costs` stands first; for no
/// costs at all, whether it is 0.
pub open spec fn is_cheapest(costs: Seq<i64>, place: int) -> bool {
    if costs.len() == 0 {
        place == 0
    } else {
        &&& 0 <= place < costs.len()
        &&& forall|i: int| 0 <= i < costs.len() ==> costs[place] <= #[trigger] costs[i]
        &&& forall|i: int| 0 <= i < place ==> costs[place] < #[trigger] costs[i]
    }
}

/// The place of the smallest cost; of equal costs, the first.
pub fn cheapest(costs: &Vec<i64>) -> (place: usize)
    ensures
        is_cheapest(costs@, place as int),
{
    if costs.len() == 0 {
        return 0;
    }
    let mut place: usize = 0;
    let mut i: usize = 1;
    while i < costs.len()
        invariant
            1 <= i <= costs.len(),
            is_cheapest(costs@.subrange(0, i as int), place as int),
        decreases costs.len() - i,
    {
        if costs[i] < costs[place] {
            place = i;
        }
        i += 1;
    }
    assert(costs@.subrange(0, costs.len() as int) =~= costs@);
    place
}

/// Cuts the sorted list `items` in two behind the place that `choice`
/// stands for: the left part runs up to and with that place, the right part
/// holds the rest. Neither part is empty.
pub fn cut(items: Vec<usize>, choice: usize) -> (parts: (Vec<usize>, Vec<usize>))
    requires
        items.len() >= 2,
    ensures
        parts.0@ == items@.subrange(0, cut_place(items.len() as int, choice as int) + 1),
        parts.1@ == items@.subrange(
            cut_place(items.len() as int, choice as int) + 1,
            items.len() as int,
        ),
        parts.0.len() >= 1,
        parts.1.len() >= 1,
{
    let mut left = items;
    let n = left.len();
    let at = if choice > n - 2 {
        n - 2
    } else {
        choice
    };
    let right = left.split_off(at + 1);
    (left, right)
}

/// The hierarchy over the two or more primitives `items`.
fn build_node<A, C>(items: Vec<usize>, keys: &Vec<[i64; 3]>, choose_axis: &A, cut_costs: &C) -> (tree:
    BvhTree) where A: Fn(&Vec<usize>) -> Axis, C: Fn(&Vec<usize>) -> Vec<i64>
    requires
        items.len() >= 2,
        all_known(items@, keys@),
        forall|v: &Vec<usize>|
            v.len() >= 2 && all_known(v@, keys@) ==> call_requires(choose_axis, (v,)),
        forall|v: &Vec<usize>|
            v.len() >= 2 && all_known(v@, keys@) ==> call_requires(cut_costs, (v,)),
    ensures
        tree.built(items@, keys@, choose_axis, cut_costs),
        tree.full(),
        tree.leaves().to_multiset() == items@.to_multiset(),
        tree.split_in_order(keys@),
    decreases items.len(),
{
    let mut sorted = items;
    let axis = choose_axis(&sorted);
    sort_by_key(&mut sorted, keys, axis);
    proof {
        lemma_rearranged_all_known(items@, sorted@, keys@);
    }
    let ghost arranged = sorted;
    let costs = cut_costs(&sorted);
    let choice = cheapest(&costs);
    let ghost at = cut_place(sorted.len() as int, choice as int) + 1;
    let (left_items, right_items) = cut(sorted, choice);
    proof {
        assert(arranged@ =~= left_items@ + right_items@);
        lemma_multiset_commutative(left_items@, right_items@);
    }
    let ghost low = left_items@;
    let ghost high = right_items@;
    let left = if left_items.len() == 1 {
        assert(left_items@ =~= seq![left_items@[0]]);
        BvhTree::Leaf(left_items[0])
    } else {
        build_node(left_items, keys, choose_axis, cut_costs)
    };
    assert(left.full() && left.split_in_order(keys@) && left.leaves().to_multiset()
        == low.to_multiset() && left.built_over(low, keys@, choose_axis, cut_costs));
    let right = if right_items.len() == 1 {
        assert(right_items@ =~= seq![right_items@[0]]);
        BvhTree::Leaf(right_items[0])
    } else {
        build_node(right_items, keys, choose_axis, cut_costs)
    };
    assert(right.full() && right.split_in_order(keys@) && right.leaves().to_multiset()
        == high.to_multiset() && right.built_over(high, keys@, choose_axis, cut_costs));
    let tree = BvhTree::Node(Box::new(left), Box::new(right));
    proof {
        lemma_multiset_commutative(left.leaves(), right.leaves());
        lemma_cut_separates(arranged@, at, left.leaves(), right.leaves(), keys@, axis);
        assert(tree.leaves() == left.leaves() + right.leaves());
        assert(tree.full());
        assert(tree.split_in_order(keys@));
        assert(call_ensures(choose_axis, (&items,), axis));
        assert(call_ensures(cut_costs, (&arranged,), costs));
        assert(is_cheapest(costs@, choice as int));
        assert(tree.built(items@, keys@, choose_axis, cut_costs));
    }
    tree
}

impl BvhTree {
    /// Builds the hierarchy over the primitives `items`.
    ///
    /// A single primitive gives a node with the primitive on the left and
    /// `Dummy` on the right. Two or more are sorted by their keys along the
    /// axis that `choose_axis` picks for them. `cut_costs` then tells, for
    /// each place of the sorted list but the last, what it costs to cut
    /// the list behind it, and the list is cut behind the cheapest place
    /// (see `cheapest` and `cut`). A part of one primitive becomes a leaf, a
    /// longer part a node built in the same way.
    ///
    /// Whatever the two functions answer, the hierarchy holds the primitives
    /// of `items`, each as often as `items` does, and at each node the keys
    /// along one axis part the left child from the right.
    pub fn build<A, C>(
        items: Vec<usize>,
        keys: &Vec<[i64; 3]>,
        choose_axis: &A,
        cut_costs: &C,
    ) -> (tree: BvhTree) where A: Fn(&Vec<usize>) -> Axis, C: Fn(&Vec<usize>) -> Vec<i64>
        requires
            items.len() >= 1,
            all_known(items@, keys@),
            forall|v: &Vec<usize>|
                v.len() >= 2 && all_known(v@, keys@) ==> call_requires(choose_axis, (v,)),
            forall|v: &Vec<usize>|
                v.len() >= 2 && all_known(v@, keys@) ==> call_requires(cut_costs, (v,)),
        ensures
            items.len() == 1 ==> tree == BvhTree::Node(
                Box::new(BvhTree::Leaf(items@[0])),
                Box::new(BvhTree::Dummy),
            ),
            items.len() >= 2 ==> tree.built(items@, keys@, choose_axis, cut_costs),
            items.len() >= 2 ==> tree.full(),
            tree is Node,
            tree.leaves().to_multiset() == items@.to_multiset(),
            tree.split_in_order(keys@),
    {
        if items.len() == 1 {
            let tree = BvhTree::Node(
                Box::new(BvhTree::Leaf(items[0])),
                Box::new(BvhTree::Dummy),
            );
            proof {
                reveal_with_fuel(BvhTree::leaves, 2);
                reveal_with_fuel(BvhTree::split_in_order, 2);
                assert(tree.leaves() =~= items@);
                assert(separates(
                    BvhTree::Leaf(items@[0]).leaves(),
                    BvhTree::Dummy.leaves(),
                    keys@,
                    Axis::X,
                ));
            }
            tree
        } else {
            build_node(items, keys, choose_axis, cut_costs)
        }
    }
}

} // verus!
