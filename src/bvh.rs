use vstd::prelude::*;

use crate::geometry::{add3, diff_of, seed_box, sum_of, union_all, union_from, AABB};

verus! {

/// The index of the first largest component of a vector.
pub uninterp spec fn widest_axis(v: nalgebra_glm::Vec3) -> nat;

/// How two vectors compare along one axis, in the total order of their
/// components.
pub uninterp spec fn component_order(
    a: nalgebra_glm::Vec3,
    b: nalgebra_glm::Vec3,
    axis: nat,
) -> core::cmp::Ordering;

/// Relies on nalgebra's `Matrix::imax`: the index of the first largest
/// component, which is below the three rows of the vector.
#[verifier::external_body]
fn largest_axis(v: &nalgebra_glm::Vec3) -> (r: usize)
    ensures
        r == widest_axis(*v),
        r < 3,
{
    v.imax()
}

/// Relies on `f32::total_cmp` of the components along `axis`: a total order on
/// all values, NaN included.
#[verifier::external_body]
fn compare_component(a: &nalgebra_glm::Vec3, b: &nalgebra_glm::Vec3, axis: usize) -> (r:
    core::cmp::Ordering)
    requires
        axis < 3,
    ensures
        r == component_order(*a, *b, axis as nat),
{
    a[axis].total_cmp(&b[axis])
}

/// Orders two boxes by their midpoints along `axis` (by the sum of their
/// corners, which orders as the midpoint does).
pub fn mid_order(a: &AABB, b: &AABB, axis: usize) -> (r: core::cmp::Ordering)
    requires
        axis < 3,
    ensures
        r == component_order(sum_of(a.min, a.max), sum_of(b.min, b.max), axis as nat),
{
    let ma = add3(&a.min, &a.max);
    let mb = add3(&b.min, &b.max);
    compare_component(&ma, &mb, axis)
}

/// How two boxes compare by their midpoints along `axis`.
pub open spec fn mid_key_order(a: AABB, b: AABB, axis: nat) -> core::cmp::Ordering {
    component_order(sum_of(a.min, a.max), sum_of(b.min, b.max), axis)
}

/// The items are in non-decreasing order of their box midpoints along `axis`.
pub open spec fn sorted_along<P>(s: Seq<(P, AABB)>, axis: nat) -> bool {
    forall|i: int, j: int|
        0 <= i < j < s.len() ==> #[trigger] mid_key_order(s[i].1, s[j].1, axis)
            != core::cmp::Ordering::Greater
}

/// The order in which the sort below leaves items, keyed by their box
/// midpoints along `axis`.
pub uninterp spec fn mid_sorted(items: Seq<(usize, AABB)>, axis: nat) -> Seq<(usize, AABB)>;

/// Relies on `slice::sort_unstable_by`: it reorders the items by the
/// midpoints of their boxes along `axis`, keeping every item, and the order
/// it leaves depends on the items and the comparison alone. The comparison
/// is a total order, so the sort does not panic and leaves no pair of items
/// out of order.
#[verifier::external_body]
fn sort_by_mid(items: &mut Vec<(usize, AABB)>, axis: usize)
    requires
        axis < 3,
    ensures
        final(items)@ == mid_sorted(old(items)@, axis as nat),
        final(items)@.to_multiset() == old(items)@.to_multiset(),
        sorted_along(final(items)@, axis as nat),
{
    items.sort_unstable_by(|a, b| mid_order(&a.1, &b.1, axis))
}

/// A node of a bounding-volume hierarchy: a leaf holds one item and its box;
/// an interior node holds up to two subtrees and the box around all of them.
pub struct BvhTree<P> {
    pub left: Option<Box<BvhTree<P>>>,
    pub right: Option<Box<BvhTree<P>>>,
    pub aabb: AABB,
    pub data: Option<P>,
}

/// A bounding-volume hierarchy over items of type `P`.
pub struct Bvh<P> {
    pub tree: Box<BvhTree<P>>,
}

/// A list of items tested one by one, in order.
pub struct Vector<P> {
    pub list: Vec<P>,
}

/// The boxes of a sequence of items with their boxes.
pub open spec fn boxes_of<P>(s: Seq<(P, AABB)>) -> Seq<AABB> {
    s.map_values(|x: (P, AABB)| x.1)
}

/// The items held by the leaves of a tree, each with the box of its leaf:
/// those of the left subtree, then those of the right one, then the node's own.
pub open spec fn leaves<P>(t: BvhTree<P>) -> Seq<(P, AABB)>
    decreases t,
{
    let l = match t.left {
        Some(b) => leaves(*b),
        None => Seq::empty(),
    };
    let r = match t.right {
        Some(b) => leaves(*b),
        None => Seq::empty(),
    };
    let d = match t.data {
        Some(p) => seq![(p, t.aabb)],
        None => Seq::empty(),
    };
    l + r + d
}

/// The shape of a tree built over `n` items: one item makes a leaf; more make
/// an interior node with a left subtree over `n / 2` items and a right one
/// over the rest; none makes an empty node.
pub open spec fn has_shape<P>(t: BvhTree<P>, n: nat) -> bool
    decreases n,
{
    if n == 0 {
        t.left is None && t.right is None && t.data is None
    } else if n == 1 {
        t.left is None && t.right is None && t.data is Some
    } else {
        t.data is None && match (t.left, t.right) {
            (Some(l), Some(r)) => has_shape(*l, n / 2) && has_shape(*r, (n - n / 2) as nat),
            _ => false,
        }
    }
}

/// The root box of a tree built over `items`: the union of their boxes in
/// the given order.
pub open spec fn root_box<P>(items: Seq<(P, AABB)>) -> AABB {
    union_all(boxes_of(items))
}

/// The axis along which a build over `items` sorts them: the first one on
/// which the union of their boxes is widest.
pub open spec fn split_axis<P>(items: Seq<(P, AABB)>) -> nat {
    let u = root_box(items);
    widest_axis(diff_of(u.max, u.min))
}

/// `t` is the tree that a build makes over `items`, node by node. No item
/// makes an empty node with the degenerate box; one makes a leaf holding it
/// with its box. More make an interior node whose box is the union of all
/// their boxes and whose subtrees are built, in the same way, over the first
/// `n / 2` and over the rest of the items once sorted by box midpoint along
/// the split axis.
pub open spec fn built_over<P>(t: BvhTree<P>, items: Seq<(P, AABB)>) -> bool
    decreases t,
{
    let n = items.len();
    if n == 0 {
        t.left is None && t.right is None && t.data is None && t.aabb == seed_box()
    } else if n == 1 {
        t.left is None && t.right is None && t.data == Some(items[0].0) && t.aabb == items[0].1
    } else {
        t.data is None && t.aabb == root_box(items) && match (t.left, t.right) {
            (Some(l), Some(r)) => exists|s: Seq<(P, AABB)>|
                #[trigger] sorted_along(s, split_axis(items))
                    && s.to_multiset() == items.to_multiset()
                    && s.len() == n
                    && built_over(*l, s.subrange(0, (n / 2) as int))
                    && built_over(*r, s.subrange((n / 2) as int, n as int)),
            _ => false,
        }
    }
}

/// The tree that a build makes over `items`, each a position in the list
/// and its box: none makes an empty node with the degenerate box, one a leaf,
/// more an interior node with the union of their boxes, over subtrees built
/// from the first `n / 2` and the rest of the items in the order the sort
/// leaves them along the split axis.
pub open spec fn build_tree(items: Seq<(usize, AABB)>) -> BvhTree<usize>
    decreases items.len(),
{
    let n = items.len();
    if n == 0 {
        BvhTree { left: None, right: None, aabb: seed_box(), data: None }
    } else if n == 1 {
        BvhTree { left: None, right: None, aabb: items[0].1, data: Some(items[0].0) }
    } else {
        let s = mid_sorted(items, split_axis(items));
        if s.len() == n {
            BvhTree {
                left: Some(Box::new(build_tree(s.subrange(0, (n / 2) as int)))),
                right: Some(Box::new(build_tree(s.subrange((n / 2) as int, n as int)))),
                aabb: root_box(items),
                data: None,
            }
        } else {
            BvhTree { left: None, right: None, aabb: root_box(items), data: None }
        }
    }
}

/// Each box with its position in the list.
pub open spec fn indexed(boxes: Seq<AABB>) -> Seq<(usize, AABB)> {
    Seq::new(boxes.len(), |i: int| (i as usize, boxes[i]))
}

/// Two hierarchies built over the same boxes are the same tree: the same
/// structure, the same split at every node, the same box at every node and
/// the same item at every leaf.
pub proof fn lemma_build_deterministic(boxes: Seq<AABB>, a: Bvh<usize>, b: Bvh<usize>)
    requires
        a.built_over_boxes(boxes),
        b.built_over_boxes(boxes),
    ensures
        a.tree == b.tree,
{
}

/// Whether `f` reports a hit on box `b`.
pub open spec fn reports_hit<F: Fn(AABB) -> bool>(f: F, b: AABB) -> bool {
    call_ensures(f, (b,), true)
}

/// `f` can be called on every box, and answers the same for the same box.
pub open spec fn box_test<F: Fn(AABB) -> bool>(f: F) -> bool {
    &&& forall|b: AABB| #[trigger] call_requires(f, (b,))
    &&& forall|b: AABB, h: bool| call_ensures(f, (b,), h) ==> h == reports_hit(f, b)
}

/// The items of the leaves of `t` whose own box and every enclosing box pass
/// the test `f`, in the order of a depth-first walk that visits a node, then
/// its right subtree, then its left one.
pub open spec fn candidates<P, F: Fn(AABB) -> bool>(t: BvhTree<P>, f: F) -> Seq<P>
    decreases t,
{
    if !reports_hit(f, t.aabb) {
        Seq::empty()
    } else {
        let d = match t.data {
            Some(p) => seq![p],
            None => Seq::empty(),
        };
        let r = match t.right {
            Some(b) => candidates(*b, f),
            None => Seq::empty(),
        };
        let l = match t.left {
            Some(b) => candidates(*b, f),
            None => Seq::empty(),
        };
        d + r + l
    }
}

/// The number of nodes of a tree.
pub open spec fn node_count<P>(t: BvhTree<P>) -> nat
    decreases t,
{
    1 + match t.left {
        Some(b) => node_count(*b),
        None => 0,
    } + match t.right {
        Some(b) => node_count(*b),
        None => 0,
    }
}

/// The candidates of the trees on a stack, from its top down.
pub open spec fn stack_candidates<P, F: Fn(AABB) -> bool>(st: Seq<&BvhTree<P>>, f: F) -> Seq<P>
    decreases st.len(),
{
    if st.len() == 0 {
        Seq::empty()
    } else {
        candidates(*st.last(), f) + stack_candidates(st.drop_last(), f)
    }
}

/// The number of nodes of the trees on a stack.
pub open spec fn stack_nodes<P>(st: Seq<&BvhTree<P>>) -> nat
    decreases st.len(),
{
    if st.len() == 0 {
        0
    } else {
        node_count(*st.last()) + stack_nodes(st.drop_last())
    }
}

/// The items of a sequence of items with their boxes.
pub open spec fn items_of<P>(s: Seq<(P, AABB)>) -> Seq<P> {
    s.map_values(|x: (P, AABB)| x.0)
}

/// Two sequences with the same elements have items with the same elements.
proof fn lemma_items_same_multiset<P>(s1: Seq<(P, AABB)>, s2: Seq<(P, AABB)>)
    requires
        s1.to_multiset() == s2.to_multiset(),
    ensures
        items_of(s1).to_multiset() == items_of(s2).to_multiset(),
    decreases s1.len(),
{
    broadcast use vstd::multiset::group_multiset_axioms;

    vstd::seq_lib::to_multiset_len(s1);
    vstd::seq_lib::to_multiset_len(s2);
    if s1.len() == 0 {
        assert(items_of(s1) =~= Seq::<P>::empty());
        assert(items_of(s2) =~= Seq::<P>::empty());
    } else {
        let x = s1.last();
        let s1r = s1.drop_last();
        assert(s1 =~= s1r.push(x));
        vstd::seq_lib::to_multiset_build(s1r, x);
        vstd::seq_lib::to_multiset_contains(s2, x);
        assert(s2.to_multiset().count(x) > 0);
        let j = choose|j: int| 0 <= j < s2.len() && s2[j] == x;
        let s2r = s2.remove(j);
        vstd::seq_lib::to_multiset_remove(s2, j);
        assert(s1r.to_multiset() =~= s2r.to_multiset());
        lemma_items_same_multiset(s1r, s2r);
        let m1 = items_of(s1);
        let m2 = items_of(s2);
        assert(m1 =~= items_of(s1r).push(x.0));
        vstd::seq_lib::to_multiset_build(items_of(s1r), x.0);
        assert(m2.remove(j) =~= items_of(s2r));
        vstd::seq_lib::to_multiset_remove(m2, j);
        assert(m2[j] == x.0);
        vstd::seq_lib::to_multiset_contains(m2, x.0);
        assert(m2.contains(x.0));
        assert(m2.to_multiset() =~= m2.remove(j).to_multiset().insert(x.0));
    }
}

/// When every box passes the test, the walk yields the items of all leaves.
proof fn lemma_full_walk<P, F: Fn(AABB) -> bool>(t: BvhTree<P>, f: F)
    requires
        forall|b: AABB| #[trigger] reports_hit(f, b),
    ensures
        candidates(t, f).to_multiset() == items_of(leaves(t)).to_multiset(),
    decreases t,
{
    broadcast use vstd::multiset::group_multiset_axioms;

    let cl = match t.left {
        Some(b) => candidates(*b, f),
        None => Seq::empty(),
    };
    let cr = match t.right {
        Some(b) => candidates(*b, f),
        None => Seq::empty(),
    };
    let ll = match t.left {
        Some(b) => leaves(*b),
        None => Seq::empty(),
    };
    let lr = match t.right {
        Some(b) => leaves(*b),
        None => Seq::empty(),
    };
    let cd = match t.data {
        Some(p) => seq![p],
        None => Seq::<P>::empty(),
    };
    let ld = match t.data {
        Some(p) => seq![(p, t.aabb)],
        None => Seq::<(P, AABB)>::empty(),
    };
    match t.left {
        Some(b) => lemma_full_walk(*b, f),
        None => {
            assert(items_of(ll) =~= Seq::<P>::empty());
        },
    }
    match t.right {
        Some(b) => lemma_full_walk(*b, f),
        None => {
            assert(items_of(lr) =~= Seq::<P>::empty());
        },
    }
    assert(items_of(ld) =~= cd);
    assert(candidates(t, f) == cd + cr + cl);
    assert(items_of(leaves(t)) =~= items_of(ll) + items_of(lr) + items_of(ld));
    vstd::seq_lib::lemma_multiset_commutative(cd, cr);
    vstd::seq_lib::lemma_multiset_commutative(cd + cr, cl);
    vstd::seq_lib::lemma_multiset_commutative(items_of(ll), items_of(lr));
    vstd::seq_lib::lemma_multiset_commutative(items_of(ll) + items_of(lr), items_of(ld));
}

/// With a box test that prunes nothing, walking a hierarchy built from a
/// list yields exactly the list's items, each as often as the list holds it:
/// the hierarchy drops and duplicates nothing of what the list would scan.
pub proof fn lemma_walk_covers_list<P, F: Fn(AABB) -> bool>(
    items: Seq<(P, AABB)>,
    bvh: Bvh<P>,
    f: F,
)
    requires
        bvh.built_from(items),
        forall|b: AABB| #[trigger] reports_hit(f, b),
    ensures
        candidates(*bvh.tree, f).to_multiset() == items_of(items).to_multiset(),
{
    lemma_full_walk(*bvh.tree, f);
    lemma_items_same_multiset(leaves(*bvh.tree), items);
}

impl<P> Vector<P> {
    /// A list over the given items, in their order.
    pub fn from(list: Vec<P>) -> (r: Vector<P>)
        ensures
            r.list@ == list@,
    {
        Vector { list }
    }
}

impl<P> Bvh<P> {
    /// What a build over `items` guarantees: the shape of the tree, that its
    /// leaves hold exactly the input items with their boxes, and its root box.
    pub open spec fn built_from(&self, items: Seq<(P, AABB)>) -> bool {
        &&& has_shape(*self.tree, items.len())
        &&& leaves(*self.tree).to_multiset() == items.to_multiset()
        &&& self.tree.aabb == root_box(items)
        &&& built_over(*self.tree, items)
    }

    /// The union of all `boxes`: the first one grown by each of the others
    /// in order; for no boxes, the degenerate box at the origin.
    pub fn get_aabb(boxes: &[AABB]) -> (r: AABB)
        ensures
            r == union_all(boxes@),
    {
        if boxes.len() == 0 {
            return AABB::seed();
        }
        let mut acc = boxes[0];
        let mut i: usize = 1;
        assert(boxes@.subrange(1, 1) =~= Seq::<AABB>::empty());
        while i < boxes.len()
            invariant
                1 <= i <= boxes@.len(),
                acc == union_from(boxes@[0], boxes@.subrange(1, i as int)),
            decreases boxes@.len() - i,
        {
            assert(boxes@.subrange(1, i as int + 1).drop_last() == boxes@.subrange(1, i as int));
            acc = acc.union(&boxes[i]);
            i = i + 1;
        }
        assert(boxes@.subrange(1, boxes@.len() as int) == boxes@.drop_first());
        acc
    }

    /// The box around the whole hierarchy.
    pub fn root_aabb(&self) -> (r: AABB)
        ensures
            r == self.tree.aabb,
    {
        self.tree.aabb
    }

    /// Walks the hierarchy with an explicit stack and returns the items of
    /// the leaves that the box test lets through: a node whose box misses is
    /// skipped with its whole subtree; otherwise its own item is taken, and its
    /// children are pushed, the left one first.
    pub fn hit_leaves<'a, F: Fn(AABB) -> bool>(&'a self, box_hit: &F) -> (r: Vec<&'a P>)
        requires
            box_test(*box_hit),
        ensures
            r@.map_values(|x: &P| *x) == candidates(*self.tree, *box_hit),
    {
        let mut found: Vec<&'a P> = Vec::new();
        let mut stack: Vec<&'a BvhTree<P>> = Vec::new();
        let root: &'a BvhTree<P> = &self.tree;
        stack.push(root);
        proof {
            assert(stack@.drop_last() =~= Seq::<&BvhTree<P>>::empty());
            assert(stack_candidates(stack@, *box_hit) == candidates(*root, *box_hit)
                + stack_candidates(stack@.drop_last(), *box_hit));
            assert(found@.map_values(|x: &P| *x) + stack_candidates(stack@, *box_hit)
                =~= candidates(*self.tree, *box_hit));
        }
        while stack.len() > 0
            invariant
                box_test(*box_hit),
                found@.map_values(|x: &P| *x) + stack_candidates(stack@, *box_hit) == candidates(
                    *self.tree,
                    *box_hit,
                ),
            decreases stack_nodes(stack@),
        {
            let ghost before = stack@;
            let ghost found_before = found@;
            let el = stack.pop().unwrap();
            let ghost node = *el;
            let ghost rest = before.drop_last();
            let ghost f = *box_hit;
            proof {
                assert(stack@ == rest);
                assert(stack_candidates(before, f) == candidates(node, f) + stack_candidates(
                    rest,
                    f,
                ));
                assert(stack_nodes(before) == node_count(node) + stack_nodes(rest));
            }
            let hit = box_hit(el.aabb);
            if hit {
                match &el.data {
                    Some(p) => {
                        found.push(p);
                    },
                    None => {},
                }
                let ghost after_data = found@;
                match &el.left {
                    Some(l) => {
                        let lt: &'a BvhTree<P> = l;
                        stack.push(lt);
                    },
                    None => {},
                }
                let ghost mid = stack@;
                match &el.right {
                    Some(rt) => {
                        let rr: &'a BvhTree<P> = rt;
                        stack.push(rr);
                    },
                    None => {},
                }
                proof {
                    let dseq = match node.data {
                        Some(p) => seq![p],
                        None => Seq::<P>::empty(),
                    };
                    let cr = match node.right {
                        Some(b) => candidates(*b, f),
                        None => Seq::empty(),
                    };
                    let cl = match node.left {
                        Some(b) => candidates(*b, f),
                        None => Seq::empty(),
                    };
                    let nr: nat = match node.right {
                        Some(b) => node_count(*b),
                        None => 0,
                    };
                    let nl: nat = match node.left {
                        Some(b) => node_count(*b),
                        None => 0,
                    };
                    assert(candidates(node, f) == dseq + cr + cl);
                    assert(found@.map_values(|x: &P| *x) =~= found_before.map_values(|x: &P| *x)
                        + dseq);
                    match node.left {
                        Some(l) => {
                            assert(mid.drop_last() =~= rest);
                            assert(stack_candidates(mid, f) == cl + stack_candidates(rest, f));
                            assert(stack_nodes(mid) == nl + stack_nodes(rest));
                        },
                        None => {
                            assert(mid =~= rest);
                            assert(stack_candidates(mid, f) =~= cl + stack_candidates(rest, f));
                        },
                    }
                    match node.right {
                        Some(rt) => {
                            assert(stack@.drop_last() =~= mid);
                            assert(stack_candidates(stack@, f) == cr + stack_candidates(mid, f));
                            assert(stack_nodes(stack@) == nr + stack_nodes(mid));
                        },
                        None => {
                            assert(stack@ =~= mid);
                            assert(stack_candidates(stack@, f) =~= cr + stack_candidates(mid, f));
                        },
                    }
                    assert(found@.map_values(|x: &P| *x) + stack_candidates(stack@, f) =~= (
                    found_before.map_values(|x: &P| *x) + candidates(node, f)) + stack_candidates(
                        rest,
                        f,
                    ));
                }
            } else {
                proof {
                    assert(candidates(node, f) == Seq::<P>::empty());
                    assert(found@.map_values(|x: &P| *x) + stack_candidates(stack@, f) =~= (
                    found_before.map_values(|x: &P| *x) + candidates(node, f)) + stack_candidates(
                        rest,
                        f,
                    ));
                }
            }
        }
        assert(stack@ =~= Seq::<&BvhTree<P>>::empty());
        assert(found@.map_values(|x: &P| *x) + Seq::<P>::empty() =~= found@.map_values(
            |x: &P| *x,
        ));
        found
    }

}

impl Bvh<usize> {
    /// What a build over `boxes` guarantees: the tree is the one that
    /// `build_tree` describes over the boxes with their positions, and it has
    /// the shape, leaves, root box and node-by-node layout of such a build.
    pub open spec fn built_over_boxes(&self, boxes: Seq<AABB>) -> bool {
        &&& *self.tree == build_tree(indexed(boxes))
        &&& self.built_from(indexed(boxes))
    }

    /// Builds a subtree: one item makes a leaf with that item's box; otherwise
    /// the items are sorted by the midpoints of their boxes along the axis on
    /// which the union of their boxes is widest, and split at the middle.
    fn recursive(items: Vec<(usize, AABB)>) -> (r: BvhTree<usize>)
        ensures
            r == build_tree(items@),
            has_shape(r, items@.len()),
            leaves(r).to_multiset() == items@.to_multiset(),
            r.aabb == root_box(items@),
            built_over(r, items@),
        decreases items@.len(),
    {
        let mut items = items;
        let n = items.len();
        if n == 1 {
            let ghost whole = items@;
            let x = items.pop();
            match x {
                Some((p, b)) => {
                    let r = BvhTree { left: None, right: None, aabb: b, data: Some(p) };
                    assert(leaves(r) =~= whole);
                    assert(boxes_of(whole).drop_first() =~= Seq::<AABB>::empty());
                    return r;
                },
                None => {
                    assert(false);
                    unreached()
                },
            }
        }
        let ghost input = items@;
        let mut boxes: Vec<AABB> = Vec::new();
        let mut i: usize = 0;
        while i < n
            invariant
                n == items@.len(),
                i <= n,
                boxes@ == boxes_of(items@).subrange(0, i as int),
            decreases n - i,
        {
            boxes.push(items[i].1);
            i = i + 1;
        }
        assert(boxes@ =~= boxes_of(items@));
        let list_aabb = Self::get_aabb(boxes.as_slice());
        let size = list_aabb.size();
        let axis = largest_axis(&size);
        sort_by_mid(&mut items, axis);
        proof {
            items@.to_multiset_ensures();
            input.to_multiset_ensures();
        }
        let ghost sorted = items@;
        let right = items.split_off(n / 2);
        let left = items;
        assert(sorted =~= left@ + right@);
        let ghost left_items = left@;
        let ghost right_items = right@;
        let left_tree = if left.len() != 0 {
            Some(Box::new(Self::recursive(left)))
        } else {
            None
        };
        let right_tree = if right.len() != 0 {
            Some(Box::new(Self::recursive(right)))
        } else {
            None
        };
        let r = BvhTree { left: left_tree, right: right_tree, aabb: list_aabb, data: None };
        proof {
            if n == 0 {
                assert(leaves(r) =~= Seq::<(usize, AABB)>::empty());
                assert(input =~= Seq::<(usize, AABB)>::empty());
            } else {
                assert(sorted.subrange(0, (n / 2) as int) =~= left_items);
                assert(sorted.subrange((n / 2) as int, n as int) =~= right_items);
                assert(sorted_along(sorted, split_axis(input)));
                let lt = *r.left.unwrap();
                let rt = *r.right.unwrap();
                assert(leaves(r) =~= leaves(lt) + leaves(rt));
                vstd::seq_lib::lemma_multiset_commutative(leaves(lt), leaves(rt));
                vstd::seq_lib::lemma_multiset_commutative(left_items, right_items);
            }
        }
        r
    }

    /// Builds a hierarchy over a list's boxes; each leaf holds the position
    /// in the list of its item.
    pub fn build_bvh(boxes: &Vec<AABB>) -> (r: Bvh<usize>)
        ensures
            r.built_over_boxes(boxes@),
    {
        let mut items: Vec<(usize, AABB)> = Vec::new();
        let mut i: usize = 0;
        while i < boxes.len()
            invariant
                i <= boxes@.len(),
                items@ == indexed(boxes@).subrange(0, i as int),
            decreases boxes@.len() - i,
        {
            items.push((i, boxes[i]));
            i = i + 1;
        }
        assert(items@ =~= indexed(boxes@));
        Bvh { tree: Box::new(Self::recursive(items)) }
    }
}

} // verus!
