//! Geometry splitter: infers a binary split tree over a set of saved window
//! rectangles via recursive bisection.
//!
//! The split tree is a pure function of the rectangle list: the group's
//! centers are compared along both axes, the axis with the larger center span
//! is chosen (ties favor the horizontal axis), the indices are ordered by
//! center coordinate on that axis, and the ordered group is bisected at its
//! midpoint. Center coordinates are kept doubled (`2*x + w`) so that halves
//! of odd pixel sizes stay exact integers.

use vstd::prelude::*;
use vstd::seq_lib::group_to_multiset_ensures;
use vstd::seq_lib::lemma_multiset_commutative;
use crate::records::HyprClient;

verus! {

/// Axis of a split: `X` separates windows side by side, `Y` stacked ones.
#[derive(Clone, Copy, PartialEq, Eq, Structural, Debug)]
pub enum SplitAxis {
    X,
    Y,
}

/// Derived view of a window's saved position and size, used only for split
/// inference.
#[derive(Clone, Copy, PartialEq, Eq, Structural, Debug)]
pub struct Rect {
    pub x: i32,
    pub y: i32,
    pub w: i32,
    pub h: i32,
}

/// A binary split tree over window indices: every index of the input set
/// appears exactly once across the leaves.
#[derive(PartialEq, Eq, Debug)]
pub enum SplitTree {
    Leaf(usize),
    Node { axis: SplitAxis, first: Box<SplitTree>, second: Box<SplitTree> },
}

impl Rect {
    /// Reads the saved geometry of a window record.
    pub fn from_client(c: &HyprClient) -> (r: Rect)
        ensures
            r == (Rect { x: c.at_x, y: c.at_y, w: c.size_w, h: c.size_h }),
    {
        Rect { x: c.at_x, y: c.at_y, w: c.size_w, h: c.size_h }
    }
}

/// Twice the center x coordinate of a rectangle, an exact integer.
pub open spec fn center2_x(r: Rect) -> int {
    2 * r.x + r.w
}

/// Twice the center y coordinate of a rectangle, an exact integer.
pub open spec fn center2_y(r: Rect) -> int {
    2 * r.y + r.h
}

/// Twice the center coordinate of a rectangle along the given axis.
pub open spec fn center2(r: Rect, axis: SplitAxis) -> int {
    match axis {
        SplitAxis::X => center2_x(r),
        SplitAxis::Y => center2_y(r),
    }
}

/// The least doubled center among `indices` along `axis`.
pub open spec fn spec_min_center(rects: Seq<Rect>, indices: Seq<usize>, axis: SplitAxis) -> int
    decreases indices.len(),
{
    if indices.len() <= 1 {
        center2(rects[indices[0] as int], axis)
    } else {
        let prev = spec_min_center(rects, indices.drop_last(), axis);
        let last = center2(rects[indices.last() as int], axis);
        if last < prev {
            last
        } else {
            prev
        }
    }
}

/// The greatest doubled center among `indices` along `axis`.
pub open spec fn spec_max_center(rects: Seq<Rect>, indices: Seq<usize>, axis: SplitAxis) -> int
    decreases indices.len(),
{
    if indices.len() <= 1 {
        center2(rects[indices[0] as int], axis)
    } else {
        let prev = spec_max_center(rects, indices.drop_last(), axis);
        let last = center2(rects[indices.last() as int], axis);
        if last > prev {
            last
        } else {
            prev
        }
    }
}

/// The axis chosen for a group: `X` when the span of center x coordinates is
/// at least the span of center y coordinates, so that a tie favors `X`.
pub open spec fn spec_axis(rects: Seq<Rect>, indices: Seq<usize>) -> SplitAxis {
    let span_x = spec_max_center(rects, indices, SplitAxis::X) - spec_min_center(
        rects,
        indices,
        SplitAxis::X,
    );
    let span_y = spec_max_center(rects, indices, SplitAxis::Y) - spec_min_center(
        rects,
        indices,
        SplitAxis::Y,
    );
    if span_x >= span_y {
        SplitAxis::X
    } else {
        SplitAxis::Y
    }
}

/// Stable insertion of `x` into `sorted`: `x` lands after every index whose
/// doubled center is less than or equal to its own.
pub open spec fn spec_insert_by_center(
    rects: Seq<Rect>,
    axis: SplitAxis,
    sorted: Seq<usize>,
    x: usize,
) -> Seq<usize>
    decreases sorted.len(),
{
    if sorted.len() == 0 {
        seq![x]
    } else if center2(rects[x as int], axis) < center2(rects[sorted.last() as int], axis) {
        spec_insert_by_center(rects, axis, sorted.drop_last(), x).push(sorted.last())
    } else {
        sorted.push(x)
    }
}

/// Stable sort of `v` by doubled center along `axis`: indices with equal
/// centers keep their input order.
pub open spec fn spec_sort_by_center(rects: Seq<Rect>, axis: SplitAxis, v: Seq<usize>) -> Seq<
    usize,
>
    decreases v.len(),
{
    if v.len() == 0 {
        Seq::empty()
    } else {
        spec_insert_by_center(
            rects,
            axis,
            spec_sort_by_center(rects, axis, v.drop_last()),
            v.last(),
        )
    }
}

/// Inserting an index adds exactly that index to the group's contents.
pub proof fn lemma_insert_by_center_multiset(
    rects: Seq<Rect>,
    axis: SplitAxis,
    sorted: Seq<usize>,
    x: usize,
)
    ensures
        spec_insert_by_center(rects, axis, sorted, x).to_multiset() == sorted.to_multiset().insert(
            x,
        ),
    decreases sorted.len(),
{
    broadcast use group_to_multiset_ensures;

    if sorted.len() == 0 {
        assert(seq![x] =~= Seq::<usize>::empty().push(x));
        assert(Seq::<usize>::empty().push(x).to_multiset() =~= Seq::<usize>::empty().to_multiset().insert(x));
    } else if center2(rects[x as int], axis) < center2(rects[sorted.last() as int], axis) {
        lemma_insert_by_center_multiset(rects, axis, sorted.drop_last(), x);
        assert(sorted.drop_last().push(sorted.last()) =~= sorted);
        assert(spec_insert_by_center(rects, axis, sorted, x).to_multiset() =~= sorted.to_multiset().insert(x));
    } else {
        assert(sorted.push(x).to_multiset() =~= sorted.to_multiset().insert(x));
    }
}

/// Sorting by center permutes the group: same contents, same length.
pub proof fn lemma_sort_by_center_multiset(rects: Seq<Rect>, axis: SplitAxis, v: Seq<usize>)
    ensures
        spec_sort_by_center(rects, axis, v).to_multiset() == v.to_multiset(),
        spec_sort_by_center(rects, axis, v).len() == v.len(),
    decreases v.len(),
{
    broadcast use group_to_multiset_ensures;

    if v.len() == 0 {
    } else {
        lemma_sort_by_center_multiset(rects, axis, v.drop_last());
        lemma_insert_by_center_multiset(
            rects,
            axis,
            spec_sort_by_center(rects, axis, v.drop_last()),
            v.last(),
        );
        assert(v.drop_last().push(v.last()) =~= v);
        assert(v.drop_last().push(v.last()).to_multiset() =~= v.drop_last().to_multiset().insert(v.last()));
    }
    let sorted = spec_sort_by_center(rects, axis, v);
    assert(sorted.len() == sorted.to_multiset().len());
    assert(v.len() == v.to_multiset().len());
}

/// Every element of the sorted sequence comes from the input sequence.
pub proof fn lemma_sort_by_center_membership(
    rects: Seq<Rect>,
    axis: SplitAxis,
    v: Seq<usize>,
    i: int,
)
    requires
        0 <= i < spec_sort_by_center(rects, axis, v).len(),
    ensures
        v.contains(spec_sort_by_center(rects, axis, v)[i]),
{
    broadcast use group_to_multiset_ensures;

    lemma_sort_by_center_multiset(rects, axis, v);
    let sorted = spec_sort_by_center(rects, axis, v);
    assert(sorted.to_multiset().count(sorted[i]) > 0) by {
        assert(sorted.contains(sorted[i]));
    }
}

/// The split tree of a group of rectangle indices. For a single index the
/// tree is a leaf; otherwise the group is ordered by center along the chosen
/// axis and bisected at its midpoint, the lower half being the smaller one.
pub open spec fn spec_build_split_tree(rects: Seq<Rect>, indices: Seq<usize>) -> SplitTree
    decreases indices.len(),
    via spec_build_split_tree_decreases
{
    if indices.len() <= 1 {
        SplitTree::Leaf(indices[0])
    } else {
        let axis = spec_axis(rects, indices);
        let sorted = spec_sort_by_center(rects, axis, indices);
        let mid = indices.len() as int / 2;
        SplitTree::Node {
            axis,
            first: Box::new(spec_build_split_tree(rects, sorted.subrange(0, mid))),
            second: Box::new(
                spec_build_split_tree(rects, sorted.subrange(mid, sorted.len() as int)),
            ),
        }
    }
}

#[via_fn]
proof fn spec_build_split_tree_decreases(rects: Seq<Rect>, indices: Seq<usize>) {
    if indices.len() > 1 {
        let axis = spec_axis(rects, indices);
        lemma_sort_by_center_multiset(rects, axis, indices);
    }
}

/// The indices at the leaves of a split tree, leftmost first.
pub open spec fn spec_leaves(t: SplitTree) -> Seq<usize>
    decreases t,
{
    match t {
        SplitTree::Leaf(i) => seq![i],
        SplitTree::Node { axis, first, second } => spec_leaves(*first) + spec_leaves(*second),
    }
}

/// The leaves of the split tree of any non-empty group carry exactly the
/// input indices, each exactly once.
pub proof fn lemma_split_tree_leaves(rects: Seq<Rect>, indices: Seq<usize>)
    requires
        indices.len() >= 1,
    ensures
        spec_leaves(spec_build_split_tree(rects, indices)).to_multiset() == indices.to_multiset(),
        spec_leaves(spec_build_split_tree(rects, indices)).len() == indices.len(),
    decreases indices.len(),
{
    broadcast use group_to_multiset_ensures;

    if indices.len() == 1 {
        assert(spec_leaves(spec_build_split_tree(rects, indices)) =~= seq![indices[0]]);
        assert(indices =~= seq![indices[0]]);
    } else {
        let axis = spec_axis(rects, indices);
        let sorted = spec_sort_by_center(rects, axis, indices);
        let mid = indices.len() as int / 2;
        lemma_sort_by_center_multiset(rects, axis, indices);
        let lo = sorted.subrange(0, mid);
        let hi = sorted.subrange(mid, sorted.len() as int);
        assert(sorted =~= lo + hi);
        lemma_multiset_commutative(lo, hi);
        lemma_split_tree_leaves(rects, lo);
        lemma_split_tree_leaves(rects, hi);
        let t = spec_build_split_tree(rects, indices);
        assert(spec_leaves(t) =~= spec_leaves(spec_build_split_tree(rects, lo)) + spec_leaves(
            spec_build_split_tree(rects, hi),
        ));
        lemma_multiset_commutative(
            spec_leaves(spec_build_split_tree(rects, lo)),
            spec_leaves(spec_build_split_tree(rects, hi)),
        );
    }
}

/// A split tree is a pure function of the rectangle list and the index
/// group: identical inputs always yield a structurally identical tree.
pub proof fn lemma_build_split_tree_deterministic(
    rects1: Seq<Rect>,
    indices1: Seq<usize>,
    rects2: Seq<Rect>,
    indices2: Seq<usize>,
)
    requires
        rects1 == rects2,
        indices1 == indices2,
    ensures
        spec_build_split_tree(rects1, indices1) == spec_build_split_tree(rects2, indices2),
{
}

/// A group of one index yields a single leaf.
pub proof fn lemma_split_tree_singleton(rects: Seq<Rect>, indices: Seq<usize>)
    requires
        indices.len() == 1,
    ensures
        spec_build_split_tree(rects, indices) == SplitTree::Leaf(indices[0]),
{
}

/// Twice the center coordinate along `axis`, computed exactly in a wider
/// integer type.
fn center2_of(r: &Rect, axis: SplitAxis) -> (c: i64)
    ensures
        c as int == center2(*r, axis),
        -0x2_0000_0000 <= c <= 0x2_0000_0000,
{
    match axis {
        SplitAxis::X => 2 * (r.x as i64) + (r.w as i64),
        SplitAxis::Y => 2 * (r.y as i64) + (r.h as i64),
    }
}

/// Chooses the split axis of a group: the axis whose centers span the wider
/// range, a tie favoring `X`.
#[verifier::loop_isolation(false)]
fn choose_axis(rects: &Vec<Rect>, indices: &Vec<usize>) -> (axis: SplitAxis)
    requires
        indices@.len() >= 1,
        forall|i: int| 0 <= i < indices@.len() ==> (indices@[i] as int) < rects@.len(),
    ensures
        axis == spec_axis(rects@, indices@),
{
    let r0 = rects[indices[0]];
    let mut min_cx: i64 = center2_of(&r0, SplitAxis::X);
    let mut max_cx: i64 = min_cx;
    let mut min_cy: i64 = center2_of(&r0, SplitAxis::Y);
    let mut max_cy: i64 = min_cy;
    let mut i: usize = 1;
    while i < indices.len()
        invariant
            1 <= i <= indices@.len(),
            min_cx as int == spec_min_center(rects@, indices@.subrange(0, i as int), SplitAxis::X),
            max_cx as int == spec_max_center(rects@, indices@.subrange(0, i as int), SplitAxis::X),
            min_cy as int == spec_min_center(rects@, indices@.subrange(0, i as int), SplitAxis::Y),
            max_cy as int == spec_max_center(rects@, indices@.subrange(0, i as int), SplitAxis::Y),
            -0x2_0000_0000 <= min_cx <= 0x2_0000_0000,
            -0x2_0000_0000 <= max_cx <= 0x2_0000_0000,
            -0x2_0000_0000 <= min_cy <= 0x2_0000_0000,
            -0x2_0000_0000 <= max_cy <= 0x2_0000_0000,
        decreases indices@.len() - i,
    {
        let r = rects[indices[i]];
        let cx = center2_of(&r, SplitAxis::X);
        let cy = center2_of(&r, SplitAxis::Y);
        if cx < min_cx {
            min_cx = cx;
        }
        if cx > max_cx {
            max_cx = cx;
        }
        if cy < min_cy {
            min_cy = cy;
        }
        if cy > max_cy {
            max_cy = cy;
        }
        i += 1;
        proof {
            let pre = indices@.subrange(0, i as int - 1);
            let cur = indices@.subrange(0, i as int);
            assert(cur.drop_last() =~= pre);
            assert(cur.last() == indices@[i as int - 1]);
        }
    }
    proof {
        assert(indices@.subrange(0, indices@.len() as int) =~= indices@);
    }
    let span_x = max_cx - min_cx;
    let span_y = max_cy - min_cy;
    if span_x >= span_y {
        SplitAxis::X
    } else {
        SplitAxis::Y
    }
}

/// The stable insertion point of `x` in a sorted group: after every index
/// whose center is less than or equal to its own.
proof fn lemma_insert_position(rects: Seq<Rect>, axis: SplitAxis, s: Seq<usize>, x: usize, j: int)
    requires
        0 <= j <= s.len(),
        forall|k: int|
            j <= k < s.len() ==> center2(rects[s[k] as int], axis) > center2(
                rects[x as int],
                axis,
            ),
        j > 0 ==> center2(rects[s[j - 1] as int], axis) <= center2(rects[x as int], axis),
    ensures
        spec_insert_by_center(rects, axis, s, x) == s.subrange(0, j).push(x) + s.subrange(
            j,
            s.len() as int,
        ),
    decreases s.len(),
{
    if s.len() == 0 {
        assert(seq![x] =~= s.subrange(0, 0).push(x) + s.subrange(0, 0));
    } else if j == s.len() {
        assert(spec_insert_by_center(rects, axis, s, x) == s.push(x));
        assert(s.push(x) =~= s.subrange(0, j).push(x) + s.subrange(j, s.len() as int));
    } else {
        assert(center2(rects[s.last() as int], axis) > center2(rects[x as int], axis));
        lemma_insert_position(rects, axis, s.drop_last(), x, j);
        assert(s.drop_last().subrange(0, j) =~= s.subrange(0, j));
        assert(s.drop_last().subrange(j, s.len() - 1) =~= s.subrange(j, s.len() - 1));
        assert((s.subrange(0, j).push(x) + s.subrange(j, s.len() - 1)).push(s.last()) =~= s
            .subrange(0, j).push(x) + s.subrange(j, s.len() as int));
    }
}

/// Inserts `x` into `r`, which is kept ordered by center along `axis`.
#[verifier::loop_isolation(false)]
fn insert_by_center(rects: &Vec<Rect>, axis: SplitAxis, r: &mut Vec<usize>, x: usize)
    requires
        (x as int) < rects@.len(),
        forall|i: int| 0 <= i < old(r)@.len() ==> (old(r)@[i] as int) < rects@.len(),
    ensures
        final(r)@ == spec_insert_by_center(rects@, axis, old(r)@, x),
{
    let key = center2_of(&rects[x], axis);
    let mut j: usize = r.len();
    let mut done = false;
    while !done && j > 0
        invariant
            j <= r@.len(),
            forall|k: int|
                j <= k < r@.len() ==> center2(rects@[r@[k] as int], axis) > center2(
                    rects@[x as int],
                    axis,
                ),
            done ==> j > 0 && center2(rects@[r@[j - 1] as int], axis) <= center2(
                rects@[x as int],
                axis,
            ),
        decreases (if done { 0int } else { 1int }), j,
    {
        let prev = r[j - 1];
        let c = center2_of(&rects[prev], axis);
        if c > key {
            j -= 1;
        } else {
            done = true;
        }
    }
    proof {
        lemma_insert_position(rects@, axis, r@, x, j as int);
    }
    r.insert(j, x);
    proof {
        assert(old(r)@.subrange(0, j as int).push(x) + old(r)@.subrange(
            j as int,
            old(r)@.len() as int,
        ) =~= old(r)@.insert(j as int, x));
    }
}

/// Sorts a group of indices by doubled center along `axis`; the sort is
/// stable, so indices with equal centers keep their input order.
#[verifier::loop_isolation(false)]
fn sort_indices_by_center(rects: &Vec<Rect>, axis: SplitAxis, v: &Vec<usize>) -> (r: Vec<usize>)
    requires
        forall|i: int| 0 <= i < v@.len() ==> (v@[i] as int) < rects@.len(),
    ensures
        r@ == spec_sort_by_center(rects@, axis, v@),
{
    let mut r: Vec<usize> = Vec::new();
    let mut i: usize = 0;
    while i < v.len()
        invariant
            i <= v@.len(),
            r@ == spec_sort_by_center(rects@, axis, v@.subrange(0, i as int)),
            forall|k: int| 0 <= k < r@.len() ==> (r@[k] as int) < rects@.len(),
        decreases v@.len() - i,
    {
        let x = v[i];
        insert_by_center(rects, axis, &mut r, x);
        i += 1;
        proof {
            let pre = v@.subrange(0, i as int - 1);
            let cur = v@.subrange(0, i as int);
            assert(cur.drop_last() =~= pre);
            assert(cur.last() == v@[i as int - 1]);
            lemma_insert_by_center_multiset(rects@, axis, pre, x);
            broadcast use group_to_multiset_ensures;

            assert forall|k: int| 0 <= k < r@.len() implies (r@[k] as int) < rects@.len() by {
                assert(r@.contains(r@[k]));
                assert(r@.to_multiset().count(r@[k]) > 0);
                lemma_sort_by_center_multiset(rects@, axis, cur);
                if r@[k] != x {
                    assert(cur.to_multiset().count(r@[k]) > 0);
                    assert(cur.contains(r@[k]));
                }
            }
        }
    }
    proof {
        assert(v@.subrange(0, v@.len() as int) =~= v@);
    }
    r
}

/// Copies the elements of `v` with positions in `from .. to`.
#[verifier::loop_isolation(false)]
fn copy_range(v: &Vec<usize>, from: usize, to: usize) -> (r: Vec<usize>)
    requires
        from <= to <= v@.len(),
    ensures
        r@ == v@.subrange(from as int, to as int),
{
    let mut r: Vec<usize> = Vec::new();
    let mut k: usize = from;
    while k < to
        invariant
            from <= k <= to,
            r@ == v@.subrange(from as int, k as int),
        decreases to - k,
    {
        r.push(v[k]);
        k += 1;
        proof {
            assert(v@.subrange(from as int, k as int) =~= v@.subrange(
                from as int,
                k as int - 1,
            ).push(v@[k as int - 1]));
        }
    }
    r
}

/// Builds the split tree of a non-empty group of rectangle indices. The tree
/// is a pure function of its inputs and its leaves carry exactly the input
/// indices (`lemma_split_tree_leaves`).
pub fn build_split_tree(rects: &Vec<Rect>, indices: &Vec<usize>) -> (t: SplitTree)
    requires
        indices@.len() >= 1,
        forall|i: int| 0 <= i < indices@.len() ==> (indices@[i] as int) < rects@.len(),
    ensures
        t == spec_build_split_tree(rects@, indices@),
    decreases indices@.len(),
{
    if indices.len() == 1 {
        return SplitTree::Leaf(indices[0]);
    }
    let axis = choose_axis(rects, indices);
    let sorted = sort_indices_by_center(rects, axis, indices);
    proof {
        lemma_sort_by_center_multiset(rects@, axis, indices@);
        assert forall|i: int| 0 <= i < sorted@.len() implies (sorted@[i] as int)
            < rects@.len() by {
            lemma_sort_by_center_membership(rects@, axis, indices@, i);
        }
    }
    let mid = indices.len() / 2;
    let lo = copy_range(&sorted, 0, mid);
    let hi = copy_range(&sorted, mid, sorted.len());
    let first = build_split_tree(rects, &lo);
    let second = build_split_tree(rects, &hi);
    SplitTree::Node { axis, first: Box::new(first), second: Box::new(second) }
}

/// A group of two indices yields one node with two leaf children.
pub proof fn lemma_split_tree_pair(rects: Seq<Rect>, indices: Seq<usize>)
    requires
        indices.len() == 2,
    ensures
        spec_build_split_tree(rects, indices) matches SplitTree::Node { axis, first, second }
            && *first is Leaf && *second is Leaf,
{
    let axis = spec_axis(rects, indices);
    let sorted = spec_sort_by_center(rects, axis, indices);
    lemma_sort_by_center_multiset(rects, axis, indices);
    let lo = sorted.subrange(0, 1);
    let hi = sorted.subrange(1, sorted.len() as int);
    assert(lo.len() == 1);
    assert(hi.len() == 1);
    lemma_split_tree_singleton(rects, lo);
    lemma_split_tree_singleton(rects, hi);
}

} // verus!
