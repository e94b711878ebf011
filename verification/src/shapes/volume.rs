use vstd::prelude::*;

use crate::stats::{RenderStats, RenderStatsCollector};
use crate::utils::random_u32;

verus! {

broadcast use vstd::seq_lib::group_to_multiset_ensures;

/// The axis along which a group of shapes is sorted before it is split.
#[derive(Debug, PartialEq, Eq, Copy, Clone, Structural)]
pub enum ComparatorAxis {
    X,
    Y,
    Z,
}

/// How a volume learns about its shapes: their bounding boxes, how boxes combine, and
/// how two shapes compare along an axis. An implementation gives each method a spec
/// function and keeps the method in step with it.
pub trait VolumeBounds<S> {
    type BoundingBox;

    /// The box around `shape`.
    spec fn spec_bounding_box(&self, shape: S) -> Self::BoundingBox;

    /// The box around the boxes `a` and `b`.
    spec fn spec_surrounding_box(&self, a: Self::BoundingBox, b: Self::BoundingBox) -> Self::BoundingBox;

    /// The box around nothing.
    spec fn spec_empty_box(&self) -> Self::BoundingBox;

    /// Whether `left` comes strictly before `right` along `axis`.
    spec fn spec_axis_less(&self, left: S, right: S, axis: ComparatorAxis) -> bool;

    fn bounding_box(&self, shape: &S) -> (b: Self::BoundingBox)
        ensures
            b == self.spec_bounding_box(*shape),
    ;

    fn surrounding_box(&self, a: &Self::BoundingBox, b: &Self::BoundingBox) -> (r: Self::BoundingBox)
        ensures
            r == self.spec_surrounding_box(*a, *b),
    ;

    fn empty_box(&self) -> (r: Self::BoundingBox)
        ensures
            r == self.spec_empty_box(),
    ;

    /// Whether `left` comes strictly before `right` along `axis`.
    fn axis_less(&self, left: &S, right: &S, axis: ComparatorAxis) -> (r: bool)
        ensures
            r == self.spec_axis_less(*left, *right, axis),
    ;
}

/// The boxes of the first `n` of `items` combined from first to last; `n` is at least one.
pub open spec fn combined_box<P, C: VolumeBounds<P>>(bounds: C, items: Seq<P>, n: nat) -> C::BoundingBox
    decreases n,
{
    if n <= 1 {
        bounds.spec_bounding_box(items[0])
    } else {
        bounds.spec_surrounding_box(
            combined_box(bounds, items, (n - 1) as nat),
            bounds.spec_bounding_box(items[n - 1]),
        )
    }
}

/// The box of a group: the empty box when it has no member, else the boxes of its members
/// combined from first to last.
pub open spec fn group_box<P, C: VolumeBounds<P>>(bounds: C, items: Seq<P>) -> C::BoundingBox {
    if items.len() == 0 {
        bounds.spec_empty_box()
    } else {
        combined_box(bounds, items, items.len())
    }
}

/// Combining boxes does not depend on how the combinations are grouped.
pub open spec fn surrounding_associative<P, C: VolumeBounds<P>>(bounds: C) -> bool {
    forall|a: C::BoundingBox, b: C::BoundingBox, c: C::BoundingBox|
        #[trigger] bounds.spec_surrounding_box(bounds.spec_surrounding_box(a, b), c)
            == bounds.spec_surrounding_box(a, bounds.spec_surrounding_box(b, c))
}

/// Combining two boxes does not depend on their order.
pub open spec fn surrounding_commutative<P, C: VolumeBounds<P>>(bounds: C) -> bool {
    forall|a: C::BoundingBox, b: C::BoundingBox|
        #[trigger] bounds.spec_surrounding_box(a, b) == bounds.spec_surrounding_box(b, a)
}

/// Combining the first `n` boxes looks at the first `n` items only.
proof fn lemma_combined_same_prefix<P, C: VolumeBounds<P>>(bounds: C, a: Seq<P>, b: Seq<P>, n: nat)
    requires
        n <= a.len(),
        n <= b.len(),
        forall|i: int| 0 <= i < n ==> a[i] == b[i],
    ensures
        n >= 1 ==> combined_box(bounds, a, n) == combined_box(bounds, b, n),
    decreases n,
{
    if n > 1 {
        lemma_combined_same_prefix(bounds, a, b, (n - 1) as nat);
    }
}

/// The box of two non-empty groups put together is the box around their two boxes.
pub proof fn lemma_group_box_concat<P, C: VolumeBounds<P>>(bounds: C, l: Seq<P>, r: Seq<P>)
    requires
        surrounding_associative(bounds),
        l.len() >= 1,
        r.len() >= 1,
    ensures
        group_box(bounds, l + r) == bounds.spec_surrounding_box(group_box(bounds, l), group_box(bounds, r)),
    decreases r.len(),
{
    let lr = l + r;
    if r.len() == 1 {
        lemma_combined_same_prefix(bounds, lr, l, l.len());
        assert(lr[l.len() as int] == r[0]);
    } else {
        let r2 = r.drop_last();
        let y = r.last();
        lemma_group_box_concat(bounds, l, r2);
        assert(l + r2 == lr.drop_last());
        lemma_combined_same_prefix(bounds, lr, l + r2, (lr.len() - 1) as nat);
        lemma_combined_same_prefix(bounds, r, r2, (r.len() - 1) as nat);
        assert(lr[lr.len() - 1] == y);
        let gl = group_box(bounds, l);
        let gr2 = group_box(bounds, r2);
        let by = bounds.spec_bounding_box(y);
        assert(bounds.spec_surrounding_box(bounds.spec_surrounding_box(gl, gr2), by)
            == bounds.spec_surrounding_box(gl, bounds.spec_surrounding_box(gr2, by)));
    }
}

/// The box of a group of two or more items is the box around the box of the group
/// without item `k` and the box of item `k`.
proof fn lemma_group_box_remove<P, C: VolumeBounds<P>>(bounds: C, t: Seq<P>, k: int)
    requires
        surrounding_associative(bounds),
        surrounding_commutative(bounds),
        t.len() >= 2,
        0 <= k < t.len(),
    ensures
        group_box(bounds, t) == bounds.spec_surrounding_box(
            group_box(bounds, t.remove(k)),
            bounds.spec_bounding_box(t[k]),
        ),
    decreases t.len(),
{
    let n = t.len();
    let t2 = t.drop_last();
    let y = t.last();
    lemma_combined_same_prefix(bounds, t, t2, (n - 1) as nat);
    if k == n - 1 {
        assert(t.remove(k) =~= t2);
    } else if n == 2 {
        assert(t.remove(k) =~= seq![y]);
        let a = bounds.spec_bounding_box(t[0]);
        let b = bounds.spec_bounding_box(y);
        assert(bounds.spec_surrounding_box(a, b) == bounds.spec_surrounding_box(b, a));
    } else {
        lemma_group_box_remove(bounds, t2, k);
        let rest = t2.remove(k);
        assert(t.remove(k) =~= rest.push(y));
        lemma_combined_same_prefix(bounds, rest.push(y), rest, rest.len());
        assert(rest.push(y)[rest.len() as int] == y);
        let g = group_box(bounds, rest);
        let bk = bounds.spec_bounding_box(t[k]);
        let by = bounds.spec_bounding_box(y);
        assert(t2[k] == t[k]);
        assert(bounds.spec_surrounding_box(bounds.spec_surrounding_box(g, bk), by)
            == bounds.spec_surrounding_box(g, bounds.spec_surrounding_box(bk, by)));
        assert(bounds.spec_surrounding_box(bk, by) == bounds.spec_surrounding_box(by, bk));
        assert(bounds.spec_surrounding_box(bounds.spec_surrounding_box(g, by), bk)
            == bounds.spec_surrounding_box(g, bounds.spec_surrounding_box(by, bk)));
    }
}

/// Two groups with the same items, in whatever order, have the same box.
pub proof fn lemma_group_box_permutation<P, C: VolumeBounds<P>>(bounds: C, s: Seq<P>, t: Seq<P>)
    requires
        surrounding_associative(bounds),
        surrounding_commutative(bounds),
        s.to_multiset() == t.to_multiset(),
    ensures
        group_box(bounds, s) == group_box(bounds, t),
    decreases s.len(),
{
    broadcast use vstd::seq_lib::to_multiset_contains;

    assert(s.len() == t.len()) by {
        vstd::seq_lib::to_multiset_len(s);
        vstd::seq_lib::to_multiset_len(t);
    }
    if s.len() == 0 {
    } else {
        let x = s.last();
        assert(s.contains(x));
        assert(s.to_multiset().count(x) > 0);
        assert(t.contains(x));
        let k = choose|k: int| 0 <= k < t.len() && t[k] == x;
        if s.len() == 1 {
            assert(t[0] == x);
        } else {
            let s2 = s.drop_last();
            let t2 = t.remove(k);
            assert(s =~= s2.push(x));
            assert(s.to_multiset() == s2.to_multiset().insert(x));
            assert(t2.to_multiset() == t.to_multiset().remove(x));
            assert(s2.to_multiset() =~= t2.to_multiset());
            lemma_group_box_permutation(bounds, s2, t2);
            lemma_group_box_remove(bounds, t, k);
            lemma_combined_same_prefix(bounds, s, s2, s2.len());
        }
    }
}

/// Whether "strictly before along `axis`" orders shapes as a sort needs: no two shapes
/// come each before the other, and "not before" is transitive.
pub open spec fn axis_order_ok<S, C: VolumeBounds<S>>(bounds: C, axis: ComparatorAxis) -> bool {
    &&& forall|a: S, b: S|
        #[trigger] bounds.spec_axis_less(a, b, axis) ==> !bounds.spec_axis_less(b, a, axis)
    &&& forall|a: S, b: S, c: S|
        !#[trigger] bounds.spec_axis_less(a, b, axis) && !#[trigger] bounds.spec_axis_less(b, c, axis)
            ==> !bounds.spec_axis_less(a, c, axis)
}

/// Whether no shape of `s` comes strictly before one that precedes it in `s`.
pub open spec fn sorted_along<S, C: VolumeBounds<S>>(s: Seq<S>, bounds: C, axis: ComparatorAxis) -> bool {
    forall|i: int, j: int|
        0 <= i < j < s.len() ==> !bounds.spec_axis_less(#[trigger] s[j], #[trigger] s[i], axis)
}

/// The axis that a random number picks: each axis for a third of the values.
pub open spec fn axis_of(r: u32) -> ComparatorAxis {
    if r % 3 == 0 {
        ComparatorAxis::X
    } else if r % 3 == 1 {
        ComparatorAxis::Y
    } else {
        ComparatorAxis::Z
    }
}

fn axis_from_random(r: u32) -> (a: ComparatorAxis)
    ensures
        a == axis_of(r),
{
    let m = r % 3;
    if m == 0 {
        ComparatorAxis::X
    } else if m == 1 {
        ComparatorAxis::Y
    } else {
        ComparatorAxis::Z
    }
}

/// One of the three axes, picked at random.
pub(crate) fn random_axis() -> (a: ComparatorAxis) {
    axis_from_random(random_u32())
}

/// Whether no shape of `right` comes strictly before a shape of `left` along `axis`.
pub open spec fn apart_along<S, C: VolumeBounds<S>>(
    left: Seq<S>,
    right: Seq<S>,
    bounds: C,
    axis: ComparatorAxis,
) -> bool {
    forall|i: int, j: int|
        0 <= i < left.len() && 0 <= j < right.len() ==> !bounds.spec_axis_less(
            #[trigger] right[j],
            #[trigger] left[i],
            axis,
        )
}

/// Shapes taken from before and after a cut of a sorted sequence are apart along its axis,
/// in whatever order they are then held.
pub(crate) proof fn lemma_halves_apart<S, C: VolumeBounds<S>>(
    all: Seq<S>,
    k: int,
    left: Seq<S>,
    right: Seq<S>,
    bounds: C,
    axis: ComparatorAxis,
)
    requires
        sorted_along(all, bounds, axis),
        0 <= k <= all.len(),
        left.to_multiset() == all.take(k).to_multiset(),
        right.to_multiset() == all.skip(k).to_multiset(),
    ensures
        apart_along(left, right, bounds, axis),
{
    broadcast use vstd::seq_lib::to_multiset_contains;

    assert forall|i: int, j: int| 0 <= i < left.len() && 0 <= j < right.len() implies !bounds.spec_axis_less(
        #[trigger] right[j],
        #[trigger] left[i],
        axis,
    ) by {
        let x = left[i];
        let y = right[j];
        assert(left.contains(x));
        assert(right.contains(y));
        assert(left.to_multiset().count(x) > 0);
        assert(right.to_multiset().count(y) > 0);
        assert(all.take(k).contains(x));
        assert(all.skip(k).contains(y));
        let a = choose|a: int| 0 <= a < all.take(k).len() && all.take(k)[a] == x;
        let b = choose|b: int| 0 <= b < all.skip(k).len() && all.skip(k)[b] == y;
        assert(all[a] == x);
        assert(all[k + b] == y);
    }
}

/// Inserting `e` before the first shape that does not come strictly before it keeps a
/// sorted sequence sorted.
proof fn lemma_insert_keeps_sorted<S, C: VolumeBounds<S>>(
    s: Seq<S>,
    e: S,
    j: int,
    bounds: C,
    axis: ComparatorAxis,
)
    requires
        axis_order_ok(bounds, axis),
        sorted_along(s, bounds, axis),
        0 <= j <= s.len(),
        forall|k: int| 0 <= k < j ==> bounds.spec_axis_less(#[trigger] s[k], e, axis),
        j < s.len() ==> !bounds.spec_axis_less(s[j], e, axis),
    ensures
        sorted_along(s.insert(j, e), bounds, axis),
{
    let t = s.insert(j, e);
    assert forall|a: int, b: int| 0 <= a < b < t.len() implies !bounds.spec_axis_less(
        #[trigger] t[b],
        #[trigger] t[a],
        axis,
    ) by {
        if a < j && b == j {
            assert(bounds.spec_axis_less(s[a], e, axis));
        } else if a == j && b > j {
            assert(t[b] == s[b - 1]);
            assert(!bounds.spec_axis_less(s[b - 1], s[j], axis) || b - 1 == j);
            assert(!bounds.spec_axis_less(s[j], e, axis));
        } else if a < j && b > j {
            assert(t[b] == s[b - 1] && t[a] == s[a]);
        } else if b < j {
            assert(t[b] == s[b] && t[a] == s[a]);
        } else {
            assert(t[b] == s[b - 1] && t[a] == s[a - 1]);
        }
    }
}

/// Sorts `shapes` along `axis`, keeping shapes that compare equal in their order.
pub(crate) fn sort_along_axis<S, C: VolumeBounds<S>>(shapes: Vec<S>, bounds: &C, axis: ComparatorAxis) -> (r: Vec<S>)
    ensures
        r@.to_multiset() == shapes@.to_multiset(),
        r@.len() == shapes@.len(),
        axis_order_ok(*bounds, axis) ==> sorted_along(r@, *bounds, axis),
{
    let mut rest = shapes;
    let mut sorted: Vec<S> = Vec::new();
    while rest.len() > 0
        invariant
            sorted@.to_multiset().add(rest@.to_multiset()) == shapes@.to_multiset(),
            sorted@.len() + rest@.len() == shapes@.len(),
            axis_order_ok(*bounds, axis) ==> sorted_along(sorted@, *bounds, axis),
        decreases rest@.len(),
    {
        let ghost rest0 = rest@;
        let ghost sorted0 = sorted@;
        let e = rest.pop().unwrap();
        proof {
            assert(rest0 =~= rest@.push(e));
        }
        let mut j: usize = 0;
        while j < sorted.len() && bounds.axis_less(&sorted[j], &e, axis)
            invariant
                j <= sorted@.len(),
                forall|k: int| 0 <= k < j ==> bounds.spec_axis_less(#[trigger] sorted@[k], e, axis),
            decreases sorted@.len() - j,
        {
            j = j + 1;
        }
        sorted.insert(j, e);
        proof {
            assert(sorted@ == sorted0.insert(j as int, e));
            if axis_order_ok(*bounds, axis) {
                lemma_insert_keeps_sorted(sorted0, e, j as int, *bounds, axis);
            }
            assert(sorted@.to_multiset() == sorted0.to_multiset().insert(e));
            assert(rest0.to_multiset() == rest@.to_multiset().insert(e));
            assert(sorted@.to_multiset().add(rest@.to_multiset()) =~= sorted0.to_multiset().add(
                rest0.to_multiset(),
            ));
        }
    }
    proof {
        assert(rest@.to_multiset() =~= vstd::multiset::Multiset::empty());
        assert(sorted@.to_multiset().add(rest@.to_multiset()) =~= sorted@.to_multiset());
    }
    sorted
}


/// The contents of a non-empty volume: one shape, or two smaller volumes.
#[derive(Debug)]
pub enum InnerVolume<S, B> {
    SingleChild(S),
    TwoChild { left: Box<Volume<S, B>>, right: Box<Volume<S, B>> },
}

/// A bounding volume hierarchy: a binary tree of shapes, each node with the box that
/// holds everything below it.
#[derive(Debug)]
pub struct Volume<S, B> {
    inner_volume: Option<InnerVolume<S, B>>,
    bounding_box: B,
}

impl<S, B> InnerVolume<S, B> {
    /// Every child volume of a two-child node holds something, all the way down.
    pub closed spec fn node_wf(self) -> bool
        decreases self,
    {
        match self {
            InnerVolume::SingleChild(_) => true,
            InnerVolume::TwoChild { left, right } => {
                &&& left.inner_volume is Some
                &&& right.inner_volume is Some
                &&& left.inner_volume->0.node_wf()
                &&& right.inner_volume->0.node_wf()
            },
        }
    }

    /// At every two-child node the left side holds half of the shapes below it, rounded down.
    pub closed spec fn node_balanced(self) -> bool
        decreases self,
    {
        match self {
            InnerVolume::SingleChild(_) => true,
            InnerVolume::TwoChild { left, right } => {
                &&& left.inner_volume matches Some(l) && right.inner_volume matches Some(r) && {
                    &&& l.leaves().len() == (l.leaves().len() + r.leaves().len()) / 2
                    &&& l.node_balanced()
                    &&& r.node_balanced()
                }
            },
        }
    }

    /// The shapes below this node, left to right.
    pub closed spec fn leaves(self) -> Seq<S>
        decreases self,
    {
        match self {
            InnerVolume::SingleChild(s) => seq![s],
            InnerVolume::TwoChild { left, right } => {
                let l = match left.inner_volume {
                    Some(n) => n.leaves(),
                    None => Seq::empty(),
                };
                let r = match right.inner_volume {
                    Some(n) => n.leaves(),
                    None => Seq::empty(),
                };
                l + r
            },
        }
    }

    /// The number of nodes on the longest path down from this node.
    pub closed spec fn height(self) -> nat
        decreases self,
    {
        match self {
            InnerVolume::SingleChild(_) => 1,
            InnerVolume::TwoChild { left, right } => {
                let l = match left.inner_volume {
                    Some(n) => n.height(),
                    None => 0,
                };
                let r = match right.inner_volume {
                    Some(n) => n.height(),
                    None => 0,
                };
                1 + if l > r {
                    l
                } else {
                    r
                }
            },
        }
    }
}

/// The box that the hierarchy builder stores with a node: the box of its shape, or the
/// box around the boxes of its two sub-volumes.
pub open spec fn node_box<S, B, C: VolumeBounds<S, BoundingBox = B>>(bounds: C, node: InnerVolume<S, B>) -> B {
    match node {
        InnerVolume::SingleChild(s) => bounds.spec_bounding_box(s),
        InnerVolume::TwoChild { left, right } => bounds.spec_surrounding_box(
            left.spec_bounding_box(),
            right.spec_bounding_box(),
        ),
    }
}

impl<S, B> InnerVolume<S, B> {
    /// Every volume below this node stores the box the builder gives it: the empty box
    /// when it holds nothing, otherwise the box of its root.
    pub closed spec fn node_boxes_ok<C: VolumeBounds<S, BoundingBox = B>>(self, bounds: C) -> bool
        decreases self,
    {
        match self {
            InnerVolume::SingleChild(_) => true,
            InnerVolume::TwoChild { left, right } => {
                &&& match left.inner_volume {
                    Some(l) => left.bounding_box == node_box(bounds, l) && l.node_boxes_ok(bounds),
                    None => left.bounding_box == bounds.spec_empty_box(),
                }
                &&& match right.inner_volume {
                    Some(r) => right.bounding_box == node_box(bounds, r) && r.node_boxes_ok(bounds),
                    None => right.bounding_box == bounds.spec_empty_box(),
                }
            },
        }
    }
}

impl<S, B> InnerVolume<S, B> {
    /// At every split below this node some axis has no shape on the right strictly before
    /// a shape on the left.
    pub closed spec fn node_splits_ok<C: VolumeBounds<S>>(self, bounds: C) -> bool
        decreases self,
    {
        match self {
            InnerVolume::SingleChild(_) => true,
            InnerVolume::TwoChild { left, right } => {
                &&& exists|axis: ComparatorAxis|
                    apart_along(left.shapes(), right.shapes(), bounds, axis)
                &&& match left.inner_volume {
                    Some(l) => l.node_splits_ok(bounds),
                    None => true,
                }
                &&& match right.inner_volume {
                    Some(r) => r.node_splits_ok(bounds),
                    None => true,
                }
            },
        }
    }
}

impl<S, B> Volume<S, B> {
    /// The volume holds nothing, or a well-formed tree.
    pub closed spec fn wf(self) -> bool {
        match self.inner_volume {
            Some(n) => n.node_wf(),
            None => true,
        }
    }

    /// The volume and every volume below it store the box the builder gives them: the
    /// empty box for an empty volume, the box of the shape for a single shape, and the
    /// box around the two sub-volumes' boxes for a split.
    pub open spec fn boxes_ok<C: VolumeBounds<S, BoundingBox = B>>(self, bounds: C) -> bool {
        match self.root() {
            Some(n) => self.spec_bounding_box() == node_box(bounds, n) && n.node_boxes_ok(bounds),
            None => self.spec_bounding_box() == bounds.spec_empty_box(),
        }
    }

    /// Each split of the volume separates its two sides along some axis.
    pub open spec fn splits_ok<C: VolumeBounds<S>>(self, bounds: C) -> bool {
        match self.root() {
            Some(n) => n.node_splits_ok(bounds),
            None => true,
        }
    }

    /// Each split of the volume puts half of its shapes, rounded down, on the left.
    pub closed spec fn balanced(self) -> bool {
        match self.inner_volume {
            Some(n) => n.node_balanced(),
            None => true,
        }
    }

    /// The shapes held, left to right.
    pub closed spec fn shapes(self) -> Seq<S> {
        match self.inner_volume {
            Some(n) => n.leaves(),
            None => Seq::empty(),
        }
    }

    /// The box stored with the root.
    pub closed spec fn spec_bounding_box(self) -> B {
        self.bounding_box
    }

    /// The root node, if any.
    pub closed spec fn root(self) -> Option<InnerVolume<S, B>> {
        self.inner_volume
    }

    /// The box that holds everything in the volume.
    pub fn bounding_box(&self) -> (b: &B)
        ensures
            *b == self.spec_bounding_box(),
    {
        &self.bounding_box
    }

    /// The root of the tree, if the volume holds anything.
    pub fn inner_volume(&self) -> (n: &Option<InnerVolume<S, B>>)
        ensures
            *n == self.root(),
    {
        &self.inner_volume
    }
}

fn compute_inner_volume_bounding_box<S, B, C: VolumeBounds<S, BoundingBox = B>>(
    inner_volume: &InnerVolume<S, B>,
    bounds: &C,
) -> (b: B)
    ensures
        b == match *inner_volume {
            InnerVolume::SingleChild(child) => bounds.spec_bounding_box(child),
            InnerVolume::TwoChild { left, right } => bounds.spec_surrounding_box(
                left.spec_bounding_box(),
                right.spec_bounding_box(),
            ),
        },
{
    match inner_volume {
        InnerVolume::SingleChild(child) => bounds.bounding_box(child),
        InnerVolume::TwoChild { left, right } => bounds.surrounding_box(
            &left.bounding_box,
            &right.bounding_box,
        ),
    }
}

impl<S, B> Volume<S, B> {
    /// Builds a hierarchy over `shapes`: at each level the shapes are sorted along a
    /// random axis and split in two halves, the first half holding `len / 2` of them.
    pub fn from_shapes<C: VolumeBounds<S, BoundingBox = B>>(shapes: Vec<S>, bounds: &C) -> (v: Self)
        ensures
            v.wf(),
            v.balanced(),
            v.shapes().to_multiset() == shapes@.to_multiset(),
            v.shapes().len() == shapes@.len(),
            v.boxes_ok(*bounds),
            (forall|axis: ComparatorAxis| #[trigger] axis_order_ok(*bounds, axis)) ==> v.splits_ok(*bounds),
    {
        Self::from_shapes_slice(shapes, bounds)
    }

    fn from_shapes_slice<C: VolumeBounds<S, BoundingBox = B>>(shapes: Vec<S>, bounds: &C) -> (v: Self)
        ensures
            v.wf(),
            v.balanced(),
            v.shapes().to_multiset() == shapes@.to_multiset(),
            v.shapes().len() == shapes@.len(),
            shapes@.len() > 0 ==> v.root() is Some,
            v.boxes_ok(*bounds),
            (forall|axis: ComparatorAxis| #[trigger] axis_order_ok(*bounds, axis)) ==> v.splits_ok(*bounds),
        decreases shapes@.len(),
    {
        let mut shapes = shapes;
        if shapes.len() == 0 {
            proof {
                assert(shapes@ =~= Seq::empty());
            }
            Self::from_inner_volume(None, bounds)
        } else if shapes.len() == 1 {
            let ghost s0 = shapes@;
            let only = shapes.pop().unwrap();
            proof {
                assert(s0 =~= seq![only]);
            }
            Self::from_inner_volume(Some(InnerVolume::SingleChild(only)), bounds)
        } else {
            // Sort the shapes along a random axis, then split them in two halves
            let axis = random_axis();
            let mut sorted = sort_along_axis(shapes, bounds, axis);
            let pivot = sorted.len() / 2;
            let ghost all = sorted@;
            let right_shapes = sorted.split_off(pivot);
            proof {
                assert(all =~= sorted@ + right_shapes@);
                assert(all.take(pivot as int) =~= sorted@);
                assert(all.skip(pivot as int) =~= right_shapes@);
                vstd::seq_lib::lemma_multiset_commutative(sorted@, right_shapes@);
            }
            let left = Self::from_shapes_slice(sorted, bounds);
            let right = Self::from_shapes_slice(right_shapes, bounds);
            let inner = InnerVolume::TwoChild { left: Box::new(left), right: Box::new(right) };
            proof {
                assert(inner.leaves() == left.shapes() + right.shapes());
                vstd::seq_lib::lemma_multiset_commutative(left.shapes(), right.shapes());
                if forall|ax: ComparatorAxis| #[trigger] axis_order_ok(*bounds, ax) {
                    assert(axis_order_ok(*bounds, axis));
                    lemma_halves_apart(all, pivot as int, left.shapes(), right.shapes(), *bounds, axis);
                }
            }
            Self::from_inner_volume(Some(inner), bounds)
        }
    }

    fn from_inner_volume<C: VolumeBounds<S, BoundingBox = B>>(
        inner_volume: Option<InnerVolume<S, B>>,
        bounds: &C,
    ) -> (v: Self)
        requires
            inner_volume matches Some(n) ==> n.node_boxes_ok(*bounds),
        ensures
            v.root() == inner_volume,
            v.boxes_ok(*bounds),
    {
        let bounding_box = if let Some(inner) = inner_volume.as_ref() {
            compute_inner_volume_bounding_box(inner, bounds)
        } else {
            bounds.empty_box()
        };
        Volume { inner_volume, bounding_box }
    }
}


/// What a node on the iteration stack still has to give: a single shape gives itself, a
/// two-child node (whose left side is being walked) gives the shapes on its right.
pub open spec fn pending<S, B>(node: InnerVolume<S, B>) -> Seq<S> {
    match node {
        InnerVolume::SingleChild(s) => seq![s],
        InnerVolume::TwoChild { right, .. } => right.shapes(),
    }
}

/// The shapes still to come from a stack of nodes, the top of the stack first.
pub open spec fn stack_pending<S, B>(stack: Seq<&InnerVolume<S, B>>) -> Seq<S>
    decreases stack.len(),
{
    if stack.len() == 0 {
        Seq::empty()
    } else {
        pending(*stack.last()) + stack_pending(stack.drop_last())
    }
}

/// How much work a node on the stack still stands for: one unit per shape it gives,
/// counted twice for the right side of a two-child node since it has to be opened.
pub open spec fn pending_work<S, B>(node: InnerVolume<S, B>) -> nat {
    match node {
        InnerVolume::SingleChild(_) => 1,
        InnerVolume::TwoChild { right, .. } => 2 * right.shapes().len(),
    }
}

pub open spec fn stack_work<S, B>(stack: Seq<&InnerVolume<S, B>>) -> nat
    decreases stack.len(),
{
    if stack.len() == 0 {
        0
    } else {
        pending_work(*stack.last()) + stack_work(stack.drop_last())
    }
}

/// The shapes of a volume, left to right.
pub struct VolumeIter<'a, S, B> {
    stack: Vec<&'a InnerVolume<S, B>>,
}

impl<S, B> InnerVolume<S, B> {
    proof fn lemma_leaves_nonempty(self)
        requires
            self.node_wf(),
        ensures
            self.leaves().len() >= 1,
        decreases self,
    {
        match self {
            InnerVolume::SingleChild(_) => {},
            InnerVolume::TwoChild { left, right } => {
                left.inner_volume->0.lemma_leaves_nonempty();
            },
        }
    }
}

impl<S, B> InnerVolume<S, B> {
    /// The box a well-built node stores is the combined box of the shapes below it.
    proof fn lemma_node_box_is_group_box<C: VolumeBounds<S, BoundingBox = B>>(self, bounds: C)
        requires
            surrounding_associative(bounds),
            self.node_wf(),
            self.node_boxes_ok(bounds),
        ensures
            node_box(bounds, self) == group_box(bounds, self.leaves()),
        decreases self,
    {
        match self {
            InnerVolume::SingleChild(s) => {
                assert(self.leaves() =~= seq![s]);
            },
            InnerVolume::TwoChild { left, right } => {
                let l = left.inner_volume->0;
                let r = right.inner_volume->0;
                l.lemma_node_box_is_group_box(bounds);
                r.lemma_node_box_is_group_box(bounds);
                l.lemma_leaves_nonempty();
                r.lemma_leaves_nonempty();
                lemma_group_box_concat(bounds, l.leaves(), r.leaves());
            },
        }
    }
}

impl<S, B> Volume<S, B> {
    /// The box a built volume stores is the box around all of its shapes: the empty box
    /// for no shape, the shape's box for one, and, where combining boxes is associative
    /// and commutative, the boxes of `shapes` combined from first to last for more, in
    /// whatever order `shapes` lists them.
    pub proof fn lemma_box_is_box_of_shapes<C: VolumeBounds<S, BoundingBox = B>>(
        self,
        bounds: C,
        shapes: Seq<S>,
    )
        requires
            shapes.len() >= 2 ==> surrounding_associative(bounds) && surrounding_commutative(
                bounds,
            ),
            self.wf(),
            self.boxes_ok(bounds),
            self.shapes().to_multiset() == shapes.to_multiset(),
        ensures
            self.spec_bounding_box() == group_box(bounds, shapes),
    {
        match self.inner_volume {
            Some(n) => {
                vstd::seq_lib::to_multiset_len(shapes);
                vstd::seq_lib::to_multiset_len(n.leaves());
                n.lemma_leaves_nonempty();
                if shapes.len() >= 2 {
                    n.lemma_node_box_is_group_box(bounds);
                    lemma_group_box_permutation(bounds, n.leaves(), shapes);
                } else {
                    match n {
                        InnerVolume::SingleChild(s) => {
                            assert(n.leaves() =~= seq![s]);
                            assert(n.leaves()[0] == s);
                            assert(n.leaves().contains(s));
                            assert(shapes.to_multiset().contains(s));
                            assert(shapes.contains(s));
                        },
                        InnerVolume::TwoChild { left, right } => {
                            left.inner_volume->0.lemma_leaves_nonempty();
                            right.inner_volume->0.lemma_leaves_nonempty();
                        },
                    }
                }
            },
            None => {
                vstd::seq_lib::to_multiset_len(shapes);
                assert(self.shapes() =~= Seq::<S>::empty());
                vstd::seq_lib::to_multiset_len(self.shapes());
            },
        }
    }
}

/// How a ray asks a volume about it: whether the ray meets a box, where it meets a shape
/// (counting the shape's own tests into the render's counters), and which of two hits is
/// the nearer. An implementation keeps each method in step with its spec function.
pub trait VolumeQuery<S, B, H> {
    spec fn spec_hits_box(&self, bounding_box: B) -> bool;

    spec fn spec_shape_hit(&self, shape: S) -> Option<H>;

    /// The counters after the ray is tested against `shape`, from `before`.
    spec fn spec_shape_stats(&self, shape: S, before: RenderStats) -> RenderStats;

    /// Whether testing `shape` from the counters `before` stays within their range.
    spec fn spec_shape_countable(&self, shape: S, before: RenderStats) -> bool;

    spec fn spec_nearer(&self, a: H, b: H) -> bool;

    fn hits_box(&self, bounding_box: &B) -> (r: bool)
        ensures
            r == self.spec_hits_box(*bounding_box),
    ;

    fn shape_hit<C: RenderStatsCollector>(&self, shape: &S, stats: &mut C) -> (r: Option<H>)
        requires
            self.spec_shape_countable(*shape, old(stats).collected()),
        ensures
            r == self.spec_shape_hit(*shape),
            final(stats).collected() == self.spec_shape_stats(*shape, old(stats).collected()),
    ;

    fn nearer(&self, a: &H, b: &H) -> (r: bool)
        ensures
            r == self.spec_nearer(*a, *b),
    ;
}

/// Of the hit found so far and a new one, the one kept: the one found so far if it is
/// the nearer, else the new one; a missing hit gives way to the other.
pub open spec fn kept_hit<S, B, H, Q: VolumeQuery<S, B, H>>(query: Q, current: Option<H>, new: Option<H>) -> Option<H> {
    match (current, new) {
        (Some(l), Some(r)) => if query.spec_nearer(l, r) {
            Some(l)
        } else {
            Some(r)
        },
        (_, Some(r)) => Some(r),
        (Some(l), None) => Some(l),
        (None, None) => None,
    }
}

/// The counters after one more bounding-box test.
pub open spec fn one_more_box_test(stats: RenderStats) -> RenderStats {
    RenderStats { bounding_box_tests: (stats.bounding_box_tests + 1) as usize, ..stats }
}

fn replace_hit_result<S, B, H, Q: VolumeQuery<S, B, H>>(query: &Q, current: Option<H>, new: Option<H>) -> (r: Option<H>)
    ensures
        r == kept_hit(*query, current, new),
{
    match (current, new) {
        (Some(l), Some(r)) => if query.nearer(&l, &r) {
            Some(l)
        } else {
            Some(r)
        },
        (_, Some(r)) => Some(r),
        (Some(l), None) => Some(l),
        (None, None) => None,
    }
}

impl<S, B> Volume<S, B> {
    /// A volume met by the walk: its box is tested (and counted); if the ray meets it,
    /// the shapes below it are walked. Gives the hit kept and the counters after.
    pub closed spec fn spec_visit<H, Q: VolumeQuery<S, B, H>>(
        self,
        query: Q,
        acc: Option<H>,
        stats: RenderStats,
    ) -> (Option<H>, RenderStats)
        decreases self,
    {
        let counted = one_more_box_test(stats);
        if query.spec_hits_box(self.bounding_box) {
            match self.inner_volume {
                Some(n) => n.spec_walk(query, acc, counted),
                None => (acc, counted),
            }
        } else {
            (acc, counted)
        }
    }

    /// Whether no counter runs past its range while the walk visits this volume.
    pub closed spec fn spec_visit_countable<H, Q: VolumeQuery<S, B, H>>(
        self,
        query: Q,
        stats: RenderStats,
    ) -> bool
        decreases self,
    {
        &&& stats.bounding_box_tests < usize::MAX
        &&& (query.spec_hits_box(self.bounding_box) ==> match self.inner_volume {
            Some(n) => n.spec_walk_countable(query, one_more_box_test(stats)),
            None => true,
        })
    }
}

impl<S, B> InnerVolume<S, B> {
    /// The shapes below this node walked left to right from the hit `acc` and the
    /// counters `stats`: a shape is tested and its hit kept unless the one found so far
    /// is nearer; each sub-volume is visited, its box tested and counted first.
    pub closed spec fn spec_walk<H, Q: VolumeQuery<S, B, H>>(
        self,
        query: Q,
        acc: Option<H>,
        stats: RenderStats,
    ) -> (Option<H>, RenderStats)
        decreases self,
    {
        match self {
            InnerVolume::SingleChild(s) => (
                kept_hit(query, acc, query.spec_shape_hit(s)),
                query.spec_shape_stats(s, stats),
            ),
            InnerVolume::TwoChild { left, right } => {
                let (mid, mid_stats) = left.spec_visit(query, acc, stats);
                right.spec_visit(query, mid, mid_stats)
            },
        }
    }

    /// Whether no counter runs past its range while the shapes below this node are walked.
    pub closed spec fn spec_walk_countable<H, Q: VolumeQuery<S, B, H>>(
        self,
        query: Q,
        stats: RenderStats,
    ) -> bool
        decreases self,
    {
        match self {
            InnerVolume::SingleChild(s) => query.spec_shape_countable(s, stats),
            InnerVolume::TwoChild { left, right } => {
                &&& left.spec_visit_countable(query, stats)
                &&& right.spec_visit_countable(query, left.spec_visit(query, None::<H>, stats).1)
            },
        }
    }

    /// The counters after a walk do not depend on the hit it started from.
    proof fn lemma_walk_stats<H, Q: VolumeQuery<S, B, H>>(
        self,
        query: Q,
        a: Option<H>,
        b: Option<H>,
        stats: RenderStats,
    )
        ensures
            self.spec_walk(query, a, stats).1 == self.spec_walk(query, b, stats).1,
        decreases self,
    {
        match self {
            InnerVolume::SingleChild(s) => {},
            InnerVolume::TwoChild { left, right } => {
                left.lemma_visit_stats(query, a, b, stats);
                let sa = left.spec_visit(query, a, stats);
                right.lemma_visit_stats(query, sa.0, left.spec_visit(query, b, stats).0, sa.1);
            },
        }
    }

    fn walk<H, Q: VolumeQuery<S, B, H>, C: RenderStatsCollector>(
        &self,
        query: &Q,
        acc: Option<H>,
        stats: &mut C,
    ) -> (r: Option<H>)
        requires
            self.spec_walk_countable(*query, old(stats).collected()),
        ensures
            (r, final(stats).collected()) == self.spec_walk(*query, acc, old(stats).collected()),
        decreases self,
    {
        match self {
            InnerVolume::SingleChild(s) => {
                let h = query.shape_hit(s, stats);
                replace_hit_result(query, acc, h)
            },
            InnerVolume::TwoChild { left, right } => {
                proof {
                    left.lemma_visit_stats(*query, acc, None, stats.collected());
                }
                let mid = left.visit(query, acc, stats);
                right.visit(query, mid, stats)
            },
        }
    }
}

impl<S, B> Volume<S, B> {
    /// The counters after a visit do not depend on the hit it started from.
    proof fn lemma_visit_stats<H, Q: VolumeQuery<S, B, H>>(
        self,
        query: Q,
        a: Option<H>,
        b: Option<H>,
        stats: RenderStats,
    )
        ensures
            self.spec_visit(query, a, stats).1 == self.spec_visit(query, b, stats).1,
        decreases self,
    {
        if query.spec_hits_box(self.bounding_box) {
            match self.inner_volume {
                Some(n) => n.lemma_walk_stats(query, a, b, one_more_box_test(stats)),
                None => {},
            }
        }
    }

    fn visit<H, Q: VolumeQuery<S, B, H>, C: RenderStatsCollector>(
        &self,
        query: &Q,
        acc: Option<H>,
        stats: &mut C,
    ) -> (r: Option<H>)
        requires
            self.spec_visit_countable(*query, old(stats).collected()),
        ensures
            (r, final(stats).collected()) == self.spec_visit(*query, acc, old(stats).collected()),
        decreases self,
    {
        stats.count_bounding_box_test();
        if query.hits_box(&self.bounding_box) {
            match &self.inner_volume {
                Some(n) => n.walk(query, acc, stats),
                None => acc,
            }
        } else {
            acc
        }
    }

    /// The hit of the ray with the volume and the render's counters after it: the
    /// volume's box is tested first; where the ray meets it, its shapes are walked left
    /// to right, each sub-volume's box tested before its shapes and a sub-volume whose
    /// box the ray misses passed over, each new hit kept unless the one found so far is
    /// nearer. Every box test and every shape test is counted.
    pub open spec fn spec_hit<H, Q: VolumeQuery<S, B, H>>(self, query: Q, stats: RenderStats) -> (Option<H>, RenderStats) {
        self.spec_visit(query, None, stats)
    }

    /// Whether the counters stay within their range through `intersect`.
    pub open spec fn hit_countable<H, Q: VolumeQuery<S, B, H>>(self, query: Q, stats: RenderStats) -> bool {
        self.spec_visit_countable(query, stats)
    }

    /// Where the ray meets the volume, as `spec_hit` says, counting each test into `stats`.
    pub fn intersect<H, Q: VolumeQuery<S, B, H>, C: RenderStatsCollector>(&self, query: &Q, stats: &mut C) -> (r: Option<H>)
        requires
            self.hit_countable(*query, old(stats).collected()),
        ensures
            (r, final(stats).collected()) == self.spec_hit(*query, old(stats).collected()),
    {
        self.visit(query, None, stats)
    }
}

/// Of the hit kept so far and a new one, the one a list keeps: the new one only if it
/// is strictly nearer, so that of equally near hits the first one stays.
pub open spec fn first_nearest<S, B, H, Q: VolumeQuery<S, B, H>>(query: Q, current: Option<H>, new: Option<H>) -> Option<H> {
    match (current, new) {
        (Some(c), Some(n)) => if query.spec_nearer(n, c) {
            Some(n)
        } else {
            Some(c)
        },
        (None, n) => n,
        (c, None) => c,
    }
}

/// The hit of the ray with a list of shapes, each tested in turn, and the counters
/// after: the nearest hit, the first of the nearest where several are equally near.
pub open spec fn spec_list_hit<S, B, H, Q: VolumeQuery<S, B, H>>(
    query: Q,
    shapes: Seq<S>,
    stats: RenderStats,
) -> (Option<H>, RenderStats)
    decreases shapes.len(),
{
    if shapes.len() == 0 {
        (None, stats)
    } else {
        let (h, st) = spec_list_hit(query, shapes.drop_last(), stats);
        (
            first_nearest(query, h, query.spec_shape_hit(shapes.last())),
            query.spec_shape_stats(shapes.last(), st),
        )
    }
}

/// Whether no counter runs past its range while a list of shapes is tested.
pub open spec fn list_hit_countable<S, B, H, Q: VolumeQuery<S, B, H>>(
    query: Q,
    shapes: Seq<S>,
    stats: RenderStats,
) -> bool
    decreases shapes.len(),
{
    if shapes.len() == 0 {
        true
    } else {
        &&& list_hit_countable(query, shapes.drop_last(), stats)
        &&& query.spec_shape_countable(
            shapes.last(),
            spec_list_hit(query, shapes.drop_last(), stats).1,
        )
    }
}

proof fn lemma_list_countable_prefix<S, B, H, Q: VolumeQuery<S, B, H>>(
    query: Q,
    shapes: Seq<S>,
    stats: RenderStats,
    k: int,
)
    requires
        list_hit_countable(query, shapes, stats),
        0 <= k <= shapes.len(),
    ensures
        list_hit_countable(query, shapes.take(k), stats),
    decreases shapes.len(),
{
    if k < shapes.len() {
        assert(shapes.drop_last().take(k) =~= shapes.take(k));
        lemma_list_countable_prefix(query, shapes.drop_last(), stats, k);
    } else {
        assert(shapes.take(k) =~= shapes);
    }
}

/// Where the ray meets a list of shapes, as `spec_list_hit` says, counting each test
/// into `stats`.
pub fn list_hit<S, B, H, Q: VolumeQuery<S, B, H>, C: RenderStatsCollector>(
    shapes: &[S],
    query: &Q,
    stats: &mut C,
) -> (r: Option<H>)
    requires
        list_hit_countable(*query, shapes@, old(stats).collected()),
    ensures
        (r, final(stats).collected()) == spec_list_hit(*query, shapes@, old(stats).collected()),
{
    let ghost start = stats.collected();
    let mut acc: Option<H> = None;
    let mut i: usize = 0;
    while i < shapes.len()
        invariant
            0 <= i <= shapes@.len(),
            list_hit_countable(*query, shapes@, start),
            (acc, stats.collected()) == spec_list_hit(*query, shapes@.take(i as int), start),
        decreases shapes@.len() - i,
    {
        proof {
            lemma_list_countable_prefix(*query, shapes@, start, i + 1);
            assert(shapes@.take(i + 1).drop_last() =~= shapes@.take(i as int));
        }
        let h = query.shape_hit(&shapes[i], stats);
        acc = match (acc, h) {
            (Some(c), Some(n)) => if query.nearer(&n, &c) {
                Some(n)
            } else {
                Some(c)
            },
            (None, n) => n,
            (c, None) => c,
        };
        i = i + 1;
    }
    proof {
        assert(shapes@.take(i as int) =~= shapes@);
    }
    acc
}

/// The box around a list of shapes: the empty box for none, else the boxes of the
/// shapes combined from first to last.
pub fn list_bounding_box<S, C: VolumeBounds<S>>(shapes: &[S], bounds: &C) -> (b: C::BoundingBox)
    ensures
        b == group_box(*bounds, shapes@),
{
    if shapes.len() == 0 {
        return bounds.empty_box();
    }
    let mut acc = bounds.bounding_box(&shapes[0]);
    let mut i: usize = 1;
    while i < shapes.len()
        invariant
            1 <= i <= shapes@.len(),
            acc == combined_box(*bounds, shapes@, i as nat),
        decreases shapes@.len() - i,
    {
        let b = bounds.bounding_box(&shapes[i]);
        acc = bounds.surrounding_box(&acc, &b);
        i = i + 1;
    }
    acc
}

// ---------------------------------------------------------------------------
// What a ray's hit is: laws over the shapes the ray is tested against
// ---------------------------------------------------------------------------

/// Whether "nearer" orders hits as a strict weak order does (as `<` on distances does):
/// no hit is nearer than a hit nearer than it, and "not nearer than" chains.
pub open spec fn nearer_is_strict_weak_order<S, B, H, Q: VolumeQuery<S, B, H>>(query: Q) -> bool {
    &&& forall|a: H, b: H| #[trigger] query.spec_nearer(a, b) ==> !query.spec_nearer(b, a)
    &&& forall|a: H, b: H, c: H|
        #![trigger query.spec_nearer(a, b), query.spec_nearer(b, c)]
        !query.spec_nearer(a, b) && !query.spec_nearer(b, c) ==> !query.spec_nearer(a, c)
}

/// Whether the ray hits some shape of `shapes`.
pub open spec fn some_shape_hit<S, B, H, Q: VolumeQuery<S, B, H>>(query: Q, shapes: Seq<S>) -> bool {
    exists|i: int| 0 <= i < shapes.len() && (#[trigger] query.spec_shape_hit(shapes[i])) is Some
}

/// Whether `h` is where the ray hits some shape of `shapes`.
pub open spec fn is_hit_of_some_shape<S, B, H, Q: VolumeQuery<S, B, H>>(query: Q, shapes: Seq<S>, h: H) -> bool {
    exists|i: int| 0 <= i < shapes.len() && #[trigger] query.spec_shape_hit(shapes[i]) == Some(h)
}

/// Whether no shape of `shapes` is hit strictly nearer than `h`.
pub open spec fn no_shape_hit_nearer<S, B, H, Q: VolumeQuery<S, B, H>>(query: Q, shapes: Seq<S>, h: H) -> bool {
    forall|i: int|
        0 <= i < shapes.len() ==> (#[trigger] query.spec_shape_hit(shapes[i]) matches Some(g)
            ==> !query.spec_nearer(g, h))
}

proof fn lemma_hits_concat<S, B, H, Q: VolumeQuery<S, B, H>>(query: Q, l: Seq<S>, r: Seq<S>, h: H)
    ensures
        some_shape_hit(query, l + r) == (some_shape_hit(query, l) || some_shape_hit(query, r)),
        is_hit_of_some_shape(query, l + r, h) == (is_hit_of_some_shape(query, l, h)
            || is_hit_of_some_shape(query, r, h)),
        no_shape_hit_nearer(query, l + r, h) == (no_shape_hit_nearer(query, l, h)
            && no_shape_hit_nearer(query, r, h)),
{
    let lr = l + r;
    if some_shape_hit(query, lr) {
        let i = choose|i: int| 0 <= i < lr.len() && (#[trigger] query.spec_shape_hit(lr[i])) is Some;
        if i < l.len() {
            assert(query.spec_shape_hit(l[i]) is Some);
        } else {
            assert(query.spec_shape_hit(r[i - l.len()]) is Some);
        }
    }
    if some_shape_hit(query, l) {
        let i = choose|i: int| 0 <= i < l.len() && (#[trigger] query.spec_shape_hit(l[i])) is Some;
        assert(query.spec_shape_hit(lr[i]) is Some);
    }
    if some_shape_hit(query, r) {
        let i = choose|i: int| 0 <= i < r.len() && (#[trigger] query.spec_shape_hit(r[i])) is Some;
        assert(query.spec_shape_hit(lr[i + l.len()]) is Some);
    }
    if is_hit_of_some_shape(query, lr, h) {
        let i = choose|i: int| 0 <= i < lr.len() && #[trigger] query.spec_shape_hit(lr[i]) == Some(h);
        if i < l.len() {
            assert(query.spec_shape_hit(l[i]) == Some(h));
        } else {
            assert(query.spec_shape_hit(r[i - l.len()]) == Some(h));
        }
    }
    if is_hit_of_some_shape(query, l, h) {
        let i = choose|i: int| 0 <= i < l.len() && #[trigger] query.spec_shape_hit(l[i]) == Some(h);
        assert(query.spec_shape_hit(lr[i]) == Some(h));
    }
    if is_hit_of_some_shape(query, r, h) {
        let i = choose|i: int| 0 <= i < r.len() && #[trigger] query.spec_shape_hit(r[i]) == Some(h);
        assert(query.spec_shape_hit(lr[i + l.len()]) == Some(h));
    }
    if no_shape_hit_nearer(query, lr, h) {
        assert forall|i: int| 0 <= i < l.len() implies (#[trigger] query.spec_shape_hit(l[i]) matches Some(g)
            ==> !query.spec_nearer(g, h)) by {
            assert(lr[i] == l[i]);
        }
        assert forall|i: int| 0 <= i < r.len() implies (#[trigger] query.spec_shape_hit(r[i]) matches Some(g)
            ==> !query.spec_nearer(g, h)) by {
            assert(lr[i + l.len()] == r[i]);
        }
    }
    if no_shape_hit_nearer(query, l, h) && no_shape_hit_nearer(query, r, h) {
        assert forall|i: int| 0 <= i < lr.len() implies (#[trigger] query.spec_shape_hit(lr[i]) matches Some(g)
            ==> !query.spec_nearer(g, h)) by {
            if i < l.len() {
                assert(lr[i] == l[i]);
            } else {
                assert(lr[i] == r[i - l.len()]);
            }
        }
    }
}

proof fn lemma_hits_single<S, B, H, Q: VolumeQuery<S, B, H>>(query: Q, s: S, h: H)
    ensures
        some_shape_hit(query, seq![s]) == query.spec_shape_hit(s) is Some,
        is_hit_of_some_shape(query, seq![s], h) == (query.spec_shape_hit(s) == Some(h)),
        no_shape_hit_nearer(query, seq![s], h) == (query.spec_shape_hit(s) matches Some(g)
            ==> !query.spec_nearer(g, h)),
{
    let l = seq![s];
    assert(l[0] == s);
    if query.spec_shape_hit(s) is Some {
        assert(query.spec_shape_hit(l[0]) is Some);
    }
    if query.spec_shape_hit(s) == Some(h) {
        assert(query.spec_shape_hit(l[0]) == Some(h));
    }
}

proof fn lemma_hits_empty<S, B, H, Q: VolumeQuery<S, B, H>>(query: Q, h: H)
    ensures
        !some_shape_hit(query, Seq::<S>::empty()),
        !is_hit_of_some_shape(query, Seq::<S>::empty(), h),
        no_shape_hit_nearer(query, Seq::<S>::empty(), h),
{
}

/// What keeping a hit does: a hit is kept whenever there is one, the kept hit is one of
/// the two, and, where "nearer" is a strict weak order, neither is nearer than it.
proof fn lemma_kept_hit<S, B, H, Q: VolumeQuery<S, B, H>>(query: Q, current: Option<H>, new: Option<H>)
    ensures
        kept_hit(query, current, new) is Some <==> (current is Some || new is Some),
        kept_hit(query, current, new) == current || kept_hit(query, current, new) == new,
        nearer_is_strict_weak_order(query) ==> (kept_hit(query, current, new) matches Some(h) ==> {
            &&& (current matches Some(a) ==> !query.spec_nearer(a, h))
            &&& (new matches Some(b) ==> !query.spec_nearer(b, h))
        }),
{
    if nearer_is_strict_weak_order(query) {
        if let (Some(a), Some(b)) = (current, new) {
            if query.spec_nearer(a, b) {
                assert(!query.spec_nearer(b, a));
                if query.spec_nearer(a, a) {
                    assert(!query.spec_nearer(a, a));
                }
            } else {
                if query.spec_nearer(b, b) {
                    assert(!query.spec_nearer(b, b));
                }
            }
        }
        if let (Some(a), None) = (current, new) {
            if query.spec_nearer(a, a) {
                assert(!query.spec_nearer(a, a));
            }
        }
        if let (None, Some(b)) = (current, new) {
            if query.spec_nearer(b, b) {
                assert(!query.spec_nearer(b, b));
            }
        }
    }
}

/// What a list keeps: a hit is kept whenever there is one, the kept hit is one of the
/// two, and, where "nearer" is a strict weak order, neither is nearer than it.
proof fn lemma_first_nearest<S, B, H, Q: VolumeQuery<S, B, H>>(query: Q, current: Option<H>, new: Option<H>)
    ensures
        first_nearest(query, current, new) is Some <==> (current is Some || new is Some),
        first_nearest(query, current, new) == current || first_nearest(query, current, new) == new,
        nearer_is_strict_weak_order(query) ==> (first_nearest(query, current, new) matches Some(h) ==> {
            &&& (current matches Some(a) ==> !query.spec_nearer(a, h))
            &&& (new matches Some(b) ==> !query.spec_nearer(b, h))
        }),
{
    if nearer_is_strict_weak_order(query) {
        if let (Some(a), Some(b)) = (current, new) {
            if query.spec_nearer(b, a) {
                assert(!query.spec_nearer(a, b));
                if query.spec_nearer(b, b) {
                    assert(!query.spec_nearer(b, b));
                }
            } else {
                if query.spec_nearer(a, a) {
                    assert(!query.spec_nearer(a, a));
                }
            }
        }
        if let (Some(a), None) = (current, new) {
            if query.spec_nearer(a, a) {
                assert(!query.spec_nearer(a, a));
            }
        }
        if let (None, Some(b)) = (current, new) {
            if query.spec_nearer(b, b) {
                assert(!query.spec_nearer(b, b));
            }
        }
    }
}

/// The hit a list of shapes gives is the nearest of the shapes' hits: there is one
/// exactly when some shape is hit, it is the hit of one of the shapes, and, where
/// "nearer" is a strict weak order, no shape is hit strictly nearer.
pub proof fn lemma_list_hit_is_nearest<S, B, H, Q: VolumeQuery<S, B, H>>(
    query: Q,
    shapes: Seq<S>,
    stats: RenderStats,
)
    ensures
        spec_list_hit(query, shapes, stats).0 is Some <==> some_shape_hit(query, shapes),
        spec_list_hit(query, shapes, stats).0 matches Some(h) ==> is_hit_of_some_shape(
            query,
            shapes,
            h,
        ),
        nearer_is_strict_weak_order(query) ==> (spec_list_hit(query, shapes, stats).0 matches Some(
            h,
        ) ==> no_shape_hit_nearer(query, shapes, h)),
    decreases shapes.len(),
{
    if shapes.len() == 0 {
        assert forall|h: H| true implies !is_hit_of_some_shape(query, shapes, h) by {
            lemma_hits_empty::<S, B, H, Q>(query, h);
        }
        lemma_hits_empty::<S, B, H, Q>(query, arbitrary());
    } else {
        let init = shapes.drop_last();
        let last = shapes.last();
        assert(shapes =~= init + seq![last]);
        lemma_list_hit_is_nearest(query, init, stats);
        let prev = spec_list_hit(query, init, stats).0;
        let new = query.spec_shape_hit(last);
        lemma_first_nearest(query, prev, new);
        let r = spec_list_hit(query, shapes, stats).0;
        assert(r == first_nearest(query, prev, new));
        lemma_hits_concat(query, init, seq![last], arbitrary());
        lemma_hits_single::<S, B, H, Q>(query, last, arbitrary());
        if let Some(h) = r {
            lemma_hits_concat(query, init, seq![last], h);
            lemma_hits_single::<S, B, H, Q>(query, last, h);
            if nearer_is_strict_weak_order(query) {
                if let Some(m) = prev {
                    lemma_hits_concat(query, init, seq![last], m);
                    assert(!query.spec_nearer(m, h));
                    assert forall|i: int| 0 <= i < init.len() implies (#[trigger] query.spec_shape_hit(
                        init[i],
                    ) matches Some(g) ==> !query.spec_nearer(g, h)) by {
                        if let Some(g) = query.spec_shape_hit(init[i]) {
                            assert(!query.spec_nearer(g, m));
                        }
                    }
                } else {
                    assert forall|i: int| 0 <= i < init.len() implies (#[trigger] query.spec_shape_hit(
                        init[i],
                    ) matches Some(g) ==> !query.spec_nearer(g, h)) by {
                        if query.spec_shape_hit(init[i]) is Some {
                            assert(some_shape_hit(query, init));
                        }
                    }
                }
            }
        }
    }
}

impl<S, B> Volume<S, B> {
    /// The shapes of the volume whose boxes, and the boxes of every volume above them,
    /// the ray meets: the shapes the walk tests, left to right.
    pub closed spec fn met_shapes<H, Q: VolumeQuery<S, B, H>>(self, query: Q) -> Seq<S>
        decreases self,
    {
        if query.spec_hits_box(self.bounding_box) {
            match self.inner_volume {
                Some(n) => n.met_shapes(query),
                None => Seq::empty(),
            }
        } else {
            Seq::empty()
        }
    }

    proof fn lemma_visit_result<H, Q: VolumeQuery<S, B, H>>(
        self,
        query: Q,
        acc: Option<H>,
        stats: RenderStats,
    )
        ensures
            self.spec_visit(query, acc, stats).0 is Some <==> (acc is Some || some_shape_hit(
                query,
                self.met_shapes(query),
            )),
            self.spec_visit(query, acc, stats).0 matches Some(h) ==> (acc == Some(h)
                || is_hit_of_some_shape(query, self.met_shapes(query), h)),
            nearer_is_strict_weak_order(query) ==> (self.spec_visit(query, acc, stats).0 matches Some(
                h,
            ) ==> {
                &&& (acc matches Some(a) ==> !query.spec_nearer(a, h))
                &&& no_shape_hit_nearer(query, self.met_shapes(query), h)
            }),
        decreases self,
    {
        let counted = one_more_box_test(stats);
        let met = self.met_shapes(query);
        if query.spec_hits_box(self.bounding_box) {
            match self.inner_volume {
                Some(n) => {
                    n.lemma_walk_result(query, acc, counted);
                },
                None => {
                    lemma_hits_empty::<S, B, H, Q>(query, arbitrary());
                    if let Some(h) = acc {
                        lemma_hits_empty::<S, B, H, Q>(query, h);
                        if nearer_is_strict_weak_order(query) && query.spec_nearer(h, h) {
                            assert(!query.spec_nearer(h, h));
                        }
                    }
                },
            }
        } else {
            lemma_hits_empty::<S, B, H, Q>(query, arbitrary());
            if let Some(h) = acc {
                lemma_hits_empty::<S, B, H, Q>(query, h);
                if nearer_is_strict_weak_order(query) && query.spec_nearer(h, h) {
                    assert(!query.spec_nearer(h, h));
                }
            }
        }
    }

    /// The hit `intersect` gives is the nearest hit of the shapes the ray reaches: there
    /// is one exactly when some shape whose boxes (its own volume's and every one above)
    /// the ray meets is hit, it is the hit of such a shape, and, where "nearer" is a
    /// strict weak order, no such shape is hit strictly nearer.
    pub proof fn lemma_hit_is_nearest<H, Q: VolumeQuery<S, B, H>>(self, query: Q, stats: RenderStats)
        ensures
            self.spec_hit(query, stats).0 is Some <==> some_shape_hit(query, self.met_shapes(query)),
            self.spec_hit(query, stats).0 matches Some(h) ==> is_hit_of_some_shape(
                query,
                self.met_shapes(query),
                h,
            ),
            nearer_is_strict_weak_order(query) ==> (self.spec_hit(query, stats).0 matches Some(h)
                ==> no_shape_hit_nearer(query, self.met_shapes(query), h)),
    {
        self.lemma_visit_result(query, None, stats);
    }
}

impl<S, B> InnerVolume<S, B> {
    /// The shapes below this node that the walk tests, left to right.
    pub closed spec fn met_shapes<H, Q: VolumeQuery<S, B, H>>(self, query: Q) -> Seq<S>
        decreases self,
    {
        match self {
            InnerVolume::SingleChild(s) => seq![s],
            InnerVolume::TwoChild { left, right } => left.met_shapes(query) + right.met_shapes(query),
        }
    }

    proof fn lemma_walk_result<H, Q: VolumeQuery<S, B, H>>(
        self,
        query: Q,
        acc: Option<H>,
        stats: RenderStats,
    )
        ensures
            self.spec_walk(query, acc, stats).0 is Some <==> (acc is Some || some_shape_hit(
                query,
                self.met_shapes(query),
            )),
            self.spec_walk(query, acc, stats).0 matches Some(h) ==> (acc == Some(h)
                || is_hit_of_some_shape(query, self.met_shapes(query), h)),
            nearer_is_strict_weak_order(query) ==> (self.spec_walk(query, acc, stats).0 matches Some(
                h,
            ) ==> {
                &&& (acc matches Some(a) ==> !query.spec_nearer(a, h))
                &&& no_shape_hit_nearer(query, self.met_shapes(query), h)
            }),
        decreases self,
    {
        match self {
            InnerVolume::SingleChild(s) => {
                let new = query.spec_shape_hit(s);
                lemma_kept_hit(query, acc, new);
                lemma_hits_single::<S, B, H, Q>(query, s, arbitrary());
                if let Some(h) = self.spec_walk(query, acc, stats).0 {
                    lemma_hits_single::<S, B, H, Q>(query, s, h);
                }
            },
            InnerVolume::TwoChild { left, right } => {
                let (mid, mid_stats) = left.spec_visit(query, acc, stats);
                left.lemma_visit_result(query, acc, stats);
                right.lemma_visit_result(query, mid, mid_stats);
                let ll = left.met_shapes(query);
                let rr = right.met_shapes(query);
                assert(self.met_shapes(query) == ll + rr);
                lemma_hits_concat(query, ll, rr, arbitrary());
                let r = self.spec_walk(query, acc, stats).0;
                assert(r == right.spec_visit(query, mid, mid_stats).0);
                if let Some(h) = r {
                    lemma_hits_concat(query, ll, rr, h);
                    if let Some(m) = mid {
                        lemma_hits_concat(query, ll, rr, m);
                    }
                    if nearer_is_strict_weak_order(query) {
                        if let Some(m) = mid {
                            assert(!query.spec_nearer(m, h));
                            if let Some(a) = acc {
                                assert(!query.spec_nearer(a, m));
                            }
                            assert forall|i: int| 0 <= i < ll.len() implies (
                            #[trigger] query.spec_shape_hit(ll[i]) matches Some(g)
                                ==> !query.spec_nearer(g, h)) by {
                                if let Some(g) = query.spec_shape_hit(ll[i]) {
                                    assert(!query.spec_nearer(g, m));
                                }
                            }
                        } else {
                            assert forall|i: int| 0 <= i < ll.len() implies (
                            #[trigger] query.spec_shape_hit(ll[i]) matches Some(g)
                                ==> !query.spec_nearer(g, h)) by {
                                if query.spec_shape_hit(ll[i]) is Some {
                                    assert(some_shape_hit(query, ll));
                                }
                            }
                        }
                    }
                }
            },
        }
    }
}

/// Whether every shape of `shapes` that the ray hits is hit strictly farther than `h`.
pub open spec fn every_shape_hit_farther<S, B, H, Q: VolumeQuery<S, B, H>>(query: Q, shapes: Seq<S>, h: H) -> bool {
    forall|i: int|
        0 <= i < shapes.len() ==> (#[trigger] query.spec_shape_hit(shapes[i]) matches Some(g)
            ==> query.spec_nearer(h, g))
}

/// Whether `h` is the hit of some shape of `shapes` that every later shape the ray hits
/// is hit strictly farther than: the last of equally near hits.
pub open spec fn is_last_nearest_hit<S, B, H, Q: VolumeQuery<S, B, H>>(query: Q, shapes: Seq<S>, h: H) -> bool {
    exists|j: int|
        0 <= j < shapes.len() && #[trigger] query.spec_shape_hit(shapes[j]) == Some(h) && forall|i: int|
            j < i < shapes.len() ==> (#[trigger] query.spec_shape_hit(shapes[i]) matches Some(g)
                ==> query.spec_nearer(h, g))
}

/// Whether `h` is the hit of some shape of `shapes` that is strictly nearer than the
/// hit of every earlier shape the ray hits: the first of equally near hits.
pub open spec fn is_first_nearest_hit<S, B, H, Q: VolumeQuery<S, B, H>>(query: Q, shapes: Seq<S>, h: H) -> bool {
    exists|j: int|
        0 <= j < shapes.len() && #[trigger] query.spec_shape_hit(shapes[j]) == Some(h) && forall|i: int|
            0 <= i < j ==> (#[trigger] query.spec_shape_hit(shapes[i]) matches Some(g)
                ==> query.spec_nearer(h, g))
}

proof fn lemma_farther_concat<S, B, H, Q: VolumeQuery<S, B, H>>(query: Q, l: Seq<S>, r: Seq<S>, h: H)
    ensures
        every_shape_hit_farther(query, l + r, h) == (every_shape_hit_farther(query, l, h)
            && every_shape_hit_farther(query, r, h)),
        is_last_nearest_hit(query, r, h) ==> is_last_nearest_hit(query, l + r, h),
        is_last_nearest_hit(query, l, h) && every_shape_hit_farther(query, r, h)
            ==> is_last_nearest_hit(query, l + r, h),
{
    let lr = l + r;
    if every_shape_hit_farther(query, lr, h) {
        assert forall|i: int| 0 <= i < l.len() implies (#[trigger] query.spec_shape_hit(l[i]) matches Some(g)
            ==> query.spec_nearer(h, g)) by {
            assert(lr[i] == l[i]);
        }
        assert forall|i: int| 0 <= i < r.len() implies (#[trigger] query.spec_shape_hit(r[i]) matches Some(g)
            ==> query.spec_nearer(h, g)) by {
            assert(lr[i + l.len()] == r[i]);
        }
    }
    if every_shape_hit_farther(query, l, h) && every_shape_hit_farther(query, r, h) {
        assert forall|i: int| 0 <= i < lr.len() implies (#[trigger] query.spec_shape_hit(lr[i]) matches Some(g)
            ==> query.spec_nearer(h, g)) by {
            if i < l.len() {
                assert(lr[i] == l[i]);
            } else {
                assert(lr[i] == r[i - l.len()]);
            }
        }
    }
    if is_last_nearest_hit(query, r, h) {
        let j = choose|j: int|
            0 <= j < r.len() && #[trigger] query.spec_shape_hit(r[j]) == Some(h) && forall|i: int|
                j < i < r.len() ==> (#[trigger] query.spec_shape_hit(r[i]) matches Some(g)
                    ==> query.spec_nearer(h, g));
        let jj = j + l.len();
        assert(lr[jj] == r[j]);
        assert forall|i: int| jj < i < lr.len() implies (#[trigger] query.spec_shape_hit(lr[i]) matches Some(g)
            ==> query.spec_nearer(h, g)) by {
            assert(lr[i] == r[i - l.len()]);
        }
        assert(query.spec_shape_hit(lr[jj]) == Some(h));
    }
    if is_last_nearest_hit(query, l, h) && every_shape_hit_farther(query, r, h) {
        let j = choose|j: int|
            0 <= j < l.len() && #[trigger] query.spec_shape_hit(l[j]) == Some(h) && forall|i: int|
                j < i < l.len() ==> (#[trigger] query.spec_shape_hit(l[i]) matches Some(g)
                    ==> query.spec_nearer(h, g));
        assert(lr[j] == l[j]);
        assert forall|i: int| j < i < lr.len() implies (#[trigger] query.spec_shape_hit(lr[i]) matches Some(g)
            ==> query.spec_nearer(h, g)) by {
            if i < l.len() {
                assert(lr[i] == l[i]);
            } else {
                assert(lr[i] == r[i - l.len()]);
            }
        }
        assert(query.spec_shape_hit(lr[j]) == Some(h));
    }
}

impl<S, B> Volume<S, B> {
    proof fn lemma_visit_last_nearest<H, Q: VolumeQuery<S, B, H>>(
        self,
        query: Q,
        acc: Option<H>,
        stats: RenderStats,
    )
        ensures
            self.spec_visit(query, acc, stats).0 matches Some(h) ==> ((acc == Some(h)
                && every_shape_hit_farther(query, self.met_shapes(query), h))
                || is_last_nearest_hit(query, self.met_shapes(query), h)),
        decreases self,
    {
        let counted = one_more_box_test(stats);
        if query.spec_hits_box(self.bounding_box) && self.inner_volume is Some {
            self.inner_volume->0.lemma_walk_last_nearest(query, acc, counted);
        }
    }

    /// Of equally near hits, `intersect` gives the one tested last: the hit it gives is
    /// that of a shape the ray reaches such that every shape tested after it is hit
    /// strictly farther (shapes are tested left to right).
    pub proof fn lemma_hit_is_last_of_nearest<H, Q: VolumeQuery<S, B, H>>(
        self,
        query: Q,
        stats: RenderStats,
    )
        ensures
            self.spec_hit(query, stats).0 matches Some(h) ==> is_last_nearest_hit(
                query,
                self.met_shapes(query),
                h,
            ),
    {
        self.lemma_visit_last_nearest(query, None, stats);
    }
}

impl<S, B> InnerVolume<S, B> {
    proof fn lemma_walk_last_nearest<H, Q: VolumeQuery<S, B, H>>(
        self,
        query: Q,
        acc: Option<H>,
        stats: RenderStats,
    )
        ensures
            self.spec_walk(query, acc, stats).0 matches Some(h) ==> ((acc == Some(h)
                && every_shape_hit_farther(query, self.met_shapes(query), h))
                || is_last_nearest_hit(query, self.met_shapes(query), h)),
        decreases self,
    {
        match self {
            InnerVolume::SingleChild(s) => {
                let l = seq![s];
                assert(l[0] == s);
                assert(self.met_shapes(query) == l);
                let new = query.spec_shape_hit(s);
                assert(self.spec_walk(query, acc, stats).0 == kept_hit(query, acc, new));
                if let Some(h) = self.spec_walk(query, acc, stats).0 {
                    if acc == Some(h) && (new matches Some(g) ==> query.spec_nearer(h, g)) {
                        assert forall|i: int| 0 <= i < l.len() implies (
                        #[trigger] query.spec_shape_hit(l[i]) matches Some(g) ==> query.spec_nearer(
                            h,
                            g,
                        )) by {}
                        assert(every_shape_hit_farther(query, l, h));
                    } else {
                        assert(new == Some(h));
                        assert(query.spec_shape_hit(l[0]) == Some(h));
                        assert(forall|i: int| 0 < i < l.len() ==> (#[trigger] query.spec_shape_hit(l[i]) matches Some(g)
                            ==> query.spec_nearer(h, g)));
                        assert(is_last_nearest_hit(query, l, h));
                    }
                }
            },
            InnerVolume::TwoChild { left, right } => {
                let (mid, mid_stats) = left.spec_visit(query, acc, stats);
                left.lemma_visit_last_nearest(query, acc, stats);
                right.lemma_visit_last_nearest(query, mid, mid_stats);
                let ll = left.met_shapes(query);
                let rr = right.met_shapes(query);
                assert(self.met_shapes(query) == ll + rr);
                if let Some(h) = self.spec_walk(query, acc, stats).0 {
                    lemma_farther_concat(query, ll, rr, h);
                }
            },
        }
    }
}

/// Of equally near hits, a list gives the first: the hit it gives is that of a shape
/// that, where "nearer" is a strict weak order, is hit strictly nearer than every
/// earlier shape the ray hits.
pub proof fn lemma_list_hit_is_first_of_nearest<S, B, H, Q: VolumeQuery<S, B, H>>(
    query: Q,
    shapes: Seq<S>,
    stats: RenderStats,
)
    requires
        nearer_is_strict_weak_order(query),
    ensures
        spec_list_hit(query, shapes, stats).0 matches Some(h) ==> is_first_nearest_hit(
            query,
            shapes,
            h,
        ),
    decreases shapes.len(),
{
    if shapes.len() > 0 {
        let init = shapes.drop_last();
        let last = shapes.last();
        let n = shapes.len() - 1;
        assert(shapes =~= init + seq![last]);
        lemma_list_hit_is_first_of_nearest(query, init, stats);
        lemma_list_hit_is_nearest(query, init, stats);
        let prev = spec_list_hit(query, init, stats).0;
        let new = query.spec_shape_hit(last);
        if let Some(h) = spec_list_hit(query, shapes, stats).0 {
            if prev == Some(h) {
                let j = choose|j: int|
                    0 <= j < init.len() && #[trigger] query.spec_shape_hit(init[j]) == Some(h)
                        && forall|i: int|
                        0 <= i < j ==> (#[trigger] query.spec_shape_hit(init[i]) matches Some(g)
                            ==> query.spec_nearer(h, g));
                assert(shapes[j] == init[j]);
                assert forall|i: int| 0 <= i < j implies (#[trigger] query.spec_shape_hit(shapes[i]) matches Some(g)
                    ==> query.spec_nearer(h, g)) by {
                    assert(shapes[i] == init[i]);
                }
                assert(query.spec_shape_hit(shapes[j]) == Some(h));
            } else {
                assert(new == Some(h));
                assert(shapes[n] == last);
                assert forall|i: int| 0 <= i < n implies (#[trigger] query.spec_shape_hit(shapes[i]) matches Some(g)
                    ==> query.spec_nearer(h, g)) by {
                    assert(shapes[i] == init[i]);
                    if let Some(g) = query.spec_shape_hit(init[i]) {
                        assert(some_shape_hit(query, init));
                        let c = prev->0;
                        assert(query.spec_nearer(h, c));
                        assert(!query.spec_nearer(g, c));
                        if !query.spec_nearer(h, g) {
                            assert(!query.spec_nearer(h, c));
                        }
                    }
                }
                assert(query.spec_shape_hit(shapes[n]) == Some(h));
            }
        }
    }
}

/// Whether testing a shape leaves the bounding-box counter as it is.
pub open spec fn shape_tests_keep_box_count<S, B, H, Q: VolumeQuery<S, B, H>>(query: Q) -> bool {
    forall|s: S, st: RenderStats|
        (#[trigger] query.spec_shape_stats(s, st)).bounding_box_tests == st.bounding_box_tests
}

impl<S, B> Volume<S, B> {
    /// How many boxes the walk tests: this volume's, and, where the ray meets a volume's
    /// box, those of the volumes directly below it, and so on down.
    pub closed spec fn tested_boxes<H, Q: VolumeQuery<S, B, H>>(self, query: Q) -> nat
        decreases self,
    {
        1 + if query.spec_hits_box(self.bounding_box) {
            match self.inner_volume {
                Some(n) => n.tested_boxes(query),
                None => 0,
            }
        } else {
            0
        }
    }

    proof fn lemma_visit_box_count<H, Q: VolumeQuery<S, B, H>>(
        self,
        query: Q,
        acc: Option<H>,
        stats: RenderStats,
    )
        requires
            shape_tests_keep_box_count(query),
            self.spec_visit_countable(query, stats),
        ensures
            self.spec_visit(query, acc, stats).1.bounding_box_tests == stats.bounding_box_tests
                + self.tested_boxes(query),
        decreases self,
    {
        let counted = one_more_box_test(stats);
        if query.spec_hits_box(self.bounding_box) {
            if let Some(n) = self.inner_volume {
                n.lemma_walk_box_count(query, acc, counted);
            }
        }
    }

    /// Every box the walk tests is counted once: where testing a shape leaves the
    /// bounding-box counter alone and the counters stay in range, `intersect` adds to
    /// it exactly the number of boxes tested.
    pub proof fn lemma_intersect_counts_boxes<H, Q: VolumeQuery<S, B, H>>(
        self,
        query: Q,
        stats: RenderStats,
    )
        requires
            shape_tests_keep_box_count(query),
            self.hit_countable(query, stats),
        ensures
            self.spec_hit(query, stats).1.bounding_box_tests == stats.bounding_box_tests
                + self.tested_boxes(query),
    {
        self.lemma_visit_box_count(query, None, stats);
    }
}

impl<S, B> InnerVolume<S, B> {
    /// How many boxes the walk below this node tests.
    pub closed spec fn tested_boxes<H, Q: VolumeQuery<S, B, H>>(self, query: Q) -> nat
        decreases self,
    {
        match self {
            InnerVolume::SingleChild(_) => 0,
            InnerVolume::TwoChild { left, right } => left.tested_boxes(query) + right.tested_boxes(
                query,
            ),
        }
    }

    proof fn lemma_walk_box_count<H, Q: VolumeQuery<S, B, H>>(
        self,
        query: Q,
        acc: Option<H>,
        stats: RenderStats,
    )
        requires
            shape_tests_keep_box_count(query),
            self.spec_walk_countable(query, stats),
        ensures
            self.spec_walk(query, acc, stats).1.bounding_box_tests == stats.bounding_box_tests
                + self.tested_boxes(query),
        decreases self,
    {
        match self {
            InnerVolume::SingleChild(s) => {
                assert(query.spec_shape_stats(s, stats).bounding_box_tests == stats.bounding_box_tests);
            },
            InnerVolume::TwoChild { left, right } => {
                left.lemma_visit_stats(query, acc, None, stats);
                left.lemma_visit_box_count(query, acc, stats);
                let mid = left.spec_visit(query, acc, stats);
                right.lemma_visit_box_count(query, mid.0, mid.1);
            },
        }
    }
}

impl<'a, S, B> VolumeIter<'a, S, B> {
    /// The shapes still to come, in order.
    pub closed spec fn remaining(&self) -> Seq<S> {
        stack_pending(self.stack@)
    }

    pub closed spec fn wf(&self) -> bool {
        forall|i: int| 0 <= i < self.stack@.len() ==> (#[trigger] self.stack@[i]).node_wf()
    }

    fn from_inner_volume(inner_volume: &'a Option<InnerVolume<S, B>>) -> (it: Self)
        requires
            inner_volume matches Some(n) ==> n.node_wf(),
        ensures
            it.wf(),
            it.remaining() == match inner_volume {
                Some(n) => n.leaves(),
                None => Seq::empty(),
            },
    {
        let mut ret = Self { stack: Vec::new() };
        proof {
            assert(ret.remaining() =~= Seq::<S>::empty());
        }
        if let Some(inner_volume) = inner_volume {
            ret.push_left_children(inner_volume);
            proof {
                assert(ret.remaining() =~= inner_volume.leaves());
            }
        }
        ret
    }

    /// Pushes `inner_volume` and the left spine below it.
    fn push_left_children(&mut self, inner_volume: &'a InnerVolume<S, B>)
        requires
            old(self).wf(),
            inner_volume.node_wf(),
        ensures
            final(self).wf(),
            final(self).remaining() == inner_volume.leaves() + old(self).remaining(),
            stack_work(final(self).stack@) == 2 * inner_volume.leaves().len() - 1 + stack_work(
                old(self).stack@,
            ),
    {
        let mut position = inner_volume;
        proof {
            inner_volume.lemma_leaves_nonempty();
        }
        loop
            invariant_except_break
                self.wf(),
                position.node_wf(),
                position.leaves() + self.remaining() == inner_volume.leaves() + old(self).remaining(),
                2 * position.leaves().len() + stack_work(self.stack@) == 2 * inner_volume.leaves().len()
                    + stack_work(old(self).stack@),
            ensures
                self.wf(),
                self.remaining() == inner_volume.leaves() + old(self).remaining(),
                stack_work(self.stack@) == 2 * inner_volume.leaves().len() - 1 + stack_work(
                    old(self).stack@,
                ),
            decreases position.height(),
        {
            let ghost before = self.stack@;
            match position {
                InnerVolume::TwoChild { left, .. } => {
                    let ghost prev = *position;
                    self.stack.push(position);
                    proof {
                        assert(self.stack@.drop_last() =~= before);
                    }
                    position = left.inner_volume.as_ref().unwrap();
                    proof {
                        assert(self.remaining() == pending(prev) + stack_pending(before));
                        assert(position.height() < prev.height());
                    }
                },
                InnerVolume::SingleChild(_) => {
                    self.stack.push(position);
                    proof {
                        assert(self.stack@.drop_last() =~= before);
                    }
                    break ;
                },
            }
        }
    }
}


impl<'a, S, B> VolumeIter<'a, S, B> {
    pub fn next(&mut self) -> (r: Option<&'a S>)
        requires
            old(self).wf(),
        ensures
            final(self).wf(),
            old(self).remaining().len() == 0 ==> r is None && final(self).remaining()
                == old(self).remaining(),
            old(self).remaining().len() > 0 ==> (r matches Some(s) && *s == old(self).remaining()[0]
                && final(self).remaining() == old(self).remaining().drop_first()),
    {
        loop
            invariant
                self.wf(),
                self.remaining() == old(self).remaining(),
            decreases stack_work(self.stack@),
        {
            let ghost before = self.stack@;
            match self.stack.pop() {
                Some(top) => {
                    proof {
                        assert(self.stack@ =~= before.drop_last());
                        assert(top.node_wf());
                    }
                    match top {
                        InnerVolume::SingleChild(child) => {
                            return Some(child);
                        },
                        InnerVolume::TwoChild { right, .. } => {
                            proof {
                                assert forall|i: int| 0 <= i < self.stack@.len() implies (
                                #[trigger] self.stack@[i]).node_wf() by {
                                    assert(self.stack@[i] == before[i]);
                                }
                            }
                            self.push_left_children(right.inner_volume.as_ref().unwrap());
                        },
                    }
                },
                None => {
                    return None;
                },
            }
        }
    }
}

impl<S, B> Volume<S, B> {
    /// The shapes of the volume, left to right.
    pub fn iter(&self) -> (it: VolumeIter<'_, S, B>)
        requires
            self.wf(),
        ensures
            it.wf(),
            it.remaining() == self.shapes(),
    {
        VolumeIter::from_inner_volume(&self.inner_volume)
    }
}

/// Builds a hierarchy over `shapes`.
pub fn volume<S, B, C: VolumeBounds<S, BoundingBox = B>>(shapes: Vec<S>, bounds: &C) -> (v: Volume<S, B>)
    ensures
        v.wf(),
        v.balanced(),
        v.shapes().to_multiset() == shapes@.to_multiset(),
        v.shapes().len() == shapes@.len(),
        v.boxes_ok(*bounds),
        (forall|axis: ComparatorAxis| #[trigger] axis_order_ok(*bounds, axis)) ==> v.splits_ok(*bounds),
{
    Volume::from_shapes(shapes, bounds)
}

} // verus!
