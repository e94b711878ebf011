use vstd::prelude::*;

use crate::shapes::volume::{
    apart_along, axis_order_ok, group_box, lemma_group_box_concat, lemma_group_box_permutation,
    lemma_halves_apart, random_axis, sort_along_axis, surrounding_associative,
    surrounding_commutative, ComparatorAxis, VolumeBounds,
};

verus! {

broadcast use vstd::seq_lib::group_to_multiset_ensures;

/// One side of a two-child node: a shape itself, or a smaller volume.
#[derive(Debug)]
pub enum VolumeChild<S, B> {
    Shape(S),
    Volume(Box<Volume<S, B>>),
}

/// The contents of a volume: nothing, one shape, or two children.
#[derive(Debug)]
pub enum InnerVolume<S, B> {
    NoChild,
    SingleChild(S),
    TwoChild { left: VolumeChild<S, B>, right: VolumeChild<S, B> },
}

/// A bounding volume hierarchy over shapes, where a pair of shapes is held directly by
/// the node above them.
#[derive(Debug)]
pub struct Volume<S, B> {
    inner_volume: InnerVolume<S, B>,
    bounding_box: B,
}

impl<S, B> InnerVolume<S, B> {
    /// The shapes below this node, left to right.
    pub closed spec fn leaves(self) -> Seq<S>
        decreases self,
    {
        match self {
            InnerVolume::NoChild => Seq::empty(),
            InnerVolume::SingleChild(s) => seq![s],
            InnerVolume::TwoChild { left, right } => {
                let l = match left {
                    VolumeChild::Shape(s) => seq![s],
                    VolumeChild::Volume(v) => v.inner_volume.leaves(),
                };
                let r = match right {
                    VolumeChild::Shape(s) => seq![s],
                    VolumeChild::Volume(v) => v.inner_volume.leaves(),
                };
                l + r
            },
        }
    }

    /// The shape the hierarchy builder gives a node: a two-child node holds either two
    /// shapes, or two non-empty volumes that split at least three shapes with half of
    /// them, rounded down, on the left.
    pub closed spec fn node_wf(self) -> bool
        decreases self,
    {
        match self {
            InnerVolume::NoChild => true,
            InnerVolume::SingleChild(_) => true,
            InnerVolume::TwoChild { left, right } => match (left, right) {
                (VolumeChild::Shape(_), VolumeChild::Shape(_)) => true,
                (VolumeChild::Volume(l), VolumeChild::Volume(r)) => {
                    &&& l.inner_volume !is NoChild
                    &&& r.inner_volume !is NoChild
                    &&& l.inner_volume.node_wf()
                    &&& r.inner_volume.node_wf()
                    &&& l.inner_volume.leaves().len() + r.inner_volume.leaves().len() >= 3
                    &&& l.inner_volume.leaves().len() == (l.inner_volume.leaves().len()
                        + r.inner_volume.leaves().len()) / 2
                },
                _ => false,
            },
        }
    }
}

impl<S, B> Volume<S, B> {
    /// The volume has the shape the hierarchy builder gives it.
    pub closed spec fn wf(self) -> bool {
        self.inner_volume.node_wf()
    }

    /// The shapes held, left to right.
    pub closed spec fn shapes(self) -> Seq<S> {
        self.inner_volume.leaves()
    }

    pub closed spec fn root(self) -> InnerVolume<S, B> {
        self.inner_volume
    }

    pub closed spec fn spec_bounding_box(self) -> B {
        self.bounding_box
    }

    /// The box that holds everything in the volume.
    pub fn bounding_box(&self) -> (b: &B)
        ensures
            *b == self.spec_bounding_box(),
    {
        &self.bounding_box
    }

    /// The contents of the root.
    pub fn inner_volume(&self) -> (n: &InnerVolume<S, B>)
        ensures
            *n == self.root(),
    {
        &self.inner_volume
    }
}

/// The box of one side of a split: the box of a shape, or the box a volume stores.
pub open spec fn child_box<S, B, C: VolumeBounds<S, BoundingBox = B>>(bounds: C, child: VolumeChild<S, B>) -> B {
    match child {
        VolumeChild::Shape(shape) => bounds.spec_bounding_box(shape),
        VolumeChild::Volume(volume) => volume.spec_bounding_box(),
    }
}

/// The box that the hierarchy builder stores with a node: the empty box, the box of its
/// single shape, or the box around the boxes of its two sides.
pub open spec fn node_box<S, B, C: VolumeBounds<S, BoundingBox = B>>(bounds: C, node: InnerVolume<S, B>) -> B {
    match node {
        InnerVolume::NoChild => bounds.spec_empty_box(),
        InnerVolume::SingleChild(shape) => bounds.spec_bounding_box(shape),
        InnerVolume::TwoChild { left, right } => bounds.spec_surrounding_box(
            child_box(bounds, left),
            child_box(bounds, right),
        ),
    }
}

impl<S, B> InnerVolume<S, B> {
    /// Every volume below this node stores the box of its root.
    pub closed spec fn node_boxes_ok<C: VolumeBounds<S, BoundingBox = B>>(self, bounds: C) -> bool
        decreases self,
    {
        match self {
            InnerVolume::TwoChild { left, right } => {
                &&& match left {
                    VolumeChild::Shape(_) => true,
                    VolumeChild::Volume(v) => v.bounding_box == node_box(bounds, v.inner_volume)
                        && v.inner_volume.node_boxes_ok(bounds),
                }
                &&& match right {
                    VolumeChild::Shape(_) => true,
                    VolumeChild::Volume(v) => v.bounding_box == node_box(bounds, v.inner_volume)
                        && v.inner_volume.node_boxes_ok(bounds),
                }
            },
            _ => true,
        }
    }
}

/// The shapes on one side of a split.
pub open spec fn child_shapes<S, B>(child: VolumeChild<S, B>) -> Seq<S> {
    match child {
        VolumeChild::Shape(shape) => seq![shape],
        VolumeChild::Volume(volume) => volume.shapes(),
    }
}

impl<S, B> InnerVolume<S, B> {
    /// At every split below this node some axis has no shape on the right strictly before
    /// a shape on the left.
    pub closed spec fn node_splits_ok<C: VolumeBounds<S>>(self, bounds: C) -> bool
        decreases self,
    {
        match self {
            InnerVolume::TwoChild { left, right } => {
                &&& exists|axis: ComparatorAxis|
                    apart_along(child_shapes(left), child_shapes(right), bounds, axis)
                &&& match left {
                    VolumeChild::Shape(_) => true,
                    VolumeChild::Volume(v) => v.inner_volume.node_splits_ok(bounds),
                }
                &&& match right {
                    VolumeChild::Shape(_) => true,
                    VolumeChild::Volume(v) => v.inner_volume.node_splits_ok(bounds),
                }
            },
            _ => true,
        }
    }
}

impl<S, B> Volume<S, B> {
    /// The volume and every volume below it store the box the builder gives them: the
    /// empty box when empty, the box of the shape for a single shape, and the box around
    /// the boxes of the two sides for a split.
    pub open spec fn boxes_ok<C: VolumeBounds<S, BoundingBox = B>>(self, bounds: C) -> bool {
        &&& self.spec_bounding_box() == node_box(bounds, self.root())
        &&& self.root().node_boxes_ok(bounds)
    }

    /// Each split of the volume separates its two sides along some axis.
    pub open spec fn splits_ok<C: VolumeBounds<S>>(self, bounds: C) -> bool {
        self.root().node_splits_ok(bounds)
    }
}

fn compute_inner_volume_bounding_box<S, B, C: VolumeBounds<S, BoundingBox = B>>(
    inner_volume: &InnerVolume<S, B>,
    bounds: &C,
) -> (b: B)
    ensures
        b == node_box(*bounds, *inner_volume),
{
    match inner_volume {
        InnerVolume::NoChild => bounds.empty_box(),
        InnerVolume::SingleChild(child) => bounds.bounding_box(child),
        InnerVolume::TwoChild { left, right } => match (left, right) {
            (VolumeChild::Shape(l), VolumeChild::Shape(r)) => {
                let left_box = bounds.bounding_box(l);
                let right_box = bounds.bounding_box(r);
                bounds.surrounding_box(&left_box, &right_box)
            },
            (VolumeChild::Shape(l), VolumeChild::Volume(r)) => {
                let left_box = bounds.bounding_box(l);
                bounds.surrounding_box(&left_box, &r.bounding_box)
            },
            (VolumeChild::Volume(l), VolumeChild::Shape(r)) => {
                let right_box = bounds.bounding_box(r);
                bounds.surrounding_box(&l.bounding_box, &right_box)
            },
            (VolumeChild::Volume(l), VolumeChild::Volume(r)) => bounds.surrounding_box(
                &l.bounding_box,
                &r.bounding_box,
            ),
        },
    }
}

impl<S, B> Volume<S, B> {
    /// Builds a hierarchy over `shapes`: at each level of two or more shapes they are
    /// sorted along a random axis; two shapes become the two children, more are split in
    /// two volumes, the first over `len / 2` of them.
    pub fn from_shapes<C: VolumeBounds<S, BoundingBox = B>>(shapes: Vec<S>, bounds: &C) -> (v: Self)
        ensures
            v.wf(),
            v.shapes().to_multiset() == shapes@.to_multiset(),
            v.shapes().len() == shapes@.len(),
            shapes@.len() == 0 <==> v.root() is NoChild,
            shapes@.len() == 1 <==> v.root() is SingleChild,
            v.boxes_ok(*bounds),
            (forall|axis: ComparatorAxis| #[trigger] axis_order_ok(*bounds, axis)) ==> v.splits_ok(*bounds),
    {
        Self::from_shapes_slice(shapes, bounds)
    }

    fn from_shapes_slice<C: VolumeBounds<S, BoundingBox = B>>(shapes: Vec<S>, bounds: &C) -> (v: Self)
        ensures
            v.wf(),
            v.shapes().to_multiset() == shapes@.to_multiset(),
            v.shapes().len() == shapes@.len(),
            shapes@.len() == 0 <==> v.root() is NoChild,
            shapes@.len() == 1 <==> v.root() is SingleChild,
            v.boxes_ok(*bounds),
            (forall|axis: ComparatorAxis| #[trigger] axis_order_ok(*bounds, axis)) ==> v.splits_ok(*bounds),
        decreases shapes@.len(),
    {
        let mut shapes = shapes;
        if shapes.len() == 0 {
            proof {
                assert(shapes@ =~= Seq::empty());
            }
            Self::from_inner_volume(InnerVolume::NoChild, bounds)
        } else if shapes.len() == 1 {
            let ghost s0 = shapes@;
            let only = shapes.pop().unwrap();
            proof {
                assert(s0 =~= seq![only]);
            }
            Self::from_inner_volume(InnerVolume::SingleChild(only), bounds)
        } else {
            // Sort the shapes along a random axis
            let axis = random_axis();
            let mut sorted = sort_along_axis(shapes, bounds, axis);
            if sorted.len() == 2 {
                let ghost all = sorted@;
                let right = sorted.pop().unwrap();
                let left = sorted.pop().unwrap();
                let inner = InnerVolume::TwoChild {
                    left: VolumeChild::<S, B>::Shape(left),
                    right: VolumeChild::<S, B>::Shape(right),
                };
                proof {
                    assert(all =~= seq![left, right]);
                    assert(inner.leaves() =~= seq![left, right]);
                    if forall|ax: ComparatorAxis| #[trigger] axis_order_ok(*bounds, ax) {
                        assert(axis_order_ok(*bounds, axis));
                        assert(all.take(1) =~= seq![left]);
                        assert(all.skip(1) =~= seq![right]);
                        lemma_halves_apart(all, 1, seq![left], seq![right], *bounds, axis);
                        assert(child_shapes(VolumeChild::<S, B>::Shape(left)) == seq![left]);
                        assert(child_shapes(VolumeChild::<S, B>::Shape(right)) == seq![right]);
                        assert(apart_along(
                            child_shapes(VolumeChild::<S, B>::Shape(left)),
                            child_shapes(VolumeChild::<S, B>::Shape(right)),
                            *bounds,
                            axis,
                        ));
                        assert(inner.node_splits_ok(*bounds));
                    }
                }
                Self::from_inner_volume(inner, bounds)
            } else {
                let pivot = sorted.len() / 2;
                let ghost all = sorted@;
                let right_shapes = sorted.split_off(pivot);
                proof {
                    assert(all =~= sorted@ + right_shapes@);
                    assert(all.take(pivot as int) =~= sorted@);
                    assert(all.skip(pivot as int) =~= right_shapes@);
                    vstd::seq_lib::lemma_multiset_commutative(sorted@, right_shapes@);
                }
                let left = Self::from_shapes_slice(sorted, bounds);
                let right = Self::from_shapes_slice(right_shapes, bounds);
                let inner = InnerVolume::TwoChild {
                    left: VolumeChild::Volume(Box::new(left)),
                    right: VolumeChild::Volume(Box::new(right)),
                };
                proof {
                    assert(inner.leaves() == left.shapes() + right.shapes());
                    vstd::seq_lib::lemma_multiset_commutative(left.shapes(), right.shapes());
                    if forall|ax: ComparatorAxis| #[trigger] axis_order_ok(*bounds, ax) {
                        assert(axis_order_ok(*bounds, axis));
                        lemma_halves_apart(all, pivot as int, left.shapes(), right.shapes(), *bounds, axis);
                        assert(child_shapes(VolumeChild::Volume(Box::new(left))) == left.shapes());
                        assert(child_shapes(VolumeChild::Volume(Box::new(right))) == right.shapes());
                        assert(apart_along(
                            child_shapes(VolumeChild::Volume(Box::new(left))),
                            child_shapes(VolumeChild::Volume(Box::new(right))),
                            *bounds,
                            axis,
                        ));
                        assert(inner.node_splits_ok(*bounds));
                    }
                }
                Self::from_inner_volume(inner, bounds)
            }
        }
    }

    fn from_inner_volume<C: VolumeBounds<S, BoundingBox = B>>(
        inner_volume: InnerVolume<S, B>,
        bounds: &C,
    ) -> (v: Self)
        requires
            inner_volume.node_boxes_ok(*bounds),
        ensures
            v.root() == inner_volume,
            v.boxes_ok(*bounds),
    {
        let bounding_box = compute_inner_volume_bounding_box(&inner_volume, bounds);
        Volume { inner_volume, bounding_box }
    }
}

impl<S, B> InnerVolume<S, B> {
    /// The box of a well-built node is the combined box of the shapes below it.
    proof fn lemma_node_box_is_group_box<C: VolumeBounds<S, BoundingBox = B>>(self, bounds: C)
        requires
            surrounding_associative(bounds),
            self.node_wf(),
            self.node_boxes_ok(bounds),
        ensures
            node_box(bounds, self) == group_box(bounds, self.leaves()),
        decreases self,
    {
        match self {
            InnerVolume::NoChild => {},
            InnerVolume::SingleChild(s) => {
                assert(self.leaves() =~= seq![s]);
            },
            InnerVolume::TwoChild { left, right } => {
                match left {
                    VolumeChild::Shape(a) => {
                        assert(child_shapes(left) =~= seq![a]);
                    },
                    VolumeChild::Volume(v) => {
                        v.inner_volume.lemma_node_box_is_group_box(bounds);
                    },
                }
                match right {
                    VolumeChild::Shape(b) => {
                        assert(child_shapes(right) =~= seq![b]);
                    },
                    VolumeChild::Volume(v) => {
                        v.inner_volume.lemma_node_box_is_group_box(bounds);
                    },
                }
                assert(self.leaves() == child_shapes(left) + child_shapes(right));
                lemma_group_box_concat(bounds, child_shapes(left), child_shapes(right));
            },
        }
    }
}

impl<S, B> Volume<S, B> {
    /// The box a built volume stores is the box around all of its shapes: the empty box
    /// for no shape, the shape's box for one, and, where combining boxes is associative
    /// and commutative, the boxes of `shapes` combined from first to last for more, in
    /// whatever order `shapes` lists them.
    pub proof fn lemma_box_is_box_of_shapes<C: VolumeBounds<S, BoundingBox = B>>(
        self,
        bounds: C,
        shapes: Seq<S>,
    )
        requires
            shapes.len() >= 2 ==> surrounding_associative(bounds) && surrounding_commutative(
                bounds,
            ),
            self.wf(),
            self.boxes_ok(bounds),
            self.shapes().to_multiset() == shapes.to_multiset(),
        ensures
            self.spec_bounding_box() == group_box(bounds, shapes),
    {
        let n = self.inner_volume;
        vstd::seq_lib::to_multiset_len(shapes);
        vstd::seq_lib::to_multiset_len(n.leaves());
        if shapes.len() >= 2 {
            n.lemma_node_box_is_group_box(bounds);
            lemma_group_box_permutation(bounds, n.leaves(), shapes);
        } else {
            match n {
                InnerVolume::NoChild => {
                    assert(n.leaves() =~= Seq::<S>::empty());
                },
                InnerVolume::SingleChild(s) => {
                    assert(n.leaves() =~= seq![s]);
                    assert(n.leaves()[0] == s);
                    assert(n.leaves().contains(s));
                    assert(shapes.to_multiset().contains(s));
                    assert(shapes.contains(s));
                },
                InnerVolume::TwoChild { left, right } => {
                    match (left, right) {
                        (VolumeChild::Shape(a), VolumeChild::Shape(b)) => {
                            assert(child_shapes(left) =~= seq![a]);
                            assert(child_shapes(right) =~= seq![b]);
                        },
                        _ => {},
                    }
                    assert(n.leaves() == child_shapes(left) + child_shapes(right));
                },
            }
        }
    }
}

} // verus!
