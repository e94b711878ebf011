use raytracer::shapes::volume::{volume, ComparatorAxis, InnerVolume, Volume, VolumeBounds, VolumeQuery};
use raytracer::shapes::shape::{CollectionShape, SimpleShape};
use raytracer::shapes::shape_list::ShapeList;
use raytracer::stats::{RenderStats, RenderStatsCollector, RenderStatsSource, TracingStats};
use raytracer::volume::{InnerVolume as OldInnerVolume, Volume as OldVolume, VolumeChild};

/// A point-like shape: an id and a position on each axis.
#[derive(Debug, Clone, Copy, PartialEq)]
struct Dot {
    id: u32,
    pos: [i64; 3],
}

/// Boxes are (min, max) along the x axis.
struct DotBounds;

impl VolumeBounds<Dot> for DotBounds {
    type BoundingBox = (i64, i64);

    fn spec_bounding_box(&self, shape: Dot) -> (i64, i64) {
        self.bounding_box(&shape)
    }

    fn spec_surrounding_box(&self, a: (i64, i64), b: (i64, i64)) -> (i64, i64) {
        self.surrounding_box(&a, &b)
    }

    fn spec_empty_box(&self) -> (i64, i64) {
        self.empty_box()
    }

    fn spec_axis_less(&self, left: Dot, right: Dot, axis: ComparatorAxis) -> bool {
        self.axis_less(&left, &right, axis)
    }

    fn bounding_box(&self, shape: &Dot) -> (i64, i64) {
        (shape.pos[0], shape.pos[0])
    }

    fn surrounding_box(&self, a: &(i64, i64), b: &(i64, i64)) -> (i64, i64) {
        (a.0.min(b.0), a.1.max(b.1))
    }

    fn empty_box(&self) -> (i64, i64) {
        (i64::MAX, i64::MIN)
    }

    fn axis_less(&self, left: &Dot, right: &Dot, axis: ComparatorAxis) -> bool {
        let i = match axis {
            ComparatorAxis::X => 0,
            ComparatorAxis::Y => 1,
            ComparatorAxis::Z => 2,
        };
        left.pos[i] < right.pos[i]
    }
}

fn dots(n: u32) -> Vec<Dot> {
    (0..n)
        .map(|i| Dot { id: i, pos: [(i * 7 % 13) as i64, (i * 5 % 11) as i64, i as i64] })
        .collect()
}

fn sorted_ids(mut ids: Vec<u32>) -> Vec<u32> {
    ids.sort();
    ids
}

#[test]
fn test_volume_iterators() {
    let shapes: Vec<Dot> = (0..100).map(|i| Dot { id: i, pos: [0, 0, 0] }).collect();
    let volume = Volume::from_shapes(shapes, &DotBounds);

    let mut iter = volume.iter();
    let mut count = 0;
    while iter.next().is_some() {
        count += 1;
    }
    assert_eq!(count, 100);
}

#[test]
fn volume_iterates_every_shape_once() {
    let v = volume(dots(37), &DotBounds);
    let mut iter = v.iter();
    let mut ids = Vec::new();
    while let Some(d) = iter.next() {
        ids.push(d.id);
    }
    assert_eq!(sorted_ids(ids), (0..37).collect::<Vec<u32>>());
}

#[test]
fn empty_volume() {
    let v: Volume<Dot, (i64, i64)> = Volume::from_shapes(Vec::new(), &DotBounds);
    assert!(v.inner_volume().is_none());
    assert_eq!(*v.bounding_box(), (i64::MAX, i64::MIN));
    assert!(v.iter().next().is_none());
}

#[test]
fn volume_box_holds_all_shapes() {
    let v = volume(dots(20), &DotBounds);
    let all = dots(20);
    let min = all.iter().map(|d| d.pos[0]).min().unwrap();
    let max = all.iter().map(|d| d.pos[0]).max().unwrap();
    assert_eq!(*v.bounding_box(), (min, max));
}

#[test]
fn volume_splits_in_halves() {
    let v = volume(dots(5), &DotBounds);
    match v.inner_volume() {
        Some(InnerVolume::TwoChild { left, right }) => {
            let mut l = left.iter();
            let mut n_left = 0;
            while l.next().is_some() {
                n_left += 1;
            }
            let mut r = right.iter();
            let mut n_right = 0;
            while r.next().is_some() {
                n_right += 1;
            }
            assert_eq!((n_left, n_right), (2, 3));
        }
        _ => panic!("five shapes make a two-child node"),
    }
}

#[test]
fn single_shape_volume() {
    let v = volume(dots(1), &DotBounds);
    match v.inner_volume() {
        Some(InnerVolume::SingleChild(d)) => assert_eq!(d.id, 0),
        _ => panic!("one shape makes a single-child node"),
    }
}

fn old_leaves(v: &OldVolume<Dot, (i64, i64)>, out: &mut Vec<u32>) {
    match v.inner_volume() {
        OldInnerVolume::NoChild => {}
        OldInnerVolume::SingleChild(d) => out.push(d.id),
        OldInnerVolume::TwoChild { left, right } => {
            for child in [left, right] {
                match child {
                    VolumeChild::Shape(d) => out.push(d.id),
                    VolumeChild::Volume(sub) => old_leaves(sub, out),
                }
            }
        }
    }
}

#[test]
fn hierarchy_of_no_shape() {
    let v = OldVolume::from_shapes(Vec::new(), &DotBounds);
    assert!(matches!(v.inner_volume(), OldInnerVolume::NoChild));
    assert_eq!(*v.bounding_box(), (i64::MAX, i64::MIN));
}

#[test]
fn hierarchy_of_two_shapes_holds_them_directly() {
    let v = OldVolume::from_shapes(dots(2), &DotBounds);
    match v.inner_volume() {
        OldInnerVolume::TwoChild { left: VolumeChild::Shape(a), right: VolumeChild::Shape(b) } => {
            assert_eq!(sorted_ids(vec![a.id, b.id]), vec![0, 1]);
        }
        _ => panic!("two shapes are held by one node"),
    }
}

#[test]
fn hierarchy_keeps_every_shape() {
    for n in [1u32, 3, 4, 10, 33] {
        let v = OldVolume::from_shapes(dots(n), &DotBounds);
        let mut ids = Vec::new();
        old_leaves(&v, &mut ids);
        assert_eq!(sorted_ids(ids), (0..n).collect::<Vec<u32>>());
    }
}

#[test]
fn hierarchy_of_three_shapes_splits_one_and_two() {
    let v = OldVolume::from_shapes(dots(3), &DotBounds);
    match v.inner_volume() {
        OldInnerVolume::TwoChild { left: VolumeChild::Volume(l), right: VolumeChild::Volume(r) } => {
            assert!(matches!(l.inner_volume(), OldInnerVolume::SingleChild(_)));
            assert!(matches!(
                r.inner_volume(),
                OldInnerVolume::TwoChild { left: VolumeChild::Shape(_), right: VolumeChild::Shape(_) }
            ));
        }
        _ => panic!("three shapes are split in two volumes"),
    }
}

#[test]
fn volume_iterates_in_axis_order() {
    // Every axis orders these dots the same way, so whichever axis is picked the
    // hierarchy holds them in that order.
    let order = [5u32, 2, 9, 0, 7, 1, 8, 3, 6, 4];
    let shapes: Vec<Dot> = order.iter().map(|&i| Dot { id: i, pos: [i as i64; 3] }).collect();
    let v = volume(shapes, &DotBounds);
    let mut iter = v.iter();
    let mut ids = Vec::new();
    while let Some(d) = iter.next() {
        ids.push(d.id);
    }
    assert_eq!(ids, (0..10).collect::<Vec<u32>>());
}

/// A "ray" along x: it meets what lies within `lo..=hi` on the x axis; the distance of a
/// dot is its z position.
struct Slab {
    lo: i64,
    hi: i64,
}

impl VolumeQuery<Dot, (i64, i64), (i64, u32)> for Slab {
    fn spec_hits_box(&self, bounding_box: (i64, i64)) -> bool {
        self.hits_box(&bounding_box)
    }

    fn spec_shape_hit(&self, shape: Dot) -> Option<(i64, u32)> {
        if self.lo <= shape.pos[0] && shape.pos[0] <= self.hi {
            Some((shape.pos[2], shape.id))
        } else {
            None
        }
    }

    fn spec_shape_stats(&self, _shape: Dot, before: RenderStats) -> RenderStats {
        RenderStats { sphere_tests: before.sphere_tests + 1, ..before }
    }

    fn spec_shape_countable(&self, _shape: Dot, before: RenderStats) -> bool {
        before.sphere_tests < usize::MAX
    }

    fn spec_nearer(&self, a: (i64, u32), b: (i64, u32)) -> bool {
        a.0 < b.0
    }

    fn hits_box(&self, bounding_box: &(i64, i64)) -> bool {
        bounding_box.0 <= self.hi && self.lo <= bounding_box.1
    }

    fn shape_hit<C: RenderStatsCollector>(&self, shape: &Dot, stats: &mut C) -> Option<(i64, u32)> {
        stats.count_sphere_test();
        self.spec_shape_hit(*shape)
    }

    fn nearer(&self, a: &(i64, u32), b: &(i64, u32)) -> bool {
        a.0 < b.0
    }
}

#[test]
fn volume_intersect_keeps_nearest_hit() {
    let v = volume(dots(37), &DotBounds);
    let mut stats = TracingStats::new();
    // Dots 10, 12, 23, 25 and 36 lie at x 5 or 6; dot 10 is the nearest of them.
    let hit = v.intersect(&Slab { lo: 5, hi: 6 }, &mut stats);
    assert_eq!(hit, Some((10, 10)));
    let counted = stats.get_stats();
    assert!(counted.sphere_tests >= 5);
    assert!(counted.sphere_tests < 37);
    assert!(counted.bounding_box_tests >= 1);
}

#[test]
fn volume_intersect_counts_every_test_when_all_boxes_are_met() {
    let v = volume(dots(37), &DotBounds);
    let mut stats = TracingStats::new();
    let hit = v.intersect(&Slab { lo: i64::MIN, hi: i64::MAX }, &mut stats);
    assert_eq!(hit, Some((0, 0)));
    let counted = stats.get_stats();
    // 37 leaves make 73 volumes, each box tested once; each shape tested once.
    assert_eq!(counted.bounding_box_tests, 73);
    assert_eq!(counted.sphere_tests, 37);
    assert_eq!(counted.rays_cast, 0);
}

#[test]
fn volume_intersect_missed_box_tests_nothing_inside() {
    let v = volume(dots(37), &DotBounds);
    let mut stats = TracingStats::new();
    let hit = v.intersect(&Slab { lo: 100, hi: 200 }, &mut stats);
    assert_eq!(hit, None);
    let counted = stats.get_stats();
    assert_eq!(counted.bounding_box_tests, 1);
    assert_eq!(counted.sphere_tests, 0);
}

#[test]
fn empty_volume_intersect_tests_only_its_box() {
    let v: Volume<Dot, (i64, i64)> = Volume::from_shapes(Vec::new(), &DotBounds);
    let mut stats = TracingStats::new();
    let hit = v.intersect(&Slab { lo: i64::MIN, hi: i64::MAX }, &mut stats);
    assert_eq!(hit, None);
    assert_eq!(stats.get_stats().bounding_box_tests, 1);
}

impl SimpleShape for Dot {}

fn three_dots() -> Vec<Dot> {
    vec![
        Dot { id: 1, pos: [0, 0, 5] },
        Dot { id: 2, pos: [1, 0, 3] },
        Dot { id: 3, pos: [2, 0, 3] },
    ]
}

#[test]
fn shape_list_keeps_first_of_equally_near_hits() {
    let mut list: ShapeList<Dot> = ShapeList::build();
    for d in three_dots() {
        list.push(d);
    }
    let mut stats = TracingStats::new();
    let hit = list.intersect(&Slab { lo: i64::MIN, hi: i64::MAX }, &mut stats);
    assert_eq!(hit, Some((3, 2)));
    assert_eq!(stats.get_stats().sphere_tests, 3);
    assert_eq!(stats.get_stats().bounding_box_tests, 0);
}

#[test]
fn shape_list_missed_by_the_ray() {
    let mut list: ShapeList<Dot> = ShapeList::build();
    for d in three_dots() {
        list.push(d);
    }
    let mut stats = TracingStats::new();
    assert_eq!(list.intersect(&Slab { lo: 10, hi: 20 }, &mut stats), None);
    assert_eq!(stats.get_stats().sphere_tests, 3);
}

#[test]
fn shape_list_bounding_box() {
    let mut list: ShapeList<Dot> = ShapeList::build();
    assert_eq!(list.bounding_box(&DotBounds), (i64::MAX, i64::MIN));
    for d in three_dots() {
        list.push(d);
    }
    assert_eq!(list.bounding_box(&DotBounds), (0, 2));
}

#[test]
fn collection_shape_intersect_and_box() {
    let mut c: CollectionShape<Dot> = CollectionShape::new();
    for d in three_dots() {
        c.push(d);
    }
    let mut stats = TracingStats::new();
    assert_eq!(c.intersect(&Slab { lo: 2, hi: 2 }, &mut stats), Some((3, 3)));
    assert_eq!(stats.get_stats().sphere_tests, 3);
    assert_eq!(c.bounding_box(&DotBounds), (0, 2));
}
