use std::sync::Arc;

use raytracer::shapes::geometry_wrapper::geometry_wrapper;
use raytracer::shapes::invert_normal::{invert_normal, InvertNormal};
use raytracer::shapes::medium::{isotropic, medium};
use raytracer::shapes::parabola::parabola;
use raytracer::shapes::primitive::{
    CompoundPrimitive, IntoAggregatePrimitive, IntoPrimitive, PrimitiveHitResult,
    SkinnablePrimitive, SkinnedPrimitive, SkinnedPrimitiveIterator, UntransformedPrimitive,
};
use raytracer::shapes::scale::scale;
use raytracer::shapes::shape::{CollectionShape, HitResult, IntoShape, SimpleShape};
use raytracer::shapes::shape_list::ShapeList;
use raytracer::shapes::sphere::Sphere as UnitSphere;
use raytracer::shapes::transform::{TransformablePrimitive, TransformableShape, TransformedShape};
use raytracer::shapes::translate::translate;
use raytracer::shapes::unskinned_shape::{
    CompoundUnskinnedShape, SkinnableShape, UnskinnedHitResult, UnskinnedSimpleShape,
};
use raytracer::shapes::volume::{ComparatorAxis, VolumeBounds};
use raytracer::skinnable::{DefaultSkinnable, Skinnable, Skinned};
use raytracer::sky::{color_sky, regular_sky, Sky};
use raytracer::sphere::{MovingSphere, Sphere};
use raytracer::texture::{checker_texture, solid_texture, CheckerPoint, Texture};
use raytracer::textures::{self, Texture as UvTexture};
use raytracer::transform::{DefaultTransformable, StaticTransform, Transformable, Transformed};
use raytracer::{
    RenderStats, RenderStatsAccumulator, RenderStatsCollector, RenderStatsSource, TracingStats,
};

fn counters(s: &RenderStats) -> [usize; 6] {
    [s.rays_cast, s.bounding_box_tests, s.sphere_tests, s.moving_sphere_tests, s.triangle_tests, s.pixels]
}

#[test]
fn stats_start_at_zero() {
    assert_eq!(counters(&TracingStats::new().get_stats()), [0; 6]);
    assert_eq!(counters(&RenderStats::new()), [0; 6]);
    assert_eq!(counters(&RenderStats::default()), [0; 6]);
    assert_eq!(counters(&TracingStats::default().get_stats()), [0; 6]);
}

#[test]
fn each_count_moves_one_counter() {
    let mut stats = TracingStats::new();
    stats.count_ray_cast();
    stats.count_ray_cast();
    stats.count_bounding_box_test();
    stats.count_sphere_test();
    stats.count_moving_sphere_test();
    stats.count_triangle_test();
    stats.count_triangle_test();
    stats.count_triangle_test();
    stats.count_pixel();
    assert_eq!(counters(&stats.get_stats()), [2, 1, 1, 1, 3, 1]);
}

#[test]
fn add_stats_sums_field_by_field() {
    let mut stats = TracingStats::new();
    stats.count_pixel();
    stats.add_stats(RenderStats {
        rays_cast: 10,
        bounding_box_tests: 20,
        sphere_tests: 30,
        moving_sphere_tests: 40,
        triangle_tests: 50,
        pixels: 60,
    });
    stats.add_stats(RenderStats::new());
    let total: RenderStats = RenderStats::from(stats);
    assert_eq!(counters(&total), [10, 20, 30, 40, 50, 61]);
}

#[test]
fn add_stats_in_either_order() {
    let a = RenderStats { rays_cast: 1, bounding_box_tests: 2, sphere_tests: 3, moving_sphere_tests: 4, triangle_tests: 5, pixels: 6 };
    let b = RenderStats { rays_cast: 7, bounding_box_tests: 0, sphere_tests: 9, moving_sphere_tests: 1, triangle_tests: 0, pixels: 2 };
    let mut x = TracingStats::new();
    x.add_stats(a.clone());
    x.add_stats(b.clone());
    let mut y = TracingStats::new();
    y.add_stats(b);
    y.add_stats(a);
    assert_eq!(counters(&x.get_stats()), counters(&y.get_stats()));
}

#[test]
fn sky_samples() {
    let sky: Sky<(u8, u8, u8)> = color_sky((1, 2, 3));
    assert_eq!(sky.sample(|| (9, 9, 9)), (1, 2, 3));
    let day: Sky<(u8, u8, u8)> = regular_sky();
    assert_eq!(day.sample(|| (9, 9, 9)), (9, 9, 9));
}

#[derive(Clone, Copy)]
struct Parity(i32);

impl CheckerPoint for Parity {
    fn spec_in_first_square(&self) -> bool {
        self.0 % 2 != 0
    }

    fn in_first_square(&self) -> bool {
        self.0 % 2 != 0
    }
}

#[test]
fn solid_and_checker_textures() {
    let red = solid_texture('r');
    let blue = solid_texture('b');
    assert_eq!(*red.color(), 'r');
    assert_eq!(red.value(Parity(0), 0.5f64, 0.5f64), 'r');
    let checker = checker_texture(red.clone(), blue.clone());
    assert_eq!(*checker.texture1().color(), 'r');
    assert_eq!(*checker.texture2().color(), 'b');
    assert_eq!(checker.value(Parity(1), 0.0f64, 0.0f64), 'r');
    assert_eq!(checker.value(Parity(2), 0.0f64, 0.0f64), 'b');
    let copy = Arc::new((*checker).clone());
    assert_eq!(copy.value(Parity(3), 0.0f64, 0.0f64), 'r');
}

#[test]
fn uv_textures() {
    let solid = textures::solid_texture(7u32);
    assert_eq!(*solid.color(), 7);
    assert_eq!(solid.value(Parity(0), (0.1f64, 0.2f64)), 7);
    let checker = textures::checker_texture(solid.clone(), textures::SolidTexture::new(9u32));
    assert_eq!(*checker.texture2().color(), 9);
    assert_eq!(checker.value(Parity(5), (0.0f64, 0.0f64)), 7);
    assert_eq!(checker.value(Parity(4), (0.0f64, 0.0f64)), 9);
}

#[derive(Debug, Clone, Copy, PartialEq)]
struct Ball(u32);
impl DefaultSkinnable for Ball {}
impl DefaultTransformable for Ball {}
impl UntransformedPrimitive for Ball {}
impl SimpleShape for Ball {}
impl UnskinnedSimpleShape for Ball {}

#[test]
fn skinning_wraps_with_material() {
    let skinned: Skinned<Ball, &str> = Skinnable::apply_material(Ball(1), "glass");
    let (ball, material) = skinned.clone().split();
    assert_eq!(ball, Ball(1));
    assert_eq!(*material, "glass");
    let reskinned = skinned.apply_shared_material(Arc::new("metal"));
    assert_eq!(*reskinned.primitive(), Ball(1));
    assert_eq!(*reskinned.split().1, "metal");
    let direct = Skinned::new(Ball(2), Arc::new(0u8));
    assert_eq!(*direct.primitive(), Ball(2));
}

#[test]
fn transforming_wraps_with_transform() {
    let placed: Transformed<Ball, i32> = Ball(3).core_transform(&2, &-2);
    assert_eq!(*placed.primitive(), Ball(3));
    assert_eq!(placed.transform().transform, 2);
    assert_eq!(placed.transform().inverse, -2);
    let skinned = Skinnable::apply_material(placed, "paint");
    assert_eq!(*skinned.primitive().primitive(), Ball(3));
    let moved: Skinned<Transformed<Ball, i32>, u8> = Skinned::new(Ball(4), Arc::new(1u8)).core_transform(&5, &-5);
    assert_eq!(moved.primitive().transform().transform, 5);
}

#[test]
fn transformed_group_iterates_members() {
    let group = Transformed::new(vec![Ball(1), Ball(2), Ball(3)], StaticTransform { transform: 7, inverse: 8 });
    let mut it = group.into_iter();
    let mut seen = Vec::new();
    while let Some(t) = it.next() {
        assert_eq!(t.transform().transform, 7);
        seen.push(*t.primitive());
    }
    assert_eq!(seen, vec![Ball(1), Ball(2), Ball(3)]);
}

#[test]
fn primitives_take_material() {
    let single: SkinnedPrimitive<Ball, char> = SkinnablePrimitive::apply_material(Ball(1), 'm');
    assert_eq!(single.primitives(), &[Ball(1)]);
    assert_eq!(*single.material(), 'm');
    let group = vec![Ball(1), Ball(2)].into_primitive();
    let skinned: SkinnedPrimitive<Ball, char> = SkinnablePrimitive::apply_material(group, 'g');
    let (primitives, material) = skinned.into_parts();
    assert_eq!(primitives, vec![Ball(1), Ball(2)]);
    assert_eq!(material, 'g');
}

#[test]
fn skinned_primitive_iterators_hand_out_each_member() {
    let mut it = SkinnedPrimitiveIterator::new('x', vec![Ball(1), Ball(2)]);
    let first = it.next().unwrap();
    assert_eq!(first.primitives(), &[Ball(1)]);
    assert_eq!(*first.material(), 'x');
    assert_eq!(it.next().unwrap().primitives(), &[Ball(2)]);
    assert!(it.next().is_none());
    let mut boxed = SkinnedPrimitive::new('y', vec![Ball(5), Ball(6)]).into_geometry_iterator();
    assert_eq!(boxed.next().unwrap().primitives(), &[Ball(5)]);
    assert_eq!(boxed.next().unwrap().primitives(), &[Ball(6)]);
    assert!(boxed.next().is_none());
}

struct Span;
impl VolumeBounds<Ball> for Span {
    type BoundingBox = (u32, u32);
    fn spec_bounding_box(&self, shape: Ball) -> (u32, u32) {
        (shape.0, shape.0)
    }
    fn spec_surrounding_box(&self, a: (u32, u32), b: (u32, u32)) -> (u32, u32) {
        (a.0.min(b.0), a.1.max(b.1))
    }
    fn spec_empty_box(&self) -> (u32, u32) {
        (u32::MAX, 0)
    }
    fn spec_axis_less(&self, l: Ball, r: Ball, _axis: ComparatorAxis) -> bool {
        l.0 < r.0
    }
    fn bounding_box(&self, shape: &Ball) -> (u32, u32) {
        (shape.0, shape.0)
    }
    fn surrounding_box(&self, a: &(u32, u32), b: &(u32, u32)) -> (u32, u32) {
        (a.0.min(b.0), a.1.max(b.1))
    }
    fn empty_box(&self) -> (u32, u32) {
        (u32::MAX, 0)
    }
    fn axis_less(&self, l: &Ball, r: &Ball, _axis: ComparatorAxis) -> bool {
        l.0 < r.0
    }
}

#[test]
fn aggregate_bounding_box() {
    let group = CompoundPrimitive(vec![Ball(4), Ball(9), Ball(2)]);
    assert_eq!(group.aggregate().bounding_box(&Span), (2, 9));
    let empty: &[Ball] = &[];
    assert_eq!(empty.into_aggregate_primitive().bounding_box(&Span), (u32::MAX, 0));
    assert_eq!(group.aggregate().items().len(), 3);
}

#[test]
fn transform_places_every_member() {
    let group = CompoundPrimitive(vec![Ball(1), Ball(2)]);
    let placed = group.transform('t');
    assert_eq!(placed.0.len(), 2);
    assert_eq!(*placed.0[1].primitive(), Ball(2));
    assert_eq!(*placed.0[1].transform(), 't');
    let skinned = SkinnedPrimitive::new("mat", vec![Ball(3)]).transform(1u8);
    assert_eq!(*skinned.material(), "mat");
    assert_eq!(*skinned.primitives()[0].primitive(), Ball(3));
    let single = SkinnablePrimitive::apply_material(Ball(8).transform(2u8), 'q');
    assert_eq!(*single.primitives()[0].primitive(), Ball(8));
}

#[test]
fn collection_and_list_gather_pieces() {
    let mut c = CollectionShape::new();
    c.push(Ball(1));
    c.push(vec![Ball(2), Ball(3)].into_shape());
    let c = c.extend_with_shape(Ball(4));
    let mut it = c.iter();
    assert_eq!(it.next(), Some(&Ball(1)));
    assert_eq!(c.iter().count(), 4);
    let built: CollectionShape<Ball> = CollectionShape::build();
    assert_eq!(built.iter().count(), 0);

    let mut list = ShapeList::build();
    list.push(Ball(5));
    let list = list.extend_with_shape(Ball(6));
    let mut outer = ShapeList::build();
    outer.push(list);
    assert_eq!(outer.iter().cloned().collect::<Vec<_>>(), vec![Ball(5), Ball(6)]);
}

#[test]
fn transformed_shapes() {
    let placed = TransformedShape::new(Ball(1), 'r');
    assert_eq!((*placed.shape(), *placed.transform()), (Ball(1), 'r'));
    let mut list = ShapeList::build();
    list.push(Ball(2));
    list.push(Ball(3));
    let mut it = TransformedShape::new(list, 'z').into_geometry_iterator();
    let a = it.next().unwrap();
    assert_eq!((*a.shape(), *a.transform()), (Ball(2), 'z'));
    assert_eq!(*it.next().unwrap().shape(), Ball(3));
    assert!(it.next().is_none());
    let collection = vec![SkinnedPrimitive::new('m', vec![Ball(7)])].into_shape().transform(3u8);
    let members: Vec<_> = collection.iter().collect();
    assert_eq!(members.len(), 1);
    assert_eq!(*members[0].primitives()[0].transform(), 3u8);
}

#[test]
fn unskinned_shapes_take_material() {
    let skinned = SkinnableShape::apply_material(Ball(1), "gold");
    assert_eq!((*skinned.shape(), *skinned.material()), (Ball(1), "gold"));
    assert_eq!(skinned.clone().into_unskinned_geometry_iterator(), vec![Ball(1)]);
    let mut it = skinned.into_geometry_iterator();
    let piece = it.next().unwrap();
    assert_eq!((*piece.shape(), *piece.material()), (Ball(1), "gold"));
    assert!(it.next().is_none());

    let hit = UnskinnedHitResult {
        distance: 1.5f64,
        hit_point: (1, 2),
        surface_normal: (0, 1),
        tangent: (1, 0),
        bitangent: (0, 0),
        front_face: true,
        u: 0.25,
        v: 0.75,
    };
    let material = String::from("mat");
    let h = hit.into_hit_result(&material);
    assert_eq!(h.material, "mat");
    assert_eq!((h.distance, h.hit_point, h.u, h.v, h.front_face), (1.5, (1, 2), 0.25, 0.75, true));
}

#[test]
fn primitive_hit_result_setters() {
    let mut h = PrimitiveHitResult::new(2.0f64, (0, 0), (0, 1), (1, 0), (0, 0), false, (0.5, 0.5));
    h.set_distance(3.0);
    h.set_hit_point((1, 1));
    h.set_surface_normal((1, 1));
    h.set_tangent((2, 2));
    h.set_bitangent((3, 3));
    h.set_front_face(true);
    assert_eq!(h.distance(), 3.0);
    assert_eq!(h.hit_point(), (1, 1));
    assert_eq!(h.surface_normal(), (1, 1));
    assert_eq!(h.tangent(), (2, 2));
    assert_eq!(h.bitangent(), (3, 3));
    assert!(h.front_face());
    assert_eq!(h.uv(), (0.5, 0.5));
}

#[test]
fn wrappers_keep_their_parts() {
    let w = geometry_wrapper('m', Ball(1));
    assert_eq!((*w.modifier(), *w.child()), ('m', Ball(1)));
    let t = translate((1, 2, 3), Ball(2));
    assert_eq!(*t.modifier().offset(), (1, 2, 3));
    let s = scale((2, 2, 2), Ball(3));
    assert_eq!(*s.modifier().scale(), (2, 2, 2));
    let i = invert_normal(Ball(4));
    assert_eq!(*i.child(), Ball(4));
    let _: &InvertNormal = i.modifier();
    let p = parabola((0, 0), (0, 1), 5);
    assert_eq!((*p.extremum_point(), *p.focus_point(), *p.radius()), ((0, 0), (0, 1), 5));
    let m = medium(0.5f64, Ball(5), isotropic('a'));
    assert_eq!(*m.child(), Ball(5));
    assert_eq!(m.phase().0, 'a');
    assert_eq!(*m.density(), 0.5);
}

#[test]
fn spheres_keep_their_parts() {
    let s = Sphere::new((0, 0, 0), 2, "mat");
    assert_eq!((*s.center(), *s.radius(), *s.material()), ((0, 0, 0), 2, "mat"));
    let m = MovingSphere::new(((0, 0, 0), 0), ((1, 1, 1), 1), 3, "mat").clone();
    assert_eq!(*m.center0(), ((0, 0, 0), 0));
    assert_eq!(*m.center1(), ((1, 1, 1), 1));
    assert_eq!((*m.radius(), *m.material()), (3, "mat"));
    let unit = UnitSphere::new((1, 1, 1), 4);
    assert_eq!((*unit.center(), *unit.radius()), ((1, 1, 1), 4));
}

#[test]
fn inverted_normals_turn_hits_around() {
    let material = String::from("glass");
    let wrapped = invert_normal(Ball(7));
    let hit = |front_face: bool| HitResult {
        distance: 2.0f64,
        hit_point: (1, 2, 3),
        surface_normal: (0, 0, 1),
        tangent: (1, 0, 0),
        bitangent: (0, 1, 0),
        front_face,
        material: &material,
        u: 0.5,
        v: 0.25,
    };
    let seen = wrapped
        .intersect::<u8, HitResult<'_, f64, (i32, i32, i32), (i32, i32, i32), String>, (u8, u8), _>(
            &3,
            |child: &Ball, ray: &u8| {
                assert_eq!((*child, *ray), (Ball(7), 3));
                Some(hit(true))
            },
        )
        .unwrap();
    assert!(!seen.front_face);
    assert_eq!((seen.distance, seen.hit_point, seen.u, seen.v), (2.0, (1, 2, 3), 0.5, 0.25));
    let missed = wrapped.intersect::<u8, HitResult<'_, f64, (i32, i32, i32), (i32, i32, i32), String>, (u8, u8), _>(
        &3,
        |_: &Ball, _: &u8| None,
    );
    assert!(missed.is_none());
    assert_eq!(
        wrapped.bounding_box::<u8, HitResult<'_, f64, (i32, i32, i32), (i32, i32, i32), String>, (u8, u8)>((1, 9)),
        (1, 9)
    );
}
